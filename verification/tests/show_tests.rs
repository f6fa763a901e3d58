use charon::ast::Decl::{FunDec, TypeDec, VarDec};
use charon::ast::Expr::{
    ArrayExpr, AssignExpr, BlockExpr, BreakExpr, CallExpr, FieldExpr, ForExpr, IdExpr, IdentExpr,
    IfThenElseExpr, LabelExpr, LetExpr, LitExpr, ModExpr, NilExpr, NumExpr, RecordExpr, SeqExpr,
    StringExpr, SubscriptExpr, WhileExpr,
};
use charon::ast::TType::{TArray, TCustom, TInt32, TNil, TRecord, TString, TVoid};
use charon::ast::{Block, Expr, Local, Stmt};
use charon::driver::run;
use charon::parser::Parser;
use charon::ptr::B;

fn same_as_debug(e: &Expr) {
    assert_eq!(e.debug_string(), format!("{:?}", e));
}

#[test]
fn test_debug_string_of_leaves() {
    same_as_debug(&NumExpr(0));
    same_as_debug(&NumExpr(-42));
    same_as_debug(&NumExpr(i32::MIN));
    same_as_debug(&NumExpr(i32::MAX));
    same_as_debug(&NilExpr);
    same_as_debug(&LitExpr);
    same_as_debug(&BreakExpr);
    same_as_debug(&IdExpr("x".to_string()));
    same_as_debug(&IdentExpr("y".to_string()));
    same_as_debug(&LabelExpr("l".to_string()));
    same_as_debug(&StringExpr("a\"b\\c\nd\te\r\0 é".to_string()));
    same_as_debug(&StringExpr(String::new()));
    same_as_debug(&FieldExpr("r".to_string(), "f".to_string()));
    same_as_debug(&RecordExpr(None));
    same_as_debug(&RecordExpr(Some(vec![])));
    same_as_debug(&RecordExpr(Some(vec![
        ("f".to_string(), TInt32),
        ("g".to_string(), TArray(B(TCustom("t".to_string())))),
    ])));
}

#[test]
fn test_debug_string_of_nested_expressions() {
    same_as_debug(&ModExpr(B(NumExpr(1)), B(NumExpr(2))));
    same_as_debug(&WhileExpr(B(NumExpr(1)), B(SeqExpr(None))));
    same_as_debug(&SeqExpr(Some(vec![])));
    same_as_debug(&SeqExpr(Some(vec![B(NumExpr(1)), B(StringExpr("s".to_string())), B(NilExpr)])));
    same_as_debug(&IfThenElseExpr(B(NumExpr(1)), B(NumExpr(2)), B(NumExpr(3))));
    same_as_debug(&AssignExpr("a".to_string(), B(NumExpr(1))));
    same_as_debug(&ForExpr("i".to_string(), B(NumExpr(0)), B(NumExpr(9)), B(SeqExpr(None))));
    same_as_debug(&ArrayExpr(TInt32, B(NumExpr(3)), B(NumExpr(0))));
    same_as_debug(&SubscriptExpr("a".to_string(), B(NumExpr(1))));
    same_as_debug(&CallExpr("f".to_string(), None));
    same_as_debug(&CallExpr(
        "f".to_string(),
        Some(vec![(TInt32, B(NumExpr(1))), (TString, B(StringExpr("x".to_string())))]),
    ));
    same_as_debug(&LetExpr(
        vec![
            TypeDec("t".to_string(), TRecord),
            VarDec("v".to_string(), TInt32, B(NumExpr(1))),
            FunDec(
                "f".to_string(),
                Some(vec![("a".to_string(), TInt32)]),
                TInt32,
                B(IdExpr("a".to_string())),
                TVoid,
            ),
            FunDec("g".to_string(), None, TNil, B(NilExpr), TNil),
        ],
        Some(B(CallExpr("f".to_string(), Some(vec![(TInt32, B(NumExpr(2)))])))),
    ));
    same_as_debug(&LetExpr(vec![], None));
}

#[test]
fn test_debug_string_of_a_block_keeps_the_table_in_order() {
    let mut b = Block::new();
    b.add_sym("b".to_string(), TInt32);
    b.add_sym("a".to_string(), TString);
    b.add_sym("b".to_string(), TArray(B(TInt32)));
    b.instructions.push("jmp".to_string());
    b.statements.push(B(Stmt::ExprStmt(B(NumExpr(1)))));
    b.statements.push(B(Stmt::VarDeclStmt(Local::new(
        "v".to_string(),
        TCustom("t".to_string()),
        B(NilExpr),
    ))));
    b.expr = Some(B(IdExpr("a".to_string())));
    let e = BlockExpr(B(b));
    same_as_debug(&e);
    assert!(e.debug_string().contains("entries: [(\"b\", TArray(B { ptr: TInt32 })), (\"a\", TString)]"));
    same_as_debug(&BlockExpr(B(Block::new())));
}

#[test]
fn test_debug_string_of_a_parsed_program() {
    let mut p = Parser::new(
        "let function add(a: int, b: int) : int = a + b var x : int := 3 in print(add(x, 2)) end"
            .to_string(),
    );
    p.start_lexer();
    let (_, e) = p.expr().unwrap();
    same_as_debug(&*e);
}

#[test]
fn test_run_reports_that_the_source_does_not_compile() {
    assert_eq!(run(vec![]), Err("Could not compile".to_string()));
}

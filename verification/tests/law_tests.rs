use charon::ast::Decl::{FunDec, VarDec};
use charon::ast::Expr::{CallExpr, IdExpr, LetExpr, NumExpr};
use charon::ast::TType;
use charon::driver::driver_source_compiles;
use charon::lexer::Lexer;
use charon::lua::block::Block;
use charon::lua::expressions::NumExpression;
use charon::lua::parser::Parser as LuaParser;
use charon::lua::trait_expression::Expression;
use charon::parser::{parse_i32, Parser};
use charon::ptr::B;
use charon::tokens::Token;
use charon::trans::base::{translate, OpKind};
use charon::visit::Visitor;
use charon::visitor_impl::TypeChecker;

#[test]
fn test_peek_twice_then_get_between_blanks() {
    let mut l = Lexer::new("x >= y".to_string());
    l.get_char();
    assert_eq!(l.get_token(), Token::Ident);
    assert_eq!(l.peek_next(), Token::GreaterEquals);
    assert_eq!(l.peek_next(), Token::GreaterEquals);
    assert_eq!(l.get_token(), Token::GreaterEquals);
    assert_eq!(l.get_token(), Token::Ident);
    assert_eq!(l.curr_string, "y".to_string());
}

#[test]
fn test_peek_without_blanks_reads_on() {
    // the peeked token is followed at once by the next one: the peek leaves that character in
    // hand, and the token read next is not the peeked one
    let mut l = Lexer::new("1<>1".to_string());
    l.get_char();
    assert_eq!(l.get_token(), Token::Number);
    assert_eq!(l.peek_next(), Token::LessThanGreaterThan);
    assert_eq!(l.get_token(), Token::Number);
}

#[test]
fn test_tab_and_carriage_return_are_blanks() {
    let mut l = Lexer::new("a\tb\r c".to_string());
    l.get_char();
    assert_eq!(l.get_token(), Token::Ident);
    assert_eq!(l.get_token(), Token::Ident);
    assert_eq!(l.curr_string, "b".to_string());
    assert_eq!(l.get_token(), Token::Ident);
    assert_eq!(l.curr_string, "c".to_string());
    assert_eq!(l.get_token(), Token::Eof);
    assert_eq!(l.line_pos, 1);
}

#[test]
fn test_identifier_with_digits_and_capitals() {
    let mut l = Lexer::new("a1B2 letter".to_string());
    l.get_char();
    assert_eq!(l.get_token(), Token::Ident);
    assert_eq!(l.curr_string, "a1B2".to_string());
    assert_eq!(l.get_token(), Token::Ident);
    assert_eq!(l.curr_string, "letter".to_string());
}

#[test]
fn test_string_with_escapes() {
    let mut l = Lexer::new("\"a\\tb\\nc\"".to_string());
    l.get_char();
    assert_eq!(l.get_token(), Token::TokString);
    assert_eq!(l.curr_string, "a\tb\nc".to_string());
}

#[test]
fn test_unknown_character_is_an_error_token() {
    let mut l = Lexer::new("#".to_string());
    l.get_char();
    assert_eq!(l.get_token(), Token::Error);
}

#[test]
fn test_parse_i32_limits() {
    assert_eq!(parse_i32(&"2147483647".to_string()), Some(2147483647));
    assert_eq!(parse_i32(&"2147483648".to_string()), None);
    assert_eq!(parse_i32(&"0".to_string()), Some(0));
    assert_eq!(parse_i32(&"007".to_string()), Some(7));
    assert_eq!(parse_i32(&"".to_string()), None);
}

#[test]
fn test_display_names() {
    assert_eq!(TType::TInt32.display_name(), "Number".to_string());
    assert_eq!(TType::TString.display_name(), "String".to_string());
    assert_eq!(TType::TCustom("t".to_string()).display_name(), "Custom".to_string());
    assert_eq!(TType::TVoid.display_name(), "Void".to_string());
}

#[test]
fn test_let_restores_scope() {
    let mut v = TypeChecker::new();
    v.visit_expr(&mut LetExpr(
        vec![VarDec("a".to_string(), TType::TInt32, B(NumExpr(1)))],
        Some(B(IdExpr("a".to_string()))),
    ));
    assert_eq!(v.sym_tab.len(), 0);
    assert_eq!(v.ty, TType::TInt32);
}

#[test]
fn test_let_with_function_leaves_its_scope() {
    // a function declaration opens a scope that checking leaves open: the let-expression pops
    // only down to that scope's marker
    let mut v = TypeChecker::new();
    v.visit_expr(&mut LetExpr(
        vec![FunDec("f".to_string(), None, TType::TInt32, B(NumExpr(1)), TType::TNil)],
        Some(B(CallExpr("f".to_string(), None))),
    ));
    assert_eq!(v.sym_tab.len(), 1);
    assert_eq!(v.sym_tab[0].0, "<marker>".to_string());
}

#[test]
fn test_translate_number() {
    let ctxt = translate(&NumExpr(5)).unwrap();
    let kinds: Vec<OpKind> = ctxt.ops.iter().map(|o| o.kind).collect();
    assert_eq!(
        kinds,
        vec![
            OpKind::AddFunction,
            OpKind::AppendBlock,
            OpKind::PositionAtEnd,
            OpKind::ConstI32,
            OpKind::ConstI32,
            OpKind::Ret,
        ]
    );
    assert_eq!(ctxt.ops[0].name, "main".to_string());
    assert_eq!(ctxt.ops[3].num, 5);
    assert_eq!(ctxt.ops[4].num, 0);
    assert_eq!(ctxt.ops[5].args, vec![4]);
    assert_eq!(ctxt.module_name, "main_mod".to_string());
    assert_eq!(ctxt.bb_stack, vec![1]);
}

#[test]
fn test_translate_appends_in_order() {
    let mut p = Parser::new("let function add(a:int, b:int) : int = a+b\n in print(add(1,2))".to_string());
    p.start_lexer();
    let mut tup = p.expr();
    let &mut (_, ref mut b_expr) = tup.as_mut().unwrap();
    let mut v = TypeChecker::new();
    v.visit_expr(&mut *b_expr.ptr);
    let ctxt = translate(&*b_expr).unwrap();
    // `main` comes first, and the module ends with its `ret 0`
    assert_eq!(ctxt.ops[0].kind, OpKind::AddFunction);
    assert_eq!(ctxt.ops[0].name, "main".to_string());
    let n = ctxt.ops.len();
    assert_eq!(ctxt.ops[n - 1].kind, OpKind::Ret);
    assert_eq!(ctxt.ops[n - 2].kind, OpKind::ConstI32);
    // the function `add`, then `printf`, declared in that order
    let fns: Vec<String> = ctxt
        .ops
        .iter()
        .filter(|o| o.kind == OpKind::AddFunction)
        .map(|o| o.name.clone())
        .collect();
    assert_eq!(fns, vec!["main".to_string(), "add".to_string(), "printf".to_string()]);
    // the scope of `add` was popped: only `add` is left
    assert_eq!(ctxt.sym_tab.len(), 1);
    assert_eq!(ctxt.sym_tab[0].0, "add".to_string());
    assert_eq!(ctxt.proto_map, vec!["printf".to_string()]);
}

#[test]
fn test_translate_not_defines_the_builtin_once() {
    let mut p = Parser::new("print(not(0))".to_string());
    p.start_lexer();
    let mut tup = p.expr();
    let &mut (_, ref mut b_expr) = tup.as_mut().unwrap();
    let mut v = TypeChecker::new();
    v.visit_expr(&mut *b_expr.ptr);
    let ctxt = translate(&*b_expr).unwrap();
    let fns: Vec<String> = ctxt
        .ops
        .iter()
        .filter(|o| o.kind == OpKind::AddFunction)
        .map(|o| o.name.clone())
        .collect();
    assert_eq!(fns, vec!["not".to_string(), "main".to_string(), "printf".to_string()]);
    assert_eq!(ctxt.proto_map, vec!["not".to_string(), "printf".to_string()]);
    assert_eq!(ctxt.sym_tab.len(), 1);
}

#[test]
fn test_num_expression_semantic_in_hex() {
    let b = Block::new();
    assert_eq!(
        NumExpression::new(255).semantic(&b),
        vec!["mov dword ptr[rsp+1], FF".to_string()]
    );
    assert_eq!(
        NumExpression::new(-1).semantic(&b),
        vec!["mov dword ptr[rsp+1], FFFFFFFF".to_string()]
    );
    assert_eq!(NumExpression::new(0).semantic(&b), vec!["mov dword ptr[rsp+1], 0".to_string()]);
}

#[test]
fn test_lua_statements_on_lines() {
    let mut p = LuaParser::new("break\ngoto top\n::top::;return".to_string());
    let b = p.run();
    assert_eq!(
        b.instructions,
        vec!["jmp".to_string(), "bra top".to_string(), "top:".to_string()]
    );
    assert_eq!(b.statements.len(), 3);
}

#[test]
fn test_lua_assignment_emits_nothing() {
    let mut p = LuaParser::new("a = 1 b".to_string());
    let b = p.run();
    assert_eq!(b.instructions.len(), 0);
    assert_eq!(b.statements.len(), 0);
}

#[test]
fn test_lua_do_without_end_keeps_its_block_on_the_stack() {
    let mut p = LuaParser::new("break do goto top\n::top::".to_string());
    let b = p.run();
    assert_eq!(b.instructions, vec!["jmp".to_string()]);
    assert_eq!(b.statements.len(), 1);
    assert_eq!(p.block_stack.len(), 1);
    assert_eq!(p.block_stack[0].statements.len(), 2);
    assert_eq!(p.block_stack[0].instructions.len(), 0);
}

#[test]
fn test_lua_nested_do_leaves_innermost_first() {
    let mut p = LuaParser::new("do break do".to_string());
    let b = p.run();
    assert_eq!(b.statements.len(), 0);
    assert_eq!(p.block_stack.len(), 2);
    assert_eq!(p.block_stack[0].statements.len(), 0);
    assert_eq!(p.block_stack[1].statements.len(), 1);
}

#[test]
fn test_driver_source_does_not_compile() {
    assert_eq!(driver_source_compiles(), false);
}

#[test]
fn test_lexes_refuses_broken_string_literals() {
    let cases = [
        ("\"ab", false),
        ("\"a\\qb\"", false),
        ("\"a\\n\\t\\\"\\\\b\"", true),
        ("   \"x", false),
        (" \t\"x\"", true),
        ("abc", true),
        ("", true),
        ("\n\"x", true),
    ];
    for (src, ok) in cases.iter() {
        let mut l = Lexer::new(src.to_string());
        l.get_char();
        assert_eq!(l.lexes(), *ok, "{}", src);
        if *ok {
            l.get_token();
        }
    }
}

use charon::ast::Binding::VarBinding;
use charon::ast::Decl::{FunDec, VarDec};
use charon::ast::Expr::{
    AddExpr, ArrayExpr, CallExpr, DivExpr, FieldExpr, IdExpr, IfThenElseExpr, IfThenExpr, LetExpr,
    NilExpr, NumExpr, RecordExpr, SeqExpr, StringExpr,
};
use charon::ast::TType;
use charon::ast::TType::{TArray, TCustom, TInt32, TNil, TRecord, TString, TVoid};
use charon::ptr::B;
use charon::visit::Visitor;
use charon::visitor_impl::TypeChecker;

#[test]
fn test_ty_set_for_num() {
    let mut v = TypeChecker::new();
    v.visit_expr(&mut NumExpr(23));
    assert_eq!(TInt32, v.ty);
}

#[test]
fn test_ty_set_for_int_id() {
    let mut v = TypeChecker::new();
    v.sym_tab.push(("a".to_string(), Some(B(VarBinding(TInt32)))));
    v.visit_expr(&mut IdExpr("a".to_string()));
    assert_eq!(TInt32, v.ty);
}

#[test]
fn test_type_match_int_for_var_dec() {
    let mut v = TypeChecker::new();
    v.visit_decl(&mut VarDec("a".to_string(), TInt32, B(NumExpr(4))));
    assert_eq!(TInt32, v.ty);
    assert_eq!(v.sym_tab.len(), 1);
    assert_eq!(v.sym_tab[0].0, "a".to_string());
    //assert_eq!(v.sym_tab[0].1, TType::TInt32);
}

#[test]
fn test_type_match_string_for_var_dec() {
    let mut v = TypeChecker::new();
    v.visit_decl(&mut VarDec("a".to_string(), TString, B(NilExpr)));
    assert_eq!(TString, v.ty);
    assert_eq!(v.sym_tab.len(), 1);
    assert_eq!(v.sym_tab[0].0, "a".to_string());
    //assert_eq!(v.sym_tab[0].1, TString);
}

#[test]
fn test_array_type_matches_dim_expr_type() {
    let mut v = TypeChecker::new();
    v.visit_decl(&mut VarDec("a".to_string(), TArray(B(TInt32)), B(ArrayExpr(TInt32, B(NumExpr(1)), B(NumExpr(1))))));
}

#[test]
fn test_correct_types_for_add_expr() {
    let mut v = TypeChecker::new();
    v.visit_expr(&mut AddExpr(B(NumExpr(4)), B(NumExpr(4))));
    assert_eq!(v.ty, TInt32);
}

#[test]
fn test_var_hiding() {
    //let mut v =
}

#[test]
fn test_func_decl_correct_return_type() {
    let mut v = TypeChecker::new();
    v.visit_decl(&mut FunDec(String::from("foo"), None, TInt32, B(NumExpr(4)), TInt32));
}

#[test]
fn test_if_expr_with_int_type() {
    let mut v = TypeChecker::new();
    v.visit_expr(&mut IfThenExpr(B(NumExpr(1)), B(SeqExpr(None))));
    assert_eq!(v.ty, TVoid);
}

#[test]
fn test_if_else_expr_with_matching_types() {
    let mut v = TypeChecker::new();
    v.visit_expr(&mut IfThenElseExpr(B(NumExpr(1)), B(NumExpr(1)), B(NumExpr(1))));
    assert_eq!(v.ty, TType::TInt32);
}

#[test]
fn test_div_expr_with_1_as_denominator(){
    let mut v = TypeChecker::new();
    v.visit_expr(&mut DivExpr(B(NumExpr(1)), B(NumExpr(1))));
    assert_eq!(v.ty, TType::TInt32);
}

#[test]
fn test_call_expr_call_print_with_params(){
    let mut v = TypeChecker::new();
    v.visit_expr(&mut CallExpr(String::from("print"),
                                     Some(vec![(TString, B(StringExpr(String::from("abhi"))))])));
    assert_eq!(v.ty, TVoid);
}

#[test]
fn test_call_expr_call_not_with_params(){
    let mut v = TypeChecker::new();
    v.visit_expr(&mut CallExpr(String::from("not"),
                                     Some(vec![(TInt32, B(NumExpr(0)))])));
    assert_eq!(v.ty, TInt32);
}

#[test]
fn test_type_fix_func_return_type(){
    let mut v = TypeChecker::new();
    let dec = &mut FunDec(String::from("foo"), 
                               Some(vec![(String::from("a"), TInt32)
                                          ]),
                               TInt32,
                               B(NumExpr(4)),
                               TVoid);
    v.visit_decl(dec);
    match *dec{
        FunDec(_, _, _, _, ref ty) => assert_eq!(TInt32, *ty),
        _ => panic!("Expected FunDec")
    }
}

#[test]
fn test_call_expr_ret_type_fix(){
    let mut v = TypeChecker::new();
    let e = &mut LetExpr(vec![FunDec(String::from("foo"), 
                               Some(vec![(String::from("a"), TInt32)]),
                               TInt32,
                               B(NumExpr(4)),
                               TInt32)],
                               Some(B(CallExpr(String::from("foo"),
                                                     Some(vec![(TVoid, B(CallExpr(String::from("foo"),
                                                                                               Some(vec![(TInt32, B(NumExpr(2)))])
                                                                                              )
                                                                               )
                                                               )]
                                                         )
                                                    )
                                     )
                                   )
                               );

    v.visit_expr(e);
    match *e{
        LetExpr(_, ref e) => {
            match **e.as_ref().unwrap(){
                CallExpr(_, ref l) => {
                    let ul = l.as_ref().unwrap();
                    match ul[0]{
                        (TInt32, _) => {},
                        ref t => {
                            println!("{:?}", t);
                            panic!("failed");
                        }
                    }
                },
                _ => panic!("failed2")
            }
        },
        _ => panic!("failed3")
    }
}

#[test]
fn test_record_unique_fields() {
    let mut v = TypeChecker::new();
    v.visit_decl(&mut VarDec("a".to_string(), TRecord, B(RecordExpr(Some(vec![(String::from("f"), TInt32), (String::from("g"), TInt32), (String::from("h"), TString)])))));
}

#[test]
fn test_record_contains_cyclic_ref_3() {
    let mut v = TypeChecker::new();
    v.visit_decl(&mut VarDec("a".to_string(), TRecord, B(RecordExpr(Some(vec![(String::from("a"), TCustom(String::from("int"))),
                                                                              (String::from("f"), TCustom(String::from("b")))])))));
}

#[test]
fn test_record_field_access_type_fix(){
    let mut v = TypeChecker::new();
    //let var a = rec{b:int} in print(a.b) end
    let e = &mut LetExpr(vec![VarDec("a".to_string(), TRecord, B(RecordExpr(Some(vec![(String::from("f"), TInt32), (String::from("g"), TInt32), (String::from("h"), TString)]))))],
                               Some(B(CallExpr(String::from("foo"),
                                                 Some(vec![(TNil, B(FieldExpr(String::from("a"),
                                                                              String::from("f")
                                                                             )
                                                                   )
                                                           )]
                                                     )
                                                )
                                     )
                                   )
                               );

    v.visit_expr(e);
    match *e{
        LetExpr(_, ref e) => {
            match **e.as_ref().unwrap(){
                CallExpr(_, ref l) => {
                }
                _ => {}
            }
        }
        _ => {}
    }
}


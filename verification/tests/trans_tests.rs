use charon::parser::Parser;
use charon::trans::base::translate;
use charon::visit::Visitor;
use charon::visitor_impl::TypeChecker;

#[test]
fn test_prsr_bcknd_intgrtion_prnt_call() {
    let mut p = Parser::new("print(\"Grrrr!\n\")".to_string());
    p.start_lexer();
    let mut tup = p.expr();
    let &mut (ref mut ty, ref mut b_expr) = tup.as_mut().unwrap();
    let mut v = TypeChecker::new();
    v.visit_expr(&mut *b_expr.ptr);
    let ctxt = translate(&*b_expr);
    // let ctxt = translate();&Expr::CallExpr("print".to_string(),
    //                               Some(vec![(TType::TString,
    //                                          B(Expr::StringExpr("abhi".to_string())))])));
    assert_eq!(ctxt.is_some(), true);
}

#[test]
fn test_translate_add_expr(){
    let mut p = Parser::new(String::from("let function foo() : int = 1+3 in foo() end"));
    p.start_lexer();
    let mut tup = p.expr();
    let &mut (ref mut ty, ref mut b_expr) = tup.as_mut().unwrap();
    let mut v = TypeChecker::new();
    v.visit_expr(&mut *b_expr.ptr);
    let ctxt = translate(&*b_expr);
}

#[test]
fn test_prsr_bcknd_intgrtion_let_blk() {
    let mut p = Parser::new("let function foo() = print(\"Grrrr!\n\") in foo() end".to_string());
    p.start_lexer();
    let mut tup = p.expr();
    let &mut (ref mut ty, ref mut b_expr) = tup.as_mut().unwrap();
    let mut v = TypeChecker::new();
    v.visit_expr(&mut *b_expr.ptr);
    let ctxt = translate(&*b_expr);
    assert_eq!(ctxt.is_some(), true);
}

#[test]
fn test_prsr_bcknd_intgrtion_if_then_expr() {
    let mut p = Parser::new("let function foo()  = if 0 then print(\"rust\n\") else print(\"c++\n\") in foo() end".to_string());
    p.start_lexer();
    let mut tup = p.expr();
    let &mut (ref mut ty, ref mut b_expr) = tup.as_mut().unwrap();
    let mut v = TypeChecker::new();
    v.visit_expr(&mut *b_expr.ptr);
    let ctxt = translate(&*b_expr);
    assert_eq!(ctxt.is_some(), true);
}

#[test]
fn test_prsr_bcknd_intgrtion_if_then_expr_with_div_expr() {
    let mut p = Parser::new("let function foo()  = if 1/1 then print(\"rust\n\") else print(\"c++\n\") in foo() end".to_string());
    p.start_lexer();
    let mut tup = p.expr();
    let &mut (ref mut ty, ref mut b_expr) = tup.as_mut().unwrap();
    let mut v = TypeChecker::new();
    v.visit_expr(&mut *b_expr.ptr);
    let ctxt = translate(&*b_expr);
    assert_eq!(ctxt.is_some(), true);
}

#[test]
fn test_prsr_bcknd_intgrtion_if_then_expr_with_mul_expr() {
    let mut p = Parser::new("let function foo()  = if 1*1 then print(\"ruby\n\") else print(\"c++\n\") in foo() end".to_string());
    p.start_lexer();
    let mut tup = p.expr();
    let &mut (ref mut ty, ref mut b_expr) = tup.as_mut().unwrap();
    let mut v = TypeChecker::new();
    v.visit_expr(&mut *b_expr.ptr);
    let ctxt = translate(&*b_expr);
    assert_eq!(ctxt.is_some(), true);
}

#[test]
fn test_prsr_bcknd_intgrtion_if_then_expr_with_less_than_expr() {
    let mut p = Parser::new("let function foo() = if 1<1 then print(\"ruby\n\") else print(\"c++\n\") in foo() end".to_string());
    p.start_lexer();
    let mut tup = p.expr();
    let &mut (ref mut ty, ref mut b_expr) = tup.as_mut().unwrap();
    let mut v = TypeChecker::new();
    v.visit_expr(&mut *b_expr.ptr);
    let ctxt = translate(&*b_expr);
    assert_eq!(ctxt.is_some(), true);
}

#[test]
fn test_prsr_bcknd_intgrtion_var_decl() {
    let mut p = Parser::new("let var a : int :=1\n function foo()  = print(\"ruby\n\") in foo() end".to_string());
    p.start_lexer();
    let mut tup = p.expr();
    let &mut (ref mut ty, ref mut b_expr) = tup.as_mut().unwrap();
    let mut v = TypeChecker::new();
    v.visit_expr(&mut *b_expr.ptr);
    let ctxt = translate(&*b_expr);
    assert_eq!(ctxt.is_some(), true);
}

#[test]
fn test_prsr_bcknd_intgrtion_for_loop() {
    let mut p = Parser::new("let function foo() = for i:=1 to 5 do print(\"ruby\n\") in foo() end".to_string());
    p.start_lexer();
    let mut tup = p.expr();
    let &mut (ref mut ty, ref mut b_expr) = tup.as_mut().unwrap();
    let mut v = TypeChecker::new();
    v.visit_expr(&mut *b_expr.ptr);
    let ctxt = translate(&*b_expr);
    assert_eq!(ctxt.is_some(), true);
}

#[test]
fn test_prsr_bcknd_intgrtion_print_num() {
    let mut p = Parser::new("print(1)".to_string());
    p.start_lexer();
    let mut tup = p.expr();
    let &mut (ref mut ty, ref mut b_expr) = tup.as_mut().unwrap();
    let mut v = TypeChecker::new();
    v.visit_expr(&mut *b_expr.ptr);
    let ctxt = translate(&*b_expr);
    assert_eq!(ctxt.is_some(), true);
}

#[test]
fn test_prsr_bcknd_intgrtion_var_assignment_to_var() {
    let mut p = Parser::new("let var i : int := 1\nvar a : int :=i in print(\"\")".to_string());
    p.start_lexer();
    let mut tup = p.expr();
    let &mut (ref mut ty, ref mut b_expr) = tup.as_mut().unwrap();
    let mut v = TypeChecker::new();
    v.visit_expr(&mut *b_expr.ptr);
    let ctxt = translate(&*b_expr);
    assert_eq!(ctxt.unwrap().sym_tab.len(), 2);
}

#[test]
fn test_prsr_bcknd_intgrtion_function_with_2_int_params_with_a_call() {
    let mut p = Parser::new("let function add(a:int, b:int) : int = a+b\n in add(1, 2)".to_string());
    p.start_lexer();
    let mut tup = p.expr();
    let &mut (ref mut ty, ref mut b_expr) = tup.as_mut().unwrap();
    let mut v = TypeChecker::new();
    v.visit_expr(&mut *b_expr.ptr);
    let ctxt = translate(&*b_expr);
    //assert_eq!(ctxt.unwrap().sym_tab.len(), 1);
}

#[test]
fn test_prsr_bcknd_intgrtion_print_addition_call_result() {
    let mut p = Parser::new("let function add(a:int, b:int) : int = a+b\n in print(add(1,2))".to_string());
    p.start_lexer();
    let mut tup = p.expr();
    let &mut (ref mut ty, ref mut b_expr) = tup.as_mut().unwrap();
    let mut v = TypeChecker::new();
    v.visit_expr(&mut *b_expr.ptr);
    let ctxt = translate(&*b_expr);
    //assert_eq!(ctxt.unwrap().sym_tab.len(), 1);
}

#[test]
fn test_prsr_bcknd_intgrtion_print_string_return_call_result() {
    let mut p = Parser::new("let function add() : string = \"abhi\n\"\n in print(add())".to_string());
    p.start_lexer();
    let mut tup = p.expr();
    let &mut (ref mut ty, ref mut b_expr) = tup.as_mut().unwrap();
    let mut v = TypeChecker::new();
    v.visit_expr(&mut *b_expr.ptr);
    let ctxt = translate(&*b_expr);
    //assert_eq!(ctxt.unwrap().sym_tab.len(), 1);
}

#[test]
fn test_prsr_bcknd_intgrtion_print_not_return_call_result() {
    let mut p = Parser::new("print(not(0))".to_string());
    p.start_lexer();
    let mut tup = p.expr();
    let &mut (ref mut ty, ref mut b_expr) = tup.as_mut().unwrap();
    let mut v = TypeChecker::new();
    v.visit_expr(&mut *b_expr.ptr);
    let ctxt = translate(&*b_expr);
    //assert_eq!(ctxt.unwrap().sym_tab.len(), 1);
}

#[test]
fn test_prsr_bcknd_intgrtion_print_size_return_call_result() {
    let mut p = Parser::new("print(size(\"abhi\"))".to_string());
    p.start_lexer();
    let mut tup = p.expr();
    let &mut (ref mut ty, ref mut b_expr) = tup.as_mut().unwrap();
    let mut v = TypeChecker::new();
    v.visit_expr(&mut *b_expr.ptr);
    let ctxt = translate(&*b_expr);
    //assert_eq!(ctxt.unwrap().sym_tab.len(), 1);
}


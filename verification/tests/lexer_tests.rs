use charon::lexer::Lexer;
use charon::tokens::Token;

#[test]
fn test_match_token_binary_exp_nums(){
    let mut l = Lexer::new("1234+23451".to_string());
    l.get_char();
    assert!(l.get_token() == Token::Number);
    assert!(l.get_token() == Token::Plus);
    assert!(l.get_token() == Token::Number);
}

#[test]
fn test_match_token_binary_exp_vars(){
    let mut l = Lexer::new("a+a".to_string());
    l.get_char();
    assert!(l.get_token() == Token::Ident);
    assert!(l.get_token() == Token::Plus);
    assert!(l.get_token() == Token::Ident);
}

#[test]
fn test_match_token_binary_exp_mixed(){
    let mut l = Lexer::new("a+1".to_string());
    l.get_char();
    assert!(l.get_token() == Token::Ident);
    assert!(l.get_token() == Token::Plus);
    assert!(l.get_token() == Token::Number);
}

#[test]
fn test_match_token_binary_exp_mixed_multiple_terms(){
    let mut l = Lexer::new("a+1+a".to_string());
    l.get_char();
    assert!(l.get_token() == Token::Ident);
    assert!(l.get_token() == Token::Plus);
    assert!(l.get_token() == Token::Number);
    assert!(l.get_token() == Token::Plus);
    assert!(l.get_token() == Token::Ident);
}

#[test]
fn test_get_char(){
    let mut l = Lexer::new("1+1".to_string());
    l.get_char();
    assert!(l.curr_char == '1');
    l.get_char();
    assert!(l.curr_char == '+');
}

#[test]
fn test_match_newline(){
    let mut l = Lexer::new("\n".to_string());
    l.get_char();
    assert!(l.get_token() == Token::NewLine);
    assert!(l.get_token() == Token::Eof);
}

#[test]
fn test_line_pos(){
    let mut l = Lexer::new("\n\n\n".to_string());
    l.get_char();
    l.get_token();
    assert!(l.line_pos == 2);
    l.get_token();
    assert!(l.line_pos == 3);
    l.get_token();
    assert!(l.line_pos == 4);
}

#[test]
fn test_let_block(){
    let mut l = Lexer::new("let var a : int := 1 in end".to_string());
    l.get_char();
    assert_eq!(l.get_token(), Token::Let);
    assert_eq!(l.get_token(), Token::Var);
    assert_eq!(l.get_token(), Token::Ident);
    assert_eq!(l.get_token(), Token::Colon);
    assert_eq!(l.get_token(), Token::Int);
    assert_eq!(l.get_token(), Token::ColonEquals);
    assert_eq!(l.get_token(), Token::Number);
    assert_eq!(l.get_token(), Token::In);
    assert_eq!(l.get_token(), Token::End);
}

#[test]
fn test_let_block_with_2_var_decls(){
    let mut l = Lexer::new("let var a : int := 1\nvar b : int:=2\n in end".to_string());
    l.get_char();
    assert_eq!(l.get_token(), Token::Let);
    assert_eq!(l.get_token(), Token::Var);
    assert_eq!(l.get_token(), Token::Ident);
    assert_eq!(l.get_token(), Token::Colon);
    assert_eq!(l.get_token(), Token::Int);
    assert_eq!(l.get_token(), Token::ColonEquals);
    assert_eq!(l.get_token(), Token::Number);
    assert_eq!(l.get_token(), Token::NewLine);
    assert_eq!(l.get_token(), Token::Var);
    assert_eq!(l.get_token(), Token::Ident);
    assert_eq!(l.get_token(), Token::Colon);
    assert_eq!(l.get_token(), Token::Int);
    assert_eq!(l.get_token(), Token::ColonEquals);
    assert_eq!(l.get_token(), Token::Number);
    assert_eq!(l.get_token(), Token::NewLine);
    assert_eq!(l.get_token(), Token::In);
    assert_eq!(l.get_token(), Token::End);
}

#[test]
fn test_let_without_spaces() {
    let mut l = Lexer::new("let var a:int := 1 in end".to_string());
    l.get_char();
    assert_eq!(l.get_token(), Token::Let);
    assert_eq!(l.get_token(), Token::Var);
    assert_eq!(l.get_token(), Token::Ident);
    assert_eq!(l.get_token(), Token::Colon);
    assert_eq!(l.get_token(), Token::Int);
    assert_eq!(l.get_token(), Token::ColonEquals);
    assert_eq!(l.get_token(), Token::Number);
    assert_eq!(l.get_token(), Token::In);
    assert_eq!(l.get_token(), Token::End);
}

#[test]
fn test_type_dec_int() {
    let mut l = Lexer::new("type a = int".to_string());
    l.get_char();
    assert_eq!(l.get_token(), Token::Type);
    assert_eq!(l.get_token(), Token::Ident);
    assert_eq!(l.get_token(), Token::Equals);
    assert_eq!(l.get_token(), Token::Int);
}

#[test]
fn test_type_dec_array_of_int() {
    let mut l = Lexer::new("type ai = array of int".to_string());
    l.get_char();
    assert_eq!(l.get_token(), Token::Type);
    assert_eq!(l.get_token(), Token::Ident);
    assert_eq!(l.get_token(), Token::Equals);
    assert_eq!(l.get_token(), Token::Array);
    assert_eq!(l.get_token(), Token::Of);
    assert_eq!(l.get_token(), Token::Int);
}

#[test]
fn test_field_dec_int() {
    let mut l = Lexer::new("(a:int)".to_string());
    l.get_char();
    assert_eq!(l.get_token(), Token::LeftParen);
    assert_eq!(l.get_token(), Token::Ident);
    assert_eq!(l.get_token(), Token::Colon);
    assert_eq!(l.get_token(), Token::Int);
}

#[test]
fn test_call_expr() {
    let mut l = Lexer::new("f(1)".to_string());
    l.get_char();
    assert_eq!(l.get_token(), Token::Ident);
    assert_eq!(l.get_token(), Token::LeftParen);
    assert_eq!(l.get_token(), Token::Number);
    assert_eq!(l.get_token(), Token::RightParen);
}

#[test]
fn test_call_expr_string_arg() {
    let mut l = Lexer::new("f(\"abc\")".to_string());
    l.get_char();
    assert_eq!(l.get_token(), Token::Ident);
    assert_eq!(l.get_token(), Token::LeftParen);
    assert_eq!(l.get_token(), Token::TokString);
    assert_eq!(l.get_token(), Token::RightParen);
}

#[test]
fn test_simple_string() {
    let mut l = Lexer::new("\"abhi\"".to_string());
    l.get_char();
    assert_eq!(l.get_token(), Token::TokString);
    assert_eq!(l.curr_string, "abhi".to_string());
}

#[test]
fn test_string_with_escaped_double_quote() {
    let mut l = Lexer::new("\"ab\\\"hi\"".to_string());
    l.get_char();
    l.get_token();
    assert_eq!(l.curr_string, "ab\"hi".to_string());
}

#[test]
fn test_string_with_escaped_backslash() {
    let mut l = Lexer::new("\"ab\\\\\"".to_string());
    l.get_char();
    l.get_token();
    assert_eq!(l.curr_string, "ab\\".to_string());
}

#[test]
fn test_if_then(){
    let mut l = Lexer::new("if 1 then 1".to_string());
    l.get_char();
    assert_eq!(l.get_token(), Token::If);
    assert_eq!(l.get_token(), Token::Number);
    assert_eq!(l.get_token(), Token::Then);
    assert_eq!(l.get_token(), Token::Number);
}

#[test]
fn test_if_then_else(){
    let mut l = Lexer::new("if 1 then 1 else 0".to_string());
    l.get_char();
    assert_eq!(l.get_token(), Token::If);
    assert_eq!(l.get_token(), Token::Number);
    assert_eq!(l.get_token(), Token::Then);
    assert_eq!(l.get_token(), Token::Number);
    assert_eq!(l.get_token(), Token::Else);
    assert_eq!(l.get_token(), Token::Number);
}

#[test]
fn test_while_block(){
    let mut l = Lexer::new("while 1 do 1+1".to_string());
    l.get_char();
    assert_eq!(l.get_token(), Token::While);
    assert_eq!(l.get_token(), Token::Number);
    assert_eq!(l.get_token(), Token::Do);
    assert_eq!(l.get_token(), Token::Number);
    assert_eq!(l.get_token(), Token::Plus);
    assert_eq!(l.get_token(), Token::Number);
}

#[test]
fn test_for_loop(){
    let mut l = Lexer::new("for id := 1 to 9 do 1".to_string());
    l.get_char();
    assert_eq!(l.get_token(), Token::For);
    assert_eq!(l.get_token(), Token::Ident);
    assert_eq!(l.get_token(), Token::ColonEquals);
    assert_eq!(l.get_token(), Token::Number);
    assert_eq!(l.get_token(), Token::To);
    assert_eq!(l.get_token(), Token::Number);
    assert_eq!(l.get_token(), Token::Do);
    assert_eq!(l.get_token(), Token::Number);
}

#[test]
fn test_less_than_expr(){
    let mut l = Lexer::new("1 <1".to_string());
    l.get_char();
    assert_eq!(l.get_token(), Token::Number);
    assert_eq!(l.get_token(), Token::LessThan);
    assert_eq!(l.get_token(), Token::Number);
}

#[test]
fn test_less_than_equals_expr(){
    let mut l = Lexer::new("1 <=1".to_string());
    l.get_char();
    assert_eq!(l.get_token(), Token::Number);
    assert_eq!(l.get_token(), Token::LessEquals);
    assert_eq!(l.get_token(), Token::Number);
}

#[test]
fn test_greater_than_equals_expr(){
    let mut l = Lexer::new("1 >=1".to_string());
    l.get_char();
    assert_eq!(l.get_token(), Token::Number);
    assert_eq!(l.get_token(), Token::GreaterEquals);
    assert_eq!(l.get_token(), Token::Number);
}

#[test]
fn test_greater_than_expr(){
    let mut l = Lexer::new("1 >1".to_string());
    l.get_char();
    assert_eq!(l.get_token(), Token::Number);
    assert_eq!(l.get_token(), Token::GreaterThan);
    assert_eq!(l.get_token(), Token::Number);
}

#[test]
fn test_not_equals_expr(){
    let mut l = Lexer::new("1 <> 1".to_string());
    l.get_char();
    assert_eq!(l.get_token(), Token::Number);
    assert_eq!(l.get_token(), Token::LessThanGreaterThan);
    assert_eq!(l.get_token(), Token::Number);
}

#[test]
fn test_equals_expr(){
    let mut l = Lexer::new("1 = 1".to_string());
    l.get_char();
    assert_eq!(l.get_token(), Token::Number);
    assert_eq!(l.get_token(), Token::Equals);
    assert_eq!(l.get_token(), Token::Number);
}

#[test]
fn test_peek(){
    let mut l = Lexer::new("1 <> 1".to_string());
    l.get_char();
    assert_eq!(l.get_token(), Token::Number);
    assert_eq!(l.peek_next(), Token::LessThanGreaterThan);
    assert_eq!(l.peek_next(), Token::LessThanGreaterThan);
    assert_eq!(l.get_token(), Token::LessThanGreaterThan);
    assert_eq!(l.get_token(), Token::Number);
}

#[test]
fn test_div_expr(){
    let mut l = Lexer::new("1 / 1".to_string());
    l.get_char();
    assert_eq!(l.get_token(), Token::Number);
    assert_eq!(l.get_token(), Token::Div);
    assert_eq!(l.get_token(), Token::Number);
}

#[test]
fn test_div_expr_without_spaces(){
    let mut l = Lexer::new("1/1".to_string());
    l.get_char();
    assert_eq!(l.get_token(), Token::Number);
    assert_eq!(l.get_token(), Token::Div);
    assert_eq!(l.get_token(), Token::Number);
}

#[test]
fn test_function_call_with_two_args(){
    let mut l = Lexer::new("f(a()+1)".to_string());
    l.get_char();
    assert_eq!(l.get_token(), Token::Ident);
    assert_eq!(l.get_token(), Token::LeftParen);
    assert_eq!(l.get_token(), Token::Ident);
    assert_eq!(l.get_token(), Token::LeftParen);
    assert_eq!(l.get_token(), Token::RightParen);
    assert_eq!(l.get_token(), Token::Plus);
    assert_eq!(l.get_token(), Token::Number);
}

#[test]
fn test_function_call_with_two_args_2(){
    let mut l = Lexer::new("f(a()+1)".to_string());
    l.get_char();
    loop{
        match l.get_token(){
            Token::Ident => println!("{:?}", l.curr_token),
            Token::LeftParen => println!("{:?}", l.curr_token),
            Token::RightParen => println!("{:?}", l.curr_token),
            Token::Plus => println!("{:?}", l.curr_token),
            Token::Number => println!("{:?}", l.curr_token),
            _ => break
        }
    }
}

#[test]
fn test_array_decl(){
    let mut l = Lexer::new("array of int[3] of 0".to_string());
    l.get_char();
    assert_eq!(l.get_token(), Token::Array);
    assert_eq!(l.get_token(), Token::Of);
    assert_eq!(l.get_token(), Token::Int);
    assert_eq!(l.get_token(), Token::LeftSquare);
    assert_eq!(l.get_token(), Token::Number);
    assert_eq!(l.get_token(), Token::RightSquare);
    assert_eq!(l.get_token(), Token::Of);
    assert_eq!(l.get_token(), Token::Number);
}

#[test]
fn test_typdef_decl(){
    let mut l = Lexer::new("type rec = {a:int}".to_string());
    l.get_char();
    assert_eq!(l.get_token(), Token::Type);
    assert_eq!(l.get_token(), Token::Ident);
    assert_eq!(l.get_token(), Token::Equals);
    assert_eq!(l.get_token(), Token::LeftCurly);
    assert_eq!(l.get_token(), Token::Ident);
    assert_eq!(l.get_token(), Token::Colon);
    assert_eq!(l.get_token(), Token::Int);
    assert_eq!(l.get_token(), Token::RightCurly);
}

#[test]
fn test_record_decl(){
    let mut l = Lexer::new("rec{a:int}".to_string());
    l.get_char();
    assert_eq!(l.get_token(), Token::Ident);
    assert_eq!(l.get_token(), Token::LeftCurly);
    assert_eq!(l.get_token(), Token::Ident);
    assert_eq!(l.get_token(), Token::Colon);
    assert_eq!(l.get_token(), Token::Int);
    assert_eq!(l.get_token(), Token::RightCurly);
}


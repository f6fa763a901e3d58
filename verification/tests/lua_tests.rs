use charon::lua::parser::Parser;

#[test]
fn test_break(){
    let mut p = Parser::new("break".to_string());
    let b = p.run();
    assert!(&*b.instructions[0] == "jmp");
}

#[test]
fn test_label(){
    let mut p = Parser::new("::abhi::".to_string());
    let b = p.run();
    assert!(&*b.instructions[0] == "abhi:");
}

#[test]
fn test_break_and_label(){
    let mut p = Parser::new("break::abhi::".to_string());
    let b = p.run();
    assert!(&*b.instructions[0] == "jmp");
    assert!(&*b.instructions[1] == "abhi:");
}

#[test]
fn test_goto(){
    let mut p = Parser::new("goto abhi".to_string());
    let b = p.run();
    assert!(&*b.instructions[0] == "bra abhi");
}


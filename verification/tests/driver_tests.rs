#[test]
fn test_mate(){
}

use ferric::ast::{EnvStackFrame, Expr, Typ};
use ferric::decimal::Decimal;
use ferric::lexer::Lexer;
use ferric::loc::ProgramSrc;
use ferric::parser::Parser;

fn parse(src: &str) -> Vec<Expr> {
    let src = ProgramSrc::new(src.to_string());
    Parser::new(Lexer::new(src.stream()).lex_all()).parse().unwrap()
}

#[test]
fn frame_get_after_insert() {
    let mut frame = EnvStackFrame::new();
    assert_eq!(frame.get("x"), None);
    frame.insert("x".to_string(), Typ::Number);
    frame.insert("y".to_string(), Typ::String);
    assert_eq!(frame.get("x"), Some(0));
    assert_eq!(frame.get("y"), Some(1));
    frame.insert("x".to_string(), Typ::Bool);
    assert_eq!(frame.get("x"), Some(2));
    assert_eq!(frame.get("y"), Some(1));
    assert_eq!(frame.slots(), 3);
    assert_eq!(frame.typ_at(2), &Typ::Bool);
    assert_eq!(frame.typ_at(0), &Typ::Number);
}

#[test]
fn coercion() {
    let f = Typ::Function { params: vec![Typ::Number], ret: Box::new(Typ::Null) };
    assert!(Typ::Number.can_coerce(&Typ::Number));
    assert!(f.can_coerce(&f.duplicate()));
    assert!(Typ::Any.can_coerce(&Typ::String));
    assert!(Typ::String.can_coerce(&Typ::Any));
    assert!(!Typ::String.can_coerce(&Typ::Number));
    assert!(!Typ::Number.can_coerce(&Typ::String));
    let g = Typ::Function { params: vec![Typ::String], ret: Box::new(Typ::Null) };
    assert!(!f.can_coerce(&g));
    assert!(f.same(&f.duplicate()));
    assert!(!f.same(&g));
}

#[test]
fn decimal_canonical_form() {
    let d = Decimal::new(b"00120".to_vec(), b"0500".to_vec());
    assert_eq!(d.int_digits(), &b"120".to_vec());
    assert_eq!(d.frac_digits(), &b"05".to_vec());
    let again = Decimal::new(d.int_digits().clone(), d.frac_digits().clone());
    assert_eq!(again, d);
    assert_eq!(d.duplicate(), d);
    let zero = Decimal::new(b"000".to_vec(), b"00".to_vec());
    assert!(zero.int_digits().is_empty() && zero.frac_digits().is_empty());
}

#[test]
fn program_is_read_to_the_end() {
    let exprs = parse("1; 2; { 3 };");
    assert_eq!(exprs.len(), 3);
    let copies: Vec<Expr> = exprs.iter().map(|e| e.duplicate()).collect();
    assert_eq!(copies, exprs);
}

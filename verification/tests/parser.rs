use ferric::ast::{BinaryOp, Expr, ExprKind, Literal, Typ, UnaryOp};
use ferric::decimal::Decimal;
use ferric::lexer::{Lexeme, Lexer, LexerError, Token};
use ferric::loc::{Loc, ProgramSrc, Span};
use ferric::parser::{Abort, ParseFault, Parser, ParserError};

use Token as T;

fn sp() -> Span {
    Span::new(Loc::new(1, 1), Loc::new(1, 1))
}

fn tokens(ts: Vec<Token>) -> Vec<Result<Lexeme, LexerError>> {
    ts.into_iter().map(|t| Ok(Lexeme::new(t, sp()))).collect()
}

fn dec(s: &str) -> Decimal {
    match s.split_once('.') {
        Some((i, f)) => Decimal::new(i.as_bytes().to_vec(), f.as_bytes().to_vec()),
        None => Decimal::new(s.as_bytes().to_vec(), vec![]),
    }
}

fn n(s: &str) -> Token {
    T::NumLit(dec(s))
}

fn e(kind: ExprKind) -> Expr {
    Expr { span: sp(), kind }
}

fn num(s: &str) -> Expr {
    e(ExprKind::Literal(Literal::Number(dec(s))))
}

fn string(s: &str) -> Expr {
    e(ExprKind::Literal(Literal::String(s.to_string())))
}

fn null() -> Expr {
    e(ExprKind::Literal(Literal::Null))
}

fn ident(s: &str) -> Expr {
    e(ExprKind::Ident(s.to_string()))
}

fn binary(left: Expr, op: BinaryOp, right: Expr) -> Expr {
    e(ExprKind::Binary { left: Box::new(left), op, right: Box::new(right) })
}

fn unary(op: UnaryOp, right: Expr) -> Expr {
    e(ExprKind::Unary { op, right: Box::new(right) })
}

fn call(callee: Expr, args: Vec<Expr>) -> Expr {
    e(ExprKind::Call { callee: Box::new(callee), args })
}

fn block_of(body: Vec<Expr>) -> Expr {
    e(ExprKind::Block(body))
}

fn if_of(cond: Expr, then: Vec<Expr>, otherwise: Option<Expr>) -> Expr {
    e(ExprKind::If { cond: Box::new(cond), then, otherwise: otherwise.map(Box::new) })
}

fn parse_one(ts: Vec<Token>) -> Expr {
    let mut parser = Parser::test(tokens(ts));
    parser.parse_expr().unwrap().0
}

fn parse_src(src: &str) -> Result<Vec<Expr>, ParseFault> {
    let src = ProgramSrc::new(src.to_string());
    Parser::new(Lexer::new(src.stream()).lex_all()).parse()
}

fn parse_src_typ(src: &str) -> Result<(Expr, Typ), ParseFault> {
    let src = ProgramSrc::new(src.to_string());
    Parser::new(Lexer::new(src.stream()).lex_all()).parse_expr()
}

#[test]
fn num_literal() {
    assert_eq!(parse_one(vec![n("4.0")]), num("4.0"));
}

#[test]
fn string_literal() {
    assert_eq!(parse_one(vec![T::StringLit("dingus".into())]), string("dingus"));
}

#[test]
fn parentheses() {
    assert_eq!(parse_one(vec![T::OpenParen, n("4.0"), T::CloseParen]), num("4.0"));
}

#[test]
fn add() {
    let target = binary(num("4.0"), BinaryOp::Add, num("5.0"));
    assert_eq!(parse_one(vec![n("4.0"), T::Plus, n("5.0")]), target);
}

#[test]
fn subtract() {
    let target = binary(num("4.0"), BinaryOp::Subtract, num("5.0"));
    assert_eq!(parse_one(vec![n("4.0"), T::Minus, n("5.0")]), target);
}

#[test]
fn multiply() {
    let target = binary(num("20.0"), BinaryOp::Multiply, num("22.0"));
    assert_eq!(parse_one(vec![n("20.0"), T::Star, n("22.0")]), target);
}

#[test]
fn divide() {
    let target = binary(num("20.0"), BinaryOp::Divide, num("22.0"));
    assert_eq!(parse_one(vec![n("20.0"), T::Slash, n("22.0")]), target);
}

#[test]
fn modulo() {
    let target = binary(num("10.0"), BinaryOp::Modulo, num("2.0"));
    assert_eq!(parse_one(vec![n("10.0"), T::Percent, n("2.0")]), target);
}

#[test]
fn simple_funcall() {
    let target = call(ident("my_func"), vec![]);
    assert_eq!(parse_one(vec![T::Ident("my_func".into()), T::OpenParen, T::CloseParen]), target);
}

#[test]
fn complex_funcall() {
    let ts = vec![
        T::Ident("my_func".into()),
        T::OpenParen,
        n("42.0"),
        T::Comma,
        n("88.0"),
        T::CloseParen,
        T::OpenParen,
        T::StringLit("dingus".into()),
        T::CloseParen,
    ];
    let target = call(call(ident("my_func"), vec![num("42.0"), num("88.0")]), vec![string("dingus")]);
    assert_eq!(parse_one(ts), target);
}

#[test]
fn unary_minus() {
    assert_eq!(parse_one(vec![T::Minus, n("6.0")]), unary(UnaryOp::Negate, num("6.0")));
}

#[test]
fn unary_bitnot() {
    assert_eq!(parse_one(vec![T::Tilde, n("6.0")]), unary(UnaryOp::BitNot, num("6.0")));
}

#[test]
fn unary_and_minus() {
    let target = binary(unary(UnaryOp::Negate, num("6.0")), BinaryOp::Subtract, num("6.0"));
    assert_eq!(parse_one(vec![T::Minus, n("6.0"), T::Minus, n("6.0")]), target);
}

#[test]
fn unary_with_parens() {
    let ts = vec![T::Minus, T::OpenParen, n("6.0"), T::Plus, n("6.0"), T::CloseParen];
    let target = unary(UnaryOp::Negate, binary(num("6.0"), BinaryOp::Add, num("6.0")));
    assert_eq!(parse_one(ts), target);
}

#[test]
fn block() {
    // empty
    assert_eq!(parse_one(vec![T::OpenBracket, T::CloseBracket, T::Semi]), block_of(vec![]));

    // one, return last
    assert_eq!(parse_one(vec![T::OpenBracket, n("4.0"), T::CloseBracket, T::Semi]), block_of(vec![num("4.0")]));

    // one, don't return last
    assert_eq!(
        parse_one(vec![T::OpenBracket, n("4.0"), T::Semi, T::CloseBracket, T::Semi]),
        block_of(vec![num("4.0"), null()])
    );

    // many, return last
    assert_eq!(
        parse_one(vec![T::OpenBracket, n("4.0"), T::Semi, n("5.0"), T::CloseBracket, T::Semi]),
        block_of(vec![num("4.0"), num("5.0")])
    );

    // many, don't return last
    assert_eq!(
        parse_one(vec![T::OpenBracket, n("4.0"), T::Semi, n("5.0"), T::Semi, T::CloseBracket, T::Semi]),
        block_of(vec![num("4.0"), num("5.0"), null()])
    );
}

#[test]
fn if_expr() {
    // if
    let ts = vec![T::If, n("1.0"), T::OpenBracket, n("4.0"), T::CloseBracket, T::Semi];
    assert_eq!(parse_one(ts), if_of(num("1.0"), vec![num("4.0")], None));

    // if otherwise
    let ts = vec![
        T::If,
        n("1.0"),
        T::OpenBracket,
        n("4.0"),
        T::CloseBracket,
        T::Otherwise,
        T::OpenBracket,
        n("5.0"),
        T::CloseBracket,
        T::Semi,
    ];
    assert_eq!(parse_one(ts), if_of(num("1.0"), vec![num("4.0")], Some(block_of(vec![num("5.0")]))));

    // if otherwise-if otherwise
    let ts = vec![
        T::If,
        n("1.0"),
        T::OpenBracket,
        n("4.0"),
        T::CloseBracket,
        T::Otherwise,
        T::If,
        n("2.0"),
        T::OpenBracket,
        n("5.0"),
        T::CloseBracket,
        T::Otherwise,
        T::OpenBracket,
        n("6.0"),
        T::CloseBracket,
        T::Semi,
    ];
    let target = if_of(
        num("1.0"),
        vec![num("4.0")],
        Some(if_of(num("2.0"), vec![num("5.0")], Some(block_of(vec![num("6.0")])))),
    );
    assert_eq!(parse_one(ts), target);
}

#[test]
fn comparisons() {
    let target = binary(num("3.0"), BinaryOp::Equal, num("4.0"));
    assert_eq!(parse_one(vec![n("3.0"), T::EqEq, n("4.0")]), target);

    let target = binary(num("3.0"), BinaryOp::GreaterThan, num("4.0"));
    assert_eq!(parse_one(vec![n("3.0"), T::Greater, n("4.0")]), target);

    let target = binary(num("3.0"), BinaryOp::LessEq, num("4.0"));
    assert_eq!(parse_one(vec![n("3.0"), T::LessEq, n("4.0")]), target);
}

#[test]
fn comparison_order() {
    let ts = vec![n("3.0"), T::Plus, n("3.0"), T::EqEq, n("9.0"), T::Minus, n("3.0")];
    let target = binary(
        binary(num("3.0"), BinaryOp::Add, num("3.0")),
        BinaryOp::Equal,
        binary(num("9.0"), BinaryOp::Subtract, num("3.0")),
    );
    assert_eq!(parse_one(ts), target);
}

#[test]
fn while_expr() {
    let ts = vec![T::While, n("1.0"), T::Greater, n("5.0"), T::OpenBracket, n("6.9"), T::CloseBracket];
    let target = e(ExprKind::While {
        cond: Box::new(binary(num("1.0"), BinaryOp::GreaterThan, num("5.0"))),
        body: vec![num("6.9")],
    });
    assert_eq!(parse_one(ts), target);
}

#[test]
fn test_num_literal() {
    assert_eq!(parse_one(vec![n("4.0")]), num("4.0"));
}

#[test]
fn test_string_literal() {
    assert_eq!(parse_one(vec![T::StringLit("dingus".to_string())]), string("dingus"));
}

#[test]
fn test_parentheses() {
    assert_eq!(parse_one(vec![T::OpenParen, n("4.0"), T::CloseParen]), num("4.0"));
}

#[test]
fn test_add() {
    let target = binary(num("4.0"), BinaryOp::Add, num("5.0"));
    assert_eq!(parse_one(vec![n("4.0"), T::Plus, n("5.0")]), target);
}

#[test]
fn test_subtract() {
    let target = binary(num("4.0"), BinaryOp::Subtract, num("5.0"));
    assert_eq!(parse_one(vec![n("4.0"), T::Minus, n("5.0")]), target);
}

#[test]
fn test_multiply() {
    let target = binary(num("20.0"), BinaryOp::Multiply, num("22.0"));
    assert_eq!(parse_one(vec![n("20.0"), T::Star, n("22.0")]), target);
}

#[test]
fn test_divide() {
    let target = binary(num("20.0"), BinaryOp::Divide, num("22.0"));
    assert_eq!(parse_one(vec![n("20.0"), T::Slash, n("22.0")]), target);
}

#[test]
fn test_simple_funcall() {
    let target = call(ident("my_func"), vec![]);
    assert_eq!(parse_one(vec![T::Ident("my_func".to_string()), T::OpenParen, T::CloseParen]), target);
}

#[test]
fn test_complex_funcall() {
    let ts = vec![
        T::Ident("my_func".to_string()),
        T::OpenParen,
        n("42.0"),
        T::Comma,
        n("88.0"),
        T::CloseParen,
        T::OpenParen,
        T::StringLit("dingus".to_string()),
        T::CloseParen,
    ];
    let target = call(call(ident("my_func"), vec![num("42.0"), num("88.0")]), vec![string("dingus")]);
    assert_eq!(parse_one(ts), target);
}

#[test]
fn program_of_statements() {
    let exprs = parse_src("let x = 1; x = x + 2; print(x);").unwrap();
    assert_eq!(exprs.len(), 3);
    let s = |l1: usize, c1: usize, l2: usize, c2: usize| Span::new(Loc::new(l1, c1), Loc::new(l2, c2));
    let one = Expr { span: s(1, 9, 1, 9), kind: ExprKind::Literal(Literal::Number(dec("1"))) };
    assert_eq!(exprs[0], Expr { span: s(1, 1, 1, 9), kind: ExprKind::Decl { value: Box::new(one) } });
    let get = Expr { span: s(1, 16, 1, 16), kind: ExprKind::VarGet { depth: 0, slot: 0 } };
    let two = Expr { span: s(1, 20, 1, 20), kind: ExprKind::Literal(Literal::Number(dec("2"))) };
    let sum = Expr {
        span: s(1, 16, 1, 20),
        kind: ExprKind::Binary { left: Box::new(get), op: BinaryOp::Add, right: Box::new(two) },
    };
    assert_eq!(exprs[1], Expr { span: s(1, 12, 1, 20), kind: ExprKind::VarSet { value: Box::new(sum), depth: 0, slot: 0 } });
    let arg = Expr { span: s(1, 29, 1, 29), kind: ExprKind::VarGet { depth: 0, slot: 0 } };
    let callee = Expr { span: s(1, 23, 1, 27), kind: ExprKind::Ident("print".to_string()) };
    assert_eq!(exprs[2], Expr { span: s(1, 23, 1, 30), kind: ExprKind::Call { callee: Box::new(callee), args: vec![arg] } });
    assert!(parse_src("").unwrap().is_empty());
}

#[test]
fn scopes_and_functions() {
    let exprs = parse_src("let a = 1; { let b = a; b };").unwrap();
    match &exprs[1].kind {
        ExprKind::Block(body) => {
            assert!(matches!(&body[0].kind, ExprKind::Decl { value } if matches!(value.kind, ExprKind::VarGet { depth: 1, slot: 0 })));
            assert!(matches!(body[1].kind, ExprKind::VarGet { depth: 0, slot: 0 }));
        },
        _ => panic!("expected a block"),
    }
    let exprs = parse_src("let f = fn (a: number, b: string) { a }; f(1, \"x\");").unwrap();
    match &exprs[0].kind {
        ExprKind::Decl { value } => match &value.kind {
            ExprKind::Func { param_count, body } => {
                assert_eq!(*param_count, 2);
                assert!(matches!(body[0].kind, ExprKind::VarGet { depth: 0, slot: 0 }));
            },
            _ => panic!("expected a function"),
        },
        _ => panic!("expected a declaration"),
    }
    let (_, t) = parse_src_typ("fn (a: number, b: string) { a }").unwrap();
    assert_eq!(t, Typ::Function { params: vec![Typ::Number, Typ::String], ret: Box::new(Typ::Any) });
}

#[test]
fn for_loop_shape() {
    let exprs = parse_src("for let i = 0; i < 3; i = i + 1 { print(i) };").unwrap();
    match &exprs[0].kind {
        ExprKind::Block(outer) => {
            assert_eq!(outer.len(), 2);
            assert!(matches!(outer[0].kind, ExprKind::Decl { .. }));
            match &outer[1].kind {
                ExprKind::While { cond, body } => {
                    assert!(matches!(cond.kind, ExprKind::Binary { op: BinaryOp::LessThan, .. }));
                    assert_eq!(body.len(), 2);
                    assert!(matches!(body[0].kind, ExprKind::Block(_)));
                    assert!(matches!(body[1].kind, ExprKind::VarSet { .. }));
                },
                _ => panic!("expected a while loop"),
            }
        },
        _ => panic!("expected a block"),
    }
}

#[test]
fn static_types() {
    assert_eq!(parse_src_typ("1 < 2").unwrap().1, Typ::Bool);
    assert_eq!(parse_src_typ("\"a\" + \"b\"").unwrap().1, Typ::String);
    assert_eq!(parse_src_typ("\"a\" * 3").unwrap().1, Typ::String);
    assert_eq!(parse_src_typ("!true").unwrap().1, Typ::Bool);
    assert_eq!(parse_src_typ("len(\"abc\")").unwrap().1, Typ::Number);
    assert_eq!(parse_src_typ("undefined_name(1, 2)").unwrap().1, Typ::Any);
    assert_eq!(parse_src_typ("let x = 1").unwrap().1, Typ::Null);
    assert_eq!(parse_src_typ("while false { 1 }").unwrap().1, Typ::Null);
    assert_eq!(parse_src_typ("{ 1; }").unwrap().1, Typ::Null);
    assert_eq!(parse_src_typ("{ 1; \"s\" }").unwrap().1, Typ::String);
    assert_eq!(parse_src_typ("if true { 1 } otherwise { 2 }").unwrap().1, Typ::Number);
}

#[test]
fn parser_errors() {
    assert!(matches!(
        parse_src("1"),
        Err(ParseFault::Error(ParserError::ExpectedGotNone { expected: Token::Semi, message: "Expected ';' after expression" }))
    ));
    assert!(matches!(
        parse_src("1 2;"),
        Err(ParseFault::Error(ParserError::ExpectedActualMismatch { expected: Token::Semi, .. }))
    ));
    assert!(matches!(parse_src("let 1 = 2;"), Err(ParseFault::Error(ParserError::ExpectedIdent { .. }))));
    assert!(matches!(parse_src("let"), Err(ParseFault::Error(ParserError::ExpectedIdentGotNone { .. }))));
    assert!(matches!(parse_src("print = 1;"), Err(ParseFault::Error(ParserError::InvalidVariableName { .. }))));
    assert!(matches!(parse_src(";"), Err(ParseFault::Error(ParserError::Unexpected { .. }))));
    assert!(matches!(parse_src("1 +"), Err(ParseFault::Error(ParserError::UnexpectedGotNone))));
    assert!(matches!(
        parse_src("if true { 1 } otherwise 2;"),
        Err(ParseFault::Error(ParserError::InvalidOtherwise { .. }))
    ));
    assert!(matches!(
        parse_src("if true { 1 } otherwise"),
        Err(ParseFault::Error(ParserError::InvalidOtherwiseGotNothing))
    ));
    assert!(matches!(parse_src("1 + #;"), Err(ParseFault::Error(ParserError::LexerError(LexerError::InvalidByte(..))))));
}

#[test]
fn type_refusals() {
    assert!(matches!(parse_src("-\"a\";"), Err(ParseFault::Abort(Abort::UnsupportedUnary(UnaryOp::Negate, Typ::String)))));
    assert!(matches!(
        parse_src("1 + \"a\";"),
        Err(ParseFault::Abort(Abort::UnsupportedBinary(BinaryOp::Add, Typ::Number, Typ::String)))
    ));
    assert!(matches!(
        parse_src("let x: number = \"s\";"),
        Err(ParseFault::Abort(Abort::DeclarationType(Typ::Number, Typ::String)))
    ));
    assert!(matches!(parse_src("let x: = 1;"), Err(ParseFault::Abort(Abort::ExpectedTypeGot(Token::Eq)))));
    assert!(matches!(parse_src("let x:"), Err(ParseFault::Abort(Abort::ExpectedTypeGotNone))));
    assert!(matches!(parse_src("while 1 { 2 };"), Err(ParseFault::Abort(Abort::ConditionNotBool))));
    assert!(matches!(parse_src("if true { 1 } otherwise { \"s\" };"), Err(ParseFault::Abort(Abort::BranchTypes))));
    assert!(matches!(
        parse_src("if true { 1 } otherwise if false { \"s\" };"),
        Err(ParseFault::Abort(Abort::InnerIfTypes))
    ));
    assert!(matches!(parse_src("1();"), Err(ParseFault::Abort(Abort::NotAFunction))));
    assert!(matches!(parse_src("print(1, 2);"), Err(ParseFault::Abort(Abort::ArgumentCount(1, 2)))));
    assert!(matches!(parse_src("len(1);"), Err(ParseFault::Abort(Abort::ArgumentType))));
    assert!(matches!(parse_src("fn (a) { a };"), Err(ParseFault::Abort(Abort::ParameterWithoutType))));
    assert!(matches!(
        parse_src("let x = 1; x = \"s\";"),
        Err(ParseFault::Abort(Abort::AssignmentType(Typ::String, Typ::Number)))
    ));
    assert!(matches!(
        parse_src("let g = 1; { let a = \"x\"; a = 2 };"),
        Err(ParseFault::Abort(Abort::AssignmentType(Typ::Number, Typ::String)))
    ));
}

#[test]
fn shadowing() {
    // the latest declaration in the innermost scope that declares a name is the one read
    let exprs = parse_src("let x = 0; let x = \"s\"; x;").unwrap();
    assert!(matches!(exprs[2].kind, ExprKind::VarGet { depth: 0, slot: 1 }));
    assert_eq!(parse_src_typ("let x = 0").map(|r| r.1).unwrap(), Typ::Null);
    let exprs = parse_src("let x = 0; { let y = 1; let x = 2; x }; x;").unwrap();
    match &exprs[1].kind {
        ExprKind::Block(body) => assert!(matches!(body[2].kind, ExprKind::VarGet { depth: 0, slot: 1 })),
        _ => panic!("expected a block"),
    }
    assert!(matches!(exprs[2].kind, ExprKind::VarGet { depth: 0, slot: 0 }));
    let exprs = parse_src("let y = 0; { let x = 2; y };").unwrap();
    match &exprs[1].kind {
        ExprKind::Block(body) => assert!(matches!(body[1].kind, ExprKind::VarGet { depth: 1, slot: 0 })),
        _ => panic!("expected a block"),
    }
}

#[test]
fn assignment_in_block() {
    let ts = vec![
        T::OpenBracket,
        T::Let,
        T::Ident("a".into()),
        T::Eq,
        n("1.0"),
        T::Semi,
        T::Ident("a".into()),
        T::Eq,
        n("2.0"),
        T::CloseBracket,
    ];
    let mut parser = Parser::test(tokens(ts));
    let (expr, typ) = parser.parse_expr().unwrap();
    let decl = e(ExprKind::Decl { value: Box::new(num("1.0")) });
    let set = e(ExprKind::VarSet { value: Box::new(num("2.0")), depth: 0, slot: 0 });
    assert_eq!(expr, block_of(vec![decl, set]));
    assert_eq!(typ, Typ::Null);
    // an assignment in a nested block to a variable of an enclosing one
    let exprs = parse_src("let g = \"s\"; { let a = 1; g = \"t\"; a = 2 };").unwrap();
    match &exprs[1].kind {
        ExprKind::Block(body) => {
            assert!(matches!(body[1].kind, ExprKind::VarSet { depth: 1, slot: 0, .. }));
            assert!(matches!(body[2].kind, ExprKind::VarSet { depth: 0, slot: 0, .. }));
        },
        _ => panic!("expected a block"),
    }
}

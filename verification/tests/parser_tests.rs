use calculator::parser::parse;
use calculator::parser::AstExFn;
use calculator::parser::AstExpr;
use calculator::parser::AstOp;
use calculator::scanner::tokenize;
use calculator::scanner::Token;

#[test]
fn parse_external() {
    assert_eq!(AstExFn::Sin, AstExFn::from_str("Sin").unwrap());
    assert_eq!(AstExFn::ASin, AstExFn::from_str("ASin").unwrap());
    assert_eq!(AstExFn::Cos, AstExFn::from_str("Cos").unwrap());
    assert_eq!(AstExFn::ACos, AstExFn::from_str("ACos").unwrap());
    assert_eq!(AstExFn::Tan, AstExFn::from_str("Tan").unwrap());
    assert_eq!(AstExFn::ATan, AstExFn::from_str("ATan").unwrap());
    assert_eq!(AstExFn::ATan2, AstExFn::from_str("ATan2").unwrap());
}

#[test]
fn single_literal_expr() {
    assert_eq!(
        parse(vec![Token::Number("1".to_string())]).unwrap(),
        AstExpr::Literal("1".to_string())
    );
}

#[test]
fn binary_expr() {
    assert_eq!(
        parse(tokenize("1 + 2").unwrap()).unwrap(),
        AstExpr::Binary(
            AstOp::Add,
            Box::new(AstExpr::Literal("1".to_string())),
            Box::new(AstExpr::Literal("2".to_string()))
        )
    );
    assert_eq!(
        parse(tokenize("1 * 2").unwrap()).unwrap(),
        AstExpr::Binary(
            AstOp::Mul,
            Box::new(AstExpr::Literal("1".to_string())),
            Box::new(AstExpr::Literal("2".to_string()))
        )
    );
    assert_eq!(
        parse(tokenize("1 / 2").unwrap()).unwrap(),
        AstExpr::Binary(
            AstOp::Div,
            Box::new(AstExpr::Literal("1".to_string())),
            Box::new(AstExpr::Literal("2".to_string()))
        )
    );
    assert_eq!(
        parse(tokenize("1 - 2").unwrap()).unwrap(),
        AstExpr::Binary(
            AstOp::Sub,
            Box::new(AstExpr::Literal("1".to_string())),
            Box::new(AstExpr::Literal("2".to_string()))
        )
    );
    assert_eq!(
        parse(tokenize("1 ^ 2").unwrap()).unwrap(),
        AstExpr::Binary(
            AstOp::Pow,
            Box::new(AstExpr::Literal("1".to_string())),
            Box::new(AstExpr::Literal("2".to_string()))
        )
    );
}

#[test]
fn test_par() {
    assert_eq!(
        parse(tokenize("(1)").unwrap()).unwrap(),
        AstExpr::Literal("1".to_string())
    );
}

#[test]
fn test_par2() {
    assert_eq!(
        parse(tokenize("(1) + (2)").unwrap()).unwrap(),
        AstExpr::Binary(
            AstOp::Add,
            Box::new(AstExpr::Literal("1".to_string())),
            Box::new(AstExpr::Literal("2".to_string()))
        )
    );
}

#[test]
fn test_order() {
    assert_eq!(
        parse(tokenize("1 + 2 * 3").unwrap()).unwrap(),
        AstExpr::Binary(
            AstOp::Add,
            Box::new(AstExpr::Literal("1".to_string())),
            Box::new(AstExpr::Binary(
                AstOp::Mul,
                Box::new(AstExpr::Literal("2".to_string())),
                Box::new(AstExpr::Literal("3".to_string()))
            ))
        )
    );

    assert_eq!(
        parse(tokenize("1 * 2 + 3").unwrap()).unwrap(),
        AstExpr::Binary(
            AstOp::Add,
            Box::new(AstExpr::Binary(
                AstOp::Mul,
                Box::new(AstExpr::Literal("1".to_string())),
                Box::new(AstExpr::Literal("2".to_string()))
            )),
            Box::new(AstExpr::Literal("3".to_string()))
        )
    );
}

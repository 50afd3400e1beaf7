use calculator::eval::validate;
use calculator::eval::EvalError;
use calculator::parser::parse;
use calculator::parser::AstExFn;
use calculator::parser::AstExpr;
use calculator::parser::AstOp;
use calculator::parser::SyntaxError;
use calculator::scanner::render_tokens;
use calculator::scanner::tokenize;
use calculator::scanner::LexError;
use calculator::scanner::Token;

/// Fold a validated tree with machine arithmetic, as a calculator front end
/// would.
fn eval_f(e: &AstExpr) -> f64 {
    match e {
        AstExpr::Literal(s) => s.parse::<f64>().unwrap(),
        AstExpr::Binary(op, l, r) => {
            let a = eval_f(l);
            let b = eval_f(r);
            match op {
                AstOp::Add => a + b,
                AstOp::Sub => a - b,
                AstOp::Mul => a * b,
                AstOp::Div => a / b,
                AstOp::Pow => a.powf(b),
            }
        }
        AstExpr::Unary(op, x) => match op {
            AstOp::Add => eval_f(x),
            AstOp::Sub => -eval_f(x),
            _ => panic!("invalid unary operator"),
        },
        AstExpr::External(f, args) => {
            let vals: Vec<f64> = args.iter().map(eval_f).collect();
            match f {
                AstExFn::Sin => vals[0].sin(),
                AstExFn::Cos => vals[0].cos(),
                AstExFn::Tan => vals[0].tan(),
                AstExFn::ASin => vals[0].asin(),
                AstExFn::ACos => vals[0].acos(),
                AstExFn::ATan2 => vals[0].atan2(vals[1]),
                AstExFn::ATan => {
                    if vals.len() == 1 {
                        vals[0].atan()
                    } else {
                        vals[0].atan2(vals[1])
                    }
                }
            }
        }
    }
}

fn run(line: &str) -> f64 {
    let ast = parse(tokenize(line).unwrap()).unwrap();
    validate(&ast).unwrap();
    eval_f(&ast)
}

#[test]
fn number_token_carries_literal() {
    assert_eq!(
        tokenize("12.5").unwrap(),
        vec![Token::Number("12.5".to_string())]
    );
    assert_eq!(tokenize("7").unwrap(), vec![Token::Number("7".to_string())]);
    assert_eq!(
        tokenize("1.").unwrap(),
        vec![Token::Number("1.".to_string())]
    );
    assert_eq!(run("12.5"), 12.5);
}

#[test]
fn pipeline_precedence() {
    assert_eq!(run("1 + 2"), 3.0);
    assert_eq!(run("1 * 2 + 3"), 5.0);
    assert_eq!(run("1 + 2 * 3"), 7.0);
}

#[test]
fn parens_override_precedence() {
    assert_eq!(run("(1 + 2) * 3"), 9.0);
}

#[test]
fn left_associative_chains() {
    assert_eq!(run("8 - 3 - 2"), 3.0);
    assert_eq!(run("2 ^ 3 ^ 2"), 64.0);
}

#[test]
fn unary_signs() {
    assert_eq!(run("-2 + 3"), 1.0);
    assert_eq!(run("+2 * 3"), 6.0);
    assert_eq!(run("3 - -2"), 5.0);
}

#[test]
fn external_arity_enforced() {
    let ast = parse(tokenize("sin(1,2)").unwrap()).unwrap();
    assert_eq!(
        validate(&ast),
        Err(EvalError::Arity {
            func: AstExFn::Sin,
            actual: 2
        })
    );
    assert_eq!(run("atan2(1,2)"), 1.0_f64.atan2(2.0));
    assert_eq!(run("atan(1)"), 1.0_f64.atan());
    assert_eq!(run("atan(1,2)"), 1.0_f64.atan2(2.0));
    let ast3 = parse(tokenize("atan(1,2,3)").unwrap()).unwrap();
    assert_eq!(
        validate(&ast3),
        Err(EvalError::Arity {
            func: AstExFn::ATan,
            actual: 3
        })
    );
}

#[test]
fn external_names_case_insensitive() {
    assert_eq!(run("SIN(0)"), 0.0);
    assert_eq!(run("Atan2(1, 2)"), 1.0_f64.atan2(2.0));
}

#[test]
fn unknown_function_rejected() {
    assert_eq!(
        parse(tokenize("foo(1)").unwrap()),
        Err(SyntaxError::UnknownFunction("foo".to_string()))
    );
}

#[test]
fn render_roundtrip() {
    let tokens = tokenize("(1 + 2.5) * 3 - 4 / 5 ^ 6").unwrap();
    let line = render_tokens(&tokens);
    let again = tokenize(&line).unwrap();
    assert_eq!(tokens, again);
    assert_eq!(
        parse(tokens).unwrap(),
        parse(again).unwrap()
    );
}

#[test]
fn render_token_text() {
    assert_eq!(Token::Operator('+').to_text(), "+".to_string());
    assert_eq!(Token::Number("1.5".to_string()).to_text(), "1.5".to_string());
    assert_eq!(Token::LeftPar.to_text(), "(".to_string());
    assert_eq!(Token::RightPar.to_text(), ")".to_string());
    assert_eq!(Token::Comma.to_text(), ",".to_string());
}

#[test]
fn malformed_input_rejected() {
    assert_eq!(
        parse(tokenize("1 +").unwrap()),
        Err(SyntaxError::UnexpectedEnd)
    );
    assert_eq!(
        parse(tokenize("(1").unwrap()),
        Err(SyntaxError::UnexpectedEnd)
    );
    assert_eq!(
        parse(tokenize("1 2").unwrap()),
        Err(SyntaxError::UnconsumedTokens(vec![Token::Number(
            "2".to_string()
        )]))
    );
    assert_eq!(
        parse(tokenize("1 * * 2").unwrap()),
        Err(SyntaxError::UnexpectedToken(Token::Operator('*')))
    );
    assert_eq!(
        parse(tokenize("1 + )").unwrap()),
        Err(SyntaxError::UnexpectedToken(Token::RightPar))
    );
}

#[test]
fn lexical_errors_positioned() {
    assert_eq!(tokenize("1 @ 2"), Err(LexError { pos: 2 }));
    // an identifier not followed directly by `(` is no token
    assert_eq!(tokenize("sin (1)"), Err(LexError { pos: 0 }));
    assert_eq!(tokenize("12.5.3"), Err(LexError { pos: 4 }));
}

#[test]
fn operator_symbol_lookup() {
    assert_eq!(AstOp::from_str("+").unwrap(), AstOp::Add);
    assert_eq!(AstOp::from_str("-").unwrap(), AstOp::Sub);
    assert_eq!(AstOp::from_str("*").unwrap(), AstOp::Mul);
    assert_eq!(AstOp::from_str("/").unwrap(), AstOp::Div);
    assert_eq!(AstOp::from_str("^").unwrap(), AstOp::Pow);
    assert_eq!(AstOp::from_str("%"), Err(()));
}

#[test]
fn invalid_unary_operator_reported() {
    let ast = AstExpr::Unary(
        AstOp::Mul,
        Box::new(AstExpr::Literal("1".to_string())),
    );
    assert_eq!(
        validate(&ast),
        Err(EvalError::InvalidUnary { op: AstOp::Mul })
    );
}

#[test]
fn division_by_zero_is_a_value() {
    assert!(run("1 / 0").is_infinite());
    assert!(run("0 / 0").is_nan());
}

#[test]
fn doubled_sign_rejected() {
    assert_eq!(
        parse(tokenize("--1").unwrap()),
        Err(SyntaxError::UnexpectedToken(Token::Operator('-')))
    );
    assert_eq!(run("-(-1)"), 1.0);
}

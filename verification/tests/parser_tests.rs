use tinylang::ast::Expr;
use tinylang::parser::{code_parser, expr_parser, Expected};

#[test]
fn test_expr_parser() {
    let expr = expr_parser("main()").unwrap();
    println!("{:?}", expr);
    assert!(matches!(expr, Expr::Call(_name, _args)));

    let expr = expr_parser("a() + b() + c()").unwrap();
    println!("{:?}", expr);
    assert!(matches!(expr, Expr::Add(_a, _b)));
}

#[test]
fn parse_is_deterministic() {
    let src = "fn f(a,b){a+b*2} fn main(){f(1,2)}";
    let c1 = code_parser(src).unwrap();
    let c2 = code_parser(src).unwrap();
    assert_eq!(format!("{:?}", c1), format!("{:?}", c2));
}

#[test]
fn precedence_mul_binds_tighter() {
    let e = expr_parser("1+2*3").unwrap();
    match e {
        Expr::Add(l, r) => {
            assert!(matches!(*l, Expr::Num(1)));
            match *r {
                Expr::Mul(a, b) => {
                    assert!(matches!(*a, Expr::Num(2)));
                    assert!(matches!(*b, Expr::Num(3)));
                }
                other => panic!("expected Mul, got {:?}", other),
            }
        }
        other => panic!("expected Add, got {:?}", other),
    }
}

#[test]
fn unary_minus_folds_right() {
    let e = expr_parser("--5").unwrap();
    match e {
        Expr::Neg(inner) => match *inner {
            Expr::Neg(inner2) => assert!(matches!(*inner2, Expr::Num(5))),
            other => panic!("expected Neg, got {:?}", other),
        },
        other => panic!("expected Neg, got {:?}", other),
    }
}

#[test]
fn parenthesized_grouping() {
    let e = expr_parser("(1+2)*3").unwrap();
    match e {
        Expr::Mul(l, r) => {
            assert!(matches!(*l, Expr::Add(_, _)));
            assert!(matches!(*r, Expr::Num(3)));
        }
        other => panic!("expected Mul, got {:?}", other),
    }
}

#[test]
fn left_associative_sub() {
    // 10-3-4 parses as (10-3)-4
    let e = expr_parser("10-3-4").unwrap();
    match e {
        Expr::Sub(l, r) => {
            assert!(matches!(*l, Expr::Sub(_, _)));
            assert!(matches!(*r, Expr::Num(4)));
        }
        other => panic!("expected Sub, got {:?}", other),
    }
}

#[test]
fn call_with_trailing_comma_and_empty_args() {
    let e = expr_parser("f(1,)").unwrap();
    match e {
        Expr::Call(name, args) => {
            assert_eq!(name, "f");
            assert_eq!(args.len(), 1);
        }
        other => panic!("expected Call, got {:?}", other),
    }
    let e = expr_parser("g( )").unwrap();
    match e {
        Expr::Call(name, args) => {
            assert_eq!(name, "g");
            assert_eq!(args.len(), 0);
        }
        other => panic!("expected Call, got {:?}", other),
    }
}

#[test]
fn whitespace_around_tokens() {
    let code = code_parser(" fn  main ( ) {\n  1 + 2\n} ").unwrap();
    assert_eq!(code.functions.len(), 1);
    assert_eq!(code.functions[0].name, "main");
    assert!(code.functions[0].args.is_empty());
    assert!(code.functions[0].body.lets.is_empty());
}

#[test]
fn empty_source_is_empty_program() {
    let code = code_parser("").unwrap();
    assert_eq!(code.functions.len(), 0);
}

#[test]
fn params_in_order() {
    let code = code_parser("fn f(a,b,c){a}").unwrap();
    assert_eq!(code.functions[0].args, vec!["a", "b", "c"]);
}

#[test]
fn if_parses_as_conditional() {
    let e = expr_parser("if 3>2 {10} else {20}").unwrap();
    assert!(matches!(e, Expr::If(_, _, _)));
}

#[test]
fn literal_at_i64_max_is_accepted() {
    let e = expr_parser("9223372036854775807").unwrap();
    assert!(matches!(e, Expr::Num(9223372036854775807)));
}

#[test]
fn literal_beyond_i64_max_is_rejected() {
    let err = expr_parser("9223372036854775808").unwrap_err();
    assert_eq!(err.pos, 0);
    assert_eq!(err.expected, Expected::NumberInRange);
}

#[test]
fn error_carries_position() {
    // the closing brace is missing: the parse fails at the end of the input
    let err = code_parser("fn main(){1+2").unwrap_err();
    assert_eq!(err.pos, 13);
    assert_eq!(err.expected, Expected::Symbol('}'));
}

#[test]
fn trailing_garbage_is_rejected() {
    assert!(code_parser("fn main(){1} garbage!").is_err());
    let err = expr_parser("1+2)").unwrap_err();
    assert_eq!(err.expected, Expected::EndOfInput);
}

#[test]
fn keywords_are_reserved() {
    assert!(expr_parser("if").is_err());
    assert!(expr_parser("else").is_err());
    assert!(code_parser("fn if(){1}").is_err());
}

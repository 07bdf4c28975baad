use backlash::eval::eval;
use backlash::expr::{Builtin, Error, Expr};
use backlash::reader::{parse, ParseError};

fn value_of(e: &Expr) -> f64 {
    match e {
        Expr::Num(bits) => f64::from_bits(*bits),
        _ => panic!("not a number"),
    }
}

#[test]
fn parse_and_evaluate_sum() {
    let mut env = backlash::eval::env();
    let expr = parse(&mut env, "(+ 1 e 0.5)").unwrap();
    let r = eval(&env, &expr).unwrap();
    assert_eq!(value_of(&r), 1.0 + std::f64::consts::E + 0.5);
}

#[test]
fn parse_nested_with_spaces() {
    let mut env = backlash::eval::env();
    let expr = parse(&mut env, "  ( *\t0.75 pi (+ 4 6) )\n").unwrap();
    let r = eval(&env, &expr).unwrap();
    assert_eq!(value_of(&r), 0.75 * std::f64::consts::PI * 10.0);
}

#[test]
fn parse_number_literals() {
    let mut env = backlash::eval::env();
    let cases = [("42", 42.0), ("-2.5", -2.5), (".5", 0.5), ("+3", 3.0), ("1e3", 1000.0), ("0.1", 0.1)];
    for (text, v) in cases {
        match parse(&mut env, text).unwrap() {
            Expr::Num(bits) => assert_eq!(f64::from_bits(bits), v),
            _ => panic!("{} is not a number", text),
        }
    }
}

#[test]
fn parse_identifiers() {
    let mut env = backlash::eval::env();
    let before = env.symbol_count();
    for text in ["x", "-", "+", "inf", "pi", "foo-bar"] {
        match parse(&mut env, text).unwrap() {
            Expr::Var(s) => assert_eq!(env.resolve(s).unwrap(), text),
            _ => panic!("{} is not an identifier", text),
        }
    }
    assert_eq!(env.symbol_count(), before + 4);
    assert!(matches!(parse(&mut env, "pi").unwrap(), Expr::Var(s) if Some(s) == env.get("pi")));
}

#[test]
fn parse_application_shape() {
    let mut env = backlash::eval::env();
    match parse(&mut env, "(f 1 (g))").unwrap() {
        Expr::App(f, args) => {
            assert!(matches!(*f, Expr::Var(s) if env.resolve(s).unwrap() == "f"));
            assert_eq!(args.len(), 2);
            assert!(matches!(args[0], Expr::Num(b) if b == 1.0f64.to_bits()));
            match &args[1] {
                Expr::App(g, inner) => {
                    assert!(matches!(**g, Expr::Var(s) if env.resolve(s).unwrap() == "g"));
                    assert!(inner.is_empty());
                }
                _ => panic!("expected an application"),
            }
        }
        _ => panic!("expected an application"),
    }
}

#[test]
fn parse_rejects_malformed_text() {
    let mut env = backlash::eval::env();
    for text in ["", "   ", "(", ")", "()", "(+ 1", "(+ 1))", "1 2", "(+ 1) x"] {
        assert_eq!(parse(&mut env, text).unwrap_err(), ParseError, "{:?}", text);
    }
}

#[test]
fn parse_rejects_bad_numbers() {
    let mut env = backlash::eval::env();
    for text in ["1.2.3", "(+ 1 2x)", "-1z"] {
        assert_eq!(parse(&mut env, text).unwrap_err(), ParseError, "{:?}", text);
    }
}

#[test]
fn parsed_number_operator_is_not_callable() {
    let mut env = backlash::eval::env();
    let expr = parse(&mut env, "(3 1 2)").unwrap();
    assert!(matches!(eval(&env, &expr), Err(Error::NotCallable)));
}

#[test]
fn parsed_free_variable_argument_is_not_a_number() {
    let mut env = backlash::eval::env();
    let expr = parse(&mut env, "(+ 1 x)").unwrap();
    assert!(matches!(eval(&env, &expr), Err(Error::NotANumber)));
    let expr = parse(&mut env, "*").unwrap();
    assert!(matches!(eval(&env, &expr), Ok(Expr::PrimOp(Builtin::Mul))));
}

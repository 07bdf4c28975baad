use backlash::eval::{apply, eval};
use backlash::expr::{bin_op, Builtin, Error, Expr};
use backlash::number::{EULER, ONE, PI, ZERO};
use backlash::symbol::SymbolTable;

fn num(x: f64) -> Expr {
    Expr::Num(x.to_bits())
}

fn value_of(e: &Expr) -> f64 {
    match e {
        Expr::Num(bits) => f64::from_bits(*bits),
        _ => panic!("not a number"),
    }
}

#[test]
fn test_add() {
    let env = backlash::eval::env();

    let add = env.binding(env.get("+").unwrap()).unwrap();

    let expr = Expr::App(
        Box::new(add),
        vec![num(1.0), Expr::Var(env.get("e").unwrap()), num(0.5)],
    );

    match eval(&env, &expr).unwrap() {
        Expr::Num(val) if f64::from_bits(val) == 1.0 + std::f64::consts::E + 0.5 => (),
        _ => unreachable!(),
    };
}

#[test]
#[should_panic]
fn test_mul() {
    let env = backlash::eval::env();

    let mul = env.binding(env.get("*").unwrap()).unwrap();

    let expr = Expr::App(
        Box::new(mul),
        vec![num(0.75), Expr::Var(env.get("pi").unwrap()), num(10.0)],
    );

    match eval(&env, &expr).unwrap() {
        Expr::Num(val) if f64::from_bits(val) == 0.76 * std::f64::consts::PI * 10.0 => (),
        _ => panic!("they should indeed be different, 0.75 != 0.76"),
    };
}

#[test]
fn mul_matches_left_to_right_product() {
    let env = backlash::eval::env();
    let expr = Expr::App(
        Box::new(Expr::Var(env.get("*").unwrap())),
        vec![num(0.75), Expr::Var(env.get("pi").unwrap()), num(10.0)],
    );
    let r = eval(&env, &expr).unwrap();
    assert_eq!(value_of(&r), 0.75 * std::f64::consts::PI * 10.0);
    assert_ne!(value_of(&r), 0.76 * std::f64::consts::PI * 10.0);
}

#[test]
fn constants_are_the_binary64_constants() {
    assert_eq!(f64::from_bits(EULER), std::f64::consts::E);
    assert_eq!(f64::from_bits(PI), std::f64::consts::PI);
    assert_eq!(f64::from_bits(ZERO), 0.0);
    assert_eq!(f64::from_bits(ONE), 1.0);
    let env = backlash::eval::env();
    assert!(matches!(env.binding(env.get("e").unwrap()), Some(Expr::Num(b)) if b == EULER));
    assert!(matches!(env.binding(env.get("pi").unwrap()), Some(Expr::Num(b)) if b == PI));
}

#[test]
fn environment_holds_the_four_names() {
    let env = backlash::eval::env();
    for name in ["+", "*", "e", "pi"] {
        let s = env.get(name).unwrap();
        assert_eq!(env.resolve(s).unwrap(), name);
    }
    assert!(env.get("x").is_none());
    assert!(matches!(env.binding(env.get("+").unwrap()), Some(Expr::PrimOp(Builtin::Add))));
    assert!(matches!(env.binding(env.get("*").unwrap()), Some(Expr::PrimOp(Builtin::Mul))));
}

#[test]
fn number_evaluates_to_itself() {
    let env = backlash::eval::env();
    for x in [0.0, -2.5, 1e300, f64::INFINITY] {
        let r = eval(&env, &num(x)).unwrap();
        assert!(matches!(r, Expr::Num(b) if b == x.to_bits()));
    }
}

#[test]
fn free_variable_evaluates_to_itself() {
    let mut env = backlash::eval::env();
    let x = env.intern("x");
    assert!(env.binding(x).is_none());
    let r = eval(&env, &Expr::Var(x)).unwrap();
    assert!(matches!(r, Expr::Var(s) if s == x));
}

#[test]
fn bound_variable_evaluates_to_binding() {
    let env = backlash::eval::env();
    let e = env.get("e").unwrap();
    assert!(matches!(eval(&env, &Expr::Var(e)).unwrap(), Expr::Num(b) if b == EULER));
    let plus = env.get("+").unwrap();
    assert!(matches!(
        eval(&env, &Expr::Var(plus)).unwrap(),
        Expr::PrimOp(Builtin::Add)
    ));
}

#[test]
fn operator_evaluates_to_itself() {
    let env = backlash::eval::env();
    assert!(matches!(
        eval(&env, &Expr::PrimOp(Builtin::Mul)).unwrap(),
        Expr::PrimOp(Builtin::Mul)
    ));
}

#[test]
fn non_number_argument_fails() {
    let mut env = backlash::eval::env();
    let x = env.intern("x");
    for op in ["+", "*"] {
        let f = Expr::Var(env.get(op).unwrap());
        let r = apply(&env, &f, &vec![num(1.0), Expr::Var(x), num(2.0)]);
        assert!(matches!(r, Err(Error::NotANumber)));
        let r = apply(&env, &f, &vec![num(1.0), Expr::PrimOp(Builtin::Add)]);
        assert!(matches!(r, Err(Error::NotANumber)));
    }
    let r = Builtin::Add.call(&vec![Expr::Var(x)]);
    assert!(matches!(r, Err(Error::NotANumber)));
}

#[test]
fn number_in_operator_position_is_not_callable() {
    let env = backlash::eval::env();
    let r = apply(&env, &num(3.0), &vec![num(1.0)]);
    assert!(matches!(r, Err(Error::NotCallable)));
    let e = Expr::App(Box::new(Expr::Var(env.get("pi").unwrap())), vec![]);
    assert!(matches!(eval(&env, &e), Err(Error::NotCallable)));
}

#[test]
fn free_variable_in_operator_position_is_not_callable() {
    let mut env = backlash::eval::env();
    let f = env.intern("f");
    let e = Expr::App(Box::new(Expr::Var(f)), vec![num(1.0)]);
    assert!(matches!(eval(&env, &e), Err(Error::NotCallable)));
}

#[test]
fn failure_in_an_argument_propagates() {
    let env = backlash::eval::env();
    let bad = Expr::App(Box::new(num(1.0)), vec![]);
    let e = Expr::App(Box::new(Expr::PrimOp(Builtin::Add)), vec![num(1.0), bad]);
    assert!(matches!(eval(&env, &e), Err(Error::NotCallable)));
}

#[test]
fn nested_application() {
    let env = backlash::eval::env();
    let inner = Expr::App(Box::new(Expr::PrimOp(Builtin::Mul)), vec![num(2.0), num(3.0)]);
    let outer = Expr::App(
        Box::new(Expr::Var(env.get("+").unwrap())),
        vec![num(1.0), inner],
    );
    assert_eq!(value_of(&eval(&env, &outer).unwrap()), 7.0);
}

#[test]
fn operator_position_may_be_an_application_result() {
    let env = backlash::eval::env();
    let inner = Expr::App(Box::new(Expr::PrimOp(Builtin::Add)), vec![]);
    let e = Expr::App(Box::new(inner), vec![num(1.0)]);
    assert!(matches!(eval(&env, &e), Err(Error::NotCallable)));
}

#[test]
fn empty_folds_give_identities() {
    let env = backlash::eval::env();
    let plus = Expr::Var(env.get("+").unwrap());
    let times = Expr::Var(env.get("*").unwrap());
    assert!(matches!(apply(&env, &plus, &vec![]).unwrap(), Expr::Num(b) if b == 0.0f64.to_bits()));
    assert!(matches!(apply(&env, &times, &vec![]).unwrap(), Expr::Num(b) if b == 1.0f64.to_bits()));
    assert!(matches!(bin_op(Builtin::Add, ZERO, &vec![]).unwrap(), Expr::Num(b) if b == ZERO));
    assert!(matches!(bin_op(Builtin::Mul, ONE, &vec![]).unwrap(), Expr::Num(b) if b == ONE));
}

#[test]
fn fold_is_left_to_right() {
    let big = 1e16;
    let r = bin_op(Builtin::Add, ZERO, &vec![num(big), num(1.0), num(1.0)]).unwrap();
    assert_eq!(value_of(&r), ((0.0 + big) + 1.0) + 1.0);
    let r = bin_op(Builtin::Add, ZERO, &vec![num(1.0), num(1.0), num(big)]).unwrap();
    assert_eq!(value_of(&r), ((0.0 + 1.0) + 1.0) + big);
}

#[test]
fn combine_computes_sum_and_product() {
    assert_eq!(f64::from_bits(Builtin::Add.combine(1.5f64.to_bits(), 2.25f64.to_bits())), 3.75);
    assert_eq!(f64::from_bits(Builtin::Mul.combine(1.5f64.to_bits(), 2.0f64.to_bits())), 3.0);
    assert_eq!(f64::from_bits(Builtin::Add.combine(0.1f64.to_bits(), 0.2f64.to_bits())), 0.1 + 0.2);
    assert_eq!(f64::from_bits(Builtin::Mul.combine(0.1f64.to_bits(), 3.0f64.to_bits())), 0.1 * 3.0);
    assert_eq!(Builtin::Add.identity(), ZERO);
    assert_eq!(Builtin::Mul.identity(), ONE);
}

#[test]
fn intern_is_idempotent_and_injective() {
    let mut t = SymbolTable::new();
    let a = t.intern("alpha");
    let b = t.intern("beta");
    let a2 = t.intern("alpha");
    assert_eq!(a, a2);
    assert_ne!(a, b);
    assert_eq!(t.get("beta"), Some(b));
    assert_eq!(t.get("gamma"), None);
    assert_eq!(t.resolve(a).unwrap(), "alpha");
    assert_eq!(t.resolve(b).unwrap(), "beta");
}

#[test]
fn intern_through_environment() {
    let mut env = backlash::eval::env();
    let plus = env.get("+").unwrap();
    assert_eq!(env.intern("+"), plus);
    let y = env.intern("y");
    assert_ne!(y, plus);
    assert_eq!(env.intern("y"), y);
    assert_eq!(env.resolve(y).unwrap(), "y");
}

#[test]
fn foreign_symbol_is_unknown() {
    let env = backlash::eval::env();
    let mut other = SymbolTable::new();
    for name in ["a", "b", "c", "d", "e"] {
        other.intern(name);
    }
    let foreign = other.get("e").unwrap();
    assert!(matches!(env.resolve(foreign), Err(Error::UnknownSymbol)));
    assert!(other.resolve(foreign).is_some());
    let empty = SymbolTable::new();
    assert!(empty.resolve(foreign).is_none());
}

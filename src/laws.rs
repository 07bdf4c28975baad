//! Properties that relate the evaluator, the operators and the interner.
use vstd::prelude::*;

use crate::eval::{eval_spec, Env};
use crate::expr::{all_numbers, lemma_fold_fails_iff, Builtin, Error, Expr};
use crate::number::{ONE, ZERO};
use crate::symbol::{interned_as, Symbol};

verus! {

/// A number evaluates to itself.
pub proof fn law_number_is_fixed(env: &Env, n: u64)
    ensures
        eval_spec(env.bindings(), Expr::Num(n)) == Ok::<Expr, Error>(Expr::Num(n)),
{
}

/// A variable with no binding evaluates to itself.
pub proof fn law_free_variable_is_fixed(env: &Env, s: Symbol)
    requires
        !env.bindings().contains_key(s.index),
    ensures
        eval_spec(env.bindings(), Expr::Var(s)) == Ok::<Expr, Error>(Expr::Var(s)),
{
}

/// A bound variable evaluates to its binding.
pub proof fn law_bound_variable(env: &Env, s: Symbol)
    requires
        env.bindings().contains_key(s.index),
    ensures
        eval_spec(env.bindings(), Expr::Var(s)) == Ok::<Expr, Error>(env.bindings()[s.index]),
{
}

/// A built-in operator given an argument that is not a number fails with
/// `NotANumber`, and the failure carries no partial result.
pub proof fn law_non_number_argument(op: Builtin, args: Seq<Expr>, i: int)
    requires
        0 <= i < args.len(),
        !(args[i] is Num),
    ensures
        op.call_spec(args) == Err::<Expr, Error>(Error::NotANumber),
{
    lemma_fold_fails_iff(op, op.identity_spec(), args);
    assert(!all_numbers(args));
}

/// An application whose operator evaluates to a number fails with
/// `NotCallable`.
pub proof fn law_number_is_not_callable(env: &Env, f: Expr, args: Vec<Expr>)
    requires
        eval_spec(env.bindings(), f) matches Ok(v) && v is Num,
    ensures
        eval_spec(env.bindings(), Expr::App(Box::new(f), args)) == Err::<Expr, Error>(
            Error::NotCallable,
        ),
{
}

/// Interning the same text twice gives the same handle, and the second time
/// leaves the table as it was.
pub proof fn law_intern_idempotent(
    t0: Seq<Seq<char>>,
    t1: Seq<Seq<char>>,
    t2: Seq<Seq<char>>,
    text: Seq<char>,
    s1: Symbol,
    s2: Symbol,
)
    requires
        t0.no_duplicates(),
        interned_as(t0, text, t1, s1),
        interned_as(t1, text, t2, s2),
    ensures
        s1 == s2,
        t2 == t1,
{
    if !t0.contains(text) {
        assert(t1.no_duplicates()) by {
            assert forall|i: int, j: int|
                0 <= i < t1.len() && 0 <= j < t1.len() && i != j implies t1[i] != t1[j] by {
                if i == t0.len() {
                    assert(t0.contains(t1[j]));
                } else if j == t0.len() {
                    assert(t0.contains(t1[i]));
                }
            }
        }
    }
    assert(t1.contains(text));
}

/// Interning two different texts, one after the other, gives different
/// handles.
pub proof fn law_intern_distinct(
    t0: Seq<Seq<char>>,
    t1: Seq<Seq<char>>,
    t2: Seq<Seq<char>>,
    a: Seq<char>,
    b: Seq<char>,
    s1: Symbol,
    s2: Symbol,
)
    requires
        interned_as(t0, a, t1, s1),
        interned_as(t1, b, t2, s2),
        a != b,
    ensures
        s1 != s2,
{
    assert(t2[s1.index as int] == t1[s1.index as int]);
}

/// The operators over no arguments give their identity elements: zero for
/// `+` and one for `*`.
pub proof fn law_empty_fold()
    ensures
        Builtin::Add.call_spec(Seq::empty()) == Ok::<Expr, Error>(Expr::Num(ZERO)),
        Builtin::Mul.call_spec(Seq::empty()) == Ok::<Expr, Error>(Expr::Num(ONE)),
{
}

} // verus!

use vstd::prelude::*;

use crate::number::{add_bits, mul_bits, product_of, sum_of, ONE, ZERO};
use crate::symbol::Symbol;

verus! {

/// What can go wrong in the core.
#[derive(Clone, Copy, Debug, PartialEq, Eq, Structural)]
pub enum Error {
    /// The operator of an application did not reduce to a primitive operator.
    NotCallable,
    /// A numeric primitive received an argument that is not a number.
    NotANumber,
    /// A symbol was presented to a table that never produced it.
    UnknownSymbol,
}

/// The built-in operators.
#[derive(Clone, Copy, Debug, PartialEq, Eq, Structural)]
pub enum Builtin {
    Add,
    Mul,
}

/// An expression of the language.
#[derive(Debug)]
pub enum Expr {
    /// A number, as the bit pattern of a binary64 value.
    Num(u64),
    /// A reference to a binding.
    Var(Symbol),
    /// An operator applied to arguments, neither of them evaluated yet.
    App(Box<Expr>, Vec<Expr>),
    /// A built-in operator, already a value.
    PrimOp(Builtin),
}

/// Whether every element of `s` is a number.
pub open spec fn all_numbers(s: Seq<Expr>) -> bool {
    forall|i: int| 0 <= i < s.len() ==> (#[trigger] s[i]) is Num
}

impl Builtin {
    /// The identity element the fold starts from.
    pub open spec fn identity_spec(self) -> u64 {
        match self {
            Builtin::Add => ZERO,
            Builtin::Mul => ONE,
        }
    }

    /// The combining function of the fold.
    pub open spec fn combine_spec(self, a: u64, b: u64) -> u64 {
        match self {
            Builtin::Add => sum_of(a, b),
            Builtin::Mul => product_of(a, b),
        }
    }

    pub fn identity(self) -> (r: u64)
        ensures
            r == self.identity_spec(),
    {
        match self {
            Builtin::Add => ZERO,
            Builtin::Mul => ONE,
        }
    }

    pub fn combine(self, a: u64, b: u64) -> (r: u64)
        ensures
            r == self.combine_spec(a, b),
    {
        match self {
            Builtin::Add => add_bits(a, b),
            Builtin::Mul => mul_bits(a, b),
        }
    }

    /// What invoking the operator on already evaluated arguments gives.
    pub open spec fn call_spec(self, args: Seq<Expr>) -> Result<Expr, Error> {
        fold_result(self, self.identity_spec(), args)
    }

    /// Invokes the operator on already evaluated arguments.
    pub fn call(self, args: &Vec<Expr>) -> (r: Result<Expr, Error>)
        ensures
            r == self.call_spec(args@),
    {
        bin_op(self, self.identity(), args)
    }
}

/// Left-to-right fold of `op` over the numbers of `args`, starting from
/// `init`; `NotANumber` if any argument is not a number.
pub open spec fn fold_numbers(op: Builtin, init: u64, args: Seq<Expr>) -> Result<u64, Error>
    decreases args.len(),
{
    if args.len() == 0 {
        Ok(init)
    } else {
        match fold_numbers(op, init, args.drop_last()) {
            Ok(acc) => match args.last() {
                Expr::Num(n) => Ok(op.combine_spec(acc, n)),
                _ => Err(Error::NotANumber),
            },
            Err(e) => Err(e),
        }
    }
}

/// The fold's outcome as an expression.
pub open spec fn fold_result(op: Builtin, init: u64, args: Seq<Expr>) -> Result<Expr, Error> {
    match fold_numbers(op, init, args) {
        Ok(v) => Ok(Expr::Num(v)),
        Err(e) => Err(e),
    }
}

/// The fold fails exactly when some argument is not a number, and then
/// with `NotANumber`.
pub proof fn lemma_fold_fails_iff(op: Builtin, init: u64, args: Seq<Expr>)
    ensures
        fold_numbers(op, init, args) is Ok <==> all_numbers(args),
        fold_numbers(op, init, args) is Err ==> fold_numbers(op, init, args) == Err::<u64, Error>(Error::NotANumber),
    decreases args.len(),
{
    if args.len() > 0 {
        let pre = args.drop_last();
        lemma_fold_fails_iff(op, init, pre);
        if all_numbers(args) {
            assert forall|i: int| 0 <= i < pre.len() implies (#[trigger] pre[i]) is Num by {
                assert(pre[i] == args[i]);
            }
        }
        if all_numbers(pre) && args.last() is Num {
            assert forall|i: int| 0 <= i < args.len() implies (#[trigger] args[i]) is Num by {
                if i < pre.len() {
                    assert(pre[i] == args[i]);
                }
            }
        }
    }
}

/// Folds `op` left to right over `args`, starting from `init`.
pub fn bin_op(op: Builtin, init: u64, args: &Vec<Expr>) -> (r: Result<Expr, Error>)
    ensures
        r == fold_result(op, init, args@),
{
    let mut acc: u64 = init;
    let mut i: usize = 0;
    while i < args.len()
        invariant
            i <= args.len(),
            fold_numbers(op, init, args@.subrange(0, i as int)) == Ok::<u64, Error>(acc),
        decreases args.len() - i,
    {
        let ghost pre = args@.subrange(0, i as int);
        let ghost next = args@.subrange(0, i + 1);
        assert(next.drop_last() =~= pre);
        match &args[i] {
            Expr::Num(n) => {
                acc = op.combine(acc, *n);
            },
            _ => {
                proof {
                    lemma_fold_fails_iff(op, init, next);
                    lemma_fold_fails_iff(op, init, args@);
                    assert(!all_numbers(next));
                    assert(!(next[i as int] is Num));
                    assert(!all_numbers(args@)) by {
                        assert(args@[i as int] == next[i as int]);
                    }
                }
                return Err(Error::NotANumber);
            },
        }
        i = i + 1;
    }
    assert(args@.subrange(0, args@.len() as int) =~= args@);
    Ok(Expr::Num(acc))
}

} // verus!

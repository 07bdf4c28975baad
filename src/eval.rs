use std::collections::HashMap;

use vstd::prelude::*;

use crate::expr::{Builtin, Error, Expr};
use crate::number::{EULER, PI};
use crate::symbol::{interned_as, Symbol, SymbolTable};

verus! {

broadcast use vstd::std_specs::hash::group_hash_axioms;

/// The number of nodes of an expression.
pub open spec fn size(e: Expr) -> nat
    decreases e,
{
    match e {
        Expr::App(f, args) => 1 + size(*f) + size_all(args@),
        _ => 1,
    }
}

/// The number of nodes of a sequence of expressions.
pub open spec fn size_all(s: Seq<Expr>) -> nat
    decreases s,
{
    if s.len() == 0 {
        0
    } else {
        size_all(s.subrange(0, s.len() - 1)) + size(s[s.len() - 1])
    }
}

/// What evaluating `e` gives under the bindings `vars`.
pub open spec fn eval_spec(vars: Map<usize, Expr>, e: Expr) -> Result<Expr, Error>
    decreases size(e), 1nat,
{
    match e {
        Expr::Var(s) => if vars.contains_key(s.index) {
            Ok(vars[s.index])
        } else {
            Ok(e)
        },
        Expr::App(f, args) => apply_spec(vars, *f, args@),
        _ => Ok(e),
    }
}

/// What applying the operator `f` to the arguments `args` gives under the
/// bindings `vars`: the operator is evaluated first and must be a primitive;
/// then the arguments, left to right.
pub open spec fn apply_spec(vars: Map<usize, Expr>, f: Expr, args: Seq<Expr>) -> Result<Expr, Error>
    decreases size(f) + size_all(args) + 1, 0nat,
{
    match eval_spec(vars, f) {
        Ok(Expr::PrimOp(op)) => match eval_all(vars, args) {
            Ok(vals) => op.call_spec(vals),
            Err(e) => Err(e),
        },
        Ok(_) => Err(Error::NotCallable),
        Err(e) => Err(e),
    }
}

/// Evaluates each of `s`, left to right, stopping at the first failure.
pub open spec fn eval_all(vars: Map<usize, Expr>, s: Seq<Expr>) -> Result<Seq<Expr>, Error>
    decreases size_all(s), 2nat,
{
    if s.len() == 0 {
        Ok(Seq::empty())
    } else {
        match eval_all(vars, s.subrange(0, s.len() - 1)) {
            Ok(vals) => match eval_spec(vars, s[s.len() - 1]) {
                Ok(v) => Ok(vals.push(v)),
                Err(e) => Err(e),
            },
            Err(e) => Err(e),
        }
    }
}


/// Whether `e` is a value that evaluates to itself: a number or an operator.
pub open spec fn is_atom(e: Expr) -> bool {
    e is Num || e is PrimOp
}

/// A size bound for an element of a sequence.
proof fn lemma_size_elem(s: Seq<Expr>, i: int)
    requires
        0 <= i < s.len(),
    ensures
        size(s[i]) <= size_all(s),
    decreases s.len(),
{
    if i < s.len() - 1 {
        let pre = s.subrange(0, s.len() - 1);
        assert(pre[i] == s[i]);
        lemma_size_elem(pre, i);
    }
}

/// Once a prefix fails, the whole sequence fails with the same error.
proof fn lemma_eval_all_prefix_err(vars: Map<usize, Expr>, s: Seq<Expr>, k: int)
    requires
        0 <= k <= s.len(),
        eval_all(vars, s.subrange(0, k)) is Err,
    ensures
        eval_all(vars, s) == eval_all(vars, s.subrange(0, k)),
    decreases s.len() - k,
{
    if k < s.len() {
        let next = s.subrange(0, k + 1);
        assert(next.subrange(0, k) =~= s.subrange(0, k));
        lemma_eval_all_prefix_err(vars, s, k + 1);
    } else {
        assert(s.subrange(0, k) =~= s);
    }
}

/// The environment: the symbol table and the bindings keyed by symbol.
pub struct Env {
    vars: HashMap<usize, Expr>,
    interner: SymbolTable,
}

impl Env {
    /// The identifier texts known to the environment, by handle.
    pub closed spec fn symbols(&self) -> Seq<Seq<char>> {
        self.interner@
    }

    /// The bindings, keyed by the index of their symbol.
    pub closed spec fn bindings(&self) -> Map<usize, Expr> {
        self.vars@
    }

    /// The symbol table is well formed, every bound key is a symbol of the
    /// table, and every bound value is an atom.
    pub closed spec fn wf(&self) -> bool {
        &&& self.interner.wf()
        &&& forall|k: usize| #[trigger] self.vars@.contains_key(k) ==> {
            &&& k < self.interner@.len()
            &&& is_atom(self.vars@[k])
        }
    }

    /// The handle of `text`, made on its first use; the bindings are kept.
    pub fn intern(&mut self, text: &str) -> (sym: Symbol)
        requires
            old(self).wf(),
            old(self).symbols().contains(text@) || old(self).symbols().len() < u32::MAX,
        ensures
            final(self).wf(),
            final(self).bindings() == old(self).bindings(),
            interned_as(old(self).symbols(), text@, final(self).symbols(), sym),
    {
        self.interner.intern(text)
    }

    /// The number of identifiers interned so far.
    pub fn symbol_count(&self) -> (n: usize)
        requires
            self.wf(),
        ensures
            n == self.symbols().len(),
    {
        self.interner.len()
    }

    /// The handle of `text` if it has been interned.
    pub fn get(&self, text: &str) -> (sym: Option<Symbol>)
        requires
            self.wf(),
        ensures
            sym is Some <==> self.symbols().contains(text@),
            sym matches Some(s) ==> s.index < self.symbols().len() && self.symbols()[s.index as int] == text@,
    {
        self.interner.get(text)
    }

    /// The text that `sym` stands for; `UnknownSymbol` for a foreign handle.
    pub fn resolve(&self, sym: Symbol) -> (text: Result<String, Error>)
        requires
            self.wf(),
        ensures
            text is Ok <==> sym.index < self.symbols().len(),
            text matches Ok(t) ==> t@ == self.symbols()[sym.index as int],
            text matches Err(e) ==> e == Error::UnknownSymbol,
    {
        match self.interner.resolve(sym) {
            Some(t) => Ok(t),
            None => Err(Error::UnknownSymbol),
        }
    }

    /// A copy of the value bound to `sym`, if any.
    pub fn binding(&self, sym: Symbol) -> (v: Option<Expr>)
        requires
            self.wf(),
        ensures
            v is Some <==> self.bindings().contains_key(sym.index),
            v matches Some(x) ==> x == self.bindings()[sym.index],
    {
        match self.vars.get(&sym.index) {
            Some(x) => Some(copy_atom(x)),
            None => None,
        }
    }
}

/// A copy of a number or an operator.
fn copy_atom(e: &Expr) -> (r: Expr)
    requires
        is_atom(*e),
    ensures
        r == *e,
{
    match e {
        Expr::Num(n) => Expr::Num(*n),
        Expr::PrimOp(op) => Expr::PrimOp(*op),
        _ => Expr::Num(0),
    }
}

/// Builds the environment: `+` and `*` bound to the built-in operators, `e`
/// and `pi` to the constants.
pub fn env() -> (r: Env)
    ensures
        r.wf(),
        r.symbols() == seq!["+"@, "*"@, "e"@, "pi"@],
        r.bindings() == map![
            0usize => Expr::PrimOp(Builtin::Add),
            1usize => Expr::PrimOp(Builtin::Mul),
            2usize => Expr::Num(EULER),
            3usize => Expr::Num(PI),
        ],
{
    let mut interner = SymbolTable::new();
    proof {
        reveal_strlit("+");
        reveal_strlit("*");
        reveal_strlit("e");
        reveal_strlit("pi");
    }
    let add = interner.intern("+");
    assert(!interner@.contains("*"@)) by {
        assert(interner@ =~= seq!["+"@]);
        assert("*"@[0] != "+"@[0]);
    }
    let mul = interner.intern("*");
    assert(!interner@.contains("e"@)) by {
        assert(interner@ =~= seq!["+"@, "*"@]);
        assert("e"@[0] != "+"@[0]);
        assert("e"@[0] != "*"@[0]);
    }
    let e = interner.intern("e");
    assert(!interner@.contains("pi"@)) by {
        assert(interner@ =~= seq!["+"@, "*"@, "e"@]);
        assert("pi"@.len() != "+"@.len());
        assert("pi"@.len() != "*"@.len());
        assert("pi"@.len() != "e"@.len());
    }
    let pi = interner.intern("pi");
    assert(interner@ =~= seq!["+"@, "*"@, "e"@, "pi"@]);
    let mut vars: HashMap<usize, Expr> = HashMap::new();
    vars.insert(add.index, Expr::PrimOp(Builtin::Add));
    vars.insert(mul.index, Expr::PrimOp(Builtin::Mul));
    vars.insert(e.index, Expr::Num(EULER));
    vars.insert(pi.index, Expr::Num(PI));
    let r = Env { vars, interner };
    assert(r.bindings() =~= map![
        0usize => Expr::PrimOp(Builtin::Add),
        1usize => Expr::PrimOp(Builtin::Mul),
        2usize => Expr::Num(EULER),
        3usize => Expr::Num(PI),
    ]);
    r
}

/// Evaluates `expr` once: numbers and operators are values, a bound variable
/// gives its binding and a free one stays as it is, an application is
/// handed to [`apply`].
pub fn eval(env: &Env, expr: &Expr) -> (r: Result<Expr, Error>)
    requires
        env.wf(),
    ensures
        r == eval_spec(env.bindings(), *expr),
    decreases size(*expr), 1nat,
{
    match expr {
        Expr::Num(n) => Ok(Expr::Num(*n)),
        Expr::Var(s) => match env.vars.get(&s.index) {
            Some(v) => Ok(copy_atom(v)),
            None => Ok(Expr::Var(*s)),
        },
        Expr::App(f, args) => apply(env, f, args),
        Expr::PrimOp(op) => Ok(Expr::PrimOp(*op)),
    }
}

/// Evaluates the operator `f`, which must give a primitive operator, then
/// each argument left to right, and invokes the operator on the results.
pub fn apply(env: &Env, f: &Expr, args: &Vec<Expr>) -> (r: Result<Expr, Error>)
    requires
        env.wf(),
    ensures
        r == apply_spec(env.bindings(), *f, args@),
    decreases size(*f) + size_all(args@) + 1, 0nat,
{
    match eval(env, f) {
        Ok(Expr::PrimOp(op)) => {
            let ghost vars = env.bindings();
            let mut vals: Vec<Expr> = Vec::new();
            let mut i: usize = 0;
            while i < args.len()
                invariant
                    env.wf(),
                    vars == env.bindings(),
                    eval_spec(vars, *f) == Ok::<Expr, Error>(Expr::PrimOp(op)),
                    i <= args.len(),
                    eval_all(vars, args@.subrange(0, i as int)) == Ok::<Seq<Expr>, Error>(vals@),
                decreases args.len() - i,
            {
                let ghost next = args@.subrange(0, i + 1);
                assert(next.subrange(0, i as int) =~= args@.subrange(0, i as int));
                assert(next[i as int] == args@[i as int]);
                proof {
                    lemma_size_elem(args@, i as int);
                }
                match eval(env, &args[i]) {
                    Ok(v) => {
                        vals.push(v);
                    },
                    Err(e) => {
                        proof {
                            assert(eval_all(vars, next) == Err::<Seq<Expr>, Error>(e));
                            lemma_eval_all_prefix_err(vars, args@, i + 1);
                        }
                        return Err(e);
                    },
                }
                i = i + 1;
            }
            assert(args@.subrange(0, args@.len() as int) =~= args@);
            op.call(&vals)
        },
        Ok(_) => Err(Error::NotCallable),
        Err(e) => Err(e),
    }
}

} // verus!

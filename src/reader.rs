//! Reads the textual form of an expression: a number, an identifier, or a
//! parenthesised list whose first item is the operator.
use vstd::prelude::*;

use crate::eval::Env;
use crate::expr::Expr;
use crate::symbol::interned_as;

verus! {

/// The shape of a text read with the grammar, before atoms are looked at.
pub enum Tree {
    Atom(Seq<char>),
    List(Seq<Tree>),
}

/// The text is not one well-formed expression, or an atom that starts like
/// a number is not one.
#[derive(Clone, Copy, Debug, PartialEq, Eq, Structural)]
pub struct ParseError;

/// The binary64 value of a numeric literal, rounded to nearest, or `None`
/// for text that is not one.
pub uninterp spec fn number_of(s: Seq<char>) -> Option<u64>;

/// Relies on `rustc_apfloat::Float::from_str_r` on `ieee::Double` with
/// `Round::NearestTiesToEven`: the value of a literal, a function of the text
/// alone.
#[verifier::external_body]
fn read_number(s: &str) -> (r: Option<u64>)
    ensures
        r == number_of(s@),
{
    let parsed = <rustc_apfloat::ieee::Double as rustc_apfloat::Float>::from_str_r(
        s,
        rustc_apfloat::Round::NearestTiesToEven,
    );
    match parsed {
        Ok(v) => Some(rustc_apfloat::Float::to_bits(v.value) as u64),
        Err(_) => None,
    }
}

pub open spec fn is_space(c: char) -> bool {
    c == ' ' || c == '\t' || c == '\n' || c == '\r'
}

pub open spec fn is_delim(c: char) -> bool {
    is_space(c) || c == '(' || c == ')'
}

pub open spec fn is_digit(c: char) -> bool {
    '0' <= c && c <= '9'
}

/// An atom is a numeric literal when it starts with a digit, or with `-`,
/// `+` or `.` followed by a digit.
pub open spec fn looks_numeric(a: Seq<char>) -> bool {
    ||| a.len() >= 1 && is_digit(a[0])
    ||| a.len() >= 2 && (a[0] == '-' || a[0] == '+' || a[0] == '.') && is_digit(a[1])
}

/// The first position at or after `i` that does not hold white space.
pub open spec fn skip_space(s: Seq<char>, i: int) -> int
    decreases s.len() - i,
{
    if i < 0 || i >= s.len() || !is_space(s[i]) {
        i
    } else {
        skip_space(s, i + 1)
    }
}

/// The first position at or after `i` that holds a delimiter.
pub open spec fn atom_end(s: Seq<char>, i: int) -> int
    decreases s.len() - i,
{
    if i < 0 || i >= s.len() || is_delim(s[i]) {
        i
    } else {
        atom_end(s, i + 1)
    }
}

proof fn lemma_skip_space(s: Seq<char>, i: int)
    ensures
        i <= skip_space(s, i),
        0 <= i <= s.len() ==> skip_space(s, i) <= s.len(),
        0 <= i && skip_space(s, i) < s.len() ==> !is_space(s[skip_space(s, i)]),
    decreases s.len() - i,
{
    if 0 <= i < s.len() && is_space(s[i]) {
        lemma_skip_space(s, i + 1);
    }
}

proof fn lemma_atom_end(s: Seq<char>, i: int)
    ensures
        i <= atom_end(s, i),
        0 <= i <= s.len() ==> atom_end(s, i) <= s.len(),
    decreases s.len() - i,
{
    if 0 <= i < s.len() && !is_delim(s[i]) {
        lemma_atom_end(s, i + 1);
    }
}

#[via_fn]
proof fn read_tree_decreases(s: Seq<char>, i: int) {
    lemma_skip_space(s, i);
}

#[via_fn]
proof fn read_items_decreases(s: Seq<char>, i: int) {
    lemma_skip_space(s, i);
}

/// One expression read from position `i`, and the position after it.
pub open spec fn read_tree(s: Seq<char>, i: int) -> Option<(Tree, int)>
    decreases s.len() - i, 0nat via read_tree_decreases
{
    let j = skip_space(s, i);
    if i < 0 || j >= s.len() || s[j] == ')' {
        None
    } else if s[j] == '(' {
        match read_items(s, j + 1) {
            Some((items, k)) => if items.len() >= 1 {
                Some((Tree::List(items), k))
            } else {
                None
            },
            None => None,
        }
    } else {
        let k = atom_end(s, j);
        Some((Tree::Atom(s.subrange(j, k)), k))
    }
}

/// The items of a list read from position `i` up to and past its closing
/// parenthesis.
pub open spec fn read_items(s: Seq<char>, i: int) -> Option<(Seq<Tree>, int)>
    decreases s.len() - i, 1nat via read_items_decreases
{
    let j = skip_space(s, i);
    if i < 0 || j >= s.len() {
        None
    } else if s[j] == ')' {
        Some((Seq::empty(), j + 1))
    } else {
        match read_tree(s, j) {
            // An expression read from `j` always ends past `j` and within `s`;
            // the test only lets the definition show that it terminates.
            Some((t, k)) => if k <= j || k > s.len() {
                None
            } else {
                match read_items(s, k) {
                    Some((ts, m)) => Some((seq![t] + ts, m)),
                    None => None,
                }
            },
            None => None,
        }
    }
}

/// The whole text read as one expression with nothing but white space after.
pub open spec fn read_text(s: Seq<char>) -> Option<Tree> {
    match read_tree(s, 0) {
        Some((t, k)) => if skip_space(s, k) == s.len() {
            Some(t)
        } else {
            None
        },
        None => None,
    }
}

/// Whether every numeric atom of `t` is a number.
pub open spec fn numbers_read(t: Tree) -> bool
    decreases t,
{
    match t {
        Tree::Atom(a) => looks_numeric(a) ==> number_of(a) is Some,
        Tree::List(items) => forall|i: int| 0 <= i < items.len() ==> numbers_read(#[trigger] items[i]),
    }
}

/// `e` is what `t` stands for when identifiers are handles into `syms`.
pub open spec fn denotes(syms: Seq<Seq<char>>, t: Tree, e: Expr) -> bool
    decreases e,
{
    match e {
        Expr::Num(b) => t matches Tree::Atom(a) && looks_numeric(a) && number_of(a) == Some(b),
        Expr::Var(x) => t matches Tree::Atom(a) && !looks_numeric(a) && x.index < syms.len()
            && syms[x.index as int] == a,
        Expr::App(f, args) => t matches Tree::List(items) && items.len() == args@.len() + 1
            && denotes(syms, items[0], *f) && forall|i: int|
            0 <= i < args@.len() ==> denotes(syms, items[i + 1], #[trigger] args@[i]),
        Expr::PrimOp(_) => false,
    }
}


/// `b` keeps every handle of `a`, and may add more after them.
pub open spec fn extends(a: Seq<Seq<char>>, b: Seq<Seq<char>>) -> bool {
    a.len() <= b.len() && forall|i: int| 0 <= i < a.len() ==> b[i] == a[i]
}

proof fn lemma_denotes_extends(a: Seq<Seq<char>>, b: Seq<Seq<char>>, t: Tree, e: Expr)
    requires
        extends(a, b),
        denotes(a, t, e),
    ensures
        denotes(b, t, e),
    decreases e,
{
    if let Expr::App(f, args) = e {
        if let Tree::List(items) = t {
            lemma_denotes_extends(a, b, items[0], *f);
            assert forall|i: int| 0 <= i < args@.len() implies denotes(b, items[i + 1], #[trigger] args@[i]) by {
                lemma_denotes_extends(a, b, items[i + 1], args@[i]);
            }
        }
    }
}

fn is_space_char(c: char) -> (r: bool)
    ensures
        r == is_space(c),
{
    c == ' ' || c == '\t' || c == '\n' || c == '\r'
}

fn is_delim_char(c: char) -> (r: bool)
    ensures
        r == is_delim(c),
{
    is_space_char(c) || c == '(' || c == ')'
}

fn is_digit_char(c: char) -> (r: bool)
    ensures
        r == is_digit(c),
{
    '0' <= c && c <= '9'
}

fn looks_numeric_str(a: &str) -> (r: bool)
    ensures
        r == looks_numeric(a@),
{
    let n = a.unicode_len();
    if n >= 1 && is_digit_char(a.get_char(0)) {
        true
    } else if n >= 2 {
        let c = a.get_char(0);
        (c == '-' || c == '+' || c == '.') && is_digit_char(a.get_char(1))
    } else {
        false
    }
}

fn skip_space_at(text: &str, n: usize, i: usize) -> (j: usize)
    requires
        n == text@.len(),
        i <= n,
    ensures
        j == skip_space(text@, i as int),
        i <= j <= n,
{
    let mut j = i;
    while j < n && is_space_char(text.get_char(j))
        invariant
            n == text@.len(),
            i <= j <= n,
            skip_space(text@, i as int) == skip_space(text@, j as int),
        decreases n - j,
    {
        j = j + 1;
    }
    j
}

fn atom_end_at(text: &str, n: usize, i: usize) -> (j: usize)
    requires
        n == text@.len(),
        i <= n,
    ensures
        j == atom_end(text@, i as int),
        i <= j <= n,
{
    let mut j = i;
    while j < n && !is_delim_char(text.get_char(j))
        invariant
            n == text@.len(),
            i <= j <= n,
            atom_end(text@, i as int) == atom_end(text@, j as int),
        decreases n - j,
    {
        j = j + 1;
    }
    j
}

/// What reading one expression from `i` must give: the expression for the
/// tree that the grammar reads there, and the position after it.
pub open spec fn tree_read_as(
    syms: Seq<Seq<char>>,
    s: Seq<char>,
    i: int,
    r: Option<(Expr, usize)>,
) -> bool {
    match read_tree(s, i) {
        Some((t, k)) => if numbers_read(t) {
            r matches Some((e, k2)) && k2 == k && denotes(syms, t, e)
        } else {
            r is None
        },
        None => r is None,
    }
}

/// What reading the rest of a list from `i` must give.
pub open spec fn items_read_as(
    syms: Seq<Seq<char>>,
    s: Seq<char>,
    i: int,
    r: Option<(Vec<Expr>, usize)>,
) -> bool {
    match read_items(s, i) {
        Some((ts, k)) => if forall|j: int| 0 <= j < ts.len() ==> numbers_read(#[trigger] ts[j]) {
            r matches Some((v, k2)) && k2 == k && v@.len() == ts.len() && forall|j: int|
                0 <= j < ts.len() ==> denotes(syms, ts[j], #[trigger] v@[j])
        } else {
            r is None
        },
        None => r is None,
    }
}

fn read_tree_at(env: &mut Env, text: &str, n: usize, i: usize) -> (r: Option<(Expr, usize)>)
    requires
        old(env).wf(),
        n == text@.len(),
        i <= n,
        old(env).symbols().len() + (n - i) < u32::MAX,
    ensures
        final(env).wf(),
        final(env).bindings() == old(env).bindings(),
        extends(old(env).symbols(), final(env).symbols()),
        tree_read_as(final(env).symbols(), text@, i as int, r),
        r matches Some((_, k)) ==> i < k <= n && final(env).symbols().len() <= old(env).symbols().len() + (k - i),
    decreases n - i, 0nat,
{
    let j = skip_space_at(text, n, i);
    proof {
        lemma_skip_space(text@, i as int);
    }
    if j >= n || text.get_char(j) == ')' {
        return None;
    }
    if text.get_char(j) == '(' {
        match read_items_at(env, text, n, j + 1) {
            Some((items, k)) => {
                if items.len() >= 1 {
                    let mut args = items;
                    let ghost before = args@;
                    let f = args.remove(0);
                    let ghost syms = env.symbols();
                    let ghost ts = read_items(text@, j + 1)->Some_0.0;
                    assert forall|m: int| 0 <= m < args@.len() implies denotes(syms, ts[m + 1], #[trigger] args@[m]) by {
                        assert(args@[m] == before[m + 1]);
                    }
                    assert(numbers_read(Tree::List(ts)));
                    assert(denotes(syms, Tree::List(ts), Expr::App(Box::new(f), args)));
                    Some((Expr::App(Box::new(f), args), k))
                } else {
                    None
                }
            },
            None => None,
        }
    } else {
        let k = atom_end_at(text, n, j);
        proof {
            lemma_atom_end(text@, j + 1);
            assert(k > j);
        }
        let a = text.substring_char(j, k);
        assert(read_tree(text@, i as int) == Some((Tree::Atom(a@), k as int)));
        if looks_numeric_str(a) {
            match read_number(a) {
                Some(b) => {
                    assert(denotes(env.symbols(), Tree::Atom(a@), Expr::Num(b)));
                    Some((Expr::Num(b), k))
                },
                None => None,
            }
        } else {
            let ghost old_syms = env.symbols();
            let sym = env.intern(a);
            assert(extends(old_syms, env.symbols()));
            assert(denotes(env.symbols(), Tree::Atom(a@), Expr::Var(sym)));
            assert(numbers_read(Tree::Atom(a@)));
            Some((Expr::Var(sym), k))
        }
    }
}

fn read_items_at(env: &mut Env, text: &str, n: usize, i: usize) -> (r: Option<(Vec<Expr>, usize)>)
    requires
        old(env).wf(),
        n == text@.len(),
        i <= n,
        old(env).symbols().len() + (n - i) < u32::MAX,
    ensures
        final(env).wf(),
        final(env).bindings() == old(env).bindings(),
        extends(old(env).symbols(), final(env).symbols()),
        items_read_as(final(env).symbols(), text@, i as int, r),
        r matches Some((_, k)) ==> i < k <= n && final(env).symbols().len() <= old(env).symbols().len() + (k - i),
    decreases n - i, 1nat,
{
    let j = skip_space_at(text, n, i);
    if j >= n {
        return None;
    }
    if text.get_char(j) == ')' {
        let v: Vec<Expr> = Vec::new();
        return Some((v, j + 1));
    }
    let ghost syms0 = env.symbols();
    match read_tree_at(env, text, n, j) {
        Some((e, k)) => {
            let ghost syms1 = env.symbols();
            match read_items_at(env, text, n, k) {
                Some((rest, m)) => {
                    let ghost syms2 = env.symbols();
                    let ghost t = read_tree(text@, j as int)->Some_0.0;
                    let ghost ts = read_items(text@, k as int)->Some_0.0;
                    let mut v = rest;
                    let ghost tail = v@;
                    v.insert(0, e);
                    proof {
                        lemma_denotes_extends(syms1, syms2, t, e);
                        assert forall|p: int| 0 <= p < v@.len() implies denotes(syms2, (seq![t] + ts)[p], #[trigger] v@[p]) by {
                            if p > 0 {
                                assert(v@[p] == tail[p - 1]);
                            }
                        }
                        assert forall|p: int| 0 <= p < ts.len() implies numbers_read(#[trigger] ts[p]) by {
                            assert(ts[p] == (seq![t] + ts)[p + 1]);
                        }
                    }
                    Some((v, m))
                },
                None => {
                    proof {
                        let t = read_tree(text@, j as int)->Some_0.0;
                        if let Some((ts, _)) = read_items(text@, k as int) {
                            if forall|p: int| 0 <= p < ts.len() ==> numbers_read(#[trigger] ts[p]) {
                            } else {
                                let p = choose|p: int| 0 <= p < ts.len() && !numbers_read(#[trigger] ts[p]);
                                assert((seq![t] + ts)[p + 1] == ts[p]);
                            }
                        }
                    }
                    None
                },
            }
        },
        None => {
            proof {
                if let Some((t, k)) = read_tree(text@, j as int) {
                    if let Some((ts, _)) = read_items(text@, k) {
                        assert((seq![t] + ts)[0] == t);
                    }
                }
            }
            None
        },
    }
}

/// Reads `text` as one expression, interning its identifiers into `env`.
/// Fails when the text is not one well-formed expression, or when an atom
/// that starts like a number is not one.
pub fn parse(env: &mut Env, text: &str) -> (r: Result<Expr, ParseError>)
    requires
        old(env).wf(),
        old(env).symbols().len() + text@.len() < u32::MAX,
    ensures
        final(env).wf(),
        final(env).bindings() == old(env).bindings(),
        extends(old(env).symbols(), final(env).symbols()),
        r is Ok <==> (read_text(text@) matches Some(t) && numbers_read(t)),
        r matches Ok(e) ==> (read_text(text@) matches Some(t) && denotes(final(env).symbols(), t, e)),
{
    let n = text.unicode_len();
    match read_tree_at(env, text, n, 0) {
        Some((e, k)) => {
            if skip_space_at(text, n, k) == n {
                Ok(e)
            } else {
                Err(ParseError)
            }
        },
        None => Err(ParseError),
    }
}

} // verus!

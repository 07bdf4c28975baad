use vstd::prelude::*;

verus! {

#[verifier::external_type_specification]
#[verifier::external_body]
#[verifier::reject_recursive_types(K)]
#[verifier::reject_recursive_types(S)]
pub struct ExRodeo<K, S>(lasso::Rodeo<K, S>);

#[verifier::external_type_specification]
#[verifier::external_body]
pub struct ExSpur(lasso::Spur);

/// The strings held by an interner, in the order in which they were first
/// interned: the string at position `i` is the one whose key is `i`.
pub uninterp spec fn interned(r: lasso::Rodeo) -> Seq<Seq<char>>;

/// Relies on `lasso::Rodeo::new`: a fresh interner holds no strings.
#[verifier::external_body]
fn rodeo_new() -> (r: lasso::Rodeo)
    ensures
        interned(r) == Seq::<Seq<char>>::empty(),
{
    lasso::Rodeo::new()
}

/// Relies on `lasso::Rodeo::get_or_intern` and `lasso::Key::into_usize`: a
/// string already held gives back its key and changes nothing; a new one is
/// appended and its key is its position. The key space of `Spur` ends below
/// `u32::MAX`, where the call would panic.
#[verifier::external_body]
fn rodeo_get_or_intern(r: &mut lasso::Rodeo, text: &str) -> (k: usize)
    requires
        interned(*old(r)).contains(text@) || interned(*old(r)).len() < u32::MAX,
    ensures
        interned(*old(r)).contains(text@) ==> {
            &&& interned(*final(r)) == interned(*old(r))
            &&& k < interned(*old(r)).len()
            &&& interned(*old(r))[k as int] == text@
        },
        !interned(*old(r)).contains(text@) ==> {
            &&& interned(*final(r)) == interned(*old(r)).push(text@)
            &&& k == interned(*old(r)).len()
        },
{
    lasso::Key::into_usize(r.get_or_intern(text))
}

/// Relies on `lasso::Rodeo::len`: the number of strings held.
#[verifier::external_body]
fn rodeo_len(r: &lasso::Rodeo) -> (n: usize)
    ensures
        n == interned(*r).len(),
{
    r.len()
}

/// Relies on `lasso::Rodeo::get` and `lasso::Key::into_usize`: the key of a
/// string that is held, and `None` for one that is not.
#[verifier::external_body]
fn rodeo_get(r: &lasso::Rodeo, text: &str) -> (k: Option<usize>)
    ensures
        k is Some <==> interned(*r).contains(text@),
        k matches Some(i) ==> i < interned(*r).len() && interned(*r)[i as int] == text@,
{
    r.get(text).map(lasso::Key::into_usize)
}

/// Relies on `lasso::Key::try_from_usize` and `lasso::Rodeo::try_resolve`: the
/// string at a position that is held, and `None` past the end.
#[verifier::external_body]
fn rodeo_try_resolve(r: &lasso::Rodeo, index: usize) -> (res: Option<String>)
    ensures
        res is Some <==> (index < interned(*r).len() && index < u32::MAX),
        res matches Some(t) ==> t@ == interned(*r)[index as int],
{
    let key: Option<lasso::Spur> = lasso::Key::try_from_usize(index);
    match key {
        Some(key) => r.try_resolve(&key).map(String::from),
        None => None,
    }
}

/// A handle for an identifier, given out by a [`SymbolTable`].
#[derive(Clone, Copy, Debug, PartialEq, Eq, Structural, Hash, PartialOrd, Ord)]
pub struct Symbol {
    pub index: usize,
}

/// Maps identifier text to dense handles and back.
pub struct SymbolTable {
    rodeo: lasso::Rodeo,
}

impl View for SymbolTable {
    type V = Seq<Seq<char>>;

    closed spec fn view(&self) -> Seq<Seq<char>> {
        interned(self.rodeo)
    }
}

/// Interning `text` into a table whose strings were `before` left them as
/// `after` and gave `sym`: a text already held keeps its handle and changes
/// nothing, a new one is appended.
pub open spec fn interned_as(
    before: Seq<Seq<char>>,
    text: Seq<char>,
    after: Seq<Seq<char>>,
    sym: Symbol,
) -> bool {
    &&& before.contains(text) ==> after == before
    &&& !before.contains(text) ==> after == before.push(text)
    &&& sym.index < after.len()
    &&& after[sym.index as int] == text
}

impl SymbolTable {
    /// Each text is held at most once, and every position has a key.
    pub open spec fn wf(&self) -> bool {
        &&& self@.no_duplicates()
        &&& self@.len() <= u32::MAX
    }

    /// Whether `sym` was given out by this table.
    pub open spec fn owns(&self, sym: Symbol) -> bool {
        sym.index < self@.len()
    }

    pub fn new() -> (t: SymbolTable)
        ensures
            t.wf(),
            t@ == Seq::<Seq<char>>::empty(),
    {
        SymbolTable { rodeo: rodeo_new() }
    }

    /// The number of texts held.
    pub fn len(&self) -> (n: usize)
        requires
            self.wf(),
        ensures
            n == self@.len(),
    {
        rodeo_len(&self.rodeo)
    }

    /// The handle of `text`, made on its first use.
    pub fn intern(&mut self, text: &str) -> (sym: Symbol)
        requires
            old(self).wf(),
            old(self)@.contains(text@) || old(self)@.len() < u32::MAX,
        ensures
            final(self).wf(),
            interned_as(old(self)@, text@, final(self)@, sym),
    {
        let k = rodeo_get_or_intern(&mut self.rodeo, text);
        proof {
            let s = interned(self.rodeo);
            if !old(self)@.contains(text@) {
                assert forall|i: int, j: int|
                    0 <= i < s.len() && 0 <= j < s.len() && i != j implies s[i] != s[j] by {
                    if i == s.len() - 1 {
                        assert(old(self)@.contains(s[j]));
                    } else if j == s.len() - 1 {
                        assert(old(self)@.contains(s[i]));
                    }
                }
            }
        }
        Symbol { index: k }
    }

    /// The handle of `text` if it has been interned.
    pub fn get(&self, text: &str) -> (sym: Option<Symbol>)
        requires
            self.wf(),
        ensures
            sym is Some <==> self@.contains(text@),
            sym matches Some(s) ==> s.index < self@.len() && self@[s.index as int] == text@,
    {
        match rodeo_get(&self.rodeo, text) {
            Some(k) => Some(Symbol { index: k }),
            None => None,
        }
    }

    /// The text that `sym` stands for; `None` for a handle that this table
    /// did not give out.
    pub fn resolve(&self, sym: Symbol) -> (text: Option<String>)
        requires
            self.wf(),
        ensures
            text is Some <==> self.owns(sym),
            text matches Some(t) ==> t@ == self@[sym.index as int],
    {
        rodeo_try_resolve(&self.rodeo, sym.index)
    }
}

} // verus!

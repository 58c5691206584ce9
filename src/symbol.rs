//! Interned identifiers.
use vstd::prelude::*;
use vstd::string::StringExecFns;

verus! {

/// A handle for an identifier interned in a `SymbolPool`. Equality is by handle.
#[derive(Clone, Copy, Debug, PartialEq, Eq, Structural, PartialOrd, Ord, Hash)]
pub struct Symbol(pub usize);

/// Owns the canonical text of every symbol; a symbol's handle is its index here.
pub struct SymbolPool {
    pub names: Vec<String>,
}

impl SymbolPool {
    pub open spec fn view(&self) -> Seq<Seq<char>> {
        Seq::new(self.names@.len(), |i: int| self.names@[i]@)
    }

    /// No text is interned twice.
    pub open spec fn wf(&self) -> bool {
        forall|i: int, j: int|
            0 <= i < j < self.names@.len() ==> self.names@[i]@ != self.names@[j]@
    }

    pub fn new() -> (r: SymbolPool)
        ensures
            r@ == Seq::<Seq<char>>::empty(),
            r.wf(),
    {
        SymbolPool { names: Vec::new() }
    }

    /// Returns the symbol for `s`, interning it if it is new.
    pub fn make(&mut self, s: &str) -> (r: Symbol)
        requires
            old(self).wf(),
        ensures
            final(self).wf(),
            r.0 < final(self)@.len(),
            final(self)@[r.0 as int] == s@,
            old(self)@.contains(s@) ==> final(self)@ == old(self)@,
            !old(self)@.contains(s@) ==> final(self)@ == old(self)@.push(s@),
    {
        let owned: String = <String as StringExecFns>::from_str(s);
        let mut i: usize = 0;
        while i < self.names.len()
            invariant
                self.wf(),
                owned@ == s@,
                i <= self.names@.len(),
                forall|j: int| 0 <= j < i ==> self.names@[j]@ != s@,
            decreases self.names@.len() - i,
        {
            if self.names[i].eq(&owned) {
                assert(self@[i as int] == s@);
                return Symbol(i);
            }
            i += 1;
        }
        proof {
            assert forall|j: int| 0 <= j < self@.len() implies self@[j] != s@ by {}
        }
        self.names.push(owned);
        proof {
            assert(self@ =~= old(self)@.push(s@));
        }
        Symbol(i)
    }

    /// The text of a symbol.
    pub fn string(&self, sym: Symbol) -> (r: &String)
        requires
            sym.0 < self@.len(),
        ensures
            r@ == self@[sym.0 as int],
    {
        &self.names[sym.0]
    }
}

} // verus!

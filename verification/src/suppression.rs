use vstd::prelude::*;
use vstd::string::StringExecFns;
use crate::token::{range_contains, token_in_range, StrTable, Token, TokenRange};

verus! {

/// A named class of check that an explicit suppression block can
/// disable for the source positions it encloses.
#[derive(Clone, Copy, Debug, PartialEq, Eq, Structural)]
pub enum Unsafe {
    Pdc,
}

/// Failure to recognise the name of a suppression block.
#[derive(Clone, Copy, Debug, PartialEq, Eq, Structural)]
pub enum UnsafeError {
    UnknownUnsafe,
}

impl Unsafe {
    /// Recognises the name written in a suppression block; `pdc` names
    /// the power-domain-crossing check.
    pub fn from_name(name: &str) -> (r: Result<Unsafe, UnsafeError>)
        ensures
            name@ == "pdc"@ ==> r == Result::<Unsafe, UnsafeError>::Ok(Unsafe::Pdc),
            name@ != "pdc"@ ==> r == Result::<Unsafe, UnsafeError>::Err(
                UnsafeError::UnknownUnsafe,
            ),
    {
        let pat = String::from_str("pdc");
        let key = String::from_str(name);
        if key == pat {
            Ok(Unsafe::Pdc)
        } else {
            Err(UnsafeError::UnknownUnsafe)
        }
    }
}

/// Whether the table holds a suppression of `kind` whose recorded span
/// encloses the position of `tok`.
pub open spec fn suppressed(entries: Seq<(Unsafe, TokenRange)>, tok: Token, kind: Unsafe) -> bool {
    exists|i: int|
        0 <= i < entries.len() && entries[i].0 == kind && range_contains(entries[i].1, tok)
}

/// Records source spans explicitly marked to suppress a named class of
/// check.
pub struct UnsafeTable {
    pub entries: Vec<(Unsafe, TokenRange)>,
}

impl UnsafeTable {
    pub fn new() -> (t: UnsafeTable)
        ensures
            t.entries@.len() == 0,
    {
        UnsafeTable { entries: Vec::new() }
    }

    /// Records one suppression block.
    pub fn insert(&mut self, kind: Unsafe, range: TokenRange)
        ensures
            final(self).entries@ == old(self).entries@.push((kind, range)),
    {
        self.entries.push((kind, range));
    }

    /// Whether a token's position lies inside a recorded suppression of
    /// the given kind.
    pub fn contains(&self, tok: &Token, kind: Unsafe) -> (b: bool)
        ensures
            b == suppressed(self.entries@, *tok, kind),
    {
        let n = self.entries.len();
        for i in 0..n
            invariant
                n == self.entries@.len(),
                forall|j: int|
                    0 <= j < i ==> !(self.entries@[j].0 == kind && range_contains(
                        self.entries@[j].1,
                        *tok,
                    )),
        {
            let e = &self.entries[i];
            if e.0 == kind && token_in_range(&e.1, tok) {
                return true;
            }
        }
        false
    }

    /// Forgets every recorded suppression.
    pub fn clear(&mut self)
        ensures
            final(self).entries@.len() == 0,
    {
        self.entries = Vec::new();
    }
}

} // verus!

use vstd::prelude::*;
use vstd::string::StringExecFns;

verus! {

/// Identifier of an interned string.
pub type StrId = u64;

/// A source token: the interned text plus its position in the source file.
#[derive(Clone, Copy, Debug, PartialEq, Eq, Structural)]
pub struct Token {
    pub text: StrId,
    pub line: u32,
    pub column: u32,
    pub length: u32,
}

/// A source span, from the first to the last token of a construct.
#[derive(Clone, Copy, Debug, PartialEq, Eq, Structural)]
pub struct TokenRange {
    pub beg: Token,
    pub end: Token,
}

impl Token {
    pub fn new(text: StrId, line: u32, column: u32, length: u32) -> (t: Token)
        ensures
            t == (Token { text, line, column, length }),
    {
        Token { text, line, column, length }
    }

    /// A zero-width span at this token.
    pub fn range(&self) -> (r: TokenRange)
        ensures
            r == (TokenRange { beg: *self, end: *self }),
    {
        TokenRange { beg: *self, end: *self }
    }
}

impl TokenRange {
    pub fn new(beg: Token, end: Token) -> (r: TokenRange)
        ensures
            r == (TokenRange { beg, end }),
    {
        TokenRange { beg, end }
    }
}

/// Source positions ordered by line, then column.
pub open spec fn pos_le(line0: u32, col0: u32, line1: u32, col1: u32) -> bool {
    line0 < line1 || (line0 == line1 && col0 <= col1)
}

/// Whether a token lies inside a span, going by position.
pub open spec fn range_contains(r: TokenRange, t: Token) -> bool {
    pos_le(r.beg.line, r.beg.column, t.line, t.column) && pos_le(
        t.line,
        t.column,
        r.end.line,
        r.end.column,
    )
}

/// Exec check matching `range_contains`.
pub fn token_in_range(r: &TokenRange, t: &Token) -> (b: bool)
    ensures
        b == range_contains(*r, *t),
{
    let after_beg = r.beg.line < t.line || (r.beg.line == t.line && r.beg.column <= t.column);
    let before_end = t.line < r.end.line || (t.line == r.end.line && t.column <= r.end.column);
    after_beg && before_end
}

/// The string interner for one compilation session: maps each distinct
/// string to a stable id, which is its index in insertion order.
pub struct StrTable {
    pub names: Vec<String>,
}

/// The characters of an interned id, and the empty sequence for an id
/// the table never handed out.
pub open spec fn name_view(t: StrTable, id: StrId) -> Seq<char> {
    if id < t.names@.len() {
        t.names@[id as int]@
    } else {
        Seq::empty()
    }
}

impl StrTable {
    /// Whether an id is valid for this table.
    pub open spec fn valid_id(&self, id: StrId) -> bool {
        id < self.names@.len()
    }

    pub fn new() -> (t: StrTable)
        ensures
            t.names@.len() == 0,
    {
        StrTable { names: Vec::new() }
    }

    /// Interns a string: returns the id it already has, or appends it.
    /// The id returned always refers to `s`.
    pub fn insert_str(&mut self, s: &str) -> (id: StrId)
        requires
            old(self).names@.len() < u64::MAX,
        ensures
            final(self).valid_id(id),
            final(self).names@[id as int]@ == s@,
            old(self).names@.len() <= final(self).names@.len() <= old(self).names@.len() + 1,
            forall|j: int|
                0 <= j < old(self).names@.len() ==> final(self).names@[j] == old(self).names@[j],
            (exists|j: int| 0 <= j < old(self).names@.len() && old(self).names@[j]@ == s@)
                ==> final(self).names@ == old(self).names@,
    {
        let key = String::from_str(s);
        let n = self.names.len();
        for i in 0..n
            invariant
                n == self.names@.len(),
                key@ == s@,
                self.names@ == old(self).names@,
                forall|j: int| 0 <= j < i ==> self.names@[j]@ != s@,
        {
            if self.names[i] == key {
                return i as u64;
            }
        }
        self.names.push(key);
        n as u64
    }

    /// The string of an id, and the empty string for an id this table
    /// never handed out.
    pub fn get_name(&self, id: StrId) -> (s: &str)
        ensures
            s@ == name_view(*self, id),
    {
        proof {
            assert(self.names.len() == self.names@.len());
        }
        if id < self.names.len() as u64 {
            self.names[id as usize].as_str()
        } else {
            let e = "";
            proof {
                reveal_strlit("");
                assert(e@ =~= Seq::<char>::empty());
            }
            e
        }
    }

    /// The string of an id.
    pub fn get(&self, id: StrId) -> (s: &String)
        requires
            self.valid_id(id),
        ensures
            s == self.names@[id as int],
    {
        proof {
            assert(self.names.len() == self.names@.len());
        }
        &self.names[id as usize]
    }
}

} // verus!

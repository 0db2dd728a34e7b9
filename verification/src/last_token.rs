use vstd::prelude::*;
use crate::token::Token;

verus! {

/// A walker that remembers the last token it visited.
pub struct LastToken {
    pub token: Option<Token>,
}

impl LastToken {
    pub fn new() -> (t: LastToken)
        ensures
            t.token is None,
    {
        LastToken { token: None }
    }

    /// The last token seen so far.
    pub fn token(&self) -> (r: &Option<Token>)
        ensures
            r == &self.token,
    {
        &self.token
    }

    /// Visits one token.
    pub fn veryla_token(&mut self, arg: &Token)
        ensures
            final(self).token == Option::Some(*arg),
    {
        self.token = Some(*arg);
    }

    /// Visits a token stream in order: afterwards the last token seen
    /// is the stream's last element.
    #[verifier::loop_isolation(false)]
    pub fn walk(&mut self, tokens: &Vec<Token>)
        ensures
            tokens@.len() > 0 ==> final(self).token == Option::Some(tokens@.last()),
            tokens@.len() == 0 ==> final(self).token == old(self).token,
    {
        let n = tokens.len();
        for i in 0..n
            invariant
                i > 0 ==> self.token == Option::Some(tokens@[i - 1]),
                i == 0 ==> self.token == old(self).token,
        {
            self.veryla_token(&tokens[i]);
        }
    }
}

} // verus!

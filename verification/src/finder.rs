use vstd::prelude::*;
use crate::ast::{ExprRef, HierIdent, ScopedIdent};
use crate::token::Token;

verus! {

/// Whether a token covers the source position (line, column).
pub open spec fn tok_hit(t: Token, line: u32, column: u32) -> bool {
    t.line == line && t.column <= column && column < t.column + t.length
}

/// The identifier tokens of a hierarchical reference, in source order.
pub open spec fn hier_tokens(h: HierIdent) -> Seq<Token> {
    seq![h.base.token] + h.members@.map_values(|m: crate::ast::HierMember| m.ident.token)
}

/// The identifier tokens of a scoped reference, in source order.
pub open spec fn scoped_tokens(s: ScopedIdent) -> Seq<Token> {
    seq![s.base.token] + s.path@.map_values(|id: crate::ast::Ident| id.token)
}

/// The identifier tokens of an expression reference, in source order.
pub open spec fn ref_tokens(r: ExprRef) -> Seq<Token> {
    r.scope@.map_values(|id: crate::ast::Ident| id.token) + seq![r.base.token]
        + r.members@.map_values(|m: crate::ast::HierMember| m.ident.token)
}

/// Whether any token of a group covers the position.
pub open spec fn any_hit(toks: Seq<Token>, line: u32, column: u32) -> bool {
    exists|i: int| 0 <= i < toks.len() && tok_hit(toks[i], line, column)
}

/// The last token of a group that covers the position.
pub open spec fn last_hit(toks: Seq<Token>, line: u32, column: u32) -> Option<Token>
    decreases toks.len(),
{
    if toks.len() == 0 {
        Option::None
    } else if tok_hit(toks.last(), line, column) {
        Option::Some(toks.last())
    } else {
        last_hit(toks.drop_last(), line, column)
    }
}

/// Finds the token at a source position, and the whole identifier
/// group it belongs to.
pub struct Finder {
    pub line: u32,
    pub column: u32,
    pub token: Option<Token>,
    pub token_group: Vec<Token>,
    pub hit: bool,
    pub in_group: bool,
}

impl Finder {
    pub fn new() -> (f: Finder)
        ensures
            f.token is None,
            f.token_group@.len() == 0,
            f.line == 0,
            f.column == 0,
            !f.hit,
            !f.in_group,
    {
        Finder { line: 0, column: 0, token: None, token_group: Vec::new(), hit: false, in_group: false }
    }

    /// Visits one token: remembers it when it covers the sought
    /// position, and collects it when inside an identifier group.
    pub fn veryla_token(&mut self, arg: &Token)
        ensures
            final(self).token == (if tok_hit(*arg, old(self).line, old(self).column) {
                Option::Some(*arg)
            } else {
                old(self).token
            }),
            final(self).hit == (old(self).hit || tok_hit(*arg, old(self).line, old(self).column)),
            final(self).in_group == old(self).in_group,
            final(self).token_group@ == (if old(self).in_group {
                old(self).token_group@.push(*arg)
            } else {
                old(self).token_group@
            }),
            final(self).line == old(self).line,
            final(self).column == old(self).column,
    {
        let covers = arg.line == self.line && arg.column <= self.column && (if arg.length
            > u32::MAX - arg.column {
            true
        } else {
            self.column < arg.column + arg.length
        });
        proof {
            assert(covers == tok_hit(*arg, self.line, self.column));
        }
        if covers {
            self.token = Some(*arg);
            self.hit = true;
        }
        if self.in_group {
            self.token_group.push(*arg);
        }
    }

    /// Walks a hierarchical reference: afterwards the group holds its
    /// identifier tokens when the position lies on one of them, and is
    /// empty otherwise; the sought token is the last identifier hit.
    #[verifier::loop_isolation(false)]
    pub fn hierarchical_identifier(&mut self, arg: &HierIdent)
        ensures
            final(self).line == old(self).line,
            final(self).column == old(self).column,
            any_hit(hier_tokens(*arg), old(self).line, old(self).column) ==> {
                &&& final(self).token_group@ == hier_tokens(*arg)
                &&& final(self).token == last_hit(
                    hier_tokens(*arg),
                    old(self).line,
                    old(self).column,
                )
            },
            !any_hit(hier_tokens(*arg), old(self).line, old(self).column) ==> final(self).token_group@.len() == 0,
    {
        let mut toks: Vec<Token> = Vec::new();
        toks.push(arg.base.token);
        let n = arg.members.len();
        for i in 0..n
            invariant
                toks@ == hier_tokens(*arg).take(1 + i as int),
        {
            toks.push(arg.members[i].ident.token);
            proof {
                assert(toks@ =~= hier_tokens(*arg).take(1 + i + 1 as int));
            }
        }
        proof {
            assert(hier_tokens(*arg).take(hier_tokens(*arg).len() as int) =~= hier_tokens(*arg));
        }
        self.walk_group(&toks);
    }

    /// Walks a scoped reference, as `hierarchical_identifier` does.
    #[verifier::loop_isolation(false)]
    pub fn scoped_identifier(&mut self, arg: &ScopedIdent)
        ensures
            final(self).line == old(self).line,
            final(self).column == old(self).column,
            any_hit(scoped_tokens(*arg), old(self).line, old(self).column) ==> {
                &&& final(self).token_group@ == scoped_tokens(*arg)
                &&& final(self).token == last_hit(
                    scoped_tokens(*arg),
                    old(self).line,
                    old(self).column,
                )
            },
            !any_hit(scoped_tokens(*arg), old(self).line, old(self).column) ==> final(self).token_group@.len() == 0,
    {
        let mut toks: Vec<Token> = Vec::new();
        toks.push(arg.base.token);
        let n = arg.path.len();
        for i in 0..n
            invariant
                toks@ == scoped_tokens(*arg).take(1 + i as int),
        {
            toks.push(arg.path[i].token);
            proof {
                assert(toks@ =~= scoped_tokens(*arg).take(1 + i + 1 as int));
            }
        }
        proof {
            assert(scoped_tokens(*arg).take(scoped_tokens(*arg).len() as int) =~= scoped_tokens(
                *arg,
            ));
        }
        self.walk_group(&toks);
    }

    /// Walks an expression reference, scope, base and members together,
    /// as `hierarchical_identifier` does.
    #[verifier::loop_isolation(false)]
    pub fn scoped_or_hier_identifier(&mut self, arg: &ExprRef)
        ensures
            final(self).line == old(self).line,
            final(self).column == old(self).column,
            any_hit(ref_tokens(*arg), old(self).line, old(self).column) ==> {
                &&& final(self).token_group@ == ref_tokens(*arg)
                &&& final(self).token == last_hit(
                    ref_tokens(*arg),
                    old(self).line,
                    old(self).column,
                )
            },
            !any_hit(ref_tokens(*arg), old(self).line, old(self).column) ==> final(self).token_group@.len() == 0,
    {
        let mut toks: Vec<Token> = Vec::new();
        let ghost target = ref_tokens(*arg);
        let ns = arg.scope.len();
        for i in 0..ns
            invariant
                toks@ == target.take(i as int),
        {
            toks.push(arg.scope[i].token);
            proof {
                assert(toks@ =~= target.take(i + 1 as int));
            }
        }
        toks.push(arg.base.token);
        proof {
            assert(toks@ =~= target.take(ns + 1 as int));
        }
        let nm = arg.members.len();
        for i in 0..nm
            invariant
                toks@ == target.take(ns + 1 + i as int),
        {
            toks.push(arg.members[i].ident.token);
            proof {
                assert(toks@ =~= target.take(ns + 1 + i + 1 as int));
            }
        }
        proof {
            assert(target.take(target.len() as int) =~= target);
        }
        self.walk_group(&toks);
    }

    /// Walks one identifier group: collects every token, and clears the
    /// group again when none covered the position.
    #[verifier::loop_isolation(false)]
    fn walk_group(&mut self, toks: &Vec<Token>)
        ensures
            final(self).line == old(self).line,
            final(self).column == old(self).column,
            any_hit(toks@, old(self).line, old(self).column) ==> {
                &&& final(self).token_group@ == toks@
                &&& final(self).token == last_hit(toks@, old(self).line, old(self).column)
            },
            !any_hit(toks@, old(self).line, old(self).column) ==> final(self).token_group@.len()
                == 0,
    {
        self.hit = false;
        self.in_group = true;
        self.token_group = Vec::new();
        let n = toks.len();
        for i in 0..n
            invariant
                self.line == old(self).line,
                self.column == old(self).column,
                self.in_group,
                self.token_group@ == toks@.take(i as int),
                self.hit == any_hit(toks@.take(i as int), old(self).line, old(self).column),
                self.hit ==> self.token == last_hit(
                    toks@.take(i as int),
                    old(self).line,
                    old(self).column,
                ),
        {
            let t = toks[i];
            let ghost prefix = toks@.take(i as int);
            self.veryla_token(&t);
            proof {
                let next = toks@.take(i + 1 as int);
                assert(next =~= prefix.push(toks@[i as int]));
                assert(next.drop_last() =~= prefix);
                assert(self.token_group@ =~= next);
                assert(self.hit == any_hit(next, old(self).line, old(self).column)) by {
                    if any_hit(prefix, old(self).line, old(self).column) {
                        let w = choose|w: int|
                            0 <= w < prefix.len() && tok_hit(
                                prefix[w],
                                old(self).line,
                                old(self).column,
                            );
                        assert(tok_hit(next[w], old(self).line, old(self).column));
                    }
                    if !self.hit {
                        assert forall|w: int|
                            0 <= w < next.len() implies !tok_hit(
                            next[w],
                            old(self).line,
                            old(self).column,
                        ) by {
                            if w < prefix.len() {
                                assert(next[w] == prefix[w]);
                            }
                        }
                    }
                }
            }
        }
        self.in_group = false;
        let still_hit = self.hit;
        if !still_hit {
            self.token_group = Vec::new();
        }
        proof {
            assert(toks@.take(toks@.len() as int) =~= toks@);
        }
    }
}

} // verus!

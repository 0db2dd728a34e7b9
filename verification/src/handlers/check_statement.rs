use vstd::prelude::*;
use crate::ast::{EntityDecl, EntityItem, Statement};
use crate::diag::{DiagCode, Diagnostic};
use crate::token::{StrTable, Token, TokenRange};

verus! {

/// One finding of the statement-context validity check: a statement
/// kind placed where it is not allowed.
#[derive(Clone, Copy, Debug, PartialEq, Eq, Structural)]
pub enum StmtFinding {
    /// An assignment inside an initial or final block.
    BadAssign { token: Token },
    /// A reset guard outside a clocked block, or not its first
    /// statement.
    BadIfEnable { token: Token },
    /// A return outside a function.
    BadReturn { token: Token },
    /// A break outside a loop.
    BadBreak { token: Token },
}

/// The label of the statement kind a finding names.
pub open spec fn stmt_kind_label(f: StmtFinding) -> Seq<char> {
    match f {
        StmtFinding::BadAssign { .. } => "assignment"@,
        StmtFinding::BadIfEnable { .. } => "if_enable"@,
        StmtFinding::BadReturn { .. } => "return"@,
        StmtFinding::BadBreak { .. } => "break"@,
    }
}

/// The token a finding points at.
pub open spec fn stmt_finding_token(f: StmtFinding) -> Token {
    match f {
        StmtFinding::BadAssign { token } => token,
        StmtFinding::BadIfEnable { token } => token,
        StmtFinding::BadReturn { token } => token,
        StmtFinding::BadBreak { token } => token,
    }
}

/// Whether a diagnostic is the one a finding calls for.
pub open spec fn smatch(d: Diagnostic, f: StmtFinding, strs: StrTable) -> bool {
    &&& d.code == DiagCode::InvalidStatement
    &&& d.fields@.len() == 1
    &&& d.fields@[0]@ == stmt_kind_label(f)
    &&& d.primary == (TokenRange { beg: stmt_finding_token(f), end: stmt_finding_token(f) })
}

/// Whether a run of diagnostics matches a run of findings one for one.
pub open spec fn smatches(ds: Seq<Diagnostic>, fs: Seq<StmtFinding>, strs: StrTable) -> bool {
    ds.len() == fs.len() && forall|i: int| 0 <= i < ds.len() ==> smatch(ds[i], fs[i], strs)
}

/// Two matching runs concatenate to a matching run.
proof fn lemma_smatch_concat(
    ds: Seq<Diagnostic>,
    fs1: Seq<StmtFinding>,
    fs2: Seq<StmtFinding>,
    strs: StrTable,
)
    requires
        smatches(ds.take(fs1.len() as int), fs1, strs),
        smatches(ds.skip(fs1.len() as int), fs2, strs),
        ds.len() == fs1.len() + fs2.len(),
    ensures
        smatches(ds, fs1 + fs2, strs),
{
    assert forall|i: int| 0 <= i < ds.len() implies smatch(ds[i], (fs1 + fs2)[i], strs) by {
        if i < fs1.len() {
            assert(ds.take(fs1.len() as int)[i] == ds[i]);
        } else {
            assert(ds.skip(fs1.len() as int)[i - fs1.len()] == ds[i]);
        }
    }
}

/// The statement-walk context: which enclosing constructs are open.
#[derive(Clone, Copy, Debug, PartialEq, Eq, Structural)]
pub struct StmtCtx {
    pub in_sequence: bool,
    pub in_function: bool,
    pub in_initial: bool,
    pub in_final: bool,
    pub in_loop: bool,
    /// Whether the statement under scrutiny is the first statement of
    /// its clocked block.
    pub at_head: bool,
}

/// The findings of one statement under the given context.
pub open spec fn stmt_sfindings(s: Statement, c: StmtCtx) -> Seq<StmtFinding>
    decreases s,
{
    let inner = StmtCtx { at_head: false, ..c };
    match s {
        Statement::Assign { token, .. } => if c.in_initial || c.in_final {
            seq![StmtFinding::BadAssign { token }]
        } else {
            Seq::empty()
        },
        Statement::IfEnable { block, else_block, token } => {
            let here: Seq<StmtFinding> = if !c.in_sequence || !c.at_head {
                seq![StmtFinding::BadIfEnable { token }]
            } else {
                Seq::empty()
            };
            here + stmts_sfindings(block@, inner, block@.len() as int) + stmts_sfindings(
                else_block@,
                inner,
                else_block@.len() as int,
            )
        },
        Statement::Return { token } => if !c.in_function {
            seq![StmtFinding::BadReturn { token }]
        } else {
            Seq::empty()
        },
        Statement::Break { token } => if !c.in_loop {
            seq![StmtFinding::BadBreak { token }]
        } else {
            Seq::empty()
        },
        Statement::If { then_block, else_block, .. } => stmts_sfindings(
            then_block@,
            inner,
            then_block@.len() as int,
        ) + stmts_sfindings(else_block@, inner, else_block@.len() as int),
        Statement::Case { arms, default_block, .. } => arms_sfindings(
            arms@,
            inner,
            arms@.len() as int,
        ) + stmts_sfindings(default_block@, inner, default_block@.len() as int),
        Statement::For { body, .. } => stmts_sfindings(
            body@,
            StmtCtx { in_loop: true, ..inner },
            body@.len() as int,
        ),
        _ => Seq::empty(),
    }
}

/// The findings of the first `n` statements of a block. Only the very
/// first statement of a clocked block keeps the head position.
pub open spec fn stmts_sfindings(ss: Seq<Statement>, c: StmtCtx, n: int) -> Seq<StmtFinding>
    decreases ss, n,
{
    if n <= 0 || n > ss.len() {
        Seq::empty()
    } else {
        let c_at = if n - 1 == 0 {
            c
        } else {
            StmtCtx { at_head: false, ..c }
        };
        stmts_sfindings(ss, c, n - 1) + stmt_sfindings(ss[n - 1], c_at)
    }
}

/// The findings of the first `n` case arms.
pub open spec fn arms_sfindings(arms: Seq<crate::ast::CaseArm>, c: StmtCtx, n: int) -> Seq<
    StmtFinding,
>
    decreases arms, n,
{
    if n <= 0 || n > arms.len() {
        Seq::empty()
    } else {
        arms_sfindings(arms, c, n - 1) + stmts_sfindings(
            arms[n - 1].block@,
            c,
            arms[n - 1].block@.len() as int,
        )
    }
}

/// The findings of one entity item.
pub open spec fn item_sfindings(item: EntityItem) -> Seq<StmtFinding>
    decreases item,
{
    let base = StmtCtx {
        in_sequence: false,
        in_function: false,
        in_initial: false,
        in_final: false,
        in_loop: false,
        at_head: false,
    };
    match item {
        EntityItem::Sequence(sd) => stmts_sfindings(
            sd.block@,
            StmtCtx { in_sequence: true, at_head: true, ..base },
            sd.block@.len() as int,
        ),
        EntityItem::AlwaysComb { block, .. } => stmts_sfindings(block@, base, block@.len() as int),
        EntityItem::Initial { block, .. } => stmts_sfindings(
            block@,
            StmtCtx { in_initial: true, ..base },
            block@.len() as int,
        ),
        EntityItem::Final { block, .. } => stmts_sfindings(
            block@,
            StmtCtx { in_final: true, ..base },
            block@.len() as int,
        ),
        EntityItem::FunctionDecl { block, .. } => stmts_sfindings(
            block@,
            StmtCtx { in_function: true, ..base },
            block@.len() as int,
        ),
        EntityItem::UnsafeBlock { items, .. } => items_sfindings_upto(items@, items@.len() as int),
        _ => Seq::empty(),
    }
}

/// The findings of the first `n` entity items.
pub open spec fn items_sfindings_upto(items: Seq<EntityItem>, n: int) -> Seq<StmtFinding>
    decreases items, n,
{
    if n <= 0 || n > items.len() {
        Seq::empty()
    } else {
        items_sfindings_upto(items, n - 1) + item_sfindings(items[n - 1])
    }
}

/// Every finding of the statement-context check on one entity.
pub open spec fn entity_sfindings(decl: EntityDecl) -> Seq<StmtFinding> {
    items_sfindings_upto(decl.items@, decl.items@.len() as int)
}

/// Walks one statement.
#[verifier::loop_isolation(false)]
fn scheck_stmt(errors: &mut Vec<Diagnostic>, s: &Statement, c: StmtCtx, strs: &StrTable)
    ensures
        final(errors)@.len() == old(errors)@.len() + stmt_sfindings(*s, c).len(),
        forall|i: int| 0 <= i < old(errors)@.len() ==> final(errors)@[i] == old(errors)@[i],
        smatches(final(errors)@.skip(old(errors)@.len() as int), stmt_sfindings(*s, c), *strs),
    decreases *s,
{
    let ghost base = errors@;
    let inner = StmtCtx { at_head: false, ..c };
    match s {
        Statement::Assign { token, .. } => {
            if c.in_initial || c.in_final {
                let r = TokenRange { beg: *token, end: *token };
                errors.push(Diagnostic::invalid_statement("assignment", &r));
            }
            proof {
                assert(smatches(errors@.skip(base.len() as int), stmt_sfindings(*s, c), *strs));
            }
        },
        Statement::IfEnable { block, else_block, token } => {
            let ghost here: Seq<StmtFinding> = if !c.in_sequence || !c.at_head {
                seq![StmtFinding::BadIfEnable { token: *token }]
            } else {
                Seq::<StmtFinding>::empty()
            };
            if !c.in_sequence || !c.at_head {
                let r = TokenRange { beg: *token, end: *token };
                errors.push(Diagnostic::invalid_statement("if_enable", &r));
            }
            let ghost m1 = errors@;
            scheck_stmts(errors, block, inner, strs);
            let ghost m2 = errors@;
            scheck_stmts(errors, else_block, inner, strs);
            proof {
                let fs1 = stmts_sfindings(block@, inner, block@.len() as int);
                let fs2 = stmts_sfindings(else_block@, inner, else_block@.len() as int);
                assert(smatches(m1.skip(base.len() as int), here, *strs));
                assert(m2.skip(base.len() as int).take(here.len() as int) =~= m1.skip(
                    base.len() as int,
                ));
                assert(m2.skip(base.len() as int).skip(here.len() as int) =~= m2.skip(
                    m1.len() as int,
                ));
                lemma_smatch_concat(m2.skip(base.len() as int), here, fs1, *strs);
                assert(errors@.skip(base.len() as int).take((here + fs1).len() as int) =~= m2.skip(
                    base.len() as int,
                ));
                assert(errors@.skip(base.len() as int).skip((here + fs1).len() as int)
                    =~= errors@.skip(m2.len() as int));
                lemma_smatch_concat(errors@.skip(base.len() as int), here + fs1, fs2, *strs);
                assert(here + fs1 + fs2 =~= stmt_sfindings(*s, c));
            }
        },
        Statement::Return { token } => {
            if !c.in_function {
                let r = TokenRange { beg: *token, end: *token };
                errors.push(Diagnostic::invalid_statement("return", &r));
            }
            proof {
                assert(smatches(errors@.skip(base.len() as int), stmt_sfindings(*s, c), *strs));
            }
        },
        Statement::Break { token } => {
            if !c.in_loop {
                let r = TokenRange { beg: *token, end: *token };
                errors.push(Diagnostic::invalid_statement("break", &r));
            }
            proof {
                assert(smatches(errors@.skip(base.len() as int), stmt_sfindings(*s, c), *strs));
            }
        },
        Statement::If { then_block, else_block, .. } => {
            scheck_stmts(errors, then_block, inner, strs);
            let ghost mid = errors@;
            scheck_stmts(errors, else_block, inner, strs);
            proof {
                let fs1 = stmts_sfindings(then_block@, inner, then_block@.len() as int);
                let fs2 = stmts_sfindings(else_block@, inner, else_block@.len() as int);
                assert(errors@.skip(base.len() as int).take(fs1.len() as int) =~= mid.skip(
                    base.len() as int,
                ));
                assert(errors@.skip(base.len() as int).skip(fs1.len() as int) =~= errors@.skip(
                    mid.len() as int,
                ));
                lemma_smatch_concat(errors@.skip(base.len() as int), fs1, fs2, *strs);
            }
        },
        Statement::Case { arms, default_block, .. } => {
            let n = arms.len();
            for k in 0..n
                invariant
                    errors@.len() == base.len() + arms_sfindings(arms@, inner, k as int).len(),
                    forall|j: int| 0 <= j < base.len() ==> errors@[j] == base[j],
                    smatches(
                        errors@.skip(base.len() as int),
                        arms_sfindings(arms@, inner, k as int),
                        *strs,
                    ),
            {
                let ghost fs_before = arms_sfindings(arms@, inner, k as int);
                let ghost before = errors@;
                proof {
                    assert(decreases_to!(*arms => arms@[k as int]));
                }
                scheck_stmts(errors, &arms[k].block, inner, strs);
                proof {
                    assert(errors@.skip(base.len() as int).take(fs_before.len() as int)
                        =~= before.skip(base.len() as int));
                    assert(errors@.skip(base.len() as int).skip(fs_before.len() as int)
                        =~= errors@.skip(before.len() as int));
                    lemma_smatch_concat(
                        errors@.skip(base.len() as int),
                        fs_before,
                        stmts_sfindings(
                            arms@[k as int].block@,
                            inner,
                            arms@[k as int].block@.len() as int,
                        ),
                        *strs,
                    );
                }
            }
            let ghost mid = errors@;
            let ghost fs1 = arms_sfindings(arms@, inner, arms@.len() as int);
            scheck_stmts(errors, default_block, inner, strs);
            proof {
                let fs2 = stmts_sfindings(default_block@, inner, default_block@.len() as int);
                assert(errors@.skip(base.len() as int).take(fs1.len() as int) =~= mid.skip(
                    base.len() as int,
                ));
                assert(errors@.skip(base.len() as int).skip(fs1.len() as int) =~= errors@.skip(
                    mid.len() as int,
                ));
                lemma_smatch_concat(errors@.skip(base.len() as int), fs1, fs2, *strs);
            }
        },
        Statement::For { body, .. } => {
            scheck_stmts(errors, body, StmtCtx { in_loop: true, ..inner }, strs);
        },
        _ => {
            proof {
                assert(errors@.skip(base.len() as int) =~= Seq::<Diagnostic>::empty());
            }
        },
    }
}

/// Walks a statement block.
#[verifier::loop_isolation(false)]
fn scheck_stmts(errors: &mut Vec<Diagnostic>, ss: &Vec<Statement>, c: StmtCtx, strs: &StrTable)
    ensures
        final(errors)@.len() == old(errors)@.len() + stmts_sfindings(
            ss@,
            c,
            ss@.len() as int,
        ).len(),
        forall|i: int| 0 <= i < old(errors)@.len() ==> final(errors)@[i] == old(errors)@[i],
        smatches(
            final(errors)@.skip(old(errors)@.len() as int),
            stmts_sfindings(ss@, c, ss@.len() as int),
            *strs,
        ),
    decreases *ss,
{
    let ghost base = errors@;
    let n = ss.len();
    for k in 0..n
        invariant
            errors@.len() == base.len() + stmts_sfindings(ss@, c, k as int).len(),
            forall|j: int| 0 <= j < base.len() ==> errors@[j] == base[j],
            smatches(errors@.skip(base.len() as int), stmts_sfindings(ss@, c, k as int), *strs),
    {
        let ghost fs_before = stmts_sfindings(ss@, c, k as int);
        let ghost before = errors@;
        let c_at = if k == 0 {
            c
        } else {
            StmtCtx { at_head: false, ..c }
        };
        proof {
            assert(decreases_to!(*ss => ss@[k as int]));
        }
        scheck_stmt(errors, &ss[k], c_at, strs);
        proof {
            assert(errors@.skip(base.len() as int).take(fs_before.len() as int) =~= before.skip(
                base.len() as int,
            ));
            assert(errors@.skip(base.len() as int).skip(fs_before.len() as int) =~= errors@.skip(
                before.len() as int,
            ));
            lemma_smatch_concat(
                errors@.skip(base.len() as int),
                fs_before,
                stmt_sfindings(ss@[k as int], c_at),
                *strs,
            );
        }
    }
}

/// The statement-context validity handler.
pub struct CheckStatement {
    pub errors: Vec<Diagnostic>,
}

impl CheckStatement {
    pub fn new() -> (h: CheckStatement)
        ensures
            h.errors@.len() == 0,
    {
        CheckStatement { errors: Vec::new() }
    }

    /// Checks one entity declaration, appending one diagnostic per
    /// finding in walk order.
    #[verifier::loop_isolation(false)]
    pub fn entity_declaration(&mut self, decl: &EntityDecl, strs: &StrTable)
        ensures
            final(self).errors@.len() == old(self).errors@.len() + entity_sfindings(*decl).len(),
            forall|i: int|
                0 <= i < old(self).errors@.len() ==> final(self).errors@[i] == old(
                    self,
                ).errors@[i],
            smatches(
                final(self).errors@.skip(old(self).errors@.len() as int),
                entity_sfindings(*decl),
                *strs,
            ),
    {
        scheck_items(&mut self.errors, &decl.items, strs);
    }
}

/// Walks a list of entity items.
#[verifier::loop_isolation(false)]
fn scheck_items(errors: &mut Vec<Diagnostic>, items: &Vec<EntityItem>, strs: &StrTable)
    ensures
        final(errors)@.len() == old(errors)@.len() + items_sfindings_upto(
            items@,
            items@.len() as int,
        ).len(),
        forall|i: int| 0 <= i < old(errors)@.len() ==> final(errors)@[i] == old(errors)@[i],
        smatches(
            final(errors)@.skip(old(errors)@.len() as int),
            items_sfindings_upto(items@, items@.len() as int),
            *strs,
        ),
    decreases *items,
{
    let ghost base = errors@;
    let n = items.len();
    let ctx0 = StmtCtx {
        in_sequence: false,
        in_function: false,
        in_initial: false,
        in_final: false,
        in_loop: false,
        at_head: false,
    };
    for k in 0..n
        invariant
            errors@.len() == base.len() + items_sfindings_upto(items@, k as int).len(),
            forall|j: int| 0 <= j < base.len() ==> errors@[j] == base[j],
            smatches(
                errors@.skip(base.len() as int),
                items_sfindings_upto(items@, k as int),
                *strs,
            ),
    {
        let ghost fs_before = items_sfindings_upto(items@, k as int);
        let ghost before = errors@;
        match &items[k] {
            EntityItem::Sequence(sd) => {
                scheck_stmts(
                    errors,
                    &sd.block,
                    StmtCtx { in_sequence: true, at_head: true, ..ctx0 },
                    strs,
                );
            },
            EntityItem::AlwaysComb { block, .. } => {
                scheck_stmts(errors, block, ctx0, strs);
            },
            EntityItem::Initial { block, .. } => {
                scheck_stmts(errors, block, StmtCtx { in_initial: true, ..ctx0 }, strs);
            },
            EntityItem::Final { block, .. } => {
                scheck_stmts(errors, block, StmtCtx { in_final: true, ..ctx0 }, strs);
            },
            EntityItem::FunctionDecl { block, .. } => {
                scheck_stmts(errors, block, StmtCtx { in_function: true, ..ctx0 }, strs);
            },
            EntityItem::UnsafeBlock { items: inner, .. } => {
                proof {
                    assert(decreases_to!(*items => items@[k as int]));
                    assert(decreases_to!(items@[k as int] => *inner));
                }
                scheck_items(errors, inner, strs);
            },
            _ => {},
        }
        proof {
            assert(errors@.skip(base.len() as int).take(fs_before.len() as int) =~= before.skip(
                base.len() as int,
            ));
            assert(errors@.skip(base.len() as int).skip(fs_before.len() as int) =~= errors@.skip(
                before.len() as int,
            ));
            lemma_smatch_concat(
                errors@.skip(base.len() as int),
                fs_before,
                item_sfindings(items@[k as int]),
                *strs,
            );
        }
    }
}

} // verus!

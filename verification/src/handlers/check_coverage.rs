use vstd::prelude::*;
use crate::ast::{EntityDecl, EntityItem, Expr, HierIdent, Statement};
use crate::diag::{DiagCode, Diagnostic};
use crate::token::{name_view, StrId, StrTable, Token, TokenRange};

verus! {

/// One finding of the variable dataflow analysis: a variable read in
/// a combinational block before every path has assigned it.
#[derive(Clone, Copy, Debug, PartialEq, Eq, Structural)]
pub enum CovFinding {
    Unassigned { name: StrId, span: TokenRange },
}

/// Whether a diagnostic is the one a finding calls for.
pub open spec fn cmatch(d: Diagnostic, f: CovFinding, strs: StrTable) -> bool {
    match f {
        CovFinding::Unassigned { name, span } => {
            &&& d.code == DiagCode::UnassignVariable
            &&& d.fields@.len() == 1
            &&& d.fields@[0]@ == name_view(strs, name)
            &&& d.primary == span
        },
    }
}

/// Whether a run of diagnostics matches a run of findings one for one.
pub open spec fn cmatches(ds: Seq<Diagnostic>, fs: Seq<CovFinding>, strs: StrTable) -> bool {
    ds.len() == fs.len() && forall|i: int| 0 <= i < ds.len() ==> cmatch(ds[i], fs[i], strs)
}

/// Two matching runs concatenate to a matching run.
proof fn lemma_cmatch_concat(
    ds: Seq<Diagnostic>,
    fs1: Seq<CovFinding>,
    fs2: Seq<CovFinding>,
    strs: StrTable,
)
    requires
        cmatches(ds.take(fs1.len() as int), fs1, strs),
        cmatches(ds.skip(fs1.len() as int), fs2, strs),
        ds.len() == fs1.len() + fs2.len(),
    ensures
        cmatches(ds, fs1 + fs2, strs),
{
    assert forall|i: int| 0 <= i < ds.len() implies cmatch(ds[i], (fs1 + fs2)[i], strs) by {
        if i < fs1.len() {
            assert(ds.take(fs1.len() as int)[i] == ds[i]);
        } else {
            assert(ds.skip(fs1.len() as int)[i - fs1.len()] == ds[i]);
        }
    }
}

/// The first index of a declared variable with the given name.
pub open spec fn find_var(vars: Seq<StrId>, name: StrId, i: int) -> Option<int>
    decreases vars.len() - i,
{
    if i < 0 || i >= vars.len() {
        Option::None
    } else if vars[i] == name {
        Option::Some(i)
    } else {
        find_var(vars, name, i + 1)
    }
}

/// The unassigned-read findings of one expression against the current
/// assigned set, gathered left-to-right depth-first.
pub open spec fn expr_unassigned(e: Expr, vars: Seq<StrId>, assigned: Seq<bool>) -> Seq<CovFinding>
    decreases e,
{
    match e {
        Expr::Ref(r) => {
            if r.scope@.len() == 0 && (match find_var(vars, r.base.name, 0) {
                Option::Some(i) => !assigned[i],
                Option::None => false,
            }) {
                seq![CovFinding::Unassigned { name: r.base.name, span: r.span }]
            } else {
                Seq::empty()
            }
        },
        Expr::Unary { operand, .. } => expr_unassigned(*operand, vars, assigned),
        Expr::Binary { lhs, rhs, .. } => expr_unassigned(*lhs, vars, assigned) + expr_unassigned(
            *rhs,
            vars,
            assigned,
        ),
        Expr::Concat { parts, .. } => exprs_unassigned(parts@, vars, assigned, parts@.len() as int),
        Expr::Cast { operand, .. } => expr_unassigned(*operand, vars, assigned),
        Expr::Call { args, .. } => exprs_unassigned(args@, vars, assigned, args@.len() as int),
        _ => Seq::empty(),
    }
}

/// The unassigned-read findings of the first `n` expressions.
pub open spec fn exprs_unassigned(
    es: Seq<Expr>,
    vars: Seq<StrId>,
    assigned: Seq<bool>,
    n: int,
) -> Seq<CovFinding>
    decreases es, n,
{
    if n <= 0 || n > es.len() {
        Seq::empty()
    } else {
        exprs_unassigned(es, vars, assigned, n - 1) + expr_unassigned(es[n - 1], vars, assigned)
    }
}

/// The assigned set after marking one target.
pub open spec fn mark_assigned(vars: Seq<StrId>, assigned: Seq<bool>, target: HierIdent) -> Seq<
    bool,
> {
    match find_var(vars, target.base.name, 0) {
        Option::Some(i) => assigned.update(i, true),
        Option::None => assigned,
    }
}

/// The pointwise meet of two assigned sets: a variable counts as
/// assigned after a branch only if every branch assigned it.
pub open spec fn set_meet(a: Seq<bool>, b: Seq<bool>) -> Seq<bool> {
    Seq::new(a.len(), |i: int| a[i] && (0 <= i < b.len() && b[i]))
}

/// The dataflow walk of one statement: its findings in order, and the
/// assigned set it leaves behind.
pub open spec fn flow_stmt(s: Statement, vars: Seq<StrId>, assigned: Seq<bool>) -> (
    Seq<CovFinding>,
    Seq<bool>,
)
    decreases s,
{
    match s {
        Statement::Assign { target, rhs, .. } => {
            (expr_unassigned(rhs, vars, assigned), mark_assigned(vars, assigned, target))
        },
        Statement::LetStmt { rhs, .. } => (expr_unassigned(rhs, vars, assigned), assigned),
        Statement::If { cond, then_block, else_block, has_else, .. } => {
            let head = expr_unassigned(cond, vars, assigned);
            let t = flow_stmts(then_block@, vars, assigned, then_block@.len() as int);
            let e = flow_stmts(else_block@, vars, assigned, else_block@.len() as int);
            let after: Seq<bool> = if has_else {
                set_meet(t.1, e.1)
            } else {
                assigned
            };
            (head + t.0 + e.0, after)
        },
        Statement::IfEnable { block, else_block, .. } => {
            let t = flow_stmts(block@, vars, assigned, block@.len() as int);
            let e = flow_stmts(else_block@, vars, assigned, else_block@.len() as int);
            (t.0 + e.0, assigned)
        },
        Statement::Case { subject, arms, default_block, .. } => {
            let head = expr_unassigned(subject, vars, assigned);
            let a = flow_arms(arms@, vars, assigned, arms@.len() as int);
            let d = flow_stmts(default_block@, vars, assigned, default_block@.len() as int);
            (head + a + d.0, assigned)
        },
        Statement::For { body, .. } => {
            let b = flow_stmts(body@, vars, assigned, body@.len() as int);
            (b.0, assigned)
        },
        Statement::CallStmt { args, .. } => (
            exprs_unassigned(args@, vars, assigned, args@.len() as int),
            assigned,
        ),
        _ => (Seq::empty(), assigned),
    }
}

/// The dataflow walk of the first `n` statements of a block.
pub open spec fn flow_stmts(ss: Seq<Statement>, vars: Seq<StrId>, assigned: Seq<bool>, n: int) -> (
    Seq<CovFinding>,
    Seq<bool>,
)
    decreases ss, n,
{
    if n <= 0 || n > ss.len() {
        (Seq::empty(), assigned)
    } else {
        let prev = flow_stmts(ss, vars, assigned, n - 1);
        let here = flow_stmt(ss[n - 1], vars, prev.1);
        (prev.0 + here.0, here.1)
    }
}

/// The findings of the first `n` case arms.
pub open spec fn flow_arms(
    arms: Seq<crate::ast::CaseArm>,
    vars: Seq<StrId>,
    assigned: Seq<bool>,
    n: int,
) -> Seq<CovFinding>
    decreases arms, n,
{
    if n <= 0 || n > arms.len() {
        Seq::empty()
    } else {
        flow_arms(arms, vars, assigned, n - 1) + expr_unassigned(arms[n - 1].cond, vars, assigned)
            + flow_stmts(arms[n - 1].block@, vars, assigned, arms[n - 1].block@.len() as int).0
    }
}

/// A variable every branch of an if/else assigns is assigned after it:
/// reading it past the branch raises nothing.
pub proof fn lemma_branch_assigns_covers(
    cond: Expr,
    then_block: Vec<Statement>,
    else_block: Vec<Statement>,
    token: Token,
    vars: Seq<StrId>,
    assigned: Seq<bool>,
    v: int,
)
    requires
        0 <= v < vars.len(),
        assigned.len() == vars.len(),
        flow_stmts(then_block@, vars, assigned, then_block@.len() as int).1[v],
        flow_stmts(else_block@, vars, assigned, else_block@.len() as int).1[v],
        flow_stmts(then_block@, vars, assigned, then_block@.len() as int).1.len() == vars.len(),
        flow_stmts(else_block@, vars, assigned, else_block@.len() as int).1.len() == vars.len(),
    ensures
        flow_stmt(
            Statement::If { cond, then_block, else_block, has_else: true, token },
            vars,
            assigned,
        ).1[v],
{
}

/// A variable some branch of an if/else leaves unassigned is not
/// assigned after it: a read of it past the branch, with nothing else
/// assigning it, raises the unassigned-before-use finding.
pub proof fn lemma_branch_gap_fires(
    cond: Expr,
    then_block: Vec<Statement>,
    else_block: Vec<Statement>,
    token: Token,
    read: crate::ast::ExprRef,
    vars: Seq<StrId>,
    assigned: Seq<bool>,
    v: int,
)
    requires
        0 <= v < vars.len(),
        assigned.len() == vars.len(),
        read.scope@.len() == 0,
        find_var(vars, read.base.name, 0) == Option::Some(v),
        !(flow_stmts(then_block@, vars, assigned, then_block@.len() as int).1[v]
            && flow_stmts(else_block@, vars, assigned, else_block@.len() as int).1[v]),
        flow_stmts(then_block@, vars, assigned, then_block@.len() as int).1.len() == vars.len(),
    ensures
        ({
            let after = flow_stmt(
                Statement::If { cond, then_block, else_block, has_else: true, token },
                vars,
                assigned,
            ).1;
            expr_unassigned(Expr::Ref(read), vars, after) == seq![
                CovFinding::Unassigned { name: read.base.name, span: read.span },
            ]
        }),
{
    let t = flow_stmts(then_block@, vars, assigned, then_block@.len() as int);
    let e = flow_stmts(else_block@, vars, assigned, else_block@.len() as int);
    let after = flow_stmt(
        Statement::If { cond, then_block, else_block, has_else: true, token },
        vars,
        assigned,
    ).1;
    assert(after == set_meet(t.1, e.1));
    assert(!after[v]);
    assert(expr_unassigned(Expr::Ref(read), vars, after) =~= seq![
        CovFinding::Unassigned { name: read.base.name, span: read.span },
    ]);
}

/// A found variable index lies inside the list.
proof fn lemma_find_var_bounds(vars: Seq<StrId>, name: StrId, i: int)
    requires
        0 <= i,
        find_var(vars, name, i) is Some,
    ensures
        0 <= find_var(vars, name, i)->Some_0 < vars.len(),
    decreases vars.len() - i,
{
    if i < vars.len() && !(vars[i] == name) {
        lemma_find_var_bounds(vars, name, i + 1);
    }
}

/// The dataflow walk of one statement leaves an assigned set of the
/// same length.
pub proof fn lemma_flow_stmt_len(s: Statement, vars: Seq<StrId>, assigned: Seq<bool>)
    requires
        assigned.len() == vars.len(),
    ensures
        flow_stmt(s, vars, assigned).1.len() == assigned.len(),
    decreases s,
{
    match s {
        Statement::If { cond, then_block, else_block, has_else, .. } => {
            lemma_flow_stmts_len(then_block@, vars, assigned, then_block@.len() as int);
        },
        Statement::Assign { target, .. } => {
            if find_var(vars, target.base.name, 0) is Some {
                lemma_find_var_bounds(vars, target.base.name, 0);
            }
        },
        _ => {},
    }
}

/// The dataflow walk of a block leaves an assigned set of the same
/// length.
pub proof fn lemma_flow_stmts_len(ss: Seq<Statement>, vars: Seq<StrId>, assigned: Seq<bool>, n: int)
    requires
        assigned.len() == vars.len(),
    ensures
        flow_stmts(ss, vars, assigned, n).1.len() == assigned.len(),
    decreases ss, n,
{
    if 0 < n <= ss.len() {
        lemma_flow_stmts_len(ss, vars, assigned, n - 1);
        lemma_flow_stmt_len(ss[n - 1], vars, flow_stmts(ss, vars, assigned, n - 1).1);
    }
}

/// Copies an assigned set.
#[verifier::loop_isolation(false)]
fn copy_bools(v: &Vec<bool>) -> (r: Vec<bool>)
    ensures
        r@ == v@,
{
    let mut r: Vec<bool> = Vec::new();
    let n = v.len();
    for i in 0..n
        invariant
            r@ == v@.take(i as int),
    {
        r.push(v[i]);
        proof {
            assert(r@ =~= v@.take(i + 1 as int));
        }
    }
    proof {
        assert(v@.take(n as int) =~= v@);
    }
    r
}

/// The pointwise meet of two assigned sets, in place on the first.
#[verifier::loop_isolation(false)]
fn meet_bools(a: &mut Vec<bool>, b: &Vec<bool>)
    ensures
        final(a)@ == set_meet(old(a)@, b@),
{
    let n = a.len();
    for i in 0..n
        invariant
            n == old(a)@.len(),
            a@.len() == n,
            forall|j: int| 0 <= j < i ==> a@[j] == set_meet(old(a)@, b@)[j],
            forall|j: int| i <= j < n ==> a@[j] == old(a)@[j],
    {
        let keep = a[i] && i < b.len() && b[i];
        a.set(i, keep);
    }
    proof {
        assert(final(a)@ =~= set_meet(old(a)@, b@));
    }
}

/// Exec lookup matching `find_var`.
#[verifier::loop_isolation(false)]
fn find_var_exec(vars: &Vec<StrId>, name: StrId) -> (r: Option<usize>)
    ensures
        match r {
            Option::Some(i) => find_var(vars@, name, 0) == Option::Some(i as int) && i
                < vars@.len(),
            Option::None => find_var(vars@, name, 0) is None,
        },
{
    let n = vars.len();
    for i in 0..n
        invariant
            find_var(vars@, name, 0) == find_var(vars@, name, i as int),
    {
        if vars[i] == name {
            return Some(i);
        }
    }
    None
}

/// Appends the unassigned-read findings of one expression.
#[verifier::loop_isolation(false)]
#[verifier::rlimit(100)]
fn flow_expr(
    errors: &mut Vec<Diagnostic>,
    e: &Expr,
    vars: &Vec<StrId>,
    assigned: &Vec<bool>,
    strs: &StrTable,
)
    requires
        assigned@.len() == vars@.len(),
    ensures
        final(errors)@.len() == old(errors)@.len() + expr_unassigned(*e, vars@, assigned@).len(),
        forall|i: int| 0 <= i < old(errors)@.len() ==> final(errors)@[i] == old(errors)@[i],
        cmatches(
            final(errors)@.skip(old(errors)@.len() as int),
            expr_unassigned(*e, vars@, assigned@),
            *strs,
        ),
    decreases *e,
{
    let ghost base = errors@;
    match e {
        Expr::Ref(r) => {
            if r.scope.len() == 0 {
                match find_var_exec(vars, r.base.name) {
                    Option::Some(i) => {
                        if !assigned[i] {
                            errors.push(
                                Diagnostic::unassign_variable(strs.get_name(r.base.name), &r.span),
                            );
                        }
                    },
                    Option::None => {},
                }
            }
            proof {
                assert(cmatches(
                    errors@.skip(base.len() as int),
                    expr_unassigned(*e, vars@, assigned@),
                    *strs,
                ));
            }
        },
        Expr::Unary { operand, .. } => {
            flow_expr(errors, operand, vars, assigned, strs);
        },
        Expr::Cast { operand, .. } => {
            flow_expr(errors, operand, vars, assigned, strs);
        },
        Expr::Binary { lhs, rhs, .. } => {
            flow_expr(errors, lhs, vars, assigned, strs);
            let ghost mid = errors@;
            flow_expr(errors, rhs, vars, assigned, strs);
            proof {
                let fs1 = expr_unassigned(**lhs, vars@, assigned@);
                let fs2 = expr_unassigned(**rhs, vars@, assigned@);
                assert(errors@.skip(base.len() as int).take(fs1.len() as int) =~= mid.skip(
                    base.len() as int,
                ));
                assert(errors@.skip(base.len() as int).skip(fs1.len() as int) =~= errors@.skip(
                    mid.len() as int,
                ));
                lemma_cmatch_concat(errors@.skip(base.len() as int), fs1, fs2, *strs);
            }
        },
        Expr::Concat { parts, .. } => {
            let n = parts.len();
            for k in 0..n
                invariant
                    errors@.len() == base.len() + exprs_unassigned(
                        parts@,
                        vars@,
                        assigned@,
                        k as int,
                    ).len(),
                    forall|j: int| 0 <= j < base.len() ==> errors@[j] == base[j],
                    cmatches(
                        errors@.skip(base.len() as int),
                        exprs_unassigned(parts@, vars@, assigned@, k as int),
                        *strs,
                    ),
            {
                let ghost fs_before = exprs_unassigned(parts@, vars@, assigned@, k as int);
                let ghost before = errors@;
                proof {
                    assert(decreases_to!(*parts => parts@[k as int]));
                }
                flow_expr(errors, &parts[k], vars, assigned, strs);
                proof {
                    assert(errors@.skip(base.len() as int).take(fs_before.len() as int)
                        =~= before.skip(base.len() as int));
                    assert(errors@.skip(base.len() as int).skip(fs_before.len() as int)
                        =~= errors@.skip(before.len() as int));
                    lemma_cmatch_concat(
                        errors@.skip(base.len() as int),
                        fs_before,
                        expr_unassigned(parts@[k as int], vars@, assigned@),
                        *strs,
                    );
                }
            }
        },
        Expr::Call { args, .. } => {
            let n = args.len();
            for k in 0..n
                invariant
                    errors@.len() == base.len() + exprs_unassigned(
                        args@,
                        vars@,
                        assigned@,
                        k as int,
                    ).len(),
                    forall|j: int| 0 <= j < base.len() ==> errors@[j] == base[j],
                    cmatches(
                        errors@.skip(base.len() as int),
                        exprs_unassigned(args@, vars@, assigned@, k as int),
                        *strs,
                    ),
            {
                let ghost fs_before = exprs_unassigned(args@, vars@, assigned@, k as int);
                let ghost before = errors@;
                proof {
                    assert(decreases_to!(*args => args@[k as int]));
                }
                flow_expr(errors, &args[k], vars, assigned, strs);
                proof {
                    assert(errors@.skip(base.len() as int).take(fs_before.len() as int)
                        =~= before.skip(base.len() as int));
                    assert(errors@.skip(base.len() as int).skip(fs_before.len() as int)
                        =~= errors@.skip(before.len() as int));
                    lemma_cmatch_concat(
                        errors@.skip(base.len() as int),
                        fs_before,
                        expr_unassigned(args@[k as int], vars@, assigned@),
                        *strs,
                    );
                }
            }
        },
        _ => {
            proof {
                assert(errors@.skip(base.len() as int) =~= Seq::<Diagnostic>::empty());
            }
        },
    }
}

/// The dataflow walk of one statement.
#[verifier::loop_isolation(false)]
#[verifier::rlimit(100)]
fn flow_stmt_exec(
    errors: &mut Vec<Diagnostic>,
    s: &Statement,
    vars: &Vec<StrId>,
    assigned: &mut Vec<bool>,
    strs: &StrTable,
)
    requires
        old(assigned)@.len() == vars@.len(),
    ensures
        final(errors)@.len() == old(errors)@.len() + flow_stmt(*s, vars@, old(assigned)@).0.len(),
        forall|i: int| 0 <= i < old(errors)@.len() ==> final(errors)@[i] == old(errors)@[i],
        cmatches(
            final(errors)@.skip(old(errors)@.len() as int),
            flow_stmt(*s, vars@, old(assigned)@).0,
            *strs,
        ),
        final(assigned)@ == flow_stmt(*s, vars@, old(assigned)@).1,
    decreases *s,
{
    let ghost base = errors@;
    let ghost a0 = assigned@;
    match s {
        Statement::Assign { target, rhs, .. } => {
            flow_expr(errors, rhs, vars, assigned, strs);
            match find_var_exec(vars, target.base.name) {
                Option::Some(i) => {
                    assigned.set(i, true);
                    proof {
                        assert(assigned@ =~= mark_assigned(vars@, a0, *target));
                    }
                },
                Option::None => {},
            }
        },
        Statement::LetStmt { rhs, .. } => {
            flow_expr(errors, rhs, vars, assigned, strs);
        },
        Statement::If { cond, then_block, else_block, has_else, .. } => {
            flow_expr(errors, cond, vars, assigned, strs);
            let ghost m1 = errors@;
            let mut ta = copy_bools(assigned);
            let mut ea = copy_bools(assigned);
            flow_stmts_exec(errors, then_block, vars, &mut ta, strs);
            let ghost m2 = errors@;
            flow_stmts_exec(errors, else_block, vars, &mut ea, strs);
            if *has_else {
                meet_bools(&mut ta, &ea);
                let n = assigned.len();
                *assigned = ta;
            }
            proof {
                let head = expr_unassigned(*cond, vars@, a0);
                let t = flow_stmts(then_block@, vars@, a0, then_block@.len() as int);
                let e = flow_stmts(else_block@, vars@, a0, else_block@.len() as int);
                assert(m2.skip(base.len() as int).take(head.len() as int) =~= m1.skip(
                    base.len() as int,
                ));
                assert(m2.skip(base.len() as int).skip(head.len() as int) =~= m2.skip(
                    m1.len() as int,
                ));
                lemma_cmatch_concat(m2.skip(base.len() as int), head, t.0, *strs);
                assert(errors@.skip(base.len() as int).take((head + t.0).len() as int) =~= m2.skip(
                    base.len() as int,
                ));
                assert(errors@.skip(base.len() as int).skip((head + t.0).len() as int)
                    =~= errors@.skip(m2.len() as int));
                lemma_cmatch_concat(errors@.skip(base.len() as int), head + t.0, e.0, *strs);
                assert(head + t.0 + e.0 =~= flow_stmt(*s, vars@, a0).0);
                assert(assigned@ == flow_stmt(*s, vars@, a0).1);
            }
        },
        Statement::IfEnable { block, else_block, .. } => {
            let mut ta = copy_bools(assigned);
            let mut ea = copy_bools(assigned);
            flow_stmts_exec(errors, block, vars, &mut ta, strs);
            let ghost mid = errors@;
            flow_stmts_exec(errors, else_block, vars, &mut ea, strs);
            proof {
                let t = flow_stmts(block@, vars@, a0, block@.len() as int);
                let e = flow_stmts(else_block@, vars@, a0, else_block@.len() as int);
                assert(errors@.skip(base.len() as int).take(t.0.len() as int) =~= mid.skip(
                    base.len() as int,
                ));
                assert(errors@.skip(base.len() as int).skip(t.0.len() as int) =~= errors@.skip(
                    mid.len() as int,
                ));
                lemma_cmatch_concat(errors@.skip(base.len() as int), t.0, e.0, *strs);
            }
        },
        Statement::Case { subject, arms, default_block, .. } => {
            flow_expr(errors, subject, vars, assigned, strs);
            let ghost m1 = errors@;
            let ghost head = expr_unassigned(*subject, vars@, a0);
            let n = arms.len();
            for k in 0..n
                invariant
                    errors@.len() == m1.len() + flow_arms(arms@, vars@, a0, k as int).len(),
                    forall|j: int| 0 <= j < m1.len() ==> errors@[j] == m1[j],
                    cmatches(
                        errors@.skip(m1.len() as int),
                        flow_arms(arms@, vars@, a0, k as int),
                        *strs,
                    ),
                    assigned@ == a0,
            {
                let ghost fs_before = flow_arms(arms@, vars@, a0, k as int);
                let ghost before = errors@;
                proof {
                    assert(decreases_to!(*arms => arms@[k as int]));
                }
                flow_expr(errors, &arms[k].cond, vars, assigned, strs);
                let ghost cm = errors@;
                let mut aa = copy_bools(assigned);
                flow_stmts_exec(errors, &arms[k].block, vars, &mut aa, strs);
                proof {
                    let fc = expr_unassigned(arms@[k as int].cond, vars@, a0);
                    let fb = flow_stmts(
                        arms@[k as int].block@,
                        vars@,
                        a0,
                        arms@[k as int].block@.len() as int,
                    ).0;
                    assert(errors@.skip(before.len() as int).take(fc.len() as int) =~= cm.skip(
                        before.len() as int,
                    ));
                    assert(errors@.skip(before.len() as int).skip(fc.len() as int) =~= errors@.skip(
                        cm.len() as int,
                    ));
                    lemma_cmatch_concat(errors@.skip(before.len() as int), fc, fb, *strs);
                    assert(errors@.skip(m1.len() as int).take(fs_before.len() as int)
                        =~= before.skip(m1.len() as int));
                    assert(errors@.skip(m1.len() as int).skip(fs_before.len() as int)
                        =~= errors@.skip(before.len() as int));
                    lemma_cmatch_concat(errors@.skip(m1.len() as int), fs_before, fc + fb, *strs);
                    assert(flow_arms(arms@, vars@, a0, k + 1 as int) =~= fs_before + (fc + fb));
                }
            }
            let ghost m2 = errors@;
            let mut da = copy_bools(assigned);
            flow_stmts_exec(errors, default_block, vars, &mut da, strs);
            proof {
                let a = flow_arms(arms@, vars@, a0, arms@.len() as int);
                let d = flow_stmts(default_block@, vars@, a0, default_block@.len() as int);
                assert(m2.skip(base.len() as int).take(head.len() as int) =~= m1.skip(
                    base.len() as int,
                ));
                assert(m2.skip(base.len() as int).skip(head.len() as int) =~= m2.skip(
                    m1.len() as int,
                ));
                lemma_cmatch_concat(m2.skip(base.len() as int), head, a, *strs);
                assert(errors@.skip(base.len() as int).take((head + a).len() as int) =~= m2.skip(
                    base.len() as int,
                ));
                assert(errors@.skip(base.len() as int).skip((head + a).len() as int)
                    =~= errors@.skip(m2.len() as int));
                lemma_cmatch_concat(errors@.skip(base.len() as int), head + a, d.0, *strs);
                assert(head + a + d.0 =~= flow_stmt(*s, vars@, a0).0);
            }
        },
        Statement::For { body, .. } => {
            let mut ba = copy_bools(assigned);
            flow_stmts_exec(errors, body, vars, &mut ba, strs);
        },
        Statement::CallStmt { args, .. } => {
            let n = args.len();
            for k in 0..n
                invariant
                    errors@.len() == base.len() + exprs_unassigned(args@, vars@, a0, k as int).len(),
                    forall|j: int| 0 <= j < base.len() ==> errors@[j] == base[j],
                    cmatches(
                        errors@.skip(base.len() as int),
                        exprs_unassigned(args@, vars@, a0, k as int),
                        *strs,
                    ),
                    assigned@ == a0,
            {
                let ghost fs_before = exprs_unassigned(args@, vars@, a0, k as int);
                let ghost before = errors@;
                proof {
                    assert(decreases_to!(*args => args@[k as int]));
                }
                flow_expr(errors, &args[k], vars, assigned, strs);
                proof {
                    assert(errors@.skip(base.len() as int).take(fs_before.len() as int)
                        =~= before.skip(base.len() as int));
                    assert(errors@.skip(base.len() as int).skip(fs_before.len() as int)
                        =~= errors@.skip(before.len() as int));
                    lemma_cmatch_concat(
                        errors@.skip(base.len() as int),
                        fs_before,
                        expr_unassigned(args@[k as int], vars@, a0),
                        *strs,
                    );
                }
            }
        },
        _ => {
            proof {
                assert(errors@.skip(base.len() as int) =~= Seq::<Diagnostic>::empty());
            }
        },
    }
}

/// The dataflow walk of a statement block.
#[verifier::loop_isolation(false)]
fn flow_stmts_exec(
    errors: &mut Vec<Diagnostic>,
    ss: &Vec<Statement>,
    vars: &Vec<StrId>,
    assigned: &mut Vec<bool>,
    strs: &StrTable,
)
    requires
        old(assigned)@.len() == vars@.len(),
    ensures
        final(errors)@.len() == old(errors)@.len() + flow_stmts(
            ss@,
            vars@,
            old(assigned)@,
            ss@.len() as int,
        ).0.len(),
        forall|i: int| 0 <= i < old(errors)@.len() ==> final(errors)@[i] == old(errors)@[i],
        cmatches(
            final(errors)@.skip(old(errors)@.len() as int),
            flow_stmts(ss@, vars@, old(assigned)@, ss@.len() as int).0,
            *strs,
        ),
        final(assigned)@ == flow_stmts(ss@, vars@, old(assigned)@, ss@.len() as int).1,
    decreases *ss,
{
    let ghost base = errors@;
    let ghost a0 = assigned@;
    let n = ss.len();
    for k in 0..n
        invariant
            errors@.len() == base.len() + flow_stmts(ss@, vars@, a0, k as int).0.len(),
            forall|j: int| 0 <= j < base.len() ==> errors@[j] == base[j],
            cmatches(
                errors@.skip(base.len() as int),
                flow_stmts(ss@, vars@, a0, k as int).0,
                *strs,
            ),
            assigned@ == flow_stmts(ss@, vars@, a0, k as int).1,
    {
        let ghost fs_before = flow_stmts(ss@, vars@, a0, k as int).0;
        let ghost before = errors@;
        proof {
            assert(decreases_to!(*ss => ss@[k as int]));
            lemma_flow_stmts_len(ss@, vars@, a0, k as int);
        }
        flow_stmt_exec(errors, &ss[k], vars, assigned, strs);
        proof {
            assert(errors@.skip(base.len() as int).take(fs_before.len() as int) =~= before.skip(
                base.len() as int,
            ));
            assert(errors@.skip(base.len() as int).skip(fs_before.len() as int) =~= errors@.skip(
                before.len() as int,
            ));
            lemma_cmatch_concat(
                errors@.skip(base.len() as int),
                fs_before,
                flow_stmt(ss@[k as int], vars@, flow_stmts(ss@, vars@, a0, k as int).1).0,
                *strs,
            );
        }
    }
}

/// The declared variables of an entity, in declaration order.
pub open spec fn entity_vars(items: Seq<EntityItem>, n: int) -> Seq<(StrId, Token)>
    decreases n,
{
    if n <= 0 || n > items.len() {
        Seq::empty()
    } else {
        entity_vars(items, n - 1) + (match items[n - 1] {
            EntityItem::Var { ident, .. } => seq![(ident.name, ident.token)],
            _ => Seq::empty(),
        })
    }
}

/// The unassigned-before-use findings of one entity: each
/// combinational block is walked with an empty assigned set.
pub open spec fn entity_cfindings(decl: EntityDecl, n: int) -> Seq<CovFinding>
    decreases n,
{
    let vars = entity_vars(decl.items@, decl.items@.len() as int).map_values(
        |v: (StrId, Token)| v.0,
    );
    if n <= 0 || n > decl.items@.len() {
        Seq::empty()
    } else {
        entity_cfindings(decl, n - 1) + (match decl.items@[n - 1] {
            EntityItem::AlwaysComb { block, .. } => flow_stmts(
                block@,
                vars,
                Seq::new(vars.len(), |i: int| false),
                block@.len() as int,
            ).0,
            _ => Seq::empty(),
        })
    }
}

/// The variable dataflow handler: reports reads of variables that some
/// path through a combinational block reaches before any assignment.
pub struct CheckCoverage {
    pub errors: Vec<Diagnostic>,
}

impl CheckCoverage {
    pub fn new() -> (h: CheckCoverage)
        ensures
            h.errors@.len() == 0,
    {
        CheckCoverage { errors: Vec::new() }
    }

    /// Checks one entity declaration, appending one diagnostic per
    /// finding in walk order.
    #[verifier::loop_isolation(false)]
    pub fn entity_declaration(&mut self, decl: &EntityDecl, strs: &StrTable)
        ensures
            final(self).errors@.len() == old(self).errors@.len() + entity_cfindings(
                *decl,
                decl.items@.len() as int,
            ).len(),
            forall|i: int|
                0 <= i < old(self).errors@.len() ==> final(self).errors@[i] == old(
                    self,
                ).errors@[i],
            cmatches(
                final(self).errors@.skip(old(self).errors@.len() as int),
                entity_cfindings(*decl, decl.items@.len() as int),
                *strs,
            ),
    {
        let ghost base = self.errors@;
        let mut vars: Vec<StrId> = Vec::new();
        let mut toks: Vec<Token> = Vec::new();
        let n = decl.items.len();
        for k in 0..n
            invariant
                vars@ == entity_vars(decl.items@, k as int).map_values(|v: (StrId, Token)| v.0),
        {
            match &decl.items[k] {
                EntityItem::Var { ident, .. } => {
                    vars.push(ident.name);
                    toks.push(ident.token);
                },
                _ => {},
            }
            proof {
                assert(vars@ =~= entity_vars(decl.items@, k + 1 as int).map_values(
                    |v: (StrId, Token)| v.0,
                ));
            }
        }
        proof {
            assert(vars@ == entity_vars(decl.items@, decl.items@.len() as int).map_values(
                |v: (StrId, Token)| v.0,
            ));
        }
        for k in 0..n
            invariant
                self.errors@.len() == base.len() + entity_cfindings(*decl, k as int).len(),
                forall|j: int| 0 <= j < base.len() ==> self.errors@[j] == base[j],
                cmatches(
                    self.errors@.skip(base.len() as int),
                    entity_cfindings(*decl, k as int),
                    *strs,
                ),
                vars@ == entity_vars(decl.items@, decl.items@.len() as int).map_values(
                    |v: (StrId, Token)| v.0,
                ),
        {
            let ghost fs_before = entity_cfindings(*decl, k as int);
            let ghost before = self.errors@;
            match &decl.items[k] {
                EntityItem::AlwaysComb { block, .. } => {
                    let mut assigned: Vec<bool> = Vec::new();
                    let m = vars.len();
                    for i in 0..m
                        invariant
                            assigned@.len() == i,
                            forall|j: int| 0 <= j < i ==> assigned@[j] == false,
                    {
                        assigned.push(false);
                    }
                    proof {
                        assert(assigned@ =~= Seq::new(vars@.len(), |i: int| false));
                    }
                    flow_stmts_exec(&mut self.errors, block, &vars, &mut assigned, strs);
                },
                _ => {},
            }
            proof {
                assert(self.errors@.skip(base.len() as int).take(fs_before.len() as int)
                    =~= before.skip(base.len() as int));
                assert(self.errors@.skip(base.len() as int).skip(fs_before.len() as int)
                    =~= self.errors@.skip(before.len() as int));
                let fhere: Seq<CovFinding> = match decl.items@[k as int] {
                    EntityItem::AlwaysComb { block, .. } => flow_stmts(
                        block@,
                        vars@,
                        Seq::new(vars@.len(), |i: int| false),
                        block@.len() as int,
                    ).0,
                    _ => Seq::empty(),
                };
                lemma_cmatch_concat(
                    self.errors@.skip(base.len() as int),
                    fs_before,
                    fhere,
                    *strs,
                );
                assert(entity_cfindings(*decl, k + 1 as int) =~= fs_before + fhere);
            }
        }
    }
}

} // verus!

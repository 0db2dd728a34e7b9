use vstd::prelude::*;
use crate::ast::{
    EntityDecl, EntityItem, Expr, HierIdent, InstDecl, InstPortItem, SequenceDecl, Statement,
};
use crate::diag::{DiagCode, Diagnostic};
use crate::suppression::{suppressed, Unsafe, UnsafeTable};
use crate::symbol::{domain_compatible, domain_label, kind_is_power, PowerDomain, SymbolKind, TypeKind};
use crate::symbol_table::{resolve_base_spec, resolve_ref_spec, SymbolTable};
use crate::token::{StrId, StrTable, Token, TokenRange};

verus! {

/// One finding of the power-domain propagation check.
#[derive(Clone, Copy, Debug, PartialEq, Eq, Structural)]
pub enum DomainFinding {
    /// Two incompatible domains meet in one statement or connection
    /// group: the offender and the baseline it clashed with.
    Mismatch {
        curr: PowerDomain,
        prev: PowerDomain,
        curr_span: TokenRange,
        prev_span: TokenRange,
    },
    /// Two or more clock ports, at least one without a domain
    /// annotation.
    MissingDomain { token: Token },
    /// A plain-polarity reset connected by name to an opaque foreign
    /// instance.
    SvImplicitEnable { token: Token },
}

/// Whether a diagnostic is the one a finding calls for.
pub open spec fn dmatch(d: Diagnostic, f: DomainFinding, strs: StrTable) -> bool {
    match f {
        DomainFinding::Mismatch { curr, prev, curr_span, prev_span } => {
            &&& d.code == DiagCode::MismatchPowerDomain
            &&& d.fields@.len() == 2
            &&& d.fields@[0]@ == domain_label(strs, curr)
            &&& d.fields@[1]@ == domain_label(strs, prev)
            &&& d.primary == curr_span
            &&& d.secondaries@ == seq![prev_span]
        },
        DomainFinding::MissingDomain { token } => {
            &&& d.code == DiagCode::MissingPowerDomain
            &&& d.fields@.len() == 0
            &&& d.primary == (TokenRange { beg: token, end: token })
        },
        DomainFinding::SvImplicitEnable { token } => {
            &&& d.code == DiagCode::SvWithImplicitEnable
            &&& d.fields@.len() == 0
            &&& d.primary == (TokenRange { beg: token, end: token })
        },
    }
}

/// Whether a run of diagnostics matches a run of findings one for one.
pub open spec fn dmatches(ds: Seq<Diagnostic>, fs: Seq<DomainFinding>, strs: StrTable) -> bool {
    ds.len() == fs.len() && forall|i: int| 0 <= i < ds.len() ==> dmatch(ds[i], fs[i], strs)
}

/// Two matching runs concatenate to a matching run.
proof fn lemma_dmatch_concat(
    ds: Seq<Diagnostic>,
    fs1: Seq<DomainFinding>,
    fs2: Seq<DomainFinding>,
    strs: StrTable,
)
    requires
        dmatches(ds.take(fs1.len() as int), fs1, strs),
        dmatches(ds.skip(fs1.len() as int), fs2, strs),
        ds.len() == fs1.len() + fs2.len(),
    ensures
        dmatches(ds, fs1 + fs2, strs),
{
    assert forall|i: int| 0 <= i < ds.len() implies dmatch(ds[i], (fs1 + fs2)[i], strs) by {
        if i < fs1.len() {
            assert(ds.take(fs1.len() as int)[i] == ds[i]);
        } else {
            assert(ds.skip(fs1.len() as int)[i - fs1.len()] == ds[i]);
        }
    }
}

/// The domain of the symbol a reference resolves to, where it is a
/// port or variable.
pub open spec fn ref_domain(
    syms: Seq<crate::symbol::Symbol>,
    ctx: Seq<StrId>,
    scope: Seq<StrId>,
    name: StrId,
) -> Option<PowerDomain> {
    match resolve_ref_spec(syms, ctx, scope, name) {
        Option::Some(i) => match syms[i].kind {
            SymbolKind::Port(p) => Option::Some(p.power_domain),
            SymbolKind::Variable(v) => Option::Some(v.power_domain),
            _ => Option::None,
        },
        Option::None => Option::None,
    }
}

/// The (domain, span) pairs an expression contributes, gathered
/// left-to-right depth-first: one pair per reference that resolves to
/// a port or variable.
pub open spec fn expr_domains(e: Expr, syms: Seq<crate::symbol::Symbol>, ctx: Seq<StrId>) -> Seq<
    (PowerDomain, TokenRange),
>
    decreases e,
{
    match e {
        Expr::Ref(r) => {
            match ref_domain(
                syms,
                ctx,
                r.scope@.map_values(|id: crate::ast::Ident| id.name),
                r.base.name,
            ) {
                Option::Some(d) => seq![(d, r.span)],
                Option::None => Seq::empty(),
            }
        },
        Expr::Unary { operand, .. } => expr_domains(*operand, syms, ctx),
        Expr::Binary { lhs, rhs, .. } => expr_domains(*lhs, syms, ctx) + expr_domains(
            *rhs,
            syms,
            ctx,
        ),
        Expr::Concat { parts, .. } => exprs_domains(parts@, syms, ctx, parts@.len() as int),
        Expr::Cast { operand, .. } => expr_domains(*operand, syms, ctx),
        Expr::Call { args, .. } => exprs_domains(args@, syms, ctx, args@.len() as int),
        _ => Seq::empty(),
    }
}

/// The pairs the first `n` expressions of a list contribute.
pub open spec fn exprs_domains(
    es: Seq<Expr>,
    syms: Seq<crate::symbol::Symbol>,
    ctx: Seq<StrId>,
    n: int,
) -> Seq<(PowerDomain, TokenRange)>
    decreases es, n,
{
    if n <= 0 || n > es.len() {
        Seq::empty()
    } else {
        exprs_domains(es, syms, ctx, n - 1) + expr_domains(es[n - 1], syms, ctx)
    }
}

/// The mismatch findings of one left-to-right compatibility sweep from
/// position `i`, with `prev` the running baseline: each pair
/// incompatible with the baseline is reported against it, and every
/// pair in turn becomes the new baseline.
pub open spec fn sweep(
    pairs: Seq<(PowerDomain, TokenRange)>,
    prev: Option<(PowerDomain, TokenRange)>,
    i: int,
) -> Seq<DomainFinding>
    decreases pairs.len() - i,
{
    if i < 0 || i >= pairs.len() {
        Seq::empty()
    } else {
        let curr = pairs[i];
        let here: Seq<DomainFinding> = match prev {
            Option::Some(p) => if !domain_compatible(curr.0, p.0) {
                seq![
                    DomainFinding::Mismatch {
                        curr: curr.0,
                        prev: p.0,
                        curr_span: curr.1,
                        prev_span: p.1,
                    },
                ]
            } else {
                Seq::empty()
            },
            Option::None => Seq::empty(),
        };
        here + sweep(pairs, Option::Some(curr), i + 1)
    }
}

/// Whether a sweep meets a pair incompatible with its running
/// baseline.
pub open spec fn has_incompat(
    pairs: Seq<(PowerDomain, TokenRange)>,
    prev: Option<(PowerDomain, TokenRange)>,
    i: int,
) -> bool
    decreases pairs.len() - i,
{
    if i < 0 || i >= pairs.len() {
        false
    } else {
        (prev matches Option::Some(p) && !domain_compatible(pairs[i].0, p.0)) || has_incompat(
            pairs,
            Option::Some(pairs[i]),
            i + 1,
        )
    }
}

/// The statement-level findings: nothing under an enclosing
/// suppression of the power-domain check, the full sweep without one.
pub open spec fn sweep_checked(
    pairs: Seq<(PowerDomain, TokenRange)>,
    baseline: Option<(PowerDomain, TokenRange)>,
    sup: bool,
) -> Seq<DomainFinding> {
    if sup {
        Seq::empty()
    } else {
        sweep(pairs, baseline, 0)
    }
}

/// An enclosing suppression silences the sweep; removing it on
/// otherwise-identical pairs reproduces a domain-mismatch finding
/// exactly when some pair is incompatible with the running baseline.
pub proof fn lemma_suppression_removal(
    pairs: Seq<(PowerDomain, TokenRange)>,
    baseline: Option<(PowerDomain, TokenRange)>,
)
    ensures
        sweep_checked(pairs, baseline, true) == Seq::<DomainFinding>::empty(),
        sweep_checked(pairs, baseline, false).len() > 0 <==> has_incompat(pairs, baseline, 0),
{
    lemma_sweep_iff_incompat(pairs, baseline, 0);
}

/// A sweep reports a finding exactly when it meets an incompatible
/// pair.
proof fn lemma_sweep_iff_incompat(
    pairs: Seq<(PowerDomain, TokenRange)>,
    prev: Option<(PowerDomain, TokenRange)>,
    i: int,
)
    ensures
        sweep(pairs, prev, i).len() > 0 <==> has_incompat(pairs, prev, i),
    decreases pairs.len() - i,
{
    if 0 <= i && i < pairs.len() {
        lemma_sweep_iff_incompat(pairs, Option::Some(pairs[i]), i + 1);
    }
}

/// The domain a connection chain settles on: the last pair's domain,
/// and unspecified for an empty chain.
pub open spec fn chain_domain(pairs: Seq<(PowerDomain, TokenRange)>) -> PowerDomain {
    if pairs.len() == 0 {
        PowerDomain::Unspecified
    } else {
        pairs.last().0
    }
}

/// The findings of one statement, walked depth-first. An in-block
/// assignment gathers its target first — the leftmost operand — so a
/// mismatch is reported against it; a binding or continuous
/// assignment settles its target last, as the walk meets it.
pub open spec fn stmt_findings(
    s: Statement,
    syms: Seq<crate::symbol::Symbol>,
    ctx: Seq<StrId>,
    baseline: Option<(PowerDomain, TokenRange)>,
    entries: Seq<(Unsafe, TokenRange)>,
) -> Seq<DomainFinding>
    decreases s,
{
    match s {
        Statement::Assign { target, rhs, token } => {
            let pairs = target_domain(target, syms, ctx) + expr_domains(rhs, syms, ctx);
            sweep_checked(pairs, baseline, suppressed(entries, token, Unsafe::Pdc))
        },
        Statement::LetStmt { ident, domain, rhs, token, .. } => {
            let pairs = expr_domains(rhs, syms, ctx).push(
                (domain, TokenRange { beg: ident.token, end: ident.token }),
            );
            sweep_checked(pairs, baseline, suppressed(entries, token, Unsafe::Pdc))
        },
        Statement::CallStmt { args, token, .. } => {
            let pairs = exprs_domains(args@, syms, ctx, args@.len() as int);
            sweep_checked(pairs, baseline, suppressed(entries, token, Unsafe::Pdc))
        },
        Statement::If { then_block, else_block, .. } => stmts_findings(
            then_block@,
            syms,
            ctx,
            baseline,
            entries,
            then_block@.len() as int,
        ) + stmts_findings(else_block@, syms, ctx, baseline, entries, else_block@.len() as int),
        Statement::IfEnable { block, else_block, .. } => stmts_findings(
            block@,
            syms,
            ctx,
            baseline,
            entries,
            block@.len() as int,
        ) + stmts_findings(else_block@, syms, ctx, baseline, entries, else_block@.len() as int),
        Statement::Case { arms, default_block, .. } => arms_findings(
            arms@,
            syms,
            ctx,
            baseline,
            entries,
            arms@.len() as int,
        ) + stmts_findings(
            default_block@,
            syms,
            ctx,
            baseline,
            entries,
            default_block@.len() as int,
        ),
        Statement::For { body, .. } => stmts_findings(
            body@,
            syms,
            ctx,
            baseline,
            entries,
            body@.len() as int,
        ),
        _ => Seq::empty(),
    }
}

/// The (domain, span) pair of an assignment target, where its base
/// resolves to a port or variable.
pub open spec fn target_domain(
    target: HierIdent,
    syms: Seq<crate::symbol::Symbol>,
    ctx: Seq<StrId>,
) -> Seq<(PowerDomain, TokenRange)> {
    match ref_domain(syms, ctx, Seq::empty(), target.base.name) {
        Option::Some(d) => seq![(d, target.span)],
        Option::None => Seq::empty(),
    }
}

/// The findings of the first `n` statements of a block.
pub open spec fn stmts_findings(
    ss: Seq<Statement>,
    syms: Seq<crate::symbol::Symbol>,
    ctx: Seq<StrId>,
    baseline: Option<(PowerDomain, TokenRange)>,
    entries: Seq<(Unsafe, TokenRange)>,
    n: int,
) -> Seq<DomainFinding>
    decreases ss, n,
{
    if n <= 0 || n > ss.len() {
        Seq::empty()
    } else {
        stmts_findings(ss, syms, ctx, baseline, entries, n - 1) + stmt_findings(
            ss[n - 1],
            syms,
            ctx,
            baseline,
            entries,
        )
    }
}

/// The findings of the first `n` case arms.
pub open spec fn arms_findings(
    arms: Seq<crate::ast::CaseArm>,
    syms: Seq<crate::symbol::Symbol>,
    ctx: Seq<StrId>,
    baseline: Option<(PowerDomain, TokenRange)>,
    entries: Seq<(Unsafe, TokenRange)>,
    n: int,
) -> Seq<DomainFinding>
    decreases arms, n,
{
    if n <= 0 || n > arms.len() {
        Seq::empty()
    } else {
        arms_findings(arms, syms, ctx, baseline, entries, n - 1) + stmts_findings(
            arms[n - 1].block@,
            syms,
            ctx,
            baseline,
            entries,
            arms[n - 1].block@.len() as int,
        )
    }
}

/// The pairs one instance connection contributes: its expression's
/// pairs, or the named signal's own domain for the shorthand form.
pub open spec fn inst_item_pairs(
    it: InstPortItem,
    syms: Seq<crate::symbol::Symbol>,
    ctx: Seq<StrId>,
) -> Seq<(PowerDomain, TokenRange)> {
    match it.expr {
        Option::Some(e) => expr_domains(e, syms, ctx),
        Option::None => {
            match ref_domain(syms, ctx, Seq::empty(), it.port.name) {
                Option::Some(d) => seq![
                    (d, TokenRange { beg: it.port.token, end: it.port.token }),
                ],
                Option::None => Seq::empty(),
            }
        },
    }
}

/// Whether a name resolves to a signal of the plain-polarity reset
/// kind.
pub open spec fn ref_enable_plain(
    syms: Seq<crate::symbol::Symbol>,
    ctx: Seq<StrId>,
    name: StrId,
) -> bool {
    match resolve_base_spec(syms, ctx, name) {
        Option::Some(i) => match syms[i].kind {
            SymbolKind::Port(p) => p.ty matches Option::Some(t) && t.kind is Enable,
            SymbolKind::Variable(v) => v.ty.kind is Enable,
            _ => false,
        },
        Option::None => false,
    }
}

/// The findings of one instance connection: its own intra-expression
/// sweep, and the implicit-reset check against opaque foreign targets.
pub open spec fn inst_item_findings(
    it: InstPortItem,
    syms: Seq<crate::symbol::Symbol>,
    ctx: Seq<StrId>,
    entries: Seq<(Unsafe, TokenRange)>,
    foreign: bool,
) -> Seq<DomainFinding> {
    let sw = sweep_checked(
        inst_item_pairs(it, syms, ctx),
        Option::None,
        suppressed(entries, it.token, Unsafe::Pdc),
    );
    let sv: Seq<DomainFinding> = if foreign && it.expr is None && ref_enable_plain(
        syms,
        ctx,
        it.port.name,
    ) {
        seq![DomainFinding::SvImplicitEnable { token: it.port.token }]
    } else {
        Seq::empty()
    };
    sw + sv
}

/// The findings of the first `n` instance connections.
pub open spec fn inst_items_findings_upto(
    items: Seq<InstPortItem>,
    syms: Seq<crate::symbol::Symbol>,
    ctx: Seq<StrId>,
    entries: Seq<(Unsafe, TokenRange)>,
    foreign: bool,
    n: int,
) -> Seq<DomainFinding>
    decreases n,
{
    if n <= 0 || n > items.len() {
        Seq::empty()
    } else {
        inst_items_findings_upto(items, syms, ctx, entries, foreign, n - 1) + inst_item_findings(
            items[n - 1],
            syms,
            ctx,
            entries,
            foreign,
        )
    }
}

/// The settled connection list of an instantiation: one (port name,
/// domain, span) row per connection, in declaration order.
pub open spec fn inst_conns(
    items: Seq<InstPortItem>,
    syms: Seq<crate::symbol::Symbol>,
    ctx: Seq<StrId>,
) -> Seq<(StrId, PowerDomain, TokenRange)> {
    items.map_values(
        |it: InstPortItem|
            (
                it.port.name,
                chain_domain(inst_item_pairs(it, syms, ctx)),
                TokenRange { beg: it.port.token, end: it.port.token },
            ),
    )
}

/// The last connection of a port name: a port connected twice keeps
/// its later connection.
pub open spec fn conn_find(
    conns: Seq<(StrId, PowerDomain, TokenRange)>,
    name: StrId,
) -> Option<(PowerDomain, TokenRange)>
    decreases conns.len(),
{
    if conns.len() == 0 {
        Option::None
    } else if conns.last().0 == name {
        Option::Some((conns.last().1, conns.last().2))
    } else {
        conn_find(conns.drop_last(), name)
    }
}

/// The first row of a connection-group table with the given key.
pub open spec fn assoc_find(
    acc: Seq<(PowerDomain, PowerDomain, TokenRange)>,
    key: PowerDomain,
    i: int,
) -> Option<(PowerDomain, TokenRange)>
    decreases acc.len() - i,
{
    if i < 0 || i >= acc.len() {
        Option::None
    } else if acc[i].0 == key {
        Option::Some((acc[i].1, acc[i].2))
    } else {
        assoc_find(acc, key, i + 1)
    }
}

/// The findings of the per-port grouping check against a known entity:
/// connections are grouped by the callee port's declared domain, and
/// each further connection of a group is checked against the first.
pub open spec fn group_sweep(
    cports: Seq<crate::symbol::PortProperty>,
    conns: Seq<(StrId, PowerDomain, TokenRange)>,
    sup: bool,
    i: int,
    acc: Seq<(PowerDomain, PowerDomain, TokenRange)>,
) -> Seq<DomainFinding>
    decreases cports.len() - i,
{
    if i < 0 || i >= cports.len() {
        Seq::empty()
    } else {
        let cp = cports[i];
        match conn_find(conns, cp.name) {
            Option::None => group_sweep(cports, conns, sup, i + 1, acc),
            Option::Some(c) => {
                match assoc_find(acc, cp.power_domain, 0) {
                    Option::Some(a) => {
                        let here: Seq<DomainFinding> = if !domain_compatible(a.0, c.0) && !sup {
                            seq![
                                DomainFinding::Mismatch {
                                    curr: c.0,
                                    prev: a.0,
                                    curr_span: c.1,
                                    prev_span: a.1,
                                },
                            ]
                        } else {
                            Seq::empty()
                        };
                        here + group_sweep(cports, conns, sup, i + 1, acc)
                    },
                    Option::None => group_sweep(
                        cports,
                        conns,
                        sup,
                        i + 1,
                        acc.push((cp.power_domain, c.0, c.1)),
                    ),
                }
            },
        }
    }
}

/// The scope path and final name of a scoped identifier.
pub open spec fn scoped_parts(si: crate::ast::ScopedIdent) -> (Seq<StrId>, StrId) {
    let names = si.path@.map_values(|id: crate::ast::Ident| id.name);
    if si.path@.len() == 0 {
        (Seq::empty(), si.base.name)
    } else {
        (seq![si.base.name] + names.drop_last(), names.last())
    }
}

/// The flat pairwise chain over every connection, for opaque foreign
/// targets.
pub open spec fn conn_pairs(conns: Seq<(StrId, PowerDomain, TokenRange)>) -> Seq<(
    PowerDomain,
    TokenRange,
)> {
    conns.map_values(|c: (StrId, PowerDomain, TokenRange)| (c.1, c.2))
}

/// The findings of one instantiation: each connection's own findings
/// in order, then the cross-connection check — grouped by callee port
/// domain for a known entity, flat for an opaque foreign target.
pub open spec fn inst_findings(
    inst: InstDecl,
    syms: Seq<crate::symbol::Symbol>,
    ctx: Seq<StrId>,
    entries: Seq<(Unsafe, TokenRange)>,
) -> Seq<DomainFinding> {
    let sup = suppressed(entries, inst.token, Unsafe::Pdc);
    let items = inst_items_findings_upto(
        inst.ports@,
        syms,
        ctx,
        entries,
        inst.foreign,
        inst.ports@.len() as int,
    );
    let conns = inst_conns(inst.ports@, syms, ctx);
    let cross: Seq<DomainFinding> = if inst.foreign {
        sweep_checked(conn_pairs(conns), Option::None, sup)
    } else {
        let parts = scoped_parts(inst.target);
        match resolve_ref_spec(syms, ctx, parts.0, parts.1) {
            Option::Some(i) => match syms[i].kind {
                SymbolKind::Entity(ep) => group_sweep(ep.ports@, conns, sup, 0, Seq::empty()),
                _ => Seq::empty(),
            },
            Option::None => Seq::empty(),
        }
    };
    items + cross
}

/// Whether a port declares a clock-kinded signal.
pub open spec fn is_power_port(p: crate::ast::PortDecl) -> bool {
    p.ty matches Option::Some(t) && kind_is_power(t.kind)
}

/// The clock ports among the first `n` ports of an entity declaration.
pub open spec fn power_ports_upto(ports: Seq<crate::ast::PortDecl>, n: int) -> Seq<
    crate::ast::PortDecl,
>
    decreases n,
{
    if n <= 0 || n > ports.len() {
        Seq::empty()
    } else if is_power_port(ports[n - 1]) {
        power_ports_upto(ports, n - 1).push(ports[n - 1])
    } else {
        power_ports_upto(ports, n - 1)
    }
}

/// The clock ports of an entity declaration.
pub open spec fn power_ports(ports: Seq<crate::ast::PortDecl>) -> Seq<crate::ast::PortDecl> {
    power_ports_upto(ports, ports.len() as int)
}

/// Whether some port of a list carries no domain annotation.
pub open spec fn any_unspec(pp: Seq<crate::ast::PortDecl>) -> bool {
    exists|i: int| 0 <= i < pp.len() && pp[i].domain is Unspecified
}

/// The default clock domain of an entity: the domain of its single
/// clock port, where exactly one is declared.
pub open spec fn entity_default_power(decl: EntityDecl) -> Option<PowerDomain> {
    let pp = power_ports(decl.ports@);
    if pp.len() == 1 {
        Option::Some(pp[0].domain)
    } else {
        Option::None
    }
}

/// The baseline of a clocked block: the domain of its explicit clock
/// reference where one resolves to a signal, else the enclosing
/// entity's default clock domain, anchored at the block's own token.
pub open spec fn sequence_baseline(
    sd: SequenceDecl,
    syms: Seq<crate::symbol::Symbol>,
    ctx: Seq<StrId>,
    default: Option<PowerDomain>,
) -> Option<(PowerDomain, TokenRange)> {
    let r = TokenRange { beg: sd.token, end: sd.token };
    match sd.event {
        Option::Some(ev) => {
            match ref_domain(syms, ctx, Seq::empty(), ev.power.base.name) {
                Option::Some(d) => Option::Some((d, r)),
                Option::None => Option::None,
            }
        },
        Option::None => {
            match default {
                Option::Some(d) => Option::Some((d, r)),
                Option::None => Option::None,
            }
        },
    }
}

/// The findings of one entity item.
pub open spec fn item_dfindings(
    item: EntityItem,
    syms: Seq<crate::symbol::Symbol>,
    ctx: Seq<StrId>,
    entries: Seq<(Unsafe, TokenRange)>,
    default: Option<PowerDomain>,
) -> Seq<DomainFinding>
    decreases item,
{
    match item {
        EntityItem::Sequence(sd) => stmts_findings(
            sd.block@,
            syms,
            ctx,
            sequence_baseline(sd, syms, ctx, default),
            entries,
            sd.block@.len() as int,
        ),
        EntityItem::AlwaysComb { block, .. } => stmts_findings(
            block@,
            syms,
            ctx,
            Option::None,
            entries,
            block@.len() as int,
        ),
        EntityItem::Initial { block, .. } => stmts_findings(
            block@,
            syms,
            ctx,
            Option::None,
            entries,
            block@.len() as int,
        ),
        EntityItem::Final { block, .. } => stmts_findings(
            block@,
            syms,
            ctx,
            Option::None,
            entries,
            block@.len() as int,
        ),
        EntityItem::AssignDecl { target, rhs, token } => sweep_checked(
            expr_domains(rhs, syms, ctx) + target_domain(target, syms, ctx),
            Option::None,
            suppressed(entries, token, Unsafe::Pdc),
        ),
        EntityItem::Let { ident, domain, rhs, token, .. } => sweep_checked(
            expr_domains(rhs, syms, ctx).push(
                (domain, TokenRange { beg: ident.token, end: ident.token }),
            ),
            Option::None,
            suppressed(entries, token, Unsafe::Pdc),
        ),
        EntityItem::Inst(inst) => inst_findings(inst, syms, ctx, entries),
        EntityItem::UnsafeBlock { items, .. } => items_dfindings_upto(
            items@,
            syms,
            ctx,
            entries,
            default,
            items@.len() as int,
        ),
        _ => Seq::empty(),
    }
}

/// The findings of the first `n` entity items.
pub open spec fn items_dfindings_upto(
    items: Seq<EntityItem>,
    syms: Seq<crate::symbol::Symbol>,
    ctx: Seq<StrId>,
    entries: Seq<(Unsafe, TokenRange)>,
    default: Option<PowerDomain>,
    n: int,
) -> Seq<DomainFinding>
    decreases items, n,
{
    if n <= 0 || n > items.len() {
        Seq::empty()
    } else {
        items_dfindings_upto(items, syms, ctx, entries, default, n - 1) + item_dfindings(
            items[n - 1],
            syms,
            ctx,
            entries,
            default,
        )
    }
}

/// Every finding of the power-domain check on one entity: the missing
/// domain-annotation check on its clock ports first, then its items in
/// declaration order.
pub open spec fn entity_dfindings(
    decl: EntityDecl,
    syms: Seq<crate::symbol::Symbol>,
    ctx: Seq<StrId>,
    entries: Seq<(Unsafe, TokenRange)>,
) -> Seq<DomainFinding> {
    let pp = power_ports(decl.ports@);
    let head: Seq<DomainFinding> = if pp.len() >= 2 && any_unspec(pp) {
        seq![DomainFinding::MissingDomain { token: decl.token }]
    } else {
        Seq::empty()
    };
    head + items_dfindings_upto(
        decl.items@,
        syms,
        ctx,
        entries,
        entity_default_power(decl),
        decl.items@.len() as int,
    )
}

/// Appends the (domain, span) pairs of an expression, left-to-right
/// depth-first.
#[verifier::loop_isolation(false)]
fn gather_expr_domains(
    out: &mut Vec<(PowerDomain, TokenRange)>,
    e: &Expr,
    tab: &SymbolTable,
    ctx: &Vec<StrId>,
)
    ensures
        final(out)@ == old(out)@ + expr_domains(*e, tab.symbols@, ctx@),
    decreases *e,
{
    let ghost base = out@;
    match e {
        Expr::Ref(r) => {
            match tab.resolve_ref(ctx, &r.scope, r.base.name) {
                Option::Some(i) => {
                    match &tab.symbols[i].kind {
                        SymbolKind::Port(p) => out.push((p.power_domain, r.span)),
                        SymbolKind::Variable(v) => out.push((v.power_domain, r.span)),
                        _ => {},
                    }
                },
                Option::None => {},
            }
            proof {
                assert(final(out)@ =~= base + expr_domains(*e, tab.symbols@, ctx@));
            }
        },
        Expr::Unary { operand, .. } => {
            gather_expr_domains(out, operand, tab, ctx);
        },
        Expr::Cast { operand, .. } => {
            gather_expr_domains(out, operand, tab, ctx);
        },
        Expr::Binary { lhs, rhs, .. } => {
            gather_expr_domains(out, lhs, tab, ctx);
            gather_expr_domains(out, rhs, tab, ctx);
            proof {
                assert(out@ =~= base + expr_domains(*e, tab.symbols@, ctx@));
            }
        },
        Expr::Concat { parts, .. } => {
            let n = parts.len();
            for k in 0..n
                invariant
                    out@ == base + exprs_domains(parts@, tab.symbols@, ctx@, k as int),
            {
                proof {
                    assert(decreases_to!(*parts => parts@[k as int]));
                }
                gather_expr_domains(out, &parts[k], tab, ctx);
                proof {
                    assert(out@ =~= base + exprs_domains(
                        parts@,
                        tab.symbols@,
                        ctx@,
                        k + 1 as int,
                    ));
                }
            }
        },
        Expr::Call { args, .. } => {
            let n = args.len();
            for k in 0..n
                invariant
                    out@ == base + exprs_domains(args@, tab.symbols@, ctx@, k as int),
            {
                proof {
                    assert(decreases_to!(*args => args@[k as int]));
                }
                gather_expr_domains(out, &args[k], tab, ctx);
                proof {
                    assert(out@ =~= base + exprs_domains(args@, tab.symbols@, ctx@, k + 1 as int));
                }
            }
        },
        _ => {
            proof {
                assert(final(out)@ =~= base + expr_domains(*e, tab.symbols@, ctx@));
            }
        },
    }
}

/// Runs one compatibility sweep, appending one diagnostic per
/// mismatch.
#[verifier::loop_isolation(false)]
fn sweep_exec(
    errors: &mut Vec<Diagnostic>,
    pairs: &Vec<(PowerDomain, TokenRange)>,
    baseline: Option<(PowerDomain, TokenRange)>,
    sup: bool,
    strs: &StrTable,
)
    ensures
        final(errors)@.len() == old(errors)@.len() + sweep_checked(pairs@, baseline, sup).len(),
        forall|i: int| 0 <= i < old(errors)@.len() ==> final(errors)@[i] == old(errors)@[i],
        dmatches(
            final(errors)@.skip(old(errors)@.len() as int),
            sweep_checked(pairs@, baseline, sup),
            *strs,
        ),
{
    let ghost base = errors@;
    if sup {
        proof {
            assert(errors@.skip(base.len() as int) =~= Seq::<Diagnostic>::empty());
        }
        return;
    }
    let ghost full = sweep(pairs@, baseline, 0);
    let mut prev: Option<(PowerDomain, TokenRange)> = baseline;
    let ghost mut fsofar: Seq<DomainFinding> = Seq::empty();
    let n = pairs.len();
    proof {
        assert(errors@.skip(base.len() as int) =~= Seq::<Diagnostic>::empty());
    }
    for i in 0..n
        invariant
            errors@.len() == base.len() + fsofar.len(),
            forall|j: int| 0 <= j < base.len() ==> errors@[j] == base[j],
            dmatches(errors@.skip(base.len() as int), fsofar, *strs),
            full == fsofar + sweep(pairs@, prev, i as int),
    {
        let curr = pairs[i];
        let ghost before = errors@;
        let ghost fhere: Seq<DomainFinding> = match prev {
            Option::Some(p) => if !domain_compatible(curr.0, p.0) {
                seq![
                    DomainFinding::Mismatch {
                        curr: curr.0,
                        prev: p.0,
                        curr_span: curr.1,
                        prev_span: p.1,
                    },
                ]
            } else {
                Seq::empty()
            },
            Option::None => Seq::empty(),
        };
        match prev {
            Option::Some(p) => {
                if !curr.0.compatible(&p.0) {
                    errors.push(
                        Diagnostic::mismatch_power_domain(
                            curr.0.label(strs),
                            p.0.label(strs),
                            &curr.1,
                            &p.1,
                        ),
                    );
                }
            },
            Option::None => {},
        }
        proof {
            assert(sweep(pairs@, prev, i as int) == fhere + sweep(
                pairs@,
                Option::Some(pairs@[i as int]),
                i + 1,
            ));
            assert(errors@.skip(base.len() as int) =~= before.skip(base.len() as int) + errors@.skip(
                before.len() as int,
            ));
            assert(dmatches(errors@.skip(before.len() as int), fhere, *strs));
            lemma_dmatch_concat(errors@.skip(base.len() as int), fsofar, fhere, *strs);
            assert(errors@.skip(base.len() as int).take(fsofar.len() as int) =~= before.skip(
                base.len() as int,
            ));
            fsofar = fsofar + fhere;
        }
        prev = Some(curr);
    }
    proof {
        assert(sweep(pairs@, prev, n as int) == Seq::<DomainFinding>::empty());
        assert(full =~= fsofar);
    }
}

/// Appends the (domain, span) pair of an assignment target's base,
/// where it resolves to a signal.
fn gather_target_domain(
    out: &mut Vec<(PowerDomain, TokenRange)>,
    target: &HierIdent,
    tab: &SymbolTable,
    ctx: &Vec<StrId>,
)
    ensures
        final(out)@ == old(out)@ + target_domain(*target, tab.symbols@, ctx@),
{
    let ghost base = out@;
    match tab.resolve_base(ctx, target.base.name) {
        Option::Some(i) => {
            match &tab.symbols[i].kind {
                SymbolKind::Port(p) => out.push((p.power_domain, target.span)),
                SymbolKind::Variable(v) => out.push((v.power_domain, target.span)),
                _ => {},
            }
        },
        Option::None => {},
    }
    proof {
        assert(resolve_ref_spec(tab.symbols@, ctx@, Seq::empty(), target.base.name)
            == resolve_base_spec(tab.symbols@, ctx@, target.base.name));
        assert(out@ =~= base + target_domain(*target, tab.symbols@, ctx@));
    }
}

/// Walks one statement for the power-domain check.
#[verifier::loop_isolation(false)]
fn check_stmt(
    errors: &mut Vec<Diagnostic>,
    s: &Statement,
    tab: &SymbolTable,
    ctx: &Vec<StrId>,
    baseline: Option<(PowerDomain, TokenRange)>,
    ut: &UnsafeTable,
    strs: &StrTable,
)
    ensures
        final(errors)@.len() == old(errors)@.len() + stmt_findings(
            *s,
            tab.symbols@,
            ctx@,
            baseline,
            ut.entries@,
        ).len(),
        forall|i: int| 0 <= i < old(errors)@.len() ==> final(errors)@[i] == old(errors)@[i],
        dmatches(
            final(errors)@.skip(old(errors)@.len() as int),
            stmt_findings(*s, tab.symbols@, ctx@, baseline, ut.entries@),
            *strs,
        ),
    decreases *s,
{
    let ghost base = errors@;
    match s {
        Statement::Assign { target, rhs, token } => {
            let mut pairs: Vec<(PowerDomain, TokenRange)> = Vec::new();
            gather_target_domain(&mut pairs, target, tab, ctx);
            gather_expr_domains(&mut pairs, rhs, tab, ctx);
            proof {
                assert(pairs@ =~= target_domain(*target, tab.symbols@, ctx@) + expr_domains(
                    *rhs,
                    tab.symbols@,
                    ctx@,
                ));
            }
            let sup = ut.contains(token, Unsafe::Pdc);
            sweep_exec(errors, &pairs, baseline, sup, strs);
        },
        Statement::LetStmt { ident, domain, rhs, token, .. } => {
            let mut pairs: Vec<(PowerDomain, TokenRange)> = Vec::new();
            gather_expr_domains(&mut pairs, rhs, tab, ctx);
            pairs.push((*domain, TokenRange { beg: ident.token, end: ident.token }));
            let sup = ut.contains(token, Unsafe::Pdc);
            sweep_exec(errors, &pairs, baseline, sup, strs);
        },
        Statement::CallStmt { args, token, .. } => {
            let mut pairs: Vec<(PowerDomain, TokenRange)> = Vec::new();
            let n = args.len();
            for k in 0..n
                invariant
                    pairs@ == exprs_domains(args@, tab.symbols@, ctx@, k as int),
            {
                proof {
                    assert(decreases_to!(*args => args@[k as int]));
                }
                gather_expr_domains(&mut pairs, &args[k], tab, ctx);
                proof {
                    assert(pairs@ =~= exprs_domains(args@, tab.symbols@, ctx@, k + 1 as int));
                }
            }
            let sup = ut.contains(token, Unsafe::Pdc);
            sweep_exec(errors, &pairs, baseline, sup, strs);
        },
        Statement::If { then_block, else_block, .. } => {
            check_stmts(errors, then_block, tab, ctx, baseline, ut, strs);
            let ghost mid = errors@;
            check_stmts(errors, else_block, tab, ctx, baseline, ut, strs);
            proof {
                let fs1 = stmts_findings(
                    then_block@,
                    tab.symbols@,
                    ctx@,
                    baseline,
                    ut.entries@,
                    then_block@.len() as int,
                );
                let fs2 = stmts_findings(
                    else_block@,
                    tab.symbols@,
                    ctx@,
                    baseline,
                    ut.entries@,
                    else_block@.len() as int,
                );
                assert(errors@.skip(base.len() as int).take(fs1.len() as int) =~= mid.skip(
                    base.len() as int,
                ));
                assert(errors@.skip(base.len() as int).skip(fs1.len() as int) =~= errors@.skip(
                    mid.len() as int,
                ));
                lemma_dmatch_concat(errors@.skip(base.len() as int), fs1, fs2, *strs);
            }
        },
        Statement::IfEnable { block, else_block, .. } => {
            check_stmts(errors, block, tab, ctx, baseline, ut, strs);
            let ghost mid = errors@;
            check_stmts(errors, else_block, tab, ctx, baseline, ut, strs);
            proof {
                let fs1 = stmts_findings(
                    block@,
                    tab.symbols@,
                    ctx@,
                    baseline,
                    ut.entries@,
                    block@.len() as int,
                );
                let fs2 = stmts_findings(
                    else_block@,
                    tab.symbols@,
                    ctx@,
                    baseline,
                    ut.entries@,
                    else_block@.len() as int,
                );
                assert(errors@.skip(base.len() as int).take(fs1.len() as int) =~= mid.skip(
                    base.len() as int,
                ));
                assert(errors@.skip(base.len() as int).skip(fs1.len() as int) =~= errors@.skip(
                    mid.len() as int,
                ));
                lemma_dmatch_concat(errors@.skip(base.len() as int), fs1, fs2, *strs);
            }
        },
        Statement::Case { arms, default_block, .. } => {
            let n = arms.len();
            let ghost full_arms = arms_findings(
                arms@,
                tab.symbols@,
                ctx@,
                baseline,
                ut.entries@,
                arms@.len() as int,
            );
            for k in 0..n
                invariant
                    errors@.len() == base.len() + arms_findings(
                        arms@,
                        tab.symbols@,
                        ctx@,
                        baseline,
                        ut.entries@,
                        k as int,
                    ).len(),
                    forall|j: int| 0 <= j < base.len() ==> errors@[j] == base[j],
                    dmatches(
                        errors@.skip(base.len() as int),
                        arms_findings(arms@, tab.symbols@, ctx@, baseline, ut.entries@, k as int),
                        *strs,
                    ),
            {
                let ghost fs_before = arms_findings(
                    arms@,
                    tab.symbols@,
                    ctx@,
                    baseline,
                    ut.entries@,
                    k as int,
                );
                let ghost before = errors@;
                proof {
                    assert(decreases_to!(*arms => arms@[k as int]));
                }
                check_stmts(errors, &arms[k].block, tab, ctx, baseline, ut, strs);
                proof {
                    assert(errors@.skip(base.len() as int).take(fs_before.len() as int)
                        =~= before.skip(base.len() as int));
                    assert(errors@.skip(base.len() as int).skip(fs_before.len() as int)
                        =~= errors@.skip(before.len() as int));
                    lemma_dmatch_concat(
                        errors@.skip(base.len() as int),
                        fs_before,
                        stmts_findings(
                            arms@[k as int].block@,
                            tab.symbols@,
                            ctx@,
                            baseline,
                            ut.entries@,
                            arms@[k as int].block@.len() as int,
                        ),
                        *strs,
                    );
                }
            }
            let ghost mid = errors@;
            check_stmts(errors, default_block, tab, ctx, baseline, ut, strs);
            proof {
                let fs2 = stmts_findings(
                    default_block@,
                    tab.symbols@,
                    ctx@,
                    baseline,
                    ut.entries@,
                    default_block@.len() as int,
                );
                assert(errors@.skip(base.len() as int).take(full_arms.len() as int) =~= mid.skip(
                    base.len() as int,
                ));
                assert(errors@.skip(base.len() as int).skip(full_arms.len() as int) =~= errors@.skip(
                    mid.len() as int,
                ));
                lemma_dmatch_concat(errors@.skip(base.len() as int), full_arms, fs2, *strs);
            }
        },
        Statement::For { body, .. } => {
            check_stmts(errors, body, tab, ctx, baseline, ut, strs);
        },
        _ => {
            proof {
                assert(errors@.skip(base.len() as int) =~= Seq::<Diagnostic>::empty());
            }
        },
    }
}

/// Walks a statement block for the power-domain check.
#[verifier::loop_isolation(false)]
fn check_stmts(
    errors: &mut Vec<Diagnostic>,
    ss: &Vec<Statement>,
    tab: &SymbolTable,
    ctx: &Vec<StrId>,
    baseline: Option<(PowerDomain, TokenRange)>,
    ut: &UnsafeTable,
    strs: &StrTable,
)
    ensures
        final(errors)@.len() == old(errors)@.len() + stmts_findings(
            ss@,
            tab.symbols@,
            ctx@,
            baseline,
            ut.entries@,
            ss@.len() as int,
        ).len(),
        forall|i: int| 0 <= i < old(errors)@.len() ==> final(errors)@[i] == old(errors)@[i],
        dmatches(
            final(errors)@.skip(old(errors)@.len() as int),
            stmts_findings(ss@, tab.symbols@, ctx@, baseline, ut.entries@, ss@.len() as int),
            *strs,
        ),
    decreases *ss,
{
    let ghost base = errors@;
    let n = ss.len();
    for k in 0..n
        invariant
            errors@.len() == base.len() + stmts_findings(
                ss@,
                tab.symbols@,
                ctx@,
                baseline,
                ut.entries@,
                k as int,
            ).len(),
            forall|j: int| 0 <= j < base.len() ==> errors@[j] == base[j],
            dmatches(
                errors@.skip(base.len() as int),
                stmts_findings(ss@, tab.symbols@, ctx@, baseline, ut.entries@, k as int),
                *strs,
            ),
    {
        let ghost fs_before = stmts_findings(
            ss@,
            tab.symbols@,
            ctx@,
            baseline,
            ut.entries@,
            k as int,
        );
        let ghost before = errors@;
        proof {
            assert(decreases_to!(*ss => ss@[k as int]));
        }
        check_stmt(errors, &ss[k], tab, ctx, baseline, ut, strs);
        proof {
            assert(errors@.skip(base.len() as int).take(fs_before.len() as int) =~= before.skip(
                base.len() as int,
            ));
            assert(errors@.skip(base.len() as int).skip(fs_before.len() as int) =~= errors@.skip(
                before.len() as int,
            ));
            lemma_dmatch_concat(
                errors@.skip(base.len() as int),
                fs_before,
                stmt_findings(ss@[k as int], tab.symbols@, ctx@, baseline, ut.entries@),
                *strs,
            );
        }
    }
}

/// The last connection of a port name, matching `conn_find`.
#[verifier::loop_isolation(false)]
fn conn_find_exec(
    conns: &Vec<(StrId, PowerDomain, TokenRange)>,
    name: StrId,
) -> (r: Option<(PowerDomain, TokenRange)>)
    ensures
        r == conn_find(conns@, name),
{
    let mut best: Option<(PowerDomain, TokenRange)> = None;
    let n = conns.len();
    for i in 0..n
        invariant
            best == conn_find(conns@.take(i as int), name),
    {
        proof {
            assert(conns@.take(i + 1 as int).last() == conns@[i as int]);
            assert(conns@.take(i + 1 as int).drop_last() =~= conns@.take(i as int));
        }
        if conns[i].0 == name {
            best = Some((conns[i].1, conns[i].2));
        }
    }
    proof {
        assert(conns@.take(n as int) =~= conns@);
    }
    best
}

/// The first row of a group table with the given key, matching
/// `assoc_find`.
#[verifier::loop_isolation(false)]
fn assoc_find_exec(
    acc: &Vec<(PowerDomain, PowerDomain, TokenRange)>,
    key: PowerDomain,
) -> (r: Option<(PowerDomain, TokenRange)>)
    ensures
        r == assoc_find(acc@, key, 0),
{
    let n = acc.len();
    for i in 0..n
        invariant
            assoc_find(acc@, key, 0) == assoc_find(acc@, key, i as int),
    {
        if acc[i].0 == key {
            return Some((acc[i].1, acc[i].2));
        }
    }
    None
}

/// Runs the per-port grouping check against a known entity's port
/// list.
#[verifier::loop_isolation(false)]
fn group_sweep_exec(
    errors: &mut Vec<Diagnostic>,
    cports: &Vec<crate::symbol::PortProperty>,
    conns: &Vec<(StrId, PowerDomain, TokenRange)>,
    sup: bool,
    strs: &StrTable,
)
    ensures
        final(errors)@.len() == old(errors)@.len() + group_sweep(
            cports@,
            conns@,
            sup,
            0,
            Seq::empty(),
        ).len(),
        forall|i: int| 0 <= i < old(errors)@.len() ==> final(errors)@[i] == old(errors)@[i],
        dmatches(
            final(errors)@.skip(old(errors)@.len() as int),
            group_sweep(cports@, conns@, sup, 0, Seq::empty()),
            *strs,
        ),
{
    let ghost base = errors@;
    let ghost full = group_sweep(cports@, conns@, sup, 0, Seq::empty());
    let mut acc: Vec<(PowerDomain, PowerDomain, TokenRange)> = Vec::new();
    let ghost mut fsofar: Seq<DomainFinding> = Seq::empty();
    let n = cports.len();
    proof {
        assert(errors@.skip(base.len() as int) =~= Seq::<Diagnostic>::empty());
        assert(acc@ =~= Seq::<(PowerDomain, PowerDomain, TokenRange)>::empty());
    }
    for i in 0..n
        invariant
            errors@.len() == base.len() + fsofar.len(),
            forall|j: int| 0 <= j < base.len() ==> errors@[j] == base[j],
            dmatches(errors@.skip(base.len() as int), fsofar, *strs),
            full == fsofar + group_sweep(cports@, conns@, sup, i as int, acc@),
    {
        let cp = &cports[i];
        let ghost before = errors@;
        let ghost acc_before = acc@;
        let ghost mut fhere: Seq<DomainFinding> = Seq::empty();
        match conn_find_exec(conns, cp.name) {
            Option::None => {},
            Option::Some(c) => {
                match assoc_find_exec(&acc, cp.power_domain) {
                    Option::Some(a) => {
                        if !a.0.compatible(&c.0) && !sup {
                            errors.push(
                                Diagnostic::mismatch_power_domain(
                                    c.0.label(strs),
                                    a.0.label(strs),
                                    &c.1,
                                    &a.1,
                                ),
                            );
                            proof {
                                fhere = seq![
                                    DomainFinding::Mismatch {
                                        curr: c.0,
                                        prev: a.0,
                                        curr_span: c.1,
                                        prev_span: a.1,
                                    },
                                ];
                            }
                        }
                    },
                    Option::None => {
                        acc.push((cp.power_domain, c.0, c.1));
                    },
                }
            },
        }
        proof {
            assert(group_sweep(cports@, conns@, sup, i as int, acc_before) == fhere + group_sweep(
                cports@,
                conns@,
                sup,
                i + 1,
                acc@,
            ));
            assert(errors@.skip(base.len() as int).take(fsofar.len() as int) =~= before.skip(
                base.len() as int,
            ));
            assert(errors@.skip(base.len() as int).skip(fsofar.len() as int) =~= errors@.skip(
                before.len() as int,
            ));
            assert(dmatches(errors@.skip(before.len() as int), fhere, *strs));
            lemma_dmatch_concat(errors@.skip(base.len() as int), fsofar, fhere, *strs);
            fsofar = fsofar + fhere;
        }
    }
    proof {
        assert(full =~= fsofar);
    }
}

/// Checks one instantiation: each connection's own sweep and the
/// cross-connection check against the callee's declared port domains.
#[verifier::loop_isolation(false)]
#[verifier::rlimit(100)]
fn check_inst(
    errors: &mut Vec<Diagnostic>,
    inst: &InstDecl,
    tab: &SymbolTable,
    ctx: &Vec<StrId>,
    ut: &UnsafeTable,
    strs: &StrTable,
)
    ensures
        final(errors)@.len() == old(errors)@.len() + inst_findings(
            *inst,
            tab.symbols@,
            ctx@,
            ut.entries@,
        ).len(),
        forall|i: int| 0 <= i < old(errors)@.len() ==> final(errors)@[i] == old(errors)@[i],
        dmatches(
            final(errors)@.skip(old(errors)@.len() as int),
            inst_findings(*inst, tab.symbols@, ctx@, ut.entries@),
            *strs,
        ),
{
    let ghost base = errors@;
    let ghost syms = tab.symbols@;
    let mut conns: Vec<(StrId, PowerDomain, TokenRange)> = Vec::new();
    let n = inst.ports.len();
    proof {
        assert(errors@.skip(base.len() as int) =~= Seq::<Diagnostic>::empty());
        assert(conns@ =~= inst_conns(inst.ports@.take(0), syms, ctx@));
    }
    for k in 0..n
        invariant
            errors@.len() == base.len() + inst_items_findings_upto(
                inst.ports@,
                syms,
                ctx@,
                ut.entries@,
                inst.foreign,
                k as int,
            ).len(),
            forall|j: int| 0 <= j < base.len() ==> errors@[j] == base[j],
            dmatches(
                errors@.skip(base.len() as int),
                inst_items_findings_upto(
                    inst.ports@,
                    syms,
                    ctx@,
                    ut.entries@,
                    inst.foreign,
                    k as int,
                ),
                *strs,
            ),
            conns@ == inst_conns(inst.ports@.take(k as int), syms, ctx@),
    {
        let it = &inst.ports[k];
        let ghost fs_before = inst_items_findings_upto(
            inst.ports@,
            syms,
            ctx@,
            ut.entries@,
            inst.foreign,
            k as int,
        );
        let ghost before = errors@;
        let mut pairs: Vec<(PowerDomain, TokenRange)> = Vec::new();
        match &it.expr {
            Option::Some(e) => {
                gather_expr_domains(&mut pairs, e, tab, ctx);
            },
            Option::None => {
                match tab.resolve_base(ctx, it.port.name) {
                    Option::Some(i) => {
                        match &tab.symbols[i].kind {
                            SymbolKind::Port(p) => pairs.push(
                                (
                                    p.power_domain,
                                    TokenRange { beg: it.port.token, end: it.port.token },
                                ),
                            ),
                            SymbolKind::Variable(v) => pairs.push(
                                (
                                    v.power_domain,
                                    TokenRange { beg: it.port.token, end: it.port.token },
                                ),
                            ),
                            _ => {},
                        }
                    },
                    Option::None => {},
                }
            },
        }
        proof {
            assert(resolve_ref_spec(syms, ctx@, Seq::empty(), it.port.name) == resolve_base_spec(
                syms,
                ctx@,
                it.port.name,
            ));
            assert(pairs@ =~= inst_item_pairs(inst.ports@[k as int], syms, ctx@));
        }
        let sup_item = ut.contains(&it.token, Unsafe::Pdc);
        sweep_exec(errors, &pairs, None, sup_item, strs);
        let ghost mid = errors@;
        if inst.foreign && it.expr.is_none() {
            let plain = match tab.resolve_base(ctx, it.port.name) {
                Option::Some(i) => {
                    match &tab.symbols[i].kind {
                        SymbolKind::Port(p) => match &p.ty {
                            Option::Some(t) => matches!(t.kind, TypeKind::Enable),
                            Option::None => false,
                        },
                        SymbolKind::Variable(v) => matches!(v.ty.kind, TypeKind::Enable),
                        _ => false,
                    }
                },
                Option::None => false,
            };
            proof {
                assert(plain == ref_enable_plain(syms, ctx@, inst.ports@[k as int].port.name));
            }
            if plain {
                let r = TokenRange { beg: it.port.token, end: it.port.token };
                errors.push(Diagnostic::sv_with_implicit_enable(&r));
            }
        }
        let domain = if pairs.len() == 0 {
            PowerDomain::Unspecified
        } else {
            pairs[pairs.len() - 1].0
        };
        conns.push((it.port.name, domain, TokenRange { beg: it.port.token, end: it.port.token }));
        proof {
            let fhere = inst_item_findings(
                inst.ports@[k as int],
                syms,
                ctx@,
                ut.entries@,
                inst.foreign,
            );
            assert(errors@.skip(base.len() as int).take(fs_before.len() as int) =~= before.skip(
                base.len() as int,
            ));
            assert(errors@.skip(base.len() as int).skip(fs_before.len() as int) =~= errors@.skip(
                before.len() as int,
            ));
            assert(errors@.skip(before.len() as int) =~= mid.skip(before.len() as int)
                + errors@.skip(mid.len() as int));
            assert(dmatches(errors@.skip(before.len() as int), fhere, *strs));
            lemma_dmatch_concat(errors@.skip(base.len() as int), fs_before, fhere, *strs);
            assert(inst_conns(inst.ports@.take(k + 1 as int), syms, ctx@) =~= inst_conns(
                inst.ports@.take(k as int),
                syms,
                ctx@,
            ).push(
                (
                    inst.ports@[k as int].port.name,
                    chain_domain(inst_item_pairs(inst.ports@[k as int], syms, ctx@)),
                    TokenRange {
                        beg: inst.ports@[k as int].port.token,
                        end: inst.ports@[k as int].port.token,
                    },
                ),
            ));
            assert(conns@ =~= inst_conns(inst.ports@.take(k + 1 as int), syms, ctx@));
        }
    }
    proof {
        assert(inst.ports@.take(n as int) =~= inst.ports@);
    }
    let ghost items_fs = inst_items_findings_upto(
        inst.ports@,
        syms,
        ctx@,
        ut.entries@,
        inst.foreign,
        inst.ports@.len() as int,
    );
    let ghost mid2 = errors@;
    let sup = ut.contains(&inst.token, Unsafe::Pdc);
    if inst.foreign {
        let mut flat: Vec<(PowerDomain, TokenRange)> = Vec::new();
        let m = conns.len();
        for k in 0..m
            invariant
                flat@ == conn_pairs(conns@.take(k as int)),
        {
            flat.push((conns[k].1, conns[k].2));
            proof {
                assert(flat@ =~= conn_pairs(conns@.take(k + 1 as int)));
            }
        }
        proof {
            assert(conns@.take(m as int) =~= conns@);
        }
        sweep_exec(errors, &flat, None, sup, strs);
    } else {
        let mut scope: Vec<crate::ast::Ident> = Vec::new();
        let name: StrId;
        if inst.target.path.len() == 0 {
            name = inst.target.base.name;
        } else {
            scope.push(inst.target.base);
            let m = inst.target.path.len();
            for k in 0..m - 1
                invariant
                    m == inst.target.path@.len(),
                    m >= 1,
                    scope@.len() == k + 1,
                    scope@[0] == inst.target.base,
                    forall|j: int| 1 <= j < scope@.len() ==> scope@[j] == inst.target.path@[j - 1],
            {
                scope.push(inst.target.path[k]);
            }
            name = inst.target.path[inst.target.path.len() - 1].name;
            proof {
                let parts = scoped_parts(inst.target);
                assert(scope@.map_values(|id: crate::ast::Ident| id.name) =~= parts.0);
                assert(name == parts.1);
            }
        }
        proof {
            let parts = scoped_parts(inst.target);
            assert(scope@.map_values(|id: crate::ast::Ident| id.name) =~= parts.0);
            assert(name == parts.1);
        }
        match tab.resolve_ref(ctx, &scope, name) {
            Option::Some(i) => {
                match &tab.symbols[i].kind {
                    SymbolKind::Entity(ep) => {
                        group_sweep_exec(errors, &ep.ports, &conns, sup, strs);
                    },
                    _ => {},
                }
            },
            Option::None => {},
        }
    }
    proof {
        let cross = inst_findings(*inst, syms, ctx@, ut.entries@).skip(items_fs.len() as int);
        assert(errors@.skip(base.len() as int).take(items_fs.len() as int) =~= mid2.skip(
            base.len() as int,
        ));
        assert(errors@.skip(base.len() as int).skip(items_fs.len() as int) =~= errors@.skip(
            mid2.len() as int,
        ));
        assert(inst_findings(*inst, syms, ctx@, ut.entries@) == items_fs + inst_findings(
            *inst,
            syms,
            ctx@,
            ut.entries@,
        ).skip(items_fs.len() as int));
        lemma_dmatch_concat(
            errors@.skip(base.len() as int),
            items_fs,
            inst_findings(*inst, syms, ctx@, ut.entries@).skip(items_fs.len() as int),
            *strs,
        );
    }
}

/// Checks one entity item.
#[verifier::loop_isolation(false)]
fn check_item(
    errors: &mut Vec<Diagnostic>,
    item: &EntityItem,
    tab: &SymbolTable,
    ctx: &Vec<StrId>,
    ut: &UnsafeTable,
    default: Option<PowerDomain>,
    strs: &StrTable,
)
    ensures
        final(errors)@.len() == old(errors)@.len() + item_dfindings(
            *item,
            tab.symbols@,
            ctx@,
            ut.entries@,
            default,
        ).len(),
        forall|i: int| 0 <= i < old(errors)@.len() ==> final(errors)@[i] == old(errors)@[i],
        dmatches(
            final(errors)@.skip(old(errors)@.len() as int),
            item_dfindings(*item, tab.symbols@, ctx@, ut.entries@, default),
            *strs,
        ),
    decreases *item,
{
    let ghost base = errors@;
    let ghost syms = tab.symbols@;
    match item {
        EntityItem::Sequence(sd) => {
            let r = TokenRange { beg: sd.token, end: sd.token };
            let baseline: Option<(PowerDomain, TokenRange)> = match &sd.event {
                Option::Some(ev) => {
                    match tab.resolve_base(ctx, ev.power.base.name) {
                        Option::Some(i) => {
                            match &tab.symbols[i].kind {
                                SymbolKind::Port(p) => Some((p.power_domain, r)),
                                SymbolKind::Variable(v) => Some((v.power_domain, r)),
                                _ => None,
                            }
                        },
                        Option::None => None,
                    }
                },
                Option::None => {
                    match default {
                        Option::Some(d) => Some((d, r)),
                        Option::None => None,
                    }
                },
            };
            proof {
                assert(resolve_ref_spec(syms, ctx@, Seq::empty(), sd.event->Some_0.power.base.name)
                    == resolve_base_spec(syms, ctx@, sd.event->Some_0.power.base.name)) by {
                    if sd.event is Some {
                    }
                }
                assert(baseline == sequence_baseline(*sd, syms, ctx@, default));
            }
            check_stmts(errors, &sd.block, tab, ctx, baseline, ut, strs);
        },
        EntityItem::AlwaysComb { block, .. } => {
            check_stmts(errors, block, tab, ctx, None, ut, strs);
        },
        EntityItem::Initial { block, .. } => {
            check_stmts(errors, block, tab, ctx, None, ut, strs);
        },
        EntityItem::Final { block, .. } => {
            check_stmts(errors, block, tab, ctx, None, ut, strs);
        },
        EntityItem::AssignDecl { target, rhs, token } => {
            let mut pairs: Vec<(PowerDomain, TokenRange)> = Vec::new();
            gather_expr_domains(&mut pairs, rhs, tab, ctx);
            gather_target_domain(&mut pairs, target, tab, ctx);
            proof {
                assert(pairs@ =~= expr_domains(*rhs, syms, ctx@) + target_domain(
                    *target,
                    syms,
                    ctx@,
                ));
            }
            let sup = ut.contains(token, Unsafe::Pdc);
            sweep_exec(errors, &pairs, None, sup, strs);
        },
        EntityItem::Let { ident, domain, rhs, token, .. } => {
            let mut pairs: Vec<(PowerDomain, TokenRange)> = Vec::new();
            gather_expr_domains(&mut pairs, rhs, tab, ctx);
            pairs.push((*domain, TokenRange { beg: ident.token, end: ident.token }));
            let sup = ut.contains(token, Unsafe::Pdc);
            sweep_exec(errors, &pairs, None, sup, strs);
        },
        EntityItem::Inst(inst) => {
            check_inst(errors, inst, tab, ctx, ut, strs);
        },
        EntityItem::UnsafeBlock { items, .. } => {
            check_item_list(errors, items, tab, ctx, ut, default, strs);
        },
        _ => {
            proof {
                assert(errors@.skip(base.len() as int) =~= Seq::<Diagnostic>::empty());
            }
        },
    }
}

/// Checks a list of entity items in order.
#[verifier::loop_isolation(false)]
fn check_item_list(
    errors: &mut Vec<Diagnostic>,
    items: &Vec<EntityItem>,
    tab: &SymbolTable,
    ctx: &Vec<StrId>,
    ut: &UnsafeTable,
    default: Option<PowerDomain>,
    strs: &StrTable,
)
    ensures
        final(errors)@.len() == old(errors)@.len() + items_dfindings_upto(
            items@,
            tab.symbols@,
            ctx@,
            ut.entries@,
            default,
            items@.len() as int,
        ).len(),
        forall|i: int| 0 <= i < old(errors)@.len() ==> final(errors)@[i] == old(errors)@[i],
        dmatches(
            final(errors)@.skip(old(errors)@.len() as int),
            items_dfindings_upto(
                items@,
                tab.symbols@,
                ctx@,
                ut.entries@,
                default,
                items@.len() as int,
            ),
            *strs,
        ),
    decreases *items,
{
    let ghost base = errors@;
    let ghost syms = tab.symbols@;
    let n = items.len();
    for k in 0..n
        invariant
            errors@.len() == base.len() + items_dfindings_upto(
                items@,
                syms,
                ctx@,
                ut.entries@,
                default,
                k as int,
            ).len(),
            forall|j: int| 0 <= j < base.len() ==> errors@[j] == base[j],
            dmatches(
                errors@.skip(base.len() as int),
                items_dfindings_upto(items@, syms, ctx@, ut.entries@, default, k as int),
                *strs,
            ),
    {
        let ghost fs_before = items_dfindings_upto(
            items@,
            syms,
            ctx@,
            ut.entries@,
            default,
            k as int,
        );
        let ghost before = errors@;
        proof {
            assert(decreases_to!(*items => items@[k as int]));
        }
        check_item(errors, &items[k], tab, ctx, ut, default, strs);
        proof {
            assert(errors@.skip(base.len() as int).take(fs_before.len() as int) =~= before.skip(
                base.len() as int,
            ));
            assert(errors@.skip(base.len() as int).skip(fs_before.len() as int) =~= errors@.skip(
                before.len() as int,
            ));
            lemma_dmatch_concat(
                errors@.skip(base.len() as int),
                fs_before,
                item_dfindings(items@[k as int], syms, ctx@, ut.entries@, default),
                *strs,
            );
        }
    }
}

/// The power/enable-domain propagation handler: detects clock-domain
/// crossings per statement and per instance connection group.
pub struct CheckPowerDomain {
    pub errors: Vec<Diagnostic>,
}

impl CheckPowerDomain {
    pub fn new() -> (h: CheckPowerDomain)
        ensures
            h.errors@.len() == 0,
    {
        CheckPowerDomain { errors: Vec::new() }
    }

    /// Checks one entity declaration, appending one diagnostic per
    /// finding in walk order.
    #[verifier::loop_isolation(false)]
    pub fn entity_declaration(
        &mut self,
        decl: &EntityDecl,
        tab: &SymbolTable,
        ctx: &Vec<StrId>,
        ut: &UnsafeTable,
        strs: &StrTable,
    )
        ensures
            final(self).errors@.len() == old(self).errors@.len() + entity_dfindings(
                *decl,
                tab.symbols@,
                ctx@,
                ut.entries@,
            ).len(),
            forall|i: int|
                0 <= i < old(self).errors@.len() ==> final(self).errors@[i] == old(
                    self,
                ).errors@[i],
            dmatches(
                final(self).errors@.skip(old(self).errors@.len() as int),
                entity_dfindings(*decl, tab.symbols@, ctx@, ut.entries@),
                *strs,
            ),
    {
        let ghost base = self.errors@;
        let ghost syms = tab.symbols@;
        let mut power_count: usize = 0;
        let mut any_unspecified = false;
        let mut first_domain = PowerDomain::Unspecified;
        let n = decl.ports.len();
        for k in 0..n
            invariant
                power_count == power_ports_upto(decl.ports@, k as int).len(),
                any_unspecified == any_unspec(power_ports_upto(decl.ports@, k as int)),
                power_count >= 1 ==> first_domain == power_ports_upto(
                    decl.ports@,
                    k as int,
                )[0].domain,
                power_count <= k,
        {
            let p = &decl.ports[k];
            let is_power = match &p.ty {
                Option::Some(t) => t.kind.is_power(),
                Option::None => false,
            };
            let ghost pp_before = power_ports_upto(decl.ports@, k as int);
            proof {
                assert(is_power == is_power_port(decl.ports@[k as int]));
            }
            if is_power {
                if power_count == 0 {
                    first_domain = p.domain;
                }
                power_count = power_count + 1;
                if matches!(p.domain, PowerDomain::Unspecified) {
                    any_unspecified = true;
                }
                proof {
                    let pp = power_ports_upto(decl.ports@, k + 1 as int);
                    assert(pp =~= pp_before.push(decl.ports@[k as int]));
                    assert(any_unspecified == any_unspec(pp)) by {
                        if any_unspecified {
                            if decl.ports@[k as int].domain is Unspecified {
                                assert(pp[pp.len() - 1].domain is Unspecified);
                            } else {
                                assert(any_unspec(pp_before));
                                let w = choose|i: int|
                                    0 <= i < pp_before.len()
                                        && pp_before[i].domain is Unspecified;
                                assert(pp[w].domain is Unspecified);
                            }
                        } else {
                            assert(!(decl.ports@[k as int].domain is Unspecified));
                            assert forall|i: int|
                                0 <= i < pp.len() implies !(pp[i].domain is Unspecified) by {
                                if i < pp_before.len() {
                                    assert(!any_unspec(pp_before));
                                    assert(pp[i] == pp_before[i]);
                                } else {
                                    assert(pp[i] == decl.ports@[k as int]);
                                }
                            }
                        }
                    }
                }
            } else {
                proof {
                    assert(power_ports_upto(decl.ports@, k + 1 as int) =~= pp_before);
                }
            }
        }
        proof {
            assert(power_ports_upto(decl.ports@, n as int) == power_ports(decl.ports@));
        }
        if power_count >= 2 && any_unspecified {
            let r = TokenRange { beg: decl.token, end: decl.token };
            self.errors.push(Diagnostic::missing_power_domain(&r));
        }
        let default: Option<PowerDomain> = if power_count == 1 {
            Some(first_domain)
        } else {
            None
        };
        proof {
            assert(default == entity_default_power(*decl));
        }
        let ghost mid = self.errors@;
        check_item_list(&mut self.errors, &decl.items, tab, ctx, ut, default, strs);
        proof {
            let pp = power_ports(decl.ports@);
            let hd: Seq<DomainFinding> = if pp.len() >= 2 && any_unspec(pp) {
                seq![DomainFinding::MissingDomain { token: decl.token }]
            } else {
                Seq::<DomainFinding>::empty()
            };
            let fs2 = items_dfindings_upto(
                decl.items@,
                syms,
                ctx@,
                ut.entries@,
                entity_default_power(*decl),
                decl.items@.len() as int,
            );
            assert(self.errors@.skip(base.len() as int).take(hd.len() as int) =~= mid.skip(
                base.len() as int,
            ));
            assert(self.errors@.skip(base.len() as int).skip(hd.len() as int) =~= self.errors@.skip(
                mid.len() as int,
            ));
            assert(dmatches(mid.skip(base.len() as int), hd, *strs));
            lemma_dmatch_concat(self.errors@.skip(base.len() as int), hd, fs2, *strs);
        }
    }
}

} // verus!

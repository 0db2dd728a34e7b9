use vstd::prelude::*;
use crate::ast::{EntityDecl, EntityItem, Expr, HierIdent, SequenceDecl, Statement};
use crate::diag::{DiagCode, Diagnostic};
use crate::evaluator::{eval_expr, expr_is_enable, expr_is_power, Evaluated, Evaluator};
use crate::symbol::{
    kind_is_enable, kind_is_power, type_select_count, PowerDomain, SymbolKind, TypeKind,
};
use crate::symbol_table::{resolve_base_spec, SymbolTable};
use crate::token::{name_view, StrId, StrTable, Token, TokenRange};

verus! {

/// One finding of the clock/reset structural validity check.
#[derive(Clone, Copy, Debug, PartialEq, Eq, Structural)]
pub enum EnableFinding {
    /// A clocked block with neither an explicit clock reference nor an
    /// inherited default clock.
    MissingPowerSignal { token: Token },
    /// A clocked block that declares a reset reference whose reset
    /// guard is not the first statement.
    MissingIfEnable { token: Token },
    /// A reset guard without any resolvable reset reference.
    MissingEnableSignal { token: Token },
    /// A clock operand that is not a clock-kinded signal indexed down
    /// to a single element.
    InvalidPower { name: StrId, span: TokenRange },
    /// A reset operand that is not a reset-kinded signal indexed down
    /// to a single element.
    InvalidEnable { name: StrId, span: TokenRange },
    /// A right-hand side under a reset guard that the evaluator cannot
    /// fix at elaboration time.
    NonElaborative { span: TokenRange },
    /// A cast into a clock kind from a source that is not clock-kinded.
    CastPower { token: Token },
    /// A cast into a reset kind from a source that is not reset-kinded.
    CastEnable { token: Token },
}

/// Whether a diagnostic is the one a finding calls for.
pub open spec fn ematch(d: Diagnostic, f: EnableFinding, strs: StrTable) -> bool {
    match f {
        EnableFinding::MissingPowerSignal { token } => {
            &&& d.code == DiagCode::MissingPowerSignal
            &&& d.fields@.len() == 0
            &&& d.primary == (TokenRange { beg: token, end: token })
        },
        EnableFinding::MissingIfEnable { token } => {
            &&& d.code == DiagCode::MissingIfEnable
            &&& d.fields@.len() == 0
            &&& d.primary == (TokenRange { beg: token, end: token })
        },
        EnableFinding::MissingEnableSignal { token } => {
            &&& d.code == DiagCode::MissingEnableSignal
            &&& d.fields@.len() == 0
            &&& d.primary == (TokenRange { beg: token, end: token })
        },
        EnableFinding::InvalidPower { name, span } => {
            &&& d.code == DiagCode::InvalidPower
            &&& d.fields@.len() == 1
            &&& d.fields@[0]@ == name_view(strs, name)
            &&& d.primary == span
        },
        EnableFinding::InvalidEnable { name, span } => {
            &&& d.code == DiagCode::InvalidEnable
            &&& d.fields@.len() == 1
            &&& d.fields@[0]@ == name_view(strs, name)
            &&& d.primary == span
        },
        EnableFinding::NonElaborative { span } => {
            &&& d.code == DiagCode::InvalidEnableNonElaborative
            &&& d.fields@.len() == 0
            &&& d.primary == span
        },
        EnableFinding::CastPower { token } => {
            &&& d.code == DiagCode::InvalidCast
            &&& d.fields@.len() == 2
            &&& d.fields@[0]@ == "non-power type"@
            &&& d.fields@[1]@ == "power type"@
            &&& d.primary == (TokenRange { beg: token, end: token })
        },
        EnableFinding::CastEnable { token } => {
            &&& d.code == DiagCode::InvalidCast
            &&& d.fields@.len() == 2
            &&& d.fields@[0]@ == "non-enable type"@
            &&& d.fields@[1]@ == "enable type"@
            &&& d.primary == (TokenRange { beg: token, end: token })
        },
    }
}

/// Whether a run of diagnostics matches a run of findings one for one.
pub open spec fn ematches(ds: Seq<Diagnostic>, fs: Seq<EnableFinding>, strs: StrTable) -> bool {
    ds.len() == fs.len() && forall|i: int| 0 <= i < ds.len() ==> ematch(ds[i], fs[i], strs)
}

/// Two matching runs concatenate to a matching run.
proof fn lemma_ematch_concat(
    ds: Seq<Diagnostic>,
    fs1: Seq<EnableFinding>,
    fs2: Seq<EnableFinding>,
    strs: StrTable,
)
    requires
        ematches(ds.take(fs1.len() as int), fs1, strs),
        ematches(ds.skip(fs1.len() as int), fs2, strs),
        ds.len() == fs1.len() + fs2.len(),
    ensures
        ematches(ds, fs1 + fs2, strs),
{
    assert forall|i: int| 0 <= i < ds.len() implies ematch(ds[i], (fs1 + fs2)[i], strs) by {
        if i < fs1.len() {
            assert(ds.take(fs1.len() as int)[i] == ds[i]);
        } else {
            assert(ds.skip(fs1.len() as int)[i - fs1.len()] == ds[i]);
        }
    }
}

/// The number of index operations applied after the last member step
/// of a hierarchical reference.
pub open spec fn hier_select_count(h: HierIdent) -> u64 {
    if h.members@.len() == 0 {
        h.base_selects
    } else {
        h.members@.last().selects
    }
}

/// Whether a clock or reset operand is valid: it resolves to a port or
/// variable of the wanted kind, and the index operations applied equal
/// the type's combined width and array dimensionality.
pub open spec fn valid_domain_ref(
    syms: Seq<crate::symbol::Symbol>,
    ctx: Seq<StrId>,
    h: HierIdent,
    want_power: bool,
) -> bool {
    match resolve_base_spec(syms, ctx, h.base.name) {
        Option::Some(i) => match syms[i].kind {
            SymbolKind::Port(p) => p.ty matches Option::Some(t) && (if want_power {
                kind_is_power(t.kind)
            } else {
                kind_is_enable(t.kind)
            }) && type_select_count(t) == hier_select_count(h),
            SymbolKind::Variable(v) => (if want_power {
                kind_is_power(v.ty.kind)
            } else {
                kind_is_enable(v.ty.kind)
            }) && type_select_count(v.ty) == hier_select_count(h),
            _ => false,
        },
        Option::None => true,
    }
}

/// The cast findings of one expression, walked depth-first: a cast
/// into a clock or reset kind is legal only from an already clock- or
/// reset-kinded source.
pub open spec fn cast_findings(e: Expr, syms: Seq<crate::symbol::Symbol>, ctx: Seq<StrId>) -> Seq<
    EnableFinding,
>
    decreases e,
{
    match e {
        Expr::Unary { operand, .. } => cast_findings(*operand, syms, ctx),
        Expr::Binary { lhs, rhs, .. } => cast_findings(*lhs, syms, ctx) + cast_findings(
            *rhs,
            syms,
            ctx,
        ),
        Expr::Concat { parts, .. } => casts_findings(parts@, syms, ctx, parts@.len() as int),
        Expr::Call { args, .. } => casts_findings(args@, syms, ctx, args@.len() as int),
        Expr::Cast { into, operand, token } => {
            let here: Seq<EnableFinding> = if kind_is_power(into) && !expr_is_power(
                *operand,
                syms,
                ctx,
            ) {
                seq![EnableFinding::CastPower { token }]
            } else if kind_is_enable(into) && !expr_is_enable(*operand, syms, ctx) {
                seq![EnableFinding::CastEnable { token }]
            } else {
                Seq::empty()
            };
            here + cast_findings(*operand, syms, ctx)
        },
        _ => Seq::empty(),
    }
}

/// The cast findings of the first `n` expressions of a list.
pub open spec fn casts_findings(
    es: Seq<Expr>,
    syms: Seq<crate::symbol::Symbol>,
    ctx: Seq<StrId>,
    n: int,
) -> Seq<EnableFinding>
    decreases es, n,
{
    if n <= 0 || n > es.len() {
        Seq::empty()
    } else {
        casts_findings(es, syms, ctx, n - 1) + cast_findings(es[n - 1], syms, ctx)
    }
}

/// Whether a reset guard occurs anywhere in a statement.
pub open spec fn stmt_has_if_enable(s: Statement) -> bool
    decreases s,
{
    match s {
        Statement::IfEnable { .. } => true,
        Statement::If { then_block, else_block, .. } => stmts_have_if_enable(
            then_block@,
            then_block@.len() as int,
        ) || stmts_have_if_enable(else_block@, else_block@.len() as int),
        Statement::Case { arms, default_block, .. } => arms_have_if_enable(
            arms@,
            arms@.len() as int,
        ) || stmts_have_if_enable(default_block@, default_block@.len() as int),
        Statement::For { body, .. } => stmts_have_if_enable(body@, body@.len() as int),
        _ => false,
    }
}

/// Whether a reset guard occurs in the first `n` statements.
pub open spec fn stmts_have_if_enable(ss: Seq<Statement>, n: int) -> bool
    decreases ss, n,
{
    if n <= 0 || n > ss.len() {
        false
    } else {
        stmts_have_if_enable(ss, n - 1) || stmt_has_if_enable(ss[n - 1])
    }
}

/// Whether a reset guard occurs in the first `n` case arms.
pub open spec fn arms_have_if_enable(arms: Seq<crate::ast::CaseArm>, n: int) -> bool
    decreases arms, n,
{
    if n <= 0 || n > arms.len() {
        false
    } else {
        arms_have_if_enable(arms, n - 1) || stmts_have_if_enable(
            arms[n - 1].block@,
            arms[n - 1].block@.len() as int,
        )
    }
}

/// The findings of one statement: the elaboration-time check on
/// right-hand sides under a reset guard, then the cast findings of its
/// expressions, then its nested statements. Only the guard's own block
/// is reset context; its else branch keeps the enclosing context.
pub open spec fn stmt_efindings(
    s: Statement,
    syms: Seq<crate::symbol::Symbol>,
    ctx: Seq<StrId>,
    in_enable: bool,
) -> Seq<EnableFinding>
    decreases s,
{
    match s {
        Statement::Assign { rhs, .. } => {
            let guard: Seq<EnableFinding> = if in_enable && !(eval_expr(rhs, syms, ctx) is Fixed
                || eval_expr(rhs, syms, ctx) is UnknownStatic) {
                seq![
                    EnableFinding::NonElaborative {
                        span: TokenRange {
                            beg: crate::ast::expr_token(rhs),
                            end: crate::ast::expr_token(rhs),
                        },
                    },
                ]
            } else {
                Seq::empty()
            };
            guard + cast_findings(rhs, syms, ctx)
        },
        Statement::LetStmt { rhs, .. } => cast_findings(rhs, syms, ctx),
        Statement::CallStmt { args, .. } => casts_findings(args@, syms, ctx, args@.len() as int),
        Statement::If { cond, then_block, else_block, .. } => cast_findings(cond, syms, ctx)
            + stmts_efindings(then_block@, syms, ctx, in_enable, then_block@.len() as int)
            + stmts_efindings(else_block@, syms, ctx, in_enable, else_block@.len() as int),
        Statement::IfEnable { block, else_block, .. } => stmts_efindings(
            block@,
            syms,
            ctx,
            true,
            block@.len() as int,
        ) + stmts_efindings(else_block@, syms, ctx, in_enable, else_block@.len() as int),
        Statement::Case { subject, arms, default_block, .. } => cast_findings(subject, syms, ctx)
            + arms_efindings(arms@, syms, ctx, in_enable, arms@.len() as int) + stmts_efindings(
            default_block@,
            syms,
            ctx,
            in_enable,
            default_block@.len() as int,
        ),
        Statement::For { body, .. } => stmts_efindings(
            body@,
            syms,
            ctx,
            in_enable,
            body@.len() as int,
        ),
        _ => Seq::empty(),
    }
}

/// The findings of the first `n` statements of a block.
pub open spec fn stmts_efindings(
    ss: Seq<Statement>,
    syms: Seq<crate::symbol::Symbol>,
    ctx: Seq<StrId>,
    in_enable: bool,
    n: int,
) -> Seq<EnableFinding>
    decreases ss, n,
{
    if n <= 0 || n > ss.len() {
        Seq::empty()
    } else {
        stmts_efindings(ss, syms, ctx, in_enable, n - 1) + stmt_efindings(
            ss[n - 1],
            syms,
            ctx,
            in_enable,
        )
    }
}

/// The findings of the first `n` case arms.
pub open spec fn arms_efindings(
    arms: Seq<crate::ast::CaseArm>,
    syms: Seq<crate::symbol::Symbol>,
    ctx: Seq<StrId>,
    in_enable: bool,
    n: int,
) -> Seq<EnableFinding>
    decreases arms, n,
{
    if n <= 0 || n > arms.len() {
        Seq::empty()
    } else {
        arms_efindings(arms, syms, ctx, in_enable, n - 1) + (cast_findings(
            arms[n - 1].cond,
            syms,
            ctx,
        ) + stmts_efindings(
            arms[n - 1].block@,
            syms,
            ctx,
            in_enable,
            arms[n - 1].block@.len() as int,
        ))
    }
}

/// Every finding of one clocked block, in check order: the missing
/// clock check, the first-statement reset-guard check, the validity of
/// its clock and reset operands, its statements, and last the missing
/// reset check.
pub open spec fn sequence_efindings(
    sd: SequenceDecl,
    syms: Seq<crate::symbol::Symbol>,
    ctx: Seq<StrId>,
    default_power: bool,
    default_enable: bool,
) -> Seq<EnableFinding> {
    let missing_power: Seq<EnableFinding> = if !(default_power || sd.event is Some) {
        seq![EnableFinding::MissingPowerSignal { token: sd.token }]
    } else {
        Seq::empty()
    };
    let if_enable_required: bool = sd.event matches Option::Some(ev) && ev.enable is Some && !(
    sd.block@.len() > 0 && sd.block@[0] is IfEnable);
    let missing_guard: Seq<EnableFinding> = if if_enable_required {
        seq![EnableFinding::MissingIfEnable { token: sd.token }]
    } else {
        Seq::empty()
    };
    let ev_power: Seq<EnableFinding> = match sd.event {
        Option::Some(ev) => if !valid_domain_ref(syms, ctx, ev.power, true) {
            seq![EnableFinding::InvalidPower { name: ev.power.base.name, span: ev.power.span }]
        } else {
            Seq::empty()
        },
        Option::None => Seq::empty(),
    };
    let ev_enable: Seq<EnableFinding> = match sd.event {
        Option::Some(ev) => match ev.enable {
            Option::Some(en) => if !valid_domain_ref(syms, ctx, en, false) {
                seq![EnableFinding::InvalidEnable { name: en.base.name, span: en.span }]
            } else {
                Seq::empty()
            },
            Option::None => Seq::empty(),
        },
        Option::None => Seq::empty(),
    };
    let body = stmts_efindings(sd.block@, syms, ctx, false, sd.block@.len() as int);
    let guard_seen = stmts_have_if_enable(sd.block@, sd.block@.len() as int);
    let enable_exists = sd.event matches Option::Some(ev) && ev.enable is Some;
    let missing_enable: Seq<EnableFinding> = if guard_seen && !(default_enable || enable_exists) {
        seq![EnableFinding::MissingEnableSignal { token: sd.token }]
    } else {
        Seq::empty()
    };
    missing_power + missing_guard + ev_power + ev_enable + body + missing_enable
}

/// A clocked block with no explicit clock reference in an entity with
/// no default clock port is always reported as missing its clock: the
/// finding stands first, whatever else the block holds.
pub proof fn lemma_missing_power_signal(
    sd: SequenceDecl,
    syms: Seq<crate::symbol::Symbol>,
    ctx: Seq<StrId>,
    default_enable: bool,
)
    requires
        sd.event is None,
    ensures
        sequence_efindings(sd, syms, ctx, false, default_enable)[0]
            == (EnableFinding::MissingPowerSignal { token: sd.token }),
        sequence_efindings(sd, syms, ctx, false, default_enable).len() > 0,
{
}

/// Whether a port declares a reset-kinded signal.
pub open spec fn is_enable_port(p: crate::ast::PortDecl) -> bool {
    p.ty matches Option::Some(t) && kind_is_enable(t.kind)
}

/// The reset ports among the first `n` ports of an entity declaration.
pub open spec fn enable_ports_upto(ports: Seq<crate::ast::PortDecl>, n: int) -> Seq<
    crate::ast::PortDecl,
>
    decreases n,
{
    if n <= 0 || n > ports.len() {
        Seq::empty()
    } else if is_enable_port(ports[n - 1]) {
        enable_ports_upto(ports, n - 1).push(ports[n - 1])
    } else {
        enable_ports_upto(ports, n - 1)
    }
}

/// The findings of one entity item.
pub open spec fn item_efindings(
    item: EntityItem,
    syms: Seq<crate::symbol::Symbol>,
    ctx: Seq<StrId>,
    default_power: bool,
    default_enable: bool,
) -> Seq<EnableFinding>
    decreases item,
{
    match item {
        EntityItem::Sequence(sd) => sequence_efindings(sd, syms, ctx, default_power, default_enable),
        EntityItem::AlwaysComb { block, .. } => stmts_efindings(
            block@,
            syms,
            ctx,
            false,
            block@.len() as int,
        ),
        EntityItem::Initial { block, .. } => stmts_efindings(
            block@,
            syms,
            ctx,
            false,
            block@.len() as int,
        ),
        EntityItem::Final { block, .. } => stmts_efindings(
            block@,
            syms,
            ctx,
            false,
            block@.len() as int,
        ),
        EntityItem::FunctionDecl { block, .. } => stmts_efindings(
            block@,
            syms,
            ctx,
            false,
            block@.len() as int,
        ),
        EntityItem::Const { value, .. } => cast_findings(value, syms, ctx),
        EntityItem::Let { rhs, .. } => cast_findings(rhs, syms, ctx),
        EntityItem::AssignDecl { rhs, .. } => cast_findings(rhs, syms, ctx),
        EntityItem::UnsafeBlock { items, .. } => items_efindings_upto(
            items@,
            syms,
            ctx,
            default_power,
            default_enable,
            items@.len() as int,
        ),
        _ => Seq::empty(),
    }
}

/// The findings of the first `n` entity items.
pub open spec fn items_efindings_upto(
    items: Seq<EntityItem>,
    syms: Seq<crate::symbol::Symbol>,
    ctx: Seq<StrId>,
    default_power: bool,
    default_enable: bool,
    n: int,
) -> Seq<EnableFinding>
    decreases items, n,
{
    if n <= 0 || n > items.len() {
        Seq::empty()
    } else {
        items_efindings_upto(items, syms, ctx, default_power, default_enable, n - 1)
            + item_efindings(items[n - 1], syms, ctx, default_power, default_enable)
    }
}

/// Every finding of the clock/reset structural check on one entity.
/// The default clock or reset exists when the entity declares exactly
/// one clock or reset port.
pub open spec fn entity_efindings(
    decl: EntityDecl,
    syms: Seq<crate::symbol::Symbol>,
    ctx: Seq<StrId>,
) -> Seq<EnableFinding> {
    items_efindings_upto(
        decl.items@,
        syms,
        ctx,
        crate::handlers::check_power_domain::power_ports(decl.ports@).len() == 1,
        enable_ports_upto(decl.ports@, decl.ports@.len() as int).len() == 1,
        decl.items@.len() as int,
    )
}

/// The number of index operations after the last member step,
/// matching `hier_select_count`.
fn hier_selects(h: &HierIdent) -> (n: u64)
    ensures
        n == hier_select_count(*h),
{
    if h.members.len() == 0 {
        h.base_selects
    } else {
        h.members[h.members.len() - 1].selects
    }
}

/// Checks one clock or reset operand of an event list.
fn check_domain_ref(
    errors: &mut Vec<Diagnostic>,
    h: &HierIdent,
    want_power: bool,
    tab: &SymbolTable,
    ctx: &Vec<StrId>,
    strs: &StrTable,
)
    ensures
        final(errors)@.len() == old(errors)@.len() + (if !valid_domain_ref(
            tab.symbols@,
            ctx@,
            *h,
            want_power,
        ) {
            1int
        } else {
            0int
        }),
        forall|i: int| 0 <= i < old(errors)@.len() ==> final(errors)@[i] == old(errors)@[i],
        !valid_domain_ref(tab.symbols@, ctx@, *h, want_power) ==> ematch(
            final(errors)@.last(),
            if want_power {
                EnableFinding::InvalidPower { name: h.base.name, span: h.span }
            } else {
                EnableFinding::InvalidEnable { name: h.base.name, span: h.span }
            },
            *strs,
        ),
{
    let valid = match tab.resolve_base(ctx, h.base.name) {
        Option::Some(i) => {
            let ns = hier_selects(h);
            match &tab.symbols[i].kind {
                SymbolKind::Port(p) => match &p.ty {
                    Option::Some(t) => {
                        let kind_ok = if want_power {
                            t.kind.is_power()
                        } else {
                            t.kind.is_enable()
                        };
                        kind_ok && t.select_count() as u64 == ns
                    },
                    Option::None => false,
                },
                SymbolKind::Variable(v) => {
                    let kind_ok = if want_power {
                        v.ty.kind.is_power()
                    } else {
                        v.ty.kind.is_enable()
                    };
                    kind_ok && v.ty.select_count() as u64 == ns
                },
                _ => false,
            }
        },
        Option::None => true,
    };
    proof {
        assert(valid == valid_domain_ref(tab.symbols@, ctx@, *h, want_power));
    }
    if !valid {
        if want_power {
            errors.push(Diagnostic::invalid_power(strs.get_name(h.base.name), &h.span));
        } else {
            errors.push(Diagnostic::invalid_enable(strs.get_name(h.base.name), &h.span));
        }
    }
}

/// Appends the cast findings of one expression.
#[verifier::loop_isolation(false)]
fn check_casts(
    errors: &mut Vec<Diagnostic>,
    e: &Expr,
    tab: &SymbolTable,
    ctx: &Vec<StrId>,
    strs: &StrTable,
)
    ensures
        final(errors)@.len() == old(errors)@.len() + cast_findings(*e, tab.symbols@, ctx@).len(),
        forall|i: int| 0 <= i < old(errors)@.len() ==> final(errors)@[i] == old(errors)@[i],
        ematches(
            final(errors)@.skip(old(errors)@.len() as int),
            cast_findings(*e, tab.symbols@, ctx@),
            *strs,
        ),
    decreases *e,
{
    let ghost base = errors@;
    let ev = Evaluator::new();
    match e {
        Expr::Unary { operand, .. } => {
            check_casts(errors, operand, tab, ctx, strs);
        },
        Expr::Binary { lhs, rhs, .. } => {
            check_casts(errors, lhs, tab, ctx, strs);
            let ghost mid = errors@;
            check_casts(errors, rhs, tab, ctx, strs);
            proof {
                let fs1 = cast_findings(**lhs, tab.symbols@, ctx@);
                let fs2 = cast_findings(**rhs, tab.symbols@, ctx@);
                assert(errors@.skip(base.len() as int).take(fs1.len() as int) =~= mid.skip(
                    base.len() as int,
                ));
                assert(errors@.skip(base.len() as int).skip(fs1.len() as int) =~= errors@.skip(
                    mid.len() as int,
                ));
                lemma_ematch_concat(errors@.skip(base.len() as int), fs1, fs2, *strs);
            }
        },
        Expr::Concat { parts, .. } => {
            let n = parts.len();
            for k in 0..n
                invariant
                    errors@.len() == base.len() + casts_findings(
                        parts@,
                        tab.symbols@,
                        ctx@,
                        k as int,
                    ).len(),
                    forall|j: int| 0 <= j < base.len() ==> errors@[j] == base[j],
                    ematches(
                        errors@.skip(base.len() as int),
                        casts_findings(parts@, tab.symbols@, ctx@, k as int),
                        *strs,
                    ),
            {
                let ghost fs_before = casts_findings(parts@, tab.symbols@, ctx@, k as int);
                let ghost before = errors@;
                proof {
                    assert(decreases_to!(*parts => parts@[k as int]));
                }
                check_casts(errors, &parts[k], tab, ctx, strs);
                proof {
                    assert(errors@.skip(base.len() as int).take(fs_before.len() as int)
                        =~= before.skip(base.len() as int));
                    assert(errors@.skip(base.len() as int).skip(fs_before.len() as int)
                        =~= errors@.skip(before.len() as int));
                    lemma_ematch_concat(
                        errors@.skip(base.len() as int),
                        fs_before,
                        cast_findings(parts@[k as int], tab.symbols@, ctx@),
                        *strs,
                    );
                }
            }
        },
        Expr::Call { args, .. } => {
            let n = args.len();
            for k in 0..n
                invariant
                    errors@.len() == base.len() + casts_findings(
                        args@,
                        tab.symbols@,
                        ctx@,
                        k as int,
                    ).len(),
                    forall|j: int| 0 <= j < base.len() ==> errors@[j] == base[j],
                    ematches(
                        errors@.skip(base.len() as int),
                        casts_findings(args@, tab.symbols@, ctx@, k as int),
                        *strs,
                    ),
            {
                let ghost fs_before = casts_findings(args@, tab.symbols@, ctx@, k as int);
                let ghost before = errors@;
                proof {
                    assert(decreases_to!(*args => args@[k as int]));
                }
                check_casts(errors, &args[k], tab, ctx, strs);
                proof {
                    assert(errors@.skip(base.len() as int).take(fs_before.len() as int)
                        =~= before.skip(base.len() as int));
                    assert(errors@.skip(base.len() as int).skip(fs_before.len() as int)
                        =~= errors@.skip(before.len() as int));
                    lemma_ematch_concat(
                        errors@.skip(base.len() as int),
                        fs_before,
                        cast_findings(args@[k as int], tab.symbols@, ctx@),
                        *strs,
                    );
                }
            }
        },
        Expr::Cast { into, operand, token } => {
            let ghost fhere = cast_findings(*e, tab.symbols@, ctx@).take(
                cast_findings(*e, tab.symbols@, ctx@).len() - cast_findings(
                    **operand,
                    tab.symbols@,
                    ctx@,
                ).len(),
            );
            if into.is_power() && !ev.is_power_expr(operand, tab, ctx) {
                let r = TokenRange { beg: *token, end: *token };
                errors.push(Diagnostic::invalid_cast("non-power type", "power type", &r));
            } else if into.is_enable() && !ev.is_enable_expr(operand, tab, ctx) {
                let r = TokenRange { beg: *token, end: *token };
                errors.push(Diagnostic::invalid_cast("non-enable type", "enable type", &r));
            }
            let ghost mid = errors@;
            check_casts(errors, operand, tab, ctx, strs);
            proof {
                let here: Seq<EnableFinding> = if kind_is_power(*into) && !expr_is_power(
                    **operand,
                    tab.symbols@,
                    ctx@,
                ) {
                    seq![EnableFinding::CastPower { token: *token }]
                } else if kind_is_enable(*into) && !expr_is_enable(**operand, tab.symbols@, ctx@) {
                    seq![EnableFinding::CastEnable { token: *token }]
                } else {
                    Seq::<EnableFinding>::empty()
                };
                let fs2 = cast_findings(**operand, tab.symbols@, ctx@);
                assert(cast_findings(*e, tab.symbols@, ctx@) == here + fs2);
                assert(ematches(mid.skip(base.len() as int), here, *strs));
                assert(errors@.skip(base.len() as int).take(here.len() as int) =~= mid.skip(
                    base.len() as int,
                ));
                assert(errors@.skip(base.len() as int).skip(here.len() as int) =~= errors@.skip(
                    mid.len() as int,
                ));
                lemma_ematch_concat(errors@.skip(base.len() as int), here, fs2, *strs);
            }
        },
        _ => {
            proof {
                assert(errors@.skip(base.len() as int) =~= Seq::<Diagnostic>::empty());
            }
        },
    }
}

/// Walks one statement for the structural check.
#[verifier::loop_isolation(false)]
#[verifier::rlimit(100)]
fn echeck_stmt(
    errors: &mut Vec<Diagnostic>,
    s: &Statement,
    tab: &SymbolTable,
    ctx: &Vec<StrId>,
    in_enable: bool,
    strs: &StrTable,
)
    ensures
        final(errors)@.len() == old(errors)@.len() + stmt_efindings(
            *s,
            tab.symbols@,
            ctx@,
            in_enable,
        ).len(),
        forall|i: int| 0 <= i < old(errors)@.len() ==> final(errors)@[i] == old(errors)@[i],
        ematches(
            final(errors)@.skip(old(errors)@.len() as int),
            stmt_efindings(*s, tab.symbols@, ctx@, in_enable),
            *strs,
        ),
    decreases *s,
{
    let ghost base = errors@;
    let ghost syms = tab.symbols@;
    let ev = Evaluator::new();
    match s {
        Statement::Assign { rhs, .. } => {
            let ghost guard: Seq<EnableFinding> = if in_enable && !(eval_expr(*rhs, syms, ctx@)
                is Fixed || eval_expr(*rhs, syms, ctx@) is UnknownStatic) {
                seq![
                    EnableFinding::NonElaborative {
                        span: TokenRange {
                            beg: crate::ast::expr_token(*rhs),
                            end: crate::ast::expr_token(*rhs),
                        },
                    },
                ]
            } else {
                Seq::<EnableFinding>::empty()
            };
            if in_enable {
                let value = ev.expression(rhs, tab, ctx);
                if !value.is_static() {
                    let r = rhs.range();
                    errors.push(Diagnostic::invalid_enable_non_elaborative(&r));
                }
            }
            let ghost mid = errors@;
            check_casts(errors, rhs, tab, ctx, strs);
            proof {
                let fs2 = cast_findings(*rhs, syms, ctx@);
                assert(ematches(mid.skip(base.len() as int), guard, *strs));
                assert(errors@.skip(base.len() as int).take(guard.len() as int) =~= mid.skip(
                    base.len() as int,
                ));
                assert(errors@.skip(base.len() as int).skip(guard.len() as int) =~= errors@.skip(
                    mid.len() as int,
                ));
                lemma_ematch_concat(errors@.skip(base.len() as int), guard, fs2, *strs);
            }
        },
        Statement::LetStmt { rhs, .. } => {
            check_casts(errors, rhs, tab, ctx, strs);
        },
        Statement::CallStmt { args, .. } => {
            let n = args.len();
            for k in 0..n
                invariant
                    errors@.len() == base.len() + casts_findings(args@, syms, ctx@, k as int).len(),
                    forall|j: int| 0 <= j < base.len() ==> errors@[j] == base[j],
                    ematches(
                        errors@.skip(base.len() as int),
                        casts_findings(args@, syms, ctx@, k as int),
                        *strs,
                    ),
            {
                let ghost fs_before = casts_findings(args@, syms, ctx@, k as int);
                let ghost before = errors@;
                proof {
                    assert(decreases_to!(*args => args@[k as int]));
                }
                check_casts(errors, &args[k], tab, ctx, strs);
                proof {
                    assert(errors@.skip(base.len() as int).take(fs_before.len() as int)
                        =~= before.skip(base.len() as int));
                    assert(errors@.skip(base.len() as int).skip(fs_before.len() as int)
                        =~= errors@.skip(before.len() as int));
                    lemma_ematch_concat(
                        errors@.skip(base.len() as int),
                        fs_before,
                        cast_findings(args@[k as int], syms, ctx@),
                        *strs,
                    );
                }
            }
        },
        Statement::If { cond, then_block, else_block, .. } => {
            check_casts(errors, cond, tab, ctx, strs);
            let ghost mid1 = errors@;
            echeck_stmts(errors, then_block, tab, ctx, in_enable, strs);
            let ghost mid2 = errors@;
            echeck_stmts(errors, else_block, tab, ctx, in_enable, strs);
            proof {
                let fs1 = cast_findings(*cond, syms, ctx@);
                let fs2 = stmts_efindings(
                    then_block@,
                    syms,
                    ctx@,
                    in_enable,
                    then_block@.len() as int,
                );
                let fs3 = stmts_efindings(
                    else_block@,
                    syms,
                    ctx@,
                    in_enable,
                    else_block@.len() as int,
                );
                assert(mid2.skip(base.len() as int).take(fs1.len() as int) =~= mid1.skip(
                    base.len() as int,
                ));
                assert(mid2.skip(base.len() as int).skip(fs1.len() as int) =~= mid2.skip(
                    mid1.len() as int,
                ));
                lemma_ematch_concat(mid2.skip(base.len() as int), fs1, fs2, *strs);
                assert(errors@.skip(base.len() as int).take((fs1 + fs2).len() as int) =~= mid2.skip(
                    base.len() as int,
                ));
                assert(errors@.skip(base.len() as int).skip((fs1 + fs2).len() as int)
                    =~= errors@.skip(mid2.len() as int));
                lemma_ematch_concat(errors@.skip(base.len() as int), fs1 + fs2, fs3, *strs);
                assert(fs1 + fs2 + fs3 =~= stmt_efindings(*s, syms, ctx@, in_enable));
            }
        },
        Statement::IfEnable { block, else_block, .. } => {
            echeck_stmts(errors, block, tab, ctx, true, strs);
            let ghost mid = errors@;
            echeck_stmts(errors, else_block, tab, ctx, in_enable, strs);
            proof {
                let fs1 = stmts_efindings(block@, syms, ctx@, true, block@.len() as int);
                let fs2 = stmts_efindings(
                    else_block@,
                    syms,
                    ctx@,
                    in_enable,
                    else_block@.len() as int,
                );
                assert(errors@.skip(base.len() as int).take(fs1.len() as int) =~= mid.skip(
                    base.len() as int,
                ));
                assert(errors@.skip(base.len() as int).skip(fs1.len() as int) =~= errors@.skip(
                    mid.len() as int,
                ));
                lemma_ematch_concat(errors@.skip(base.len() as int), fs1, fs2, *strs);
            }
        },
        Statement::Case { subject, arms, default_block, .. } => {
            check_casts(errors, subject, tab, ctx, strs);
            let ghost mid1 = errors@;
            let ghost fs1 = cast_findings(*subject, syms, ctx@);
            let n = arms.len();
            for k in 0..n
                invariant
                    errors@.len() == mid1.len() + arms_efindings(
                        arms@,
                        syms,
                        ctx@,
                        in_enable,
                        k as int,
                    ).len(),
                    forall|j: int| 0 <= j < mid1.len() ==> errors@[j] == mid1[j],
                    ematches(
                        errors@.skip(mid1.len() as int),
                        arms_efindings(arms@, syms, ctx@, in_enable, k as int),
                        *strs,
                    ),
            {
                let ghost fs_before = arms_efindings(arms@, syms, ctx@, in_enable, k as int);
                let ghost before = errors@;
                proof {
                    assert(decreases_to!(*arms => arms@[k as int]));
                }
                check_casts(errors, &arms[k].cond, tab, ctx, strs);
                let ghost cmid = errors@;
                echeck_stmts(errors, &arms[k].block, tab, ctx, in_enable, strs);
                proof {
                    let fc = cast_findings(arms@[k as int].cond, syms, ctx@);
                    let fb = stmts_efindings(
                        arms@[k as int].block@,
                        syms,
                        ctx@,
                        in_enable,
                        arms@[k as int].block@.len() as int,
                    );
                    assert(errors@.skip(before.len() as int).take(fc.len() as int) =~= cmid.skip(
                        before.len() as int,
                    ));
                    assert(errors@.skip(before.len() as int).skip(fc.len() as int) =~= errors@.skip(
                        cmid.len() as int,
                    ));
                    lemma_ematch_concat(errors@.skip(before.len() as int), fc, fb, *strs);
                    assert(errors@.skip(mid1.len() as int).take(fs_before.len() as int)
                        =~= before.skip(mid1.len() as int));
                    assert(errors@.skip(mid1.len() as int).skip(fs_before.len() as int)
                        =~= errors@.skip(before.len() as int));
                    lemma_ematch_concat(
                        errors@.skip(mid1.len() as int),
                        fs_before,
                        fc + fb,
                        *strs,
                    );
                }
            }
            let ghost mid2 = errors@;
            let ghost fs2 = arms_efindings(arms@, syms, ctx@, in_enable, arms@.len() as int);
            echeck_stmts(errors, default_block, tab, ctx, in_enable, strs);
            proof {
                let fs3 = stmts_efindings(
                    default_block@,
                    syms,
                    ctx@,
                    in_enable,
                    default_block@.len() as int,
                );
                assert(mid2.skip(base.len() as int).take(fs1.len() as int) =~= mid1.skip(
                    base.len() as int,
                ));
                assert(mid2.skip(base.len() as int).skip(fs1.len() as int) =~= mid2.skip(
                    mid1.len() as int,
                ));
                lemma_ematch_concat(mid2.skip(base.len() as int), fs1, fs2, *strs);
                assert(errors@.skip(base.len() as int).take((fs1 + fs2).len() as int) =~= mid2.skip(
                    base.len() as int,
                ));
                assert(errors@.skip(base.len() as int).skip((fs1 + fs2).len() as int)
                    =~= errors@.skip(mid2.len() as int));
                lemma_ematch_concat(errors@.skip(base.len() as int), fs1 + fs2, fs3, *strs);
                assert(fs1 + fs2 + fs3 =~= stmt_efindings(*s, syms, ctx@, in_enable));
            }
        },
        Statement::For { body, .. } => {
            echeck_stmts(errors, body, tab, ctx, in_enable, strs);
        },
        _ => {
            proof {
                assert(errors@.skip(base.len() as int) =~= Seq::<Diagnostic>::empty());
            }
        },
    }
}

/// Walks a statement block for the structural check.
#[verifier::loop_isolation(false)]
fn echeck_stmts(
    errors: &mut Vec<Diagnostic>,
    ss: &Vec<Statement>,
    tab: &SymbolTable,
    ctx: &Vec<StrId>,
    in_enable: bool,
    strs: &StrTable,
)
    ensures
        final(errors)@.len() == old(errors)@.len() + stmts_efindings(
            ss@,
            tab.symbols@,
            ctx@,
            in_enable,
            ss@.len() as int,
        ).len(),
        forall|i: int| 0 <= i < old(errors)@.len() ==> final(errors)@[i] == old(errors)@[i],
        ematches(
            final(errors)@.skip(old(errors)@.len() as int),
            stmts_efindings(ss@, tab.symbols@, ctx@, in_enable, ss@.len() as int),
            *strs,
        ),
    decreases *ss,
{
    let ghost base = errors@;
    let ghost syms = tab.symbols@;
    let n = ss.len();
    for k in 0..n
        invariant
            errors@.len() == base.len() + stmts_efindings(ss@, syms, ctx@, in_enable, k as int).len(),
            forall|j: int| 0 <= j < base.len() ==> errors@[j] == base[j],
            ematches(
                errors@.skip(base.len() as int),
                stmts_efindings(ss@, syms, ctx@, in_enable, k as int),
                *strs,
            ),
    {
        let ghost fs_before = stmts_efindings(ss@, syms, ctx@, in_enable, k as int);
        let ghost before = errors@;
        proof {
            assert(decreases_to!(*ss => ss@[k as int]));
        }
        echeck_stmt(errors, &ss[k], tab, ctx, in_enable, strs);
        proof {
            assert(errors@.skip(base.len() as int).take(fs_before.len() as int) =~= before.skip(
                base.len() as int,
            ));
            assert(errors@.skip(base.len() as int).skip(fs_before.len() as int) =~= errors@.skip(
                before.len() as int,
            ));
            lemma_ematch_concat(
                errors@.skip(base.len() as int),
                fs_before,
                stmt_efindings(ss@[k as int], syms, ctx@, in_enable),
                *strs,
            );
        }
    }
}

/// Whether a reset guard occurs anywhere in a statement, matching
/// `stmt_has_if_enable`.
#[verifier::loop_isolation(false)]
fn stmt_guard_exec(s: &Statement) -> (r: bool)
    ensures
        r == stmt_has_if_enable(*s),
    decreases *s,
{
    match s {
        Statement::IfEnable { .. } => true,
        Statement::If { then_block, else_block, .. } => {
            let a = stmts_guard_exec(then_block);
            let b = stmts_guard_exec(else_block);
            a || b
        },
        Statement::Case { arms, default_block, .. } => {
            let mut found = false;
            let n = arms.len();
            for k in 0..n
                invariant
                    found == arms_have_if_enable(arms@, k as int),
            {
                proof {
                    assert(decreases_to!(*arms => arms@[k as int]));
                }
                let b = stmts_guard_exec(&arms[k].block);
                found = found || b;
            }
            let d = stmts_guard_exec(default_block);
            found || d
        },
        Statement::For { body, .. } => stmts_guard_exec(body),
        _ => false,
    }
}

/// Whether a reset guard occurs anywhere in a block, matching
/// `stmts_have_if_enable`.
#[verifier::loop_isolation(false)]
fn stmts_guard_exec(ss: &Vec<Statement>) -> (r: bool)
    ensures
        r == stmts_have_if_enable(ss@, ss@.len() as int),
    decreases *ss,
{
    let mut found = false;
    let n = ss.len();
    for k in 0..n
        invariant
            found == stmts_have_if_enable(ss@, k as int),
    {
        proof {
            assert(decreases_to!(*ss => ss@[k as int]));
        }
        let b = stmt_guard_exec(&ss[k]);
        found = found || b;
    }
    found
}

/// Checks one clocked block.
#[verifier::loop_isolation(false)]
#[verifier::rlimit(100)]
fn check_sequence(
    errors: &mut Vec<Diagnostic>,
    sd: &SequenceDecl,
    tab: &SymbolTable,
    ctx: &Vec<StrId>,
    default_power: bool,
    default_enable: bool,
    strs: &StrTable,
)
    ensures
        final(errors)@.len() == old(errors)@.len() + sequence_efindings(
            *sd,
            tab.symbols@,
            ctx@,
            default_power,
            default_enable,
        ).len(),
        forall|i: int| 0 <= i < old(errors)@.len() ==> final(errors)@[i] == old(errors)@[i],
        ematches(
            final(errors)@.skip(old(errors)@.len() as int),
            sequence_efindings(*sd, tab.symbols@, ctx@, default_power, default_enable),
            *strs,
        ),
{
    let ghost base = errors@;
    let ghost syms = tab.symbols@;
    let r = TokenRange { beg: sd.token, end: sd.token };
    if !(default_power || sd.event.is_some()) {
        errors.push(Diagnostic::missing_power_signal(&r));
    }
    let ghost m1 = errors@;
    let guard_required = match &sd.event {
        Option::Some(ev) => {
            if ev.enable.is_some() {
                if sd.block.len() > 0 {
                    !matches!(&sd.block[0], Statement::IfEnable { .. })
                } else {
                    true
                }
            } else {
                false
            }
        },
        Option::None => false,
    };
    if guard_required {
        errors.push(Diagnostic::missing_if_enable(&r));
    }
    let ghost m2 = errors@;
    match &sd.event {
        Option::Some(ev) => {
            check_domain_ref(errors, &ev.power, true, tab, ctx, strs);
        },
        Option::None => {},
    }
    let ghost m3 = errors@;
    match &sd.event {
        Option::Some(ev) => {
            match &ev.enable {
                Option::Some(en) => {
                    check_domain_ref(errors, en, false, tab, ctx, strs);
                },
                Option::None => {},
            }
        },
        Option::None => {},
    }
    let ghost m4 = errors@;
    echeck_stmts(errors, &sd.block, tab, ctx, false, strs);
    let ghost m5 = errors@;
    let guard_seen = stmts_guard_exec(&sd.block);
    let enable_exists = match &sd.event {
        Option::Some(ev) => ev.enable.is_some(),
        Option::None => false,
    };
    if guard_seen && !(default_enable || enable_exists) {
        errors.push(Diagnostic::missing_enable_signal(&r));
    }
    proof {
        let missing_power: Seq<EnableFinding> = if !(default_power || sd.event is Some) {
            seq![EnableFinding::MissingPowerSignal { token: sd.token }]
        } else {
            Seq::empty()
        };
        let missing_guard: Seq<EnableFinding> = if sd.event is Some
            && sd.event->Some_0.enable is Some && !(sd.block@.len() > 0 && sd.block@[0]
            is IfEnable) {
            seq![EnableFinding::MissingIfEnable { token: sd.token }]
        } else {
            Seq::empty()
        };
        let ev_power: Seq<EnableFinding> = if sd.event is Some && !valid_domain_ref(
            syms,
            ctx@,
            sd.event->Some_0.power,
            true,
        ) {
            seq![
                EnableFinding::InvalidPower {
                    name: sd.event->Some_0.power.base.name,
                    span: sd.event->Some_0.power.span,
                },
            ]
        } else {
            Seq::empty()
        };
        let ev_enable: Seq<EnableFinding> = if sd.event is Some && sd.event->Some_0.enable is Some
            && !valid_domain_ref(syms, ctx@, sd.event->Some_0.enable->Some_0, false) {
            seq![
                EnableFinding::InvalidEnable {
                    name: sd.event->Some_0.enable->Some_0.base.name,
                    span: sd.event->Some_0.enable->Some_0.span,
                },
            ]
        } else {
            Seq::empty()
        };
        let body = stmts_efindings(sd.block@, syms, ctx@, false, sd.block@.len() as int);
        let guard_s = stmts_have_if_enable(sd.block@, sd.block@.len() as int);
        let enable_ex = sd.event is Some && sd.event->Some_0.enable is Some;
        let missing_enable: Seq<EnableFinding> = if guard_s && !(default_enable || enable_ex) {
            seq![EnableFinding::MissingEnableSignal { token: sd.token }]
        } else {
            Seq::empty()
        };
        assert(ematches(m1.skip(base.len() as int), missing_power, *strs));
        assert(m2.skip(base.len() as int).take(missing_power.len() as int) =~= m1.skip(
            base.len() as int,
        ));
        assert(m2.skip(base.len() as int).skip(missing_power.len() as int) =~= m2.skip(
            m1.len() as int,
        ));
        assert(ematches(m2.skip(m1.len() as int), missing_guard, *strs));
        lemma_ematch_concat(m2.skip(base.len() as int), missing_power, missing_guard, *strs);
        let f2 = missing_power + missing_guard;
        assert(m3.skip(base.len() as int).take(f2.len() as int) =~= m2.skip(base.len() as int));
        assert(m3.skip(base.len() as int).skip(f2.len() as int) =~= m3.skip(m2.len() as int));
        assert(ematches(m3.skip(m2.len() as int), ev_power, *strs));
        lemma_ematch_concat(m3.skip(base.len() as int), f2, ev_power, *strs);
        let f3 = f2 + ev_power;
        assert(m4.skip(base.len() as int).take(f3.len() as int) =~= m3.skip(base.len() as int));
        assert(m4.skip(base.len() as int).skip(f3.len() as int) =~= m4.skip(m3.len() as int));
        assert(ematches(m4.skip(m3.len() as int), ev_enable, *strs));
        lemma_ematch_concat(m4.skip(base.len() as int), f3, ev_enable, *strs);
        let f4 = f3 + ev_enable;
        assert(m5.skip(base.len() as int).take(f4.len() as int) =~= m4.skip(base.len() as int));
        assert(m5.skip(base.len() as int).skip(f4.len() as int) =~= m5.skip(m4.len() as int));
        lemma_ematch_concat(m5.skip(base.len() as int), f4, body, *strs);
        let f5 = f4 + body;
        assert(errors@.skip(base.len() as int).take(f5.len() as int) =~= m5.skip(
            base.len() as int,
        ));
        assert(errors@.skip(base.len() as int).skip(f5.len() as int) =~= errors@.skip(
            m5.len() as int,
        ));
        assert(ematches(errors@.skip(m5.len() as int), missing_enable, *strs));
        lemma_ematch_concat(errors@.skip(base.len() as int), f5, missing_enable, *strs);
        assert(f5 + missing_enable =~= sequence_efindings(
            *sd,
            syms,
            ctx@,
            default_power,
            default_enable,
        ));
    }
}

/// Checks one entity item.
#[verifier::loop_isolation(false)]
fn echeck_item(
    errors: &mut Vec<Diagnostic>,
    item: &EntityItem,
    tab: &SymbolTable,
    ctx: &Vec<StrId>,
    default_power: bool,
    default_enable: bool,
    strs: &StrTable,
)
    ensures
        final(errors)@.len() == old(errors)@.len() + item_efindings(
            *item,
            tab.symbols@,
            ctx@,
            default_power,
            default_enable,
        ).len(),
        forall|i: int| 0 <= i < old(errors)@.len() ==> final(errors)@[i] == old(errors)@[i],
        ematches(
            final(errors)@.skip(old(errors)@.len() as int),
            item_efindings(*item, tab.symbols@, ctx@, default_power, default_enable),
            *strs,
        ),
    decreases *item,
{
    let ghost base = errors@;
    match item {
        EntityItem::Sequence(sd) => {
            check_sequence(errors, sd, tab, ctx, default_power, default_enable, strs);
        },
        EntityItem::AlwaysComb { block, .. } => {
            echeck_stmts(errors, block, tab, ctx, false, strs);
        },
        EntityItem::Initial { block, .. } => {
            echeck_stmts(errors, block, tab, ctx, false, strs);
        },
        EntityItem::Final { block, .. } => {
            echeck_stmts(errors, block, tab, ctx, false, strs);
        },
        EntityItem::FunctionDecl { block, .. } => {
            echeck_stmts(errors, block, tab, ctx, false, strs);
        },
        EntityItem::Const { value, .. } => {
            check_casts(errors, value, tab, ctx, strs);
        },
        EntityItem::Let { rhs, .. } => {
            check_casts(errors, rhs, tab, ctx, strs);
        },
        EntityItem::AssignDecl { rhs, .. } => {
            check_casts(errors, rhs, tab, ctx, strs);
        },
        EntityItem::UnsafeBlock { items, .. } => {
            echeck_item_list(errors, items, tab, ctx, default_power, default_enable, strs);
        },
        _ => {
            proof {
                assert(errors@.skip(base.len() as int) =~= Seq::<Diagnostic>::empty());
            }
        },
    }
}

/// Checks a list of entity items in order.
#[verifier::loop_isolation(false)]
fn echeck_item_list(
    errors: &mut Vec<Diagnostic>,
    items: &Vec<EntityItem>,
    tab: &SymbolTable,
    ctx: &Vec<StrId>,
    default_power: bool,
    default_enable: bool,
    strs: &StrTable,
)
    ensures
        final(errors)@.len() == old(errors)@.len() + items_efindings_upto(
            items@,
            tab.symbols@,
            ctx@,
            default_power,
            default_enable,
            items@.len() as int,
        ).len(),
        forall|i: int| 0 <= i < old(errors)@.len() ==> final(errors)@[i] == old(errors)@[i],
        ematches(
            final(errors)@.skip(old(errors)@.len() as int),
            items_efindings_upto(
                items@,
                tab.symbols@,
                ctx@,
                default_power,
                default_enable,
                items@.len() as int,
            ),
            *strs,
        ),
    decreases *items,
{
    let ghost base = errors@;
    let ghost syms = tab.symbols@;
    let n = items.len();
    for k in 0..n
        invariant
            errors@.len() == base.len() + items_efindings_upto(
                items@,
                syms,
                ctx@,
                default_power,
                default_enable,
                k as int,
            ).len(),
            forall|j: int| 0 <= j < base.len() ==> errors@[j] == base[j],
            ematches(
                errors@.skip(base.len() as int),
                items_efindings_upto(items@, syms, ctx@, default_power, default_enable, k as int),
                *strs,
            ),
    {
        let ghost fs_before = items_efindings_upto(
            items@,
            syms,
            ctx@,
            default_power,
            default_enable,
            k as int,
        );
        let ghost before = errors@;
        proof {
            assert(decreases_to!(*items => items@[k as int]));
        }
        echeck_item(errors, &items[k], tab, ctx, default_power, default_enable, strs);
        proof {
            assert(errors@.skip(base.len() as int).take(fs_before.len() as int) =~= before.skip(
                base.len() as int,
            ));
            assert(errors@.skip(base.len() as int).skip(fs_before.len() as int) =~= errors@.skip(
                before.len() as int,
            ));
            lemma_ematch_concat(
                errors@.skip(base.len() as int),
                fs_before,
                item_efindings(items@[k as int], syms, ctx@, default_power, default_enable),
                *strs,
            );
        }
    }
}

/// The clock/reset structural validity handler.
pub struct CheckPowerEnable {
    pub errors: Vec<Diagnostic>,
}

impl CheckPowerEnable {
    pub fn new() -> (h: CheckPowerEnable)
        ensures
            h.errors@.len() == 0,
    {
        CheckPowerEnable { errors: Vec::new() }
    }

    /// Checks one entity declaration, appending one diagnostic per
    /// finding in walk order.
    #[verifier::loop_isolation(false)]
    pub fn entity_declaration(
        &mut self,
        decl: &EntityDecl,
        tab: &SymbolTable,
        ctx: &Vec<StrId>,
        strs: &StrTable,
    )
        ensures
            final(self).errors@.len() == old(self).errors@.len() + entity_efindings(
                *decl,
                tab.symbols@,
                ctx@,
            ).len(),
            forall|i: int|
                0 <= i < old(self).errors@.len() ==> final(self).errors@[i] == old(
                    self,
                ).errors@[i],
            ematches(
                final(self).errors@.skip(old(self).errors@.len() as int),
                entity_efindings(*decl, tab.symbols@, ctx@),
                *strs,
            ),
    {
        let mut power_count: usize = 0;
        let mut enable_count: usize = 0;
        let n = decl.ports.len();
        for k in 0..n
            invariant
                power_count == crate::handlers::check_power_domain::power_ports_upto(
                    decl.ports@,
                    k as int,
                ).len(),
                enable_count == enable_ports_upto(decl.ports@, k as int).len(),
                power_count <= k,
                enable_count <= k,
        {
            let p = &decl.ports[k];
            let is_power = match &p.ty {
                Option::Some(t) => t.kind.is_power(),
                Option::None => false,
            };
            let is_enable = match &p.ty {
                Option::Some(t) => t.kind.is_enable(),
                Option::None => false,
            };
            proof {
                assert(is_power == crate::handlers::check_power_domain::is_power_port(
                    decl.ports@[k as int],
                ));
                assert(is_enable == is_enable_port(decl.ports@[k as int]));
                assert(crate::handlers::check_power_domain::power_ports_upto(
                    decl.ports@,
                    k + 1 as int,
                ).len() == crate::handlers::check_power_domain::power_ports_upto(
                    decl.ports@,
                    k as int,
                ).len() + (if is_power {
                    1int
                } else {
                    0int
                }));
                assert(enable_ports_upto(decl.ports@, k + 1 as int).len() == enable_ports_upto(
                    decl.ports@,
                    k as int,
                ).len() + (if is_enable {
                    1int
                } else {
                    0int
                }));
            }
            if is_power {
                power_count = power_count + 1;
            }
            if is_enable {
                enable_count = enable_count + 1;
            }
        }
        proof {
            assert(crate::handlers::check_power_domain::power_ports_upto(decl.ports@, n as int)
                == crate::handlers::check_power_domain::power_ports(decl.ports@));
        }
        echeck_item_list(
            &mut self.errors,
            &decl.items,
            tab,
            ctx,
            power_count == 1,
            enable_count == 1,
            strs,
        );
    }
}

} // verus!

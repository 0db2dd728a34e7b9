use vstd::prelude::*;
use crate::ast::{EntityDecl, EntityItem, Expr, PortDecl};
use crate::diag::{DiagCode, Diagnostic};
use crate::symbol::{direction_label, Direction};
use crate::token::{StrTable, Token, TokenRange};

verus! {

/// One finding of the port validity check.
#[derive(Clone, Copy, Debug, PartialEq, Eq, Structural)]
pub enum PortFinding {
    /// An inout port whose type lacks the tri-state modifier.
    MissingTri { token: Token },
    /// A port default value where the direction admits none.
    InvalidDefault { name: crate::token::StrId, direction: Direction, token: Token },
    /// A direction placed where it is not allowed.
    InvalidDirection { direction: Direction, token: Token },
}

/// Whether a port's direction may stand where it stands: `ref` only on
/// function ports, `modport` only on entity ports outside functions,
/// `import` only inside a modport.
pub open spec fn direction_ok(
    d: Direction,
    in_function: bool,
    in_entity: bool,
    in_modport: bool,
) -> bool {
    match d {
        Direction::Ref => in_function,
        Direction::Modport => in_entity && !in_function,
        Direction::Import => in_modport,
        _ => true,
    }
}

/// Whether a default value is allowed on a port: always on an input,
/// on an output only outside functions and only the anonymous
/// placeholder, never elsewhere.
pub open spec fn default_value_ok(d: Direction, in_function: bool, value: Expr) -> bool {
    match d {
        Direction::Input => true,
        Direction::Output => !in_function && value is Anonymous,
        _ => false,
    }
}

/// The findings for one port declaration, in check order: the
/// tri-state check, then the default-value check, then the direction
/// check.
pub open spec fn port_findings(p: PortDecl, in_function: bool, in_entity: bool) -> Seq<
    PortFinding,
> {
    let tri: Seq<PortFinding> = if p.direction is Inout && !(p.ty matches Option::Some(t)
        && t.tri) {
        seq![PortFinding::MissingTri { token: p.token }]
    } else {
        Seq::empty()
    };
    let dflt: Seq<PortFinding> = match p.default_value {
        Option::Some(v) => if !default_value_ok(p.direction, in_function, v) {
            seq![
                PortFinding::InvalidDefault {
                    name: p.ident.name,
                    direction: p.direction,
                    token: crate::ast::expr_token(v),
                },
            ]
        } else {
            Seq::empty()
        },
        Option::None => Seq::empty(),
    };
    let dir: Seq<PortFinding> = if !direction_ok(p.direction, in_function, in_entity, false) {
        seq![PortFinding::InvalidDirection { direction: p.direction, token: p.token }]
    } else {
        Seq::empty()
    };
    tri + dflt + dir
}

/// The findings for the first `n` ports of a list.
pub open spec fn ports_findings_upto(
    ports: Seq<PortDecl>,
    in_function: bool,
    in_entity: bool,
    n: int,
) -> Seq<PortFinding>
    decreases n,
{
    if n <= 0 {
        Seq::empty()
    } else {
        ports_findings_upto(ports, in_function, in_entity, n - 1) + port_findings(
            ports[n - 1],
            in_function,
            in_entity,
        )
    }
}

/// The findings for one modport item: only the `import` direction and
/// the ordinary input/output directions may stand there.
pub open spec fn modport_item_findings(item: (crate::ast::Ident, Direction)) -> Seq<PortFinding> {
    if !direction_ok(item.1, false, true, true) {
        seq![PortFinding::InvalidDirection { direction: item.1, token: item.0.token }]
    } else {
        Seq::empty()
    }
}

/// The findings for the first `n` modport items of a list.
pub open spec fn modport_findings_upto(items: Seq<(crate::ast::Ident, Direction)>, n: int) -> Seq<
    PortFinding,
>
    decreases n,
{
    if n <= 0 {
        Seq::empty()
    } else {
        modport_findings_upto(items, n - 1) + modport_item_findings(items[n - 1])
    }
}

/// The findings inside one entity item.
pub open spec fn item_findings(item: EntityItem) -> Seq<PortFinding>
    decreases item,
{
    match item {
        EntityItem::FunctionDecl { ports, .. } => ports_findings_upto(
            ports@,
            true,
            true,
            ports@.len() as int,
        ),
        EntityItem::ModportDecl { items, .. } => modport_findings_upto(
            items@,
            items@.len() as int,
        ),
        EntityItem::UnsafeBlock { items, .. } => items_findings_upto(
            items@,
            items@.len() as int,
        ),
        _ => Seq::empty(),
    }
}

/// The findings inside the first `n` items of an item list.
pub open spec fn items_findings_upto(items: Seq<EntityItem>, n: int) -> Seq<PortFinding>
    decreases items, n,
{
    if n <= 0 || n > items.len() {
        Seq::empty()
    } else {
        items_findings_upto(items, n - 1) + item_findings(items[n - 1])
    }
}

/// Every finding of the port check on one entity: its own ports first,
/// then its items in declaration order.
pub open spec fn entity_port_findings(decl: EntityDecl) -> Seq<PortFinding> {
    ports_findings_upto(decl.ports@, false, true, decl.ports@.len() as int)
        + items_findings_upto(decl.items@, decl.items@.len() as int)
}

/// Whether a diagnostic is the one a finding calls for.
pub open spec fn matches_finding(d: Diagnostic, f: PortFinding, strs: StrTable) -> bool {
    match f {
        PortFinding::MissingTri { token } => {
            &&& d.code == DiagCode::MissingTri
            &&& d.fields@.len() == 0
            &&& d.primary == (TokenRange { beg: token, end: token })
        },
        PortFinding::InvalidDefault { name, direction, token } => {
            &&& d.code == DiagCode::InvalidPortDefaultValue
            &&& d.fields@.len() == 2
            &&& d.fields@[0]@ == crate::token::name_view(strs, name)
            &&& d.fields@[1]@ == direction_label(direction)
            &&& d.primary == (TokenRange { beg: token, end: token })
        },
        PortFinding::InvalidDirection { direction, token } => {
            &&& d.code == DiagCode::InvalidDirection
            &&& d.fields@.len() == 1
            &&& d.fields@[0]@ == direction_label(direction)
            &&& d.primary == (TokenRange { beg: token, end: token })
        },
    }
}

/// Whether a run of diagnostics matches a run of findings one for one.
pub open spec fn diags_match(ds: Seq<Diagnostic>, fs: Seq<PortFinding>, strs: StrTable) -> bool {
    ds.len() == fs.len() && forall|i: int| 0 <= i < ds.len() ==> matches_finding(ds[i], fs[i], strs)
}

/// The port direction/default validity handler: one pre-order walk per
/// entity, accumulating diagnostics.
pub struct CheckPort {
    pub errors: Vec<Diagnostic>,
}

impl CheckPort {
    pub fn new() -> (h: CheckPort)
        ensures
            h.errors@.len() == 0,
    {
        CheckPort { errors: Vec::new() }
    }

    /// Checks every port declaration of one entity, appending one
    /// diagnostic per finding in walk order.
    pub fn entity_declaration(&mut self, decl: &EntityDecl, strs: &StrTable)
        ensures
            final(self).errors@.len() == old(self).errors@.len() + entity_port_findings(
                *decl,
            ).len(),
            forall|i: int|
                0 <= i < old(self).errors@.len() ==> final(self).errors@[i] == old(
                    self,
                ).errors@[i],
            diags_match(
                final(self).errors@.skip(old(self).errors@.len() as int),
                entity_port_findings(*decl),
                *strs,
            ),
    {
        let ghost base = self.errors@;
        check_ports(&mut self.errors, &decl.ports, false, true, strs);
        let ghost mid = self.errors@;
        check_items(&mut self.errors, &decl.items, strs);
        proof {
            let fs1 = ports_findings_upto(decl.ports@, false, true, decl.ports@.len() as int);
            let fs2 = items_findings_upto(decl.items@, decl.items@.len() as int);
            assert(self.errors@.skip(base.len() as int).take(fs1.len() as int) =~= mid.skip(
                base.len() as int,
            ));
            assert(self.errors@.skip(base.len() as int).skip(fs1.len() as int) =~= self.errors@.skip(
                mid.len() as int,
            ));
            lemma_match_concat(self.errors@.skip(base.len() as int), fs1, fs2, *strs);
        }
    }
}

/// Two matching runs concatenate to a matching run.
proof fn lemma_match_concat(
    ds: Seq<Diagnostic>,
    fs1: Seq<PortFinding>,
    fs2: Seq<PortFinding>,
    strs: StrTable,
)
    requires
        diags_match(ds.take(fs1.len() as int), fs1, strs),
        diags_match(ds.skip(fs1.len() as int), fs2, strs),
        ds.len() == fs1.len() + fs2.len(),
    ensures
        diags_match(ds, fs1 + fs2, strs),
{
    assert forall|i: int| 0 <= i < ds.len() implies matches_finding(ds[i], (fs1 + fs2)[i], strs) by {
        if i < fs1.len() {
            assert(ds.take(fs1.len() as int)[i] == ds[i]);
        } else {
            assert(ds.skip(fs1.len() as int)[i - fs1.len()] == ds[i]);
        }
    }
}

/// Checks a list of port declarations in order.
fn check_ports(
    errors: &mut Vec<Diagnostic>,
    ports: &Vec<PortDecl>,
    in_function: bool,
    in_entity: bool,
    strs: &StrTable,
)
    ensures
        final(errors)@.len() == old(errors)@.len() + ports_findings_upto(
            ports@,
            in_function,
            in_entity,
            ports@.len() as int,
        ).len(),
        forall|i: int|
            0 <= i < old(errors)@.len() ==> final(errors)@[i] == old(errors)@[i],
        diags_match(
            final(errors)@.skip(old(errors)@.len() as int),
            ports_findings_upto(ports@, in_function, in_entity, ports@.len() as int),
            *strs,
        ),
{
    let ghost base = errors@;
    let n = ports.len();
    for k in 0..n
        invariant
            n == ports@.len(),
            errors@.len() == base.len() + ports_findings_upto(
                ports@,
                in_function,
                in_entity,
                k as int,
            ).len(),
            forall|i: int| 0 <= i < base.len() ==> errors@[i] == base[i],
            diags_match(
                errors@.skip(base.len() as int),
                ports_findings_upto(ports@, in_function, in_entity, k as int),
                *strs,
            ),
    {
        let p = &ports[k];
        let ghost fs_before = ports_findings_upto(ports@, in_function, in_entity, k as int);
        let ghost before = errors@;
        check_one_port(errors, p, in_function, in_entity, strs);
        proof {
            assert(errors@.skip(base.len() as int).take(fs_before.len() as int) =~= before.skip(
                base.len() as int,
            ));
            assert(errors@.skip(base.len() as int).skip(fs_before.len() as int) =~= errors@.skip(
                before.len() as int,
            ));
            lemma_match_concat(
                errors@.skip(base.len() as int),
                fs_before,
                port_findings(ports@[k as int], in_function, in_entity),
                *strs,
            );
            assert(ports_findings_upto(ports@, in_function, in_entity, k + 1 as int) == fs_before
                + port_findings(ports@[k as int], in_function, in_entity));
        }
    }
}

/// Checks one port declaration.
fn check_one_port(
    errors: &mut Vec<Diagnostic>,
    p: &PortDecl,
    in_function: bool,
    in_entity: bool,
    strs: &StrTable,
)
    ensures
        final(errors)@.len() == old(errors)@.len() + port_findings(*p, in_function, in_entity).len(),
        forall|i: int|
            0 <= i < old(errors)@.len() ==> final(errors)@[i] == old(errors)@[i],
        diags_match(
            final(errors)@.skip(old(errors)@.len() as int),
            port_findings(*p, in_function, in_entity),
            *strs,
        ),
{
    let ghost base = errors@;
    let is_tri = match &p.ty {
        Option::Some(t) => t.tri,
        Option::None => false,
    };
    if matches!(p.direction, Direction::Inout) && !is_tri {
        let r = TokenRange { beg: p.token, end: p.token };
        errors.push(Diagnostic::missing_tri(&r));
    }
    match &p.default_value {
        Option::Some(v) => {
            let ok = match p.direction {
                Direction::Input => true,
                Direction::Output => !in_function && matches!(v, Expr::Anonymous { .. }),
                _ => false,
            };
            if !ok {
                let t = v.token();
                let r = TokenRange { beg: t, end: t };
                errors.push(
                    Diagnostic::invalid_port_default_value(
                        strs.get_name(p.ident.name),
                        p.direction.name(),
                        &r,
                    ),
                );
            }
        },
        Option::None => {},
    }
    let dir_ok = match p.direction {
        Direction::Ref => in_function,
        Direction::Modport => in_entity && !in_function,
        Direction::Import => false,
        _ => true,
    };
    if !dir_ok {
        let r = TokenRange { beg: p.token, end: p.token };
        errors.push(Diagnostic::invalid_direction(p.direction.name(), &r));
    }
    proof {
        assert(diags_match(
            errors@.skip(base.len() as int),
            port_findings(*p, in_function, in_entity),
            *strs,
        ));
    }
}

/// Checks the items of an entity in order, descending into functions,
/// modports and suppression blocks.
fn check_items(errors: &mut Vec<Diagnostic>, items: &Vec<EntityItem>, strs: &StrTable)
    ensures
        final(errors)@.len() == old(errors)@.len() + items_findings_upto(
            items@,
            items@.len() as int,
        ).len(),
        forall|i: int|
            0 <= i < old(errors)@.len() ==> final(errors)@[i] == old(errors)@[i],
        diags_match(
            final(errors)@.skip(old(errors)@.len() as int),
            items_findings_upto(items@, items@.len() as int),
            *strs,
        ),
    decreases items,
{
    let ghost base = errors@;
    let n = items.len();
    for k in 0..n
        invariant
            n == items@.len(),
            errors@.len() == base.len() + items_findings_upto(items@, k as int).len(),
            forall|i: int| 0 <= i < base.len() ==> errors@[i] == base[i],
            diags_match(
                errors@.skip(base.len() as int),
                items_findings_upto(items@, k as int),
                *strs,
            ),
    {
        let ghost fs_before = items_findings_upto(items@, k as int);
        let ghost before = errors@;
        match &items[k] {
            EntityItem::FunctionDecl { ports, .. } => {
                check_ports(errors, ports, true, true, strs);
            },
            EntityItem::ModportDecl { items: mitems, .. } => {
                check_modport_items(errors, mitems, strs);
            },
            EntityItem::UnsafeBlock { items: inner, .. } => {
                proof {
                    assert(decreases_to!(*items => items@[k as int]));
                    assert(decreases_to!(items@[k as int] => *inner));
                }
                check_items(errors, inner, strs);
            },
            _ => {},
        }
        proof {
            assert(errors@.skip(base.len() as int).take(fs_before.len() as int) =~= before.skip(
                base.len() as int,
            ));
            assert(errors@.skip(base.len() as int).skip(fs_before.len() as int) =~= errors@.skip(
                before.len() as int,
            ));
            lemma_match_concat(
                errors@.skip(base.len() as int),
                fs_before,
                item_findings(items@[k as int]),
                *strs,
            );
            assert(items_findings_upto(items@, k + 1 as int) == fs_before + item_findings(
                items@[k as int],
            ));
        }
    }
}

/// Checks the items of one modport declaration.
fn check_modport_items(
    errors: &mut Vec<Diagnostic>,
    items: &Vec<(crate::ast::Ident, Direction)>,
    strs: &StrTable,
)
    ensures
        final(errors)@.len() == old(errors)@.len() + modport_findings_upto(
            items@,
            items@.len() as int,
        ).len(),
        forall|i: int|
            0 <= i < old(errors)@.len() ==> final(errors)@[i] == old(errors)@[i],
        diags_match(
            final(errors)@.skip(old(errors)@.len() as int),
            modport_findings_upto(items@, items@.len() as int),
            *strs,
        ),
{
    let ghost base = errors@;
    let n = items.len();
    for k in 0..n
        invariant
            n == items@.len(),
            errors@.len() == base.len() + modport_findings_upto(items@, k as int).len(),
            forall|i: int| 0 <= i < base.len() ==> errors@[i] == base[i],
            diags_match(
                errors@.skip(base.len() as int),
                modport_findings_upto(items@, k as int),
                *strs,
            ),
    {
        let ghost fs_before = modport_findings_upto(items@, k as int);
        let ghost before = errors@;
        let item = &items[k];
        let dir_ok = match item.1 {
            Direction::Ref => false,
            Direction::Modport => true,
            Direction::Import => true,
            _ => true,
        };
        if !dir_ok {
            let r = TokenRange { beg: item.0.token, end: item.0.token };
            errors.push(Diagnostic::invalid_direction(item.1.name(), &r));
        }
        proof {
            assert(errors@.skip(base.len() as int).take(fs_before.len() as int) =~= before.skip(
                base.len() as int,
            ));
            assert(errors@.skip(base.len() as int).skip(fs_before.len() as int) =~= errors@.skip(
                before.len() as int,
            ));
            lemma_match_concat(
                errors@.skip(base.len() as int),
                fs_before,
                modport_item_findings(items@[k as int]),
                *strs,
            );
            assert(modport_findings_upto(items@, k + 1 as int) == fs_before
                + modport_item_findings(items@[k as int]));
        }
    }
}

} // verus!

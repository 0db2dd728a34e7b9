use vstd::prelude::*;
use crate::ast::{
    CompUnit, Declaration, EntityDecl, EntityItem, EnumDeclAst, Expr, HierIdent, PortDecl,
    Statement,
};
use crate::diag::{diag_wf, DiagCode, Diagnostic};
use crate::evaluator::{clog2_u64, encode_enum, value_fits, EnumVariantInput, Evaluator};
use crate::suppression::{Unsafe, UnsafeTable};
use crate::symbol::{
    EntityProperty, EnumEncoding, EnumProperty, FunctionProperty, GenericParameter,
    InstanceProperty, ParamDecl, PortProperty, ProtoEntityProperty, Symbol, SymbolKind, Type,
    TypeKind, VariableProperty, ConstProperty, CompositeProperty,
};
use crate::symbol_table::{SymbolId, SymbolTable};
use crate::token::{StrId, StrTable, Token, TokenRange};

verus! {

/// Whether every diagnostic of a run carries the severity its code
/// calls for.
pub open spec fn all_wf(ds: Seq<Diagnostic>) -> bool {
    forall|i: int| 0 <= i < ds.len() ==> #[trigger] diag_wf(ds[i])
}

/// The codes the collect pass can report.
pub open spec fn pass1_code(c: DiagCode) -> bool {
    c == DiagCode::DuplicatedIdentifier || c == DiagCode::UnknownUnsafe
}

/// The codes the resolve-and-typecheck pass can report.
pub open spec fn pass2_code(c: DiagCode) -> bool {
    ||| c == DiagCode::UndefinedIdentifier
    ||| c == DiagCode::TooLargeNumber
    ||| c == DiagCode::TooMuchEnumVariant
    ||| c == DiagCode::TooLargeEnumVariant
    ||| c == DiagCode::UnevaluatableEnumVariant
    ||| c == DiagCode::InvalidEnumVariantValue
    ||| c == DiagCode::MismatchType
    ||| c == DiagCode::UnknownPort
    ||| c == DiagCode::MissingPort
    ||| c == DiagCode::CyclicTypeDependency
    ||| c == DiagCode::MismatchGenericsArity
    ||| c == DiagCode::MissingDefaultArgument
    ||| c == DiagCode::UnresolvableGenericArgument
    ||| c == DiagCode::WrongSeparator
}

/// Whether every diagnostic of a run carries a code the given pass can
/// report.
pub open spec fn codes_in(ds: Seq<Diagnostic>, pass1: bool) -> bool {
    forall|i: int|
        0 <= i < ds.len() ==> (if pass1 {
            pass1_code(#[trigger] ds[i].code)
        } else {
            pass2_code(ds[i].code)
        })
}

/// The kind a registered symbol must carry, one discriminant per
/// declaration form.
#[derive(Clone, Copy, Debug, PartialEq, Eq, Structural)]
pub enum SymbolShape {
    Entity,
    ProtoEntity,
    Port,
    Variable,
    Constant,
    Function,
    Package,
    Interface,
    Modport,
    StructDef,
    EnumDef,
    EnumMember,
    Instance,
}

/// Whether a symbol kind carries the given shape.
pub open spec fn shape_matches(k: SymbolKind, s: SymbolShape) -> bool {
    match s {
        SymbolShape::Entity => k is Entity,
        SymbolShape::ProtoEntity => k is ProtoEntity,
        SymbolShape::Port => k is Port,
        SymbolShape::Variable => k is Variable,
        SymbolShape::Constant => k is Constant,
        SymbolShape::Function => k is Function,
        SymbolShape::Package => k is Package,
        SymbolShape::Interface => k is Interface,
        SymbolShape::Modport => k is Modport,
        SymbolShape::StructDef => k is StructDef,
        SymbolShape::EnumDef => k is EnumDef,
        SymbolShape::EnumMember => k is EnumMember,
        SymbolShape::Instance => k is Instance,
    }
}

/// Every duplicated-identifier report names a symbol that really
/// stands in the table: the walk never reports a duplicate out of thin
/// air.
pub open spec fn dups_named(syms: Seq<Symbol>, out: Seq<Diagnostic>, strs: StrTable) -> bool {
    forall|i: int|
        0 <= i < out.len() && (#[trigger] out[i]).code == DiagCode::DuplicatedIdentifier
            ==> exists|j: int|
            0 <= j < syms.len() && crate::token::name_view(strs, (#[trigger] syms[j]).token.text)
                == out[i].fields@[0]@
}

/// Duplicate reports stay named as the table grows.
proof fn lemma_dups_named_grows(
    syms: Seq<Symbol>,
    syms2: Seq<Symbol>,
    out: Seq<Diagnostic>,
    strs: StrTable,
)
    requires
        extends(syms2, syms),
        dups_named(syms, out, strs),
    ensures
        dups_named(syms2, out, strs),
{
    assert forall|i: int|
        0 <= i < out.len() && (#[trigger] out[i]).code == DiagCode::DuplicatedIdentifier
        implies exists|j: int|
        0 <= j < syms2.len() && crate::token::name_view(strs, (#[trigger] syms2[j]).token.text)
            == out[i].fields@[0]@ by {
        let j = choose|j: int|
            0 <= j < syms.len() && crate::token::name_view(strs, (#[trigger] syms[j]).token.text)
                == out[i].fields@[0]@;
        assert(syms2[j] == syms[j]);
    }
}

/// Appending a duplicate report for a taken name keeps the reports
/// named.
proof fn lemma_dups_named_after_report(
    syms: Seq<Symbol>,
    out: Seq<Diagnostic>,
    out2: Seq<Diagnostic>,
    strs: StrTable,
    d: Diagnostic,
    ns: Seq<StrId>,
    name: StrId,
)
    requires
        dups_named(syms, out, strs),
        out2 == out.push(d),
        d.fields@.len() >= 1,
        d.fields@[0]@ == crate::token::name_view(strs, name),
        crate::symbol_table::name_taken(syms, ns, name),
    ensures
        dups_named(syms, out2, strs),
{
    let w = choose|w: int|
        0 <= w < syms.len() && syms[w].namespace@ == ns && syms[w].token.text == name;
    assert forall|i: int|
        0 <= i < out2.len() && (#[trigger] out2[i]).code == DiagCode::DuplicatedIdentifier
        implies exists|j: int|
        0 <= j < syms.len() && crate::token::name_view(strs, (#[trigger] syms[j]).token.text)
            == out2[i].fields@[0]@ by {
        if i < out.len() {
            assert(out2[i] == out[i]);
            let j = choose|j: int|
                0 <= j < syms.len() && crate::token::name_view(
                    strs,
                    (#[trigger] syms[j]).token.text,
                ) == out[i].fields@[0]@;
            assert(crate::token::name_view(strs, syms[j].token.text) == out2[i].fields@[0]@);
        } else {
            assert(out2[i] == d);
            assert(crate::token::name_view(strs, syms[w].token.text) == d.fields@[0]@);
        }
    }
}

/// Appending a report of any other code keeps the duplicate reports
/// named.
proof fn lemma_dups_named_after_other(
    syms: Seq<Symbol>,
    out: Seq<Diagnostic>,
    out2: Seq<Diagnostic>,
    strs: StrTable,
    d: Diagnostic,
)
    requires
        dups_named(syms, out, strs),
        out2 == out.push(d),
        d.code != DiagCode::DuplicatedIdentifier,
    ensures
        dups_named(syms, out2, strs),
{
    assert forall|i: int|
        0 <= i < out2.len() && (#[trigger] out2[i]).code == DiagCode::DuplicatedIdentifier
        implies exists|j: int|
        0 <= j < syms.len() && crate::token::name_view(strs, (#[trigger] syms[j]).token.text)
            == out2[i].fields@[0]@ by {
        assert(out2[i] == out[i]);
        let j = choose|j: int|
            0 <= j < syms.len() && crate::token::name_view(strs, (#[trigger] syms[j]).token.text)
                == out[i].fields@[0]@;
        assert(crate::token::name_view(strs, syms[j].token.text) == out2[i].fields@[0]@);
    }
}

/// Whether a declaration attempt left its mark: a symbol with this
/// namespace, defining token and kind stands in the table, or the
/// walk reported the name as duplicated at that token.
pub open spec fn registered_or_dup(
    syms: Seq<Symbol>,
    out: Seq<Diagnostic>,
    strs: StrTable,
    ns: Seq<StrId>,
    token: Token,
    shape: SymbolShape,
) -> bool {
    (exists|i: int|
        0 <= i < syms.len() && (#[trigger] syms[i]).namespace@ == ns && syms[i].token == token
            && shape_matches(syms[i].kind, shape)) || dup_reported(out, strs, token)
}

/// Whether the walk reported a duplicated identifier at this token.
pub open spec fn dup_reported(out: Seq<Diagnostic>, strs: StrTable, token: Token) -> bool {
    exists|i: int|
        0 <= i < out.len() && (#[trigger] out[i]).code == DiagCode::DuplicatedIdentifier
            && out[i].fields@.len() == 1 && out[i].fields@[0]@ == crate::token::name_view(
            strs,
            token.text,
        ) && out[i].primary == (TokenRange { beg: token, end: token })
}

/// Whether one body item left its mark: its symbols registered or its
/// name reported, its suppression span recorded or its unknown name
/// reported, down through nested suppression blocks.
pub open spec fn item_registered(
    syms: Seq<Symbol>,
    out: Seq<Diagnostic>,
    entries: Seq<(Unsafe, TokenRange)>,
    strs: StrTable,
    ns: Seq<StrId>,
    item: EntityItem,
) -> bool
    decreases item,
{
    match item {
        EntityItem::Var { ident, .. } => registered_or_dup(
            syms,
            out,
            strs,
            ns,
            ident.token,
            SymbolShape::Variable,
        ),
        EntityItem::Let { ident, .. } => registered_or_dup(
            syms,
            out,
            strs,
            ns,
            ident.token,
            SymbolShape::Variable,
        ),
        EntityItem::Const { ident, .. } => registered_or_dup(
            syms,
            out,
            strs,
            ns,
            ident.token,
            SymbolShape::Constant,
        ),
        EntityItem::EnumDecl(ed) => registered_or_dup(
            syms,
            out,
            strs,
            ns,
            ed.ident.token,
            SymbolShape::EnumDef,
        ) && (forall|v: int|
            0 <= v < ed.variants@.len() ==> registered_or_dup(
                syms,
                out,
                strs,
                ns.push(ed.ident.name),
                (#[trigger] ed.variants@[v]).ident.token,
                SymbolShape::EnumMember,
            )),
        EntityItem::StructDecl { ident, .. } => registered_or_dup(
            syms,
            out,
            strs,
            ns,
            ident.token,
            SymbolShape::StructDef,
        ),
        EntityItem::FunctionDecl { ident, ports, .. } => registered_or_dup(
            syms,
            out,
            strs,
            ns,
            ident.token,
            SymbolShape::Function,
        ) && (forall|p: int|
            0 <= p < ports@.len() ==> registered_or_dup(
                syms,
                out,
                strs,
                ns.push(ident.name),
                (#[trigger] ports@[p]).ident.token,
                SymbolShape::Port,
            )),
        EntityItem::ModportDecl { ident, .. } => registered_or_dup(
            syms,
            out,
            strs,
            ns,
            ident.token,
            SymbolShape::Modport,
        ),
        EntityItem::Inst(inst) => registered_or_dup(
            syms,
            out,
            strs,
            ns,
            inst.ident.token,
            SymbolShape::Instance,
        ),
        EntityItem::UnsafeBlock { name, items, span, .. } => {
            &&& (crate::token::name_view(strs, name.name) == "pdc"@ ==> exists|i: int|
                0 <= i < entries.len() && entries[i] == (Unsafe::Pdc, span))
            &&& (crate::token::name_view(strs, name.name) != "pdc"@ ==> exists|i: int|
                0 <= i < out.len() && (#[trigger] out[i]).code == DiagCode::UnknownUnsafe
                    && out[i].fields@.len() == 1 && out[i].fields@[0]@
                    == crate::token::name_view(strs, name.name) && out[i].primary == (TokenRange {
                    beg: name.token,
                    end: name.token,
                }))
            &&& items_registered_upto(syms, out, entries, strs, ns, items@, items@.len() as int)
        },
        _ => true,
    }
}

/// Whether the first `n` items of a body left their mark.
pub open spec fn items_registered_upto(
    syms: Seq<Symbol>,
    out: Seq<Diagnostic>,
    entries: Seq<(Unsafe, TokenRange)>,
    strs: StrTable,
    ns: Seq<StrId>,
    items: Seq<EntityItem>,
    n: int,
) -> bool
    decreases items, n,
{
    if n <= 0 || n > items.len() {
        true
    } else {
        items_registered_upto(syms, out, entries, strs, ns, items, n - 1) && item_registered(
            syms,
            out,
            entries,
            strs,
            ns,
            items[n - 1],
        )
    }
}

/// Whether every item of a body left its mark.
pub open spec fn items_registered(
    syms: Seq<Symbol>,
    out: Seq<Diagnostic>,
    entries: Seq<(Unsafe, TokenRange)>,
    strs: StrTable,
    ns: Seq<StrId>,
    items: Seq<EntityItem>,
) -> bool {
    items_registered_upto(syms, out, entries, strs, ns, items, items.len() as int)
}

/// Whether an entity declaration's own symbol left its mark: it
/// stands in the table with the recorded default clock and reset —
/// present exactly when the entity declares exactly one clock or
/// reset port — or its name was reported as duplicated.
pub open spec fn entity_mark(
    syms: Seq<Symbol>,
    out: Seq<Diagnostic>,
    strs: StrTable,
    e: EntityDecl,
) -> bool {
    (exists|i: int|
        0 <= i < syms.len() && (#[trigger] syms[i]).namespace@ == Seq::<StrId>::empty()
            && syms[i].token == e.ident.token && (syms[i].kind matches SymbolKind::Entity(p) && (
        p.default_power is Some <==> crate::handlers::check_power_domain::power_ports(
            e.ports@,
        ).len() == 1) && (p.default_enable is Some
            <==> crate::handlers::check_power_enable::enable_ports_upto(
            e.ports@,
            e.ports@.len() as int,
        ).len() == 1))) || dup_reported(out, strs, e.ident.token)
}

/// Whether one top-level declaration left its mark. For an entity, the
/// registered symbol also records the default clock and reset: present
/// exactly when the entity declares exactly one clock or reset port.
pub open spec fn decl_registered(
    syms: Seq<Symbol>,
    out: Seq<Diagnostic>,
    entries: Seq<(Unsafe, TokenRange)>,
    strs: StrTable,
    decl: Declaration,
) -> bool {
    match decl {
        Declaration::Entity(e) => {
            &&& entity_mark(syms, out, strs, e)
            &&& (forall|p: int|
                0 <= p < e.ports@.len() ==> registered_or_dup(
                    syms,
                    out,
                    strs,
                    seq![e.ident.name],
                    (#[trigger] e.ports@[p]).ident.token,
                    SymbolShape::Port,
                ))
            &&& items_registered(syms, out, entries, strs, seq![e.ident.name], e.items@)
        },
        Declaration::Proto(p) => registered_or_dup(
            syms,
            out,
            strs,
            Seq::empty(),
            p.ident.token,
            SymbolShape::ProtoEntity,
        ),
        Declaration::Package(p) => registered_or_dup(
            syms,
            out,
            strs,
            Seq::empty(),
            p.ident.token,
            SymbolShape::Package,
        ) && items_registered(syms, out, entries, strs, seq![p.ident.name], p.items@),
        Declaration::Interface(i) => registered_or_dup(
            syms,
            out,
            strs,
            Seq::empty(),
            i.ident.token,
            SymbolShape::Interface,
        ) && items_registered(syms, out, entries, strs, seq![i.ident.name], i.items@),
    }
}

/// Whether every declaration of a unit left its mark.
pub open spec fn unit_registered(
    syms: Seq<Symbol>,
    out: Seq<Diagnostic>,
    entries: Seq<(Unsafe, TokenRange)>,
    strs: StrTable,
    unit: CompUnit,
) -> bool {
    forall|d: int|
        0 <= d < unit.decls@.len() ==> #[trigger] decl_registered(
            syms,
            out,
            entries,
            strs,
            unit.decls@[d],
        )
}

/// One sequence extends another without touching what it had.
pub open spec fn extends<T>(post: Seq<T>, pre: Seq<T>) -> bool {
    pre.len() <= post.len() && forall|j: int| 0 <= j < pre.len() ==> post[j] == pre[j]
}

/// Extension of sequences is transitive.
proof fn lemma_extends_trans<T>(c: Seq<T>, b: Seq<T>, a: Seq<T>)
    requires
        extends(c, b),
        extends(b, a),
    ensures
        extends(c, a),
{
    assert forall|j: int| 0 <= j < a.len() implies c[j] == a[j] by {
        assert(c[j] == b[j]);
    }
}

/// A registered-or-reported mark persists as the table and the
/// findings grow.
proof fn lemma_mark_grows(
    syms: Seq<Symbol>,
    syms2: Seq<Symbol>,
    out: Seq<Diagnostic>,
    out2: Seq<Diagnostic>,
    strs: StrTable,
    ns: Seq<StrId>,
    token: Token,
    shape: SymbolShape,
)
    requires
        extends(syms2, syms),
        extends(out2, out),
        registered_or_dup(syms, out, strs, ns, token, shape),
    ensures
        registered_or_dup(syms2, out2, strs, ns, token, shape),
{
    if exists|i: int|
        0 <= i < syms.len() && (#[trigger] syms[i]).namespace@ == ns && syms[i].token == token
            && shape_matches(syms[i].kind, shape) {
        let i = choose|i: int|
            0 <= i < syms.len() && (#[trigger] syms[i]).namespace@ == ns && syms[i].token == token
                && shape_matches(syms[i].kind, shape);
        assert(syms2[i] == syms[i]);
    } else {
        let i = choose|i: int|
            0 <= i < out.len() && (#[trigger] out[i]).code == DiagCode::DuplicatedIdentifier
                && out[i].fields@.len() == 1 && out[i].fields@[0]@ == crate::token::name_view(
                strs,
                token.text,
            ) && out[i].primary == (TokenRange { beg: token, end: token });
        assert(out2[i] == out[i]);
    }
}

/// The mark a registration leaves implies the registered-or-reported
/// predicate for the symbol's own namespace, token and shape.
proof fn lemma_mark_from_insert(
    syms: Seq<Symbol>,
    out: Seq<Diagnostic>,
    strs: StrTable,
    sym: Symbol,
    shape: SymbolShape,
)
    requires
        (exists|i: int| 0 <= i < syms.len() && #[trigger] syms[i] == sym) || dup_reported(
            out,
            strs,
            sym.token,
        ),
        shape_matches(sym.kind, shape),
    ensures
        registered_or_dup(syms, out, strs, sym.namespace@, sym.token, shape),
{
    if exists|i: int| 0 <= i < syms.len() && #[trigger] syms[i] == sym {
        let i = choose|i: int| 0 <= i < syms.len() && #[trigger] syms[i] == sym;
        assert(syms[i].namespace@ == sym.namespace@ && syms[i].token == sym.token
            && shape_matches(syms[i].kind, shape));
    }
}

/// The marks of an item persist as the tables and the findings grow.
proof fn lemma_item_registered_grows(
    syms: Seq<Symbol>,
    syms2: Seq<Symbol>,
    out: Seq<Diagnostic>,
    out2: Seq<Diagnostic>,
    entries: Seq<(Unsafe, TokenRange)>,
    entries2: Seq<(Unsafe, TokenRange)>,
    strs: StrTable,
    ns: Seq<StrId>,
    item: EntityItem,
)
    requires
        extends(syms2, syms),
        extends(out2, out),
        extends(entries2, entries),
        item_registered(syms, out, entries, strs, ns, item),
    ensures
        item_registered(syms2, out2, entries2, strs, ns, item),
    decreases item,
{
    match item {
        EntityItem::Var { ident, .. } => {
            lemma_mark_grows(syms, syms2, out, out2, strs, ns, ident.token, SymbolShape::Variable);
        },
        EntityItem::Let { ident, .. } => {
            lemma_mark_grows(syms, syms2, out, out2, strs, ns, ident.token, SymbolShape::Variable);
        },
        EntityItem::Const { ident, .. } => {
            lemma_mark_grows(syms, syms2, out, out2, strs, ns, ident.token, SymbolShape::Constant);
        },
        EntityItem::StructDecl { ident, .. } => {
            lemma_mark_grows(
                syms,
                syms2,
                out,
                out2,
                strs,
                ns,
                ident.token,
                SymbolShape::StructDef,
            );
        },
        EntityItem::ModportDecl { ident, .. } => {
            lemma_mark_grows(syms, syms2, out, out2, strs, ns, ident.token, SymbolShape::Modport);
        },
        EntityItem::Inst(inst) => {
            lemma_mark_grows(
                syms,
                syms2,
                out,
                out2,
                strs,
                ns,
                inst.ident.token,
                SymbolShape::Instance,
            );
        },
        EntityItem::EnumDecl(ed) => {
            lemma_mark_grows(syms, syms2, out, out2, strs, ns, ed.ident.token, SymbolShape::EnumDef);
            assert forall|v: int| 0 <= v < ed.variants@.len() implies registered_or_dup(
                syms2,
                out2,
                strs,
                ns.push(ed.ident.name),
                (#[trigger] ed.variants@[v]).ident.token,
                SymbolShape::EnumMember,
            ) by {
                lemma_mark_grows(
                    syms,
                    syms2,
                    out,
                    out2,
                    strs,
                    ns.push(ed.ident.name),
                    ed.variants@[v].ident.token,
                    SymbolShape::EnumMember,
                );
            }
        },
        EntityItem::FunctionDecl { ident, ports, .. } => {
            lemma_mark_grows(syms, syms2, out, out2, strs, ns, ident.token, SymbolShape::Function);
            assert forall|p: int| 0 <= p < ports@.len() implies registered_or_dup(
                syms2,
                out2,
                strs,
                ns.push(ident.name),
                (#[trigger] ports@[p]).ident.token,
                SymbolShape::Port,
            ) by {
                lemma_mark_grows(
                    syms,
                    syms2,
                    out,
                    out2,
                    strs,
                    ns.push(ident.name),
                    ports@[p].ident.token,
                    SymbolShape::Port,
                );
            }
        },
        EntityItem::UnsafeBlock { name, items, span, .. } => {
            if crate::token::name_view(strs, name.name) == "pdc"@ {
                let i = choose|i: int|
                    0 <= i < entries.len() && entries[i] == (Unsafe::Pdc, span);
                assert(entries2[i] == entries[i]);
            } else {
                let i = choose|i: int|
                    0 <= i < out.len() && (#[trigger] out[i]).code == DiagCode::UnknownUnsafe
                        && out[i].fields@.len() == 1 && out[i].fields@[0]@
                        == crate::token::name_view(strs, name.name) && out[i].primary
                        == (TokenRange { beg: name.token, end: name.token });
                assert(out2[i] == out[i]);
            }
            lemma_items_upto_grows(
                syms,
                syms2,
                out,
                out2,
                entries,
                entries2,
                strs,
                ns,
                items@,
                items@.len() as int,
            );
        },
        _ => {},
    }
}

/// The marks of an item prefix persist as the tables and the findings
/// grow.
proof fn lemma_items_upto_grows(
    syms: Seq<Symbol>,
    syms2: Seq<Symbol>,
    out: Seq<Diagnostic>,
    out2: Seq<Diagnostic>,
    entries: Seq<(Unsafe, TokenRange)>,
    entries2: Seq<(Unsafe, TokenRange)>,
    strs: StrTable,
    ns: Seq<StrId>,
    items: Seq<EntityItem>,
    n: int,
)
    requires
        extends(syms2, syms),
        extends(out2, out),
        extends(entries2, entries),
        items_registered_upto(syms, out, entries, strs, ns, items, n),
    ensures
        items_registered_upto(syms2, out2, entries2, strs, ns, items, n),
    decreases items, n,
{
    if 0 < n <= items.len() {
        lemma_items_upto_grows(syms, syms2, out, out2, entries, entries2, strs, ns, items, n - 1);
        lemma_item_registered_grows(
            syms,
            syms2,
            out,
            out2,
            entries,
            entries2,
            strs,
            ns,
            items[n - 1],
        );
    }
}

/// The mark of an entity declaration persists as the table and the
/// findings grow.
proof fn lemma_entity_mark_grows(
    syms: Seq<Symbol>,
    syms2: Seq<Symbol>,
    out: Seq<Diagnostic>,
    out2: Seq<Diagnostic>,
    strs: StrTable,
    e: EntityDecl,
)
    requires
        extends(syms2, syms),
        extends(out2, out),
        entity_mark(syms, out, strs, e),
    ensures
        entity_mark(syms2, out2, strs, e),
{
    if exists|i: int|
        0 <= i < syms.len() && (#[trigger] syms[i]).namespace@ == Seq::<StrId>::empty()
            && syms[i].token == e.ident.token && (syms[i].kind matches SymbolKind::Entity(p) && (
        p.default_power is Some <==> crate::handlers::check_power_domain::power_ports(
            e.ports@,
        ).len() == 1) && (p.default_enable is Some
            <==> crate::handlers::check_power_enable::enable_ports_upto(
            e.ports@,
            e.ports@.len() as int,
        ).len() == 1)) {
        let i = choose|i: int|
            0 <= i < syms.len() && (#[trigger] syms[i]).namespace@ == Seq::<StrId>::empty()
                && syms[i].token == e.ident.token && (syms[i].kind matches SymbolKind::Entity(p)
                && (p.default_power is Some
                <==> crate::handlers::check_power_domain::power_ports(e.ports@).len() == 1) && (
            p.default_enable is Some
                <==> crate::handlers::check_power_enable::enable_ports_upto(
                e.ports@,
                e.ports@.len() as int,
            ).len() == 1));
        assert(syms2[i] == syms[i]);
    } else {
        let i = choose|i: int|
            0 <= i < out.len() && (#[trigger] out[i]).code == DiagCode::DuplicatedIdentifier
                && out[i].fields@.len() == 1 && out[i].fields@[0]@ == crate::token::name_view(
                strs,
                e.ident.token.text,
            ) && out[i].primary == (TokenRange { beg: e.ident.token, end: e.ident.token });
        assert(out2[i] == out[i]);
    }
}

/// The marks of a declaration persist as the tables and the findings
/// grow.
proof fn lemma_decl_registered_grows(
    syms: Seq<Symbol>,
    syms2: Seq<Symbol>,
    out: Seq<Diagnostic>,
    out2: Seq<Diagnostic>,
    entries: Seq<(Unsafe, TokenRange)>,
    entries2: Seq<(Unsafe, TokenRange)>,
    strs: StrTable,
    decl: Declaration,
)
    requires
        extends(syms2, syms),
        extends(out2, out),
        extends(entries2, entries),
        decl_registered(syms, out, entries, strs, decl),
    ensures
        decl_registered(syms2, out2, entries2, strs, decl),
{
    match decl {
        Declaration::Entity(e) => {
            lemma_entity_mark_grows(syms, syms2, out, out2, strs, e);
            assert forall|p: int| 0 <= p < e.ports@.len() implies registered_or_dup(
                syms2,
                out2,
                strs,
                seq![e.ident.name],
                (#[trigger] e.ports@[p]).ident.token,
                SymbolShape::Port,
            ) by {
                lemma_mark_grows(
                    syms,
                    syms2,
                    out,
                    out2,
                    strs,
                    seq![e.ident.name],
                    e.ports@[p].ident.token,
                    SymbolShape::Port,
                );
            }
            lemma_items_upto_grows(
                syms,
                syms2,
                out,
                out2,
                entries,
                entries2,
                strs,
                seq![e.ident.name],
                e.items@,
                e.items@.len() as int,
            );
        },
        Declaration::Proto(p) => {
            lemma_mark_grows(
                syms,
                syms2,
                out,
                out2,
                strs,
                Seq::empty(),
                p.ident.token,
                SymbolShape::ProtoEntity,
            );
        },
        Declaration::Package(p) => {
            lemma_mark_grows(
                syms,
                syms2,
                out,
                out2,
                strs,
                Seq::empty(),
                p.ident.token,
                SymbolShape::Package,
            );
            lemma_items_upto_grows(
                syms,
                syms2,
                out,
                out2,
                entries,
                entries2,
                strs,
                seq![p.ident.name],
                p.items@,
                p.items@.len() as int,
            );
        },
        Declaration::Interface(i) => {
            lemma_mark_grows(
                syms,
                syms2,
                out,
                out2,
                strs,
                Seq::empty(),
                i.ident.token,
                SymbolShape::Interface,
            );
            lemma_items_upto_grows(
                syms,
                syms2,
                out,
                out2,
                entries,
                entries2,
                strs,
                seq![i.ident.name],
                i.items@,
                i.items@.len() as int,
            );
        },
    }
}

/// The backing width of an enum declaration: the declared width, or
/// the smallest width that holds its variant count, at least one bit.
pub open spec fn enum_width_spec(ed: EnumDeclAst) -> u64 {
    match ed.width {
        Option::Some(w) => w,
        Option::None => {
            if crate::evaluator::clog2(ed.variants@.len() as nat) == 0 {
                1
            } else {
                crate::evaluator::clog2(ed.variants@.len() as nat) as u64
            }
        },
    }
}

/// The evaluated explicit values of an enum's variants, in order.
pub open spec fn enum_vals(
    ed: EnumDeclAst,
    syms: Seq<Symbol>,
    ctx: Seq<StrId>,
) -> Seq<Option<crate::evaluator::Evaluated>> {
    ed.variants@.map_values(
        |v: crate::ast::EnumVariantAst|
            match v.value {
                Option::Some(e) => Option::Some(crate::evaluator::eval_expr(e, syms, ctx)),
                Option::None => Option::<crate::evaluator::Evaluated>::None,
            },
    )
}

/// The findings the encoding check owes one enum declaration.
pub open spec fn enum_issues_of(ed: EnumDeclAst, syms: Seq<Symbol>, ctx: Seq<StrId>) -> Seq<
    crate::evaluator::EnumIssue,
> {
    crate::evaluator::enum_issues(
        enum_vals(ed, syms, ctx),
        ed.encoding,
        enum_width_spec(ed) as nat,
    )
}

/// The encoding label of an enum, as its diagnostics spell it.
pub open spec fn encoding_label(enc: EnumEncoding) -> Seq<char> {
    match enc {
        EnumEncoding::OneHot => "onehot"@,
        EnumEncoding::Gray => "gray"@,
        EnumEncoding::Sequential => "sequential"@,
    }
}

/// Whether one encoding finding is reported: the matching diagnostic,
/// naming the enum or the offending variant, stands in the output.
pub open spec fn enum_issue_reported(
    out: Seq<Diagnostic>,
    strs: StrTable,
    ed: EnumDeclAst,
    issue: crate::evaluator::EnumIssue,
) -> bool {
    match issue {
        crate::evaluator::EnumIssue::TooMany => exists|i: int|
            0 <= i < out.len() && (#[trigger] out[i]).code == DiagCode::TooMuchEnumVariant
                && out[i].fields@.len() == 1 && out[i].fields@[0]@ == crate::token::name_view(
                strs,
                ed.ident.name,
            ) && out[i].nums@ == seq![ed.variants@.len() as u64, enum_width_spec(ed)],
        crate::evaluator::EnumIssue::TooLarge { index, value } => index < ed.variants@.len()
            ==> exists|i: int|
            0 <= i < out.len() && (#[trigger] out[i]).code == DiagCode::TooLargeEnumVariant
                && out[i].fields@.len() == 1 && out[i].fields@[0]@ == crate::token::name_view(
                strs,
                ed.variants@[index as int].ident.name,
            ) && out[i].nums@ == seq![value, enum_width_spec(ed)],
        crate::evaluator::EnumIssue::UnevaluatableVariant { index } => index < ed.variants@.len()
            ==> exists|i: int|
            0 <= i < out.len() && (#[trigger] out[i]).code == DiagCode::UnevaluatableEnumVariant
                && out[i].fields@.len() == 1 && out[i].fields@[0]@ == crate::token::name_view(
                strs,
                ed.variants@[index as int].ident.name,
            ),
        crate::evaluator::EnumIssue::InvalidVariant { index } => index < ed.variants@.len()
            ==> exists|i: int|
            0 <= i < out.len() && (#[trigger] out[i]).code == DiagCode::InvalidEnumVariantValue
                && out[i].fields@.len() == 2 && out[i].fields@[0]@ == crate::token::name_view(
                strs,
                ed.variants@[index as int].ident.name,
            ) && out[i].fields@[1]@ == encoding_label(ed.encoding),
    }
}

/// Whether every encoding finding an enum owes is reported.
pub open spec fn enum_reported(
    out: Seq<Diagnostic>,
    strs: StrTable,
    ed: EnumDeclAst,
    syms: Seq<Symbol>,
    ctx: Seq<StrId>,
) -> bool {
    forall|k: int|
        0 <= k < enum_issues_of(ed, syms, ctx).len() ==> enum_issue_reported(
            out,
            strs,
            ed,
            #[trigger] enum_issues_of(ed, syms, ctx)[k],
        )
}

/// Reported encoding findings stay reported as the findings grow.
proof fn lemma_enum_reported_grows(
    out: Seq<Diagnostic>,
    out2: Seq<Diagnostic>,
    strs: StrTable,
    ed: EnumDeclAst,
    syms: Seq<Symbol>,
    ctx: Seq<StrId>,
)
    requires
        extends(out2, out),
        enum_reported(out, strs, ed, syms, ctx),
    ensures
        enum_reported(out2, strs, ed, syms, ctx),
{
    assert forall|k: int| 0 <= k < enum_issues_of(ed, syms, ctx).len() implies enum_issue_reported(
        out2,
        strs,
        ed,
        #[trigger] enum_issues_of(ed, syms, ctx)[k],
    ) by {
        lemma_enum_issue_reported_grows(out, out2, strs, ed, enum_issues_of(ed, syms, ctx)[k]);
    }
}

/// One reported encoding finding stays reported as the findings grow.
proof fn lemma_enum_issue_reported_grows(
    out: Seq<Diagnostic>,
    out2: Seq<Diagnostic>,
    strs: StrTable,
    ed: EnumDeclAst,
    issue: crate::evaluator::EnumIssue,
)
    requires
        extends(out2, out),
        enum_issue_reported(out, strs, ed, issue),
    ensures
        enum_issue_reported(out2, strs, ed, issue),
{
    match issue {
        crate::evaluator::EnumIssue::TooMany => {
            let i = choose|i: int|
                0 <= i < out.len() && (#[trigger] out[i]).code == DiagCode::TooMuchEnumVariant
                    && out[i].fields@.len() == 1 && out[i].fields@[0]@
                    == crate::token::name_view(strs, ed.ident.name) && out[i].nums@ == seq![
                ed.variants@.len() as u64,
                enum_width_spec(ed),
            ];
            assert(out2[i] == out[i]);
        },
        crate::evaluator::EnumIssue::TooLarge { index, value } => {
            if index < ed.variants@.len() {
                let i = choose|i: int|
                    0 <= i < out.len() && (#[trigger] out[i]).code
                        == DiagCode::TooLargeEnumVariant && out[i].fields@.len() == 1
                        && out[i].fields@[0]@ == crate::token::name_view(
                        strs,
                        ed.variants@[index as int].ident.name,
                    ) && out[i].nums@ == seq![value, enum_width_spec(ed)];
                assert(out2[i] == out[i]);
            }
        },
        crate::evaluator::EnumIssue::UnevaluatableVariant { index } => {
            if index < ed.variants@.len() {
                let i = choose|i: int|
                    0 <= i < out.len() && (#[trigger] out[i]).code
                        == DiagCode::UnevaluatableEnumVariant && out[i].fields@.len() == 1
                        && out[i].fields@[0]@ == crate::token::name_view(
                        strs,
                        ed.variants@[index as int].ident.name,
                    );
                assert(out2[i] == out[i]);
            }
        },
        crate::evaluator::EnumIssue::InvalidVariant { index } => {
            if index < ed.variants@.len() {
                let i = choose|i: int|
                    0 <= i < out.len() && (#[trigger] out[i]).code
                        == DiagCode::InvalidEnumVariantValue && out[i].fields@.len() == 2
                        && out[i].fields@[0]@ == crate::token::name_view(
                        strs,
                        ed.variants@[index as int].ident.name,
                    ) && out[i].fields@[1]@ == encoding_label(ed.encoding);
                assert(out2[i] == out[i]);
            }
        },
    }
}

/// Whether the walk reported an undefined identifier with this name
/// at this span.
pub open spec fn undef_reported(
    out: Seq<Diagnostic>,
    strs: StrTable,
    name: StrId,
    span: TokenRange,
) -> bool {
    exists|i: int|
        0 <= i < out.len() && (#[trigger] out[i]).code == DiagCode::UndefinedIdentifier
            && out[i].fields@.len() == 1 && out[i].fields@[0]@ == crate::token::name_view(
            strs,
            name,
        ) && out[i].primary == span
}

/// An assignment target's base resolves against the table, or its
/// name was reported as undefined at its span.
pub open spec fn target_checked(
    syms: Seq<Symbol>,
    ctx: Seq<StrId>,
    out: Seq<Diagnostic>,
    strs: StrTable,
    target: HierIdent,
) -> bool {
    crate::symbol_table::resolve_base_spec(syms, ctx, target.base.name) is Some || undef_reported(
        out,
        strs,
        target.base.name,
        target.span,
    )
}

/// Whether one item's pass-two findings are in the output: a
/// continuous assignment's target and a non-foreign instantiation's
/// target resolve or are reported as undefined, and every finding of
/// an enum's encoding check is reported.
pub open spec fn item_targets_checked(
    syms: Seq<Symbol>,
    ctx: Seq<StrId>,
    out: Seq<Diagnostic>,
    strs: StrTable,
    item: EntityItem,
) -> bool
    decreases item,
{
    match item {
        EntityItem::AssignDecl { target, .. } => target_checked(syms, ctx, out, strs, target),
        EntityItem::EnumDecl(ed) => enum_reported(out, strs, ed, syms, ctx),
        EntityItem::Inst(inst) => inst.foreign || crate::symbol_table::resolve_base_spec(
            syms,
            ctx,
            inst.target.base.name,
        ) is Some || undef_reported(out, strs, inst.target.base.name, inst.target.span),
        EntityItem::UnsafeBlock { items, .. } => items_targets_upto(
            syms,
            ctx,
            out,
            strs,
            items@,
            items@.len() as int,
        ),
        _ => true,
    }
}

/// Whether the first `n` items' targets are checked.
pub open spec fn items_targets_upto(
    syms: Seq<Symbol>,
    ctx: Seq<StrId>,
    out: Seq<Diagnostic>,
    strs: StrTable,
    items: Seq<EntityItem>,
    n: int,
) -> bool
    decreases items, n,
{
    if n <= 0 || n > items.len() {
        true
    } else {
        items_targets_upto(syms, ctx, out, strs, items, n - 1) && item_targets_checked(
            syms,
            ctx,
            out,
            strs,
            items[n - 1],
        )
    }
}

/// Whether every entity of a unit has its targets checked.
pub open spec fn unit_targets_checked(
    syms: Seq<Symbol>,
    out: Seq<Diagnostic>,
    strs: StrTable,
    unit: CompUnit,
) -> bool {
    forall|d: int|
        0 <= d < unit.decls@.len() && (#[trigger] unit.decls@[d]) is Entity
            ==> items_targets_upto(
            syms,
            seq![unit.decls@[d]->Entity_0.ident.name],
            out,
            strs,
            unit.decls@[d]->Entity_0.items@,
            unit.decls@[d]->Entity_0.items@.len() as int,
        )
}

/// A target-checked mark persists as the findings grow.
proof fn lemma_target_mark_grows(
    syms: Seq<Symbol>,
    ctx: Seq<StrId>,
    out: Seq<Diagnostic>,
    out2: Seq<Diagnostic>,
    strs: StrTable,
    name: StrId,
    span: TokenRange,
)
    requires
        extends(out2, out),
        undef_reported(out, strs, name, span),
    ensures
        undef_reported(out2, strs, name, span),
{
    let i = choose|i: int|
        0 <= i < out.len() && (#[trigger] out[i]).code == DiagCode::UndefinedIdentifier
            && out[i].fields@.len() == 1 && out[i].fields@[0]@ == crate::token::name_view(
            strs,
            name,
        ) && out[i].primary == span;
    assert(out2[i] == out[i]);
}

/// An item's target marks persist as the findings grow.
proof fn lemma_item_targets_grows(
    syms: Seq<Symbol>,
    ctx: Seq<StrId>,
    out: Seq<Diagnostic>,
    out2: Seq<Diagnostic>,
    strs: StrTable,
    item: EntityItem,
)
    requires
        extends(out2, out),
        item_targets_checked(syms, ctx, out, strs, item),
    ensures
        item_targets_checked(syms, ctx, out2, strs, item),
    decreases item,
{
    match item {
        EntityItem::AssignDecl { target, .. } => {
            if !(crate::symbol_table::resolve_base_spec(syms, ctx, target.base.name) is Some) {
                lemma_target_mark_grows(
                    syms,
                    ctx,
                    out,
                    out2,
                    strs,
                    target.base.name,
                    target.span,
                );
            }
        },
        EntityItem::EnumDecl(ed) => {
            lemma_enum_reported_grows(out, out2, strs, ed, syms, ctx);
        },
        EntityItem::Inst(inst) => {
            if !inst.foreign && !(crate::symbol_table::resolve_base_spec(
                syms,
                ctx,
                inst.target.base.name,
            ) is Some) {
                lemma_target_mark_grows(
                    syms,
                    ctx,
                    out,
                    out2,
                    strs,
                    inst.target.base.name,
                    inst.target.span,
                );
            }
        },
        EntityItem::UnsafeBlock { items, .. } => {
            lemma_items_targets_grows(syms, ctx, out, out2, strs, items@, items@.len() as int);
        },
        _ => {},
    }
}

/// An item prefix's target marks persist as the findings grow.
proof fn lemma_items_targets_grows(
    syms: Seq<Symbol>,
    ctx: Seq<StrId>,
    out: Seq<Diagnostic>,
    out2: Seq<Diagnostic>,
    strs: StrTable,
    items: Seq<EntityItem>,
    n: int,
)
    requires
        extends(out2, out),
        items_targets_upto(syms, ctx, out, strs, items, n),
    ensures
        items_targets_upto(syms, ctx, out2, strs, items, n),
    decreases items, n,
{
    if 0 < n <= items.len() {
        lemma_items_targets_grows(syms, ctx, out, out2, strs, items, n - 1);
        lemma_item_targets_grows(syms, ctx, out, out2, strs, items[n - 1]);
    }
}

/// The analysis driver for one compilation session: the symbol table,
/// the suppression table, and the barrier state. Pass 1 runs once per
/// unit, then the barrier exactly once, then passes 2 and 3 per unit.
pub struct Analyzer {
    pub table: SymbolTable,
    pub suppressions: UnsafeTable,
    pub barrier_done: bool,
}

impl Analyzer {
    /// A fresh session: empty tables, barrier not yet passed.
    pub fn new() -> (a: Analyzer)
        ensures
            a.table.symbols@.len() == 0,
            a.suppressions.entries@.len() == 0,
            !a.barrier_done,
    {
        Analyzer { table: SymbolTable::new(), suppressions: UnsafeTable::new(), barrier_done: false }
    }

    /// Resets the session: the explicit teardown between independent
    /// compilation runs.
    pub fn clear(&mut self)
        ensures
            final(self).table.symbols@.len() == 0,
            final(self).suppressions.entries@.len() == 0,
            !final(self).barrier_done,
    {
        self.table.clear();
        self.suppressions.clear();
        self.barrier_done = false;
    }

    /// Pass 1: one walk of the unit that registers every declaration,
    /// without resolving any reference. Every declaration leaves its
    /// mark: its symbols stand in the table — an entity's with its
    /// recorded default clock and reset — or its name is reported as
    /// duplicated; every suppression block's span is recorded or its
    /// unknown name reported.
    #[verifier::loop_isolation(false)]
    pub fn analyze_pass1(&mut self, unit: &CompUnit, strs: &StrTable) -> (out: Vec<Diagnostic>)
        requires
            !old(self).barrier_done,
        ensures
            all_wf(out@),
            codes_in(out@, true),
            !final(self).barrier_done,
            extends(final(self).table.symbols@, old(self).table.symbols@),
            extends(final(self).suppressions.entries@, old(self).suppressions.entries@),
            dups_named(final(self).table.symbols@, out@, *strs),
            unit_registered(
                final(self).table.symbols@,
                out@,
                final(self).suppressions.entries@,
                *strs,
                *unit,
            ),
    {
        let mut out: Vec<Diagnostic> = Vec::new();
        let n = unit.decls.len();
        for d in 0..n
            invariant
                all_wf(out@),
                codes_in(out@, true),
                self.barrier_done == old(self).barrier_done,
                extends(self.table.symbols@, old(self).table.symbols@),
                extends(self.suppressions.entries@, old(self).suppressions.entries@),
                dups_named(self.table.symbols@, out@, *strs),
                forall|j: int|
                    0 <= j < d ==> #[trigger] decl_registered(
                        self.table.symbols@,
                        out@,
                        self.suppressions.entries@,
                        *strs,
                        unit.decls@[j],
                    ),
        {
            let ghost s0 = self.table.symbols@;
            let ghost o0 = out@;
            let ghost e0 = self.suppressions.entries@;
            match &unit.decls[d] {
                Declaration::Entity(e) => {
                    self.collect_entity(e, &mut out, strs);
                },
                Declaration::Proto(p) => {
                    let prop = ProtoEntityProperty {
                        params: params_of(&p.params),
                        ports: ports_of(&p.ports),
                    };
                    let sym = Symbol {
                        token: p.ident.token,
                        namespace: Vec::new(),
                        public: p.public,
                        kind: SymbolKind::ProtoEntity(prop),
                    };
                    proof {
                        assert(sym.namespace@ =~= Seq::<StrId>::empty());
                    }
                    self.insert_symbol(sym, &mut out, strs);
                    proof {
                        lemma_mark_from_insert(
                            self.table.symbols@,
                            out@,
                            *strs,
                            sym,
                            SymbolShape::ProtoEntity,
                        );
                        assert(decl_registered(
                            self.table.symbols@,
                            out@,
                            self.suppressions.entries@,
                            *strs,
                            unit.decls@[d as int],
                        ));
                    }
                },
                Declaration::Package(p) => {
                    let mut gps: Vec<GenericParameter> = Vec::new();
                    let m = p.generic_parameters.len();
                    for g in 0..m {
                        let has = match &p.generic_parameters[g].1 {
                            Option::Some(e2) => {
                                let ev = Evaluator::new();
                                let ctx: Vec<StrId> = Vec::new();
                                match ev.expression(e2, &self.table, &ctx) {
                                    crate::evaluator::Evaluated::Fixed { value, .. } => Some(
                                        value,
                                    ),
                                    _ => None,
                                }
                            },
                            Option::None => None,
                        };
                        gps.push(
                            GenericParameter {
                                name: p.generic_parameters[g].0.name,
                                default_value: has,
                            },
                        );
                    }
                    let sym = Symbol {
                        token: p.ident.token,
                        namespace: Vec::new(),
                        public: p.public,
                        kind: SymbolKind::Package(gps),
                    };
                    proof {
                        assert(sym.namespace@ =~= Seq::<StrId>::empty());
                    }
                    self.insert_symbol(sym, &mut out, strs);
                    proof {
                        lemma_mark_from_insert(
                            self.table.symbols@,
                            out@,
                            *strs,
                            sym,
                            SymbolShape::Package,
                        );
                    }
                    let ghost s1 = self.table.symbols@;
                    let ghost o1 = out@;
                    let mut ns: Vec<StrId> = Vec::new();
                    ns.push(p.ident.name);
                    proof {
                        assert(ns@ =~= seq![p.ident.name]);
                    }
                    self.collect_items(&p.items, &ns, &mut out, strs);
                    proof {
                        lemma_mark_grows(
                            s1,
                            self.table.symbols@,
                            o1,
                            out@,
                            *strs,
                            Seq::empty(),
                            p.ident.token,
                            SymbolShape::Package,
                        );
                        assert(decl_registered(
                            self.table.symbols@,
                            out@,
                            self.suppressions.entries@,
                            *strs,
                            unit.decls@[d as int],
                        ));
                    }
                },
                Declaration::Interface(i) => {
                    let sym = Symbol {
                        token: i.ident.token,
                        namespace: Vec::new(),
                        public: i.public,
                        kind: SymbolKind::Interface(Vec::new()),
                    };
                    proof {
                        assert(sym.namespace@ =~= Seq::<StrId>::empty());
                    }
                    self.insert_symbol(sym, &mut out, strs);
                    proof {
                        lemma_mark_from_insert(
                            self.table.symbols@,
                            out@,
                            *strs,
                            sym,
                            SymbolShape::Interface,
                        );
                    }
                    let ghost s1 = self.table.symbols@;
                    let ghost o1 = out@;
                    let mut ns: Vec<StrId> = Vec::new();
                    ns.push(i.ident.name);
                    proof {
                        assert(ns@ =~= seq![i.ident.name]);
                    }
                    self.collect_items(&i.items, &ns, &mut out, strs);
                    proof {
                        lemma_mark_grows(
                            s1,
                            self.table.symbols@,
                            o1,
                            out@,
                            *strs,
                            Seq::empty(),
                            i.ident.token,
                            SymbolShape::Interface,
                        );
                        assert(decl_registered(
                            self.table.symbols@,
                            out@,
                            self.suppressions.entries@,
                            *strs,
                            unit.decls@[d as int],
                        ));
                    }
                },
            }
            proof {
                assert forall|j: int| 0 <= j < d + 1 implies #[trigger] decl_registered(
                    self.table.symbols@,
                    out@,
                    self.suppressions.entries@,
                    *strs,
                    unit.decls@[j],
                ) by {
                    if j < d {
                        lemma_decl_registered_grows(
                            s0,
                            self.table.symbols@,
                            o0,
                            out@,
                            e0,
                            self.suppressions.entries@,
                            *strs,
                            unit.decls@[j],
                        );
                    }
                }
            }
        }
        out
    }

    /// Registers one symbol: afterwards the very symbol stands in the
    /// table, or a duplicated-identifier diagnostic at its token was
    /// appended — and then the name it reports is carried by a symbol
    /// that already stands there.
    fn insert_symbol(&mut self, sym: Symbol, out: &mut Vec<Diagnostic>, strs: &StrTable)
        requires
            all_wf(old(out)@),
            codes_in(old(out)@, true),
            dups_named(old(self).table.symbols@, old(out)@, *strs),
        ensures
            all_wf(final(out)@),
            codes_in(final(out)@, true),
            dups_named(final(self).table.symbols@, final(out)@, *strs),
            extends(final(self).table.symbols@, old(self).table.symbols@),
            extends(final(out)@, old(out)@),
            final(self).suppressions == old(self).suppressions,
            final(self).barrier_done == old(self).barrier_done,
            (exists|i: int|
                0 <= i < final(self).table.symbols@.len()
                    && #[trigger] final(self).table.symbols@[i] == sym) || dup_reported(
                final(out)@,
                *strs,
                sym.token,
            ),
    {
        let ghost s_pre = self.table.symbols@;
        let ghost o_pre = out@;
        match self.table.insert(sym, strs) {
            Ok(_) => {
                proof {
                    let s = self.table.symbols@;
                    assert(s[s.len() - 1] == sym);
                    lemma_dups_named_grows(s_pre, s, o_pre, *strs);
                }
            },
            Err(diag) => {
                out.push(diag);
                proof {
                    assert(out@[out@.len() - 1].code == DiagCode::DuplicatedIdentifier);
                    assert(dup_reported(out@, *strs, sym.token));
                    lemma_dups_named_after_report(
                        self.table.symbols@,
                        o_pre,
                        out@,
                        *strs,
                        diag,
                        sym.namespace@,
                        sym.token.text,
                    );
                }
            },
        }
    }

    /// Registers one entity: the entity symbol with its port list and
    /// default clock/reset ports, then its ports and items. The
    /// declaration leaves its mark.
    #[verifier::loop_isolation(false)]
    #[verifier::rlimit(100)]
    fn collect_entity(&mut self, e: &EntityDecl, out: &mut Vec<Diagnostic>, strs: &StrTable)
        requires
            all_wf(old(out)@),
            codes_in(old(out)@, true),
            dups_named(old(self).table.symbols@, old(out)@, *strs),
        ensures
            all_wf(final(out)@),
            codes_in(final(out)@, true),
            dups_named(final(self).table.symbols@, final(out)@, *strs),
            final(self).barrier_done == old(self).barrier_done,
            extends(final(self).table.symbols@, old(self).table.symbols@),
            extends(final(out)@, old(out)@),
            extends(final(self).suppressions.entries@, old(self).suppressions.entries@),
            decl_registered(
                final(self).table.symbols@,
                final(out)@,
                final(self).suppressions.entries@,
                *strs,
                Declaration::Entity(*e),
            ),
    {
        let pports = ports_of(&e.ports);
        let mut power_idx: Option<usize> = None;
        let mut power_count: usize = 0;
        let mut enable_idx: Option<usize> = None;
        let mut enable_count: usize = 0;
        let np = e.ports.len();
        for i in 0..np
            invariant
                power_count == crate::handlers::check_power_domain::power_ports_upto(
                    e.ports@,
                    i as int,
                ).len(),
                enable_count == crate::handlers::check_power_enable::enable_ports_upto(
                    e.ports@,
                    i as int,
                ).len(),
                power_count <= i,
                enable_count <= i,
                (power_count >= 1) == (power_idx is Some),
                (enable_count >= 1) == (enable_idx is Some),
        {
            let is_power = match &e.ports[i].ty {
                Option::Some(t) => t.kind.is_power(),
                Option::None => false,
            };
            let is_enable = match &e.ports[i].ty {
                Option::Some(t) => t.kind.is_enable(),
                Option::None => false,
            };
            proof {
                assert(is_power == crate::handlers::check_power_domain::is_power_port(
                    e.ports@[i as int],
                ));
                assert(is_enable == crate::handlers::check_power_enable::is_enable_port(
                    e.ports@[i as int],
                ));
                assert(crate::handlers::check_power_domain::power_ports_upto(
                    e.ports@,
                    i + 1 as int,
                ).len() == power_count + (if is_power {
                    1int
                } else {
                    0int
                }));
                assert(crate::handlers::check_power_enable::enable_ports_upto(
                    e.ports@,
                    i + 1 as int,
                ).len() == enable_count + (if is_enable {
                    1int
                } else {
                    0int
                }));
            }
            if is_power {
                if power_count == 0 {
                    power_idx = Some(i);
                }
                power_count = power_count + 1;
            }
            if is_enable {
                if enable_count == 0 {
                    enable_idx = Some(i);
                }
                enable_count = enable_count + 1;
            }
        }
        proof {
            assert(crate::handlers::check_power_domain::power_ports_upto(e.ports@, np as int)
                == crate::handlers::check_power_domain::power_ports(e.ports@));
        }
        let prop = EntityProperty {
            params: const_params_of(&e.items),
            ports: pports,
            default_power: if power_count == 1 {
                power_idx
            } else {
                None
            },
            default_enable: if enable_count == 1 {
                enable_idx
            } else {
                None
            },
            generic_parameters: Vec::new(),
            proto: match &e.proto {
                Option::Some(p) => Some(p.base.name),
                Option::None => None,
            },
        };
        let sym = Symbol {
            token: e.ident.token,
            namespace: Vec::new(),
            public: e.public,
            kind: SymbolKind::Entity(prop),
        };
        self.insert_symbol(sym, out, strs);
        proof {
            if exists|i: int|
                0 <= i < self.table.symbols@.len() && #[trigger] self.table.symbols@[i] == sym {
                let i = choose|i: int|
                    0 <= i < self.table.symbols@.len() && #[trigger] self.table.symbols@[i]
                        == sym;
                assert(self.table.symbols@[i].namespace@ =~= Seq::<StrId>::empty());
            }
            assert(entity_mark(self.table.symbols@, out@, *strs, *e));
        }
        let ghost s1 = self.table.symbols@;
        let ghost o1 = out@;
        let mut ns: Vec<StrId> = Vec::new();
        ns.push(e.ident.name);
        proof {
            assert(ns@ =~= seq![e.ident.name]);
        }
        for i in 0..np
            invariant
                all_wf(out@),
                codes_in(out@, true),
                self.barrier_done == old(self).barrier_done,
                extends(self.table.symbols@, old(self).table.symbols@),
                extends(out@, old(out)@),
                extends(self.table.symbols@, s1),
                extends(out@, o1),
                self.suppressions.entries@ == old(self).suppressions.entries@,
                dups_named(self.table.symbols@, out@, *strs),
                forall|j: int|
                    0 <= j < i ==> registered_or_dup(
                        self.table.symbols@,
                        out@,
                        *strs,
                        seq![e.ident.name],
                        (#[trigger] e.ports@[j]).ident.token,
                        SymbolShape::Port,
                    ),
        {
            let ghost sp = self.table.symbols@;
            let ghost op = out@;
            let p = &e.ports[i];
            let nsc = ns.clone();
            proof {
                assert(nsc@ =~= ns@);
            }
            let psym = Symbol {
                token: p.ident.token,
                namespace: nsc,
                public: false,
                kind: SymbolKind::Port(
                    PortProperty {
                        name: p.ident.name,
                        direction: p.direction,
                        ty: clone_opt_type(&p.ty),
                        power_domain: p.domain,
                    },
                ),
            };
            self.insert_symbol(psym, out, strs);
            proof {
                lemma_mark_from_insert(self.table.symbols@, out@, *strs, psym, SymbolShape::Port);
                assert(registered_or_dup(
                    self.table.symbols@,
                    out@,
                    *strs,
                    seq![e.ident.name],
                    e.ports@[i as int].ident.token,
                    SymbolShape::Port,
                ));
                assert forall|j: int| 0 <= j < i + 1 implies registered_or_dup(
                    self.table.symbols@,
                    out@,
                    *strs,
                    seq![e.ident.name],
                    (#[trigger] e.ports@[j]).ident.token,
                    SymbolShape::Port,
                ) by {
                    if j < i {
                        lemma_mark_grows(
                            sp,
                            self.table.symbols@,
                            op,
                            out@,
                            *strs,
                            seq![e.ident.name],
                            e.ports@[j].ident.token,
                            SymbolShape::Port,
                        );
                    }
                }
            }
        }
        let ghost s2 = self.table.symbols@;
        let ghost o2 = out@;
        self.collect_items(&e.items, &ns, out, strs);
        proof {
            assert(extends(self.table.symbols@, s2));
            assert(extends(out@, o2));
            lemma_entity_mark_grows(s1, self.table.symbols@, o1, out@, *strs, *e);
            assert forall|j: int| 0 <= j < e.ports@.len() implies registered_or_dup(
                self.table.symbols@,
                out@,
                *strs,
                seq![e.ident.name],
                (#[trigger] e.ports@[j]).ident.token,
                SymbolShape::Port,
            ) by {
                lemma_mark_grows(
                    s2,
                    self.table.symbols@,
                    o2,
                    out@,
                    *strs,
                    seq![e.ident.name],
                    e.ports@[j].ident.token,
                    SymbolShape::Port,
                );
            }
            assert(decl_registered(
                self.table.symbols@,
                out@,
                self.suppressions.entries@,
                *strs,
                Declaration::Entity(*e),
            ));
        }
    }

    /// Registers the items of an entity, package, or interface body.
    /// Every item leaves its mark.
    #[verifier::loop_isolation(false)]
    #[verifier::rlimit(100)]
    fn collect_items(
        &mut self,
        items: &Vec<EntityItem>,
        ns: &Vec<StrId>,
        out: &mut Vec<Diagnostic>,
        strs: &StrTable,
    )
        requires
            all_wf(old(out)@),
            codes_in(old(out)@, true),
            dups_named(old(self).table.symbols@, old(out)@, *strs),
        ensures
            all_wf(final(out)@),
            codes_in(final(out)@, true),
            dups_named(final(self).table.symbols@, final(out)@, *strs),
            final(self).barrier_done == old(self).barrier_done,
            extends(final(self).table.symbols@, old(self).table.symbols@),
            extends(final(out)@, old(out)@),
            extends(final(self).suppressions.entries@, old(self).suppressions.entries@),
            items_registered(
                final(self).table.symbols@,
                final(out)@,
                final(self).suppressions.entries@,
                *strs,
                ns@,
                items@,
            ),
        decreases *items,
    {
        let n = items.len();
        for k in 0..n
            invariant
                all_wf(out@),
                codes_in(out@, true),
                self.barrier_done == old(self).barrier_done,
                extends(self.table.symbols@, old(self).table.symbols@),
                extends(out@, old(out)@),
                extends(self.suppressions.entries@, old(self).suppressions.entries@),
                dups_named(self.table.symbols@, out@, *strs),
                items_registered_upto(
                    self.table.symbols@,
                    out@,
                    self.suppressions.entries@,
                    *strs,
                    ns@,
                    items@,
                    k as int,
                ),
        {
            let ghost s0 = self.table.symbols@;
            let ghost o0 = out@;
            let ghost e0 = self.suppressions.entries@;
            match &items[k] {
                EntityItem::Var { ident, ty, domain, .. } => {
                    let nsc = ns.clone();
                    proof {
                        assert(nsc@ =~= ns@);
                    }
                    let sym = Symbol {
                        token: ident.token,
                        namespace: nsc,
                        public: false,
                        kind: SymbolKind::Variable(
                            VariableProperty { ty: ty.clone(), power_domain: *domain },
                        ),
                    };
                    self.insert_symbol(sym, out, strs);
                    proof {
                        lemma_mark_from_insert(
                            self.table.symbols@,
                            out@,
                            *strs,
                            sym,
                            SymbolShape::Variable,
                        );
                    }
                },
                EntityItem::Let { ident, ty, domain, .. } => {
                    let nsc = ns.clone();
                    proof {
                        assert(nsc@ =~= ns@);
                    }
                    let sym = Symbol {
                        token: ident.token,
                        namespace: nsc,
                        public: false,
                        kind: SymbolKind::Variable(
                            VariableProperty { ty: ty.clone(), power_domain: *domain },
                        ),
                    };
                    self.insert_symbol(sym, out, strs);
                    proof {
                        lemma_mark_from_insert(
                            self.table.symbols@,
                            out@,
                            *strs,
                            sym,
                            SymbolShape::Variable,
                        );
                    }
                },
                EntityItem::Const { ident, ty, value, .. } => {
                    let ev = Evaluator::new();
                    let v = ev.expression(value, &self.table, ns);
                    let nsc = ns.clone();
                    proof {
                        assert(nsc@ =~= ns@);
                    }
                    let sym = Symbol {
                        token: ident.token,
                        namespace: nsc,
                        public: false,
                        kind: SymbolKind::Constant(ConstProperty { ty: ty.clone(), value: v }),
                    };
                    self.insert_symbol(sym, out, strs);
                    proof {
                        lemma_mark_from_insert(
                            self.table.symbols@,
                            out@,
                            *strs,
                            sym,
                            SymbolShape::Constant,
                        );
                    }
                },
                EntityItem::EnumDecl(ed) => {
                    self.collect_enum(ed, ns, out, strs);
                },
                EntityItem::StructDecl { ident, members, .. } => {
                    let mut ms: Vec<(StrId, TypeKind)> = Vec::new();
                    let m = members.len();
                    for j in 0..m {
                        ms.push((members[j].0.name, members[j].1.kind));
                    }
                    let nsc = ns.clone();
                    proof {
                        assert(nsc@ =~= ns@);
                    }
                    let sym = Symbol {
                        token: ident.token,
                        namespace: nsc,
                        public: false,
                        kind: SymbolKind::StructDef(CompositeProperty { members: ms }),
                    };
                    self.insert_symbol(sym, out, strs);
                    proof {
                        lemma_mark_from_insert(
                            self.table.symbols@,
                            out@,
                            *strs,
                            sym,
                            SymbolShape::StructDef,
                        );
                    }
                },
                EntityItem::FunctionDecl { ident, ports, has_return, .. } => {
                    let nsc = ns.clone();
                    proof {
                        assert(nsc@ =~= ns@);
                    }
                    let sym = Symbol {
                        token: ident.token,
                        namespace: nsc,
                        public: false,
                        kind: SymbolKind::Function(
                            FunctionProperty { ports: ports_of(ports), has_return: *has_return },
                        ),
                    };
                    self.insert_symbol(sym, out, strs);
                    proof {
                        lemma_mark_from_insert(
                            self.table.symbols@,
                            out@,
                            *strs,
                            sym,
                            SymbolShape::Function,
                        );
                    }
                    let ghost sf = self.table.symbols@;
                    let ghost of = out@;
                    let mut fns: Vec<StrId> = ns.clone();
                    fns.push(ident.name);
                    proof {
                        assert(fns@ =~= ns@.push(ident.name));
                    }
                    let m = ports.len();
                    for j in 0..m
                        invariant
                            all_wf(out@),
                            codes_in(out@, true),
                            self.barrier_done == old(self).barrier_done,
                            extends(self.table.symbols@, old(self).table.symbols@),
                            extends(out@, old(out)@),
                            extends(self.table.symbols@, sf),
                            extends(out@, of),
                            self.suppressions.entries@ == e0,
                            dups_named(self.table.symbols@, out@, *strs),
                            forall|q: int|
                                0 <= q < j ==> registered_or_dup(
                                    self.table.symbols@,
                                    out@,
                                    *strs,
                                    ns@.push(ident.name),
                                    (#[trigger] ports@[q]).ident.token,
                                    SymbolShape::Port,
                                ),
                    {
                        let ghost sq = self.table.symbols@;
                        let ghost oq = out@;
                        let p = &ports[j];
                        let fnsc = fns.clone();
                        proof {
                            assert(fnsc@ =~= fns@);
                        }
                        let psym = Symbol {
                            token: p.ident.token,
                            namespace: fnsc,
                            public: false,
                            kind: SymbolKind::Port(
                                PortProperty {
                                    name: p.ident.name,
                                    direction: p.direction,
                                    ty: clone_opt_type(&p.ty),
                                    power_domain: p.domain,
                                },
                            ),
                        };
                        self.insert_symbol(psym, out, strs);
                        proof {
                            lemma_mark_from_insert(
                                self.table.symbols@,
                                out@,
                                *strs,
                                psym,
                                SymbolShape::Port,
                            );
                        }
                        proof {
                            assert forall|q: int| 0 <= q < j + 1 implies registered_or_dup(
                                self.table.symbols@,
                                out@,
                                *strs,
                                ns@.push(ident.name),
                                (#[trigger] ports@[q]).ident.token,
                                SymbolShape::Port,
                            ) by {
                                if q < j {
                                    lemma_mark_grows(
                                        sq,
                                        self.table.symbols@,
                                        oq,
                                        out@,
                                        *strs,
                                        ns@.push(ident.name),
                                        ports@[q].ident.token,
                                        SymbolShape::Port,
                                    );
                                }
                            }
                        }
                    }
                    proof {
                        lemma_mark_grows(
                            sf,
                            self.table.symbols@,
                            of,
                            out@,
                            *strs,
                            ns@,
                            ident.token,
                            SymbolShape::Function,
                        );
                    }
                },
                EntityItem::ModportDecl { ident, .. } => {
                    let nsc = ns.clone();
                    proof {
                        assert(nsc@ =~= ns@);
                    }
                    let sym = Symbol {
                        token: ident.token,
                        namespace: nsc,
                        public: false,
                        kind: SymbolKind::Modport,
                    };
                    self.insert_symbol(sym, out, strs);
                    proof {
                        lemma_mark_from_insert(
                            self.table.symbols@,
                            out@,
                            *strs,
                            sym,
                            SymbolShape::Modport,
                        );
                    }
                },
                EntityItem::Inst(inst) => {
                    let nsc = ns.clone();
                    proof {
                        assert(nsc@ =~= ns@);
                    }
                    let sym = Symbol {
                        token: inst.ident.token,
                        namespace: nsc,
                        public: false,
                        kind: SymbolKind::Instance(
                            InstanceProperty { entity_name: inst.target.base.name },
                        ),
                    };
                    self.insert_symbol(sym, out, strs);
                    proof {
                        lemma_mark_from_insert(
                            self.table.symbols@,
                            out@,
                            *strs,
                            sym,
                            SymbolShape::Instance,
                        );
                    }
                },
                EntityItem::UnsafeBlock { name, items: inner, span, .. } => {
                    match Unsafe::from_name(strs.get_name(name.name)) {
                        Ok(kind) => {
                            self.suppressions.insert(kind, *span);
                            proof {
                                let es = self.suppressions.entries@;
                                assert(es[es.len() - 1] == (Unsafe::Pdc, *span));
                            }
                        },
                        Err(_) => {
                            let r = TokenRange { beg: name.token, end: name.token };
                            let ghost o_pre = out@;
                            let d = Diagnostic::unknown_unsafe(strs.get_name(name.name), &r);
                            out.push(d);
                            proof {
                                lemma_dups_named_after_other(
                                    self.table.symbols@,
                                    o_pre,
                                    out@,
                                    *strs,
                                    d,
                                );
                            }
                        },
                    }
                    let ghost su = self.table.symbols@;
                    let ghost ou = out@;
                    let ghost eu = self.suppressions.entries@;
                    proof {
                        assert(decreases_to!(*items => items@[k as int]));
                        assert(decreases_to!(items@[k as int] => *inner));
                    }
                    self.collect_items(inner, ns, out, strs);
                    proof {
                        if crate::token::name_view(*strs, name.name) == "pdc"@ {
                            let i = eu.len() - 1;
                            assert(self.suppressions.entries@[i] == (Unsafe::Pdc, *span));
                        } else {
                            let i = ou.len() - 1;
                            assert(out@[i] == ou[i]);
                        }
                        assert(item_registered(
                            self.table.symbols@,
                            out@,
                            self.suppressions.entries@,
                            *strs,
                            ns@,
                            items@[k as int],
                        ));
                    }
                },
                _ => {},
            }
            proof {
                assert(item_registered(
                    self.table.symbols@,
                    out@,
                    self.suppressions.entries@,
                    *strs,
                    ns@,
                    items@[k as int],
                ));
                lemma_items_upto_grows(
                    s0,
                    self.table.symbols@,
                    o0,
                    out@,
                    e0,
                    self.suppressions.entries@,
                    *strs,
                    ns@,
                    items@,
                    k as int,
                );
            }
        }
    }

    /// Registers an enum symbol and its members, with the codes the
    /// encoding assigns. The enum and each member leave their marks.
    #[verifier::loop_isolation(false)]
    fn collect_enum(
        &mut self,
        ed: &EnumDeclAst,
        ns: &Vec<StrId>,
        out: &mut Vec<Diagnostic>,
        strs: &StrTable,
    )
        requires
            all_wf(old(out)@),
            codes_in(old(out)@, true),
            dups_named(old(self).table.symbols@, old(out)@, *strs),
        ensures
            all_wf(final(out)@),
            codes_in(final(out)@, true),
            dups_named(final(self).table.symbols@, final(out)@, *strs),
            final(self).barrier_done == old(self).barrier_done,
            extends(final(self).table.symbols@, old(self).table.symbols@),
            extends(final(out)@, old(out)@),
            final(self).suppressions.entries@ == old(self).suppressions.entries@,
            registered_or_dup(
                final(self).table.symbols@,
                final(out)@,
                *strs,
                ns@,
                ed.ident.token,
                SymbolShape::EnumDef,
            ),
            forall|v: int|
                0 <= v < ed.variants@.len() ==> registered_or_dup(
                    final(self).table.symbols@,
                    final(out)@,
                    *strs,
                    ns@.push(ed.ident.name),
                    (#[trigger] ed.variants@[v]).ident.token,
                    SymbolShape::EnumMember,
                ),
    {
        let width = enum_width(ed);
        let (codes, _issues) = encode_enum(&enum_inputs(ed, &self.table, ns), width, ed.encoding);
        let mut members: Vec<StrId> = Vec::new();
        let m = ed.variants.len();
        for j in 0..m {
            members.push(ed.variants[j].ident.name);
        }
        let nsc = ns.clone();
        proof {
            assert(nsc@ =~= ns@);
        }
        let sym = Symbol {
            token: ed.ident.token,
            namespace: nsc,
            public: false,
            kind: SymbolKind::EnumDef(EnumProperty { width, encoding: ed.encoding, members }),
        };
        self.insert_symbol(sym, out, strs);
        proof {
            lemma_mark_from_insert(self.table.symbols@, out@, *strs, sym, SymbolShape::EnumDef);
        }
        let ghost s1 = self.table.symbols@;
        let ghost o1 = out@;
        let mut ens: Vec<StrId> = ns.clone();
        ens.push(ed.ident.name);
        proof {
            assert(ens@ =~= ns@.push(ed.ident.name));
        }
        for j in 0..m
            invariant
                m == ed.variants@.len(),
                all_wf(out@),
                codes_in(out@, true),
                self.barrier_done == old(self).barrier_done,
                extends(self.table.symbols@, old(self).table.symbols@),
                extends(out@, old(out)@),
                extends(self.table.symbols@, s1),
                extends(out@, o1),
                self.suppressions.entries@ == old(self).suppressions.entries@,
                dups_named(self.table.symbols@, out@, *strs),
                forall|v: int|
                    0 <= v < j ==> registered_or_dup(
                        self.table.symbols@,
                        out@,
                        *strs,
                        ns@.push(ed.ident.name),
                        (#[trigger] ed.variants@[v]).ident.token,
                        SymbolShape::EnumMember,
                    ),
        {
            let ghost sq = self.table.symbols@;
            let ghost oq = out@;
            let code = if j < codes.len() {
                codes[j]
            } else {
                0
            };
            let ensc = ens.clone();
            proof {
                assert(ensc@ =~= ens@);
            }
            let msym = Symbol {
                token: ed.variants[j].ident.token,
                namespace: ensc,
                public: false,
                kind: SymbolKind::EnumMember(code),
            };
            self.insert_symbol(msym, out, strs);
            proof {
                lemma_mark_from_insert(
                    self.table.symbols@,
                    out@,
                    *strs,
                    msym,
                    SymbolShape::EnumMember,
                );
            }
            proof {
                assert forall|v: int| 0 <= v < j + 1 implies registered_or_dup(
                    self.table.symbols@,
                    out@,
                    *strs,
                    ns@.push(ed.ident.name),
                    (#[trigger] ed.variants@[v]).ident.token,
                    SymbolShape::EnumMember,
                ) by {
                    if v < j {
                        lemma_mark_grows(
                            sq,
                            self.table.symbols@,
                            oq,
                            out@,
                            *strs,
                            ns@.push(ed.ident.name),
                            ed.variants@[v].ident.token,
                            SymbolShape::EnumMember,
                        );
                    }
                }
            }
        }
        proof {
            lemma_mark_grows(
                s1,
                self.table.symbols@,
                o1,
                out@,
                *strs,
                ns@,
                ed.ident.token,
                SymbolShape::EnumDef,
            );
        }
    }


    /// The global barrier: called exactly once, after pass 1 has run
    /// for every unit and before any unit's pass 2.
    pub fn analyze_post_pass1(&mut self)
        requires
            !old(self).barrier_done,
        ensures
            final(self).barrier_done,
            final(self).table == old(self).table,
            final(self).suppressions == old(self).suppressions,
    {
        self.barrier_done = true;
    }
}

/// The port properties of a port declaration list.
#[verifier::loop_isolation(false)]
fn ports_of(ports: &Vec<PortDecl>) -> (r: Vec<PortProperty>)
{
    let mut r: Vec<PortProperty> = Vec::new();
    let n = ports.len();
    for i in 0..n {
        let p = &ports[i];
        r.push(
            PortProperty {
                name: p.ident.name,
                direction: p.direction,
                ty: clone_opt_type(&p.ty),
                power_domain: p.domain,
            },
        );
    }
    r
}

/// The parameter declarations of a prototype's parameter list.
#[verifier::loop_isolation(false)]
fn params_of(params: &Vec<(crate::ast::Ident, Type)>) -> (r: Vec<ParamDecl>)
{
    let mut r: Vec<ParamDecl> = Vec::new();
    let n = params.len();
    for i in 0..n {
        r.push(ParamDecl { name: params[i].0.name, ty: params[i].1.clone() });
    }
    r
}

/// The elaboration parameters of an entity: its constant items.
#[verifier::loop_isolation(false)]
fn const_params_of(items: &Vec<EntityItem>) -> (r: Vec<ParamDecl>)
{
    let mut r: Vec<ParamDecl> = Vec::new();
    let n = items.len();
    for i in 0..n {
        match &items[i] {
            EntityItem::Const { ident, ty, .. } => {
                r.push(ParamDecl { name: ident.name, ty: ty.clone() });
            },
            _ => {},
        }
    }
    r
}

/// A copy of an optional type.
fn clone_opt_type(t: &Option<Type>) -> (r: Option<Type>)
{
    match t {
        Option::Some(x) => Some(x.clone()),
        Option::None => None,
    }
}

/// The backing width of an enum: the declared width, or the smallest
/// width that holds its variant count.
fn enum_width(ed: &EnumDeclAst) -> (w: u64)
    ensures
        w == enum_width_spec(*ed),
{
    match ed.width {
        Option::Some(w) => w,
        Option::None => {
            let w = clog2_u64(ed.variants.len() as u64);
            if w == 0 {
                1
            } else {
                w
            }
        },
    }
}

/// The evaluated variant inputs of an enum declaration.
#[verifier::loop_isolation(false)]
fn enum_inputs(ed: &EnumDeclAst, tab: &SymbolTable, ns: &Vec<StrId>) -> (r: Vec<EnumVariantInput>)
    ensures
        r@.map_values(|x: EnumVariantInput| x.value) == enum_vals(*ed, tab.symbols@, ns@),
{
    let ev = Evaluator::new();
    let mut r: Vec<EnumVariantInput> = Vec::new();
    let n = ed.variants.len();
    for i in 0..n
        invariant
            r@.map_values(|x: EnumVariantInput| x.value) == enum_vals(*ed, tab.symbols@, ns@).take(
                i as int,
            ),
    {
        let v = &ed.variants[i];
        let value = match &v.value {
            Option::Some(e) => Some(ev.expression(e, tab, ns)),
            Option::None => None,
        };
        r.push(EnumVariantInput { name: v.ident.name, token: v.ident.token, value });
        proof {
            assert(r@.map_values(|x: EnumVariantInput| x.value) =~= enum_vals(
                *ed,
                tab.symbols@,
                ns@,
            ).take(i + 1 as int));
        }
    }
    proof {
        assert(enum_vals(*ed, tab.symbols@, ns@).take(n as int) =~= enum_vals(
            *ed,
            tab.symbols@,
            ns@,
        ));
    }
    r
}

/// Appends an undefined-identifier diagnostic for every unresolvable
/// reference in an expression, and a width-overflow diagnostic for
/// every sized literal whose value needs more bits than it declares.
#[verifier::loop_isolation(false)]
#[verifier::rlimit(100)]
fn resolve_expr(
    errors: &mut Vec<Diagnostic>,
    e: &Expr,
    tab: &SymbolTable,
    ctx: &Vec<StrId>,
    strs: &StrTable,
)
    requires
        all_wf(old(errors)@),
        codes_in(old(errors)@, false),
    ensures
        all_wf(final(errors)@),
        codes_in(final(errors)@, false),
        extends(final(errors)@, old(errors)@),
    decreases *e,
{
    match e {
        Expr::Ref(r) => {
            match tab.resolve_ref(ctx, &r.scope, r.base.name) {
                Option::Some(_) => {},
                Option::None => {
                    errors.push(
                        Diagnostic::undefined_identifier(strs.get_name(r.base.name), &r.span),
                    );
                },
            }
            check_separators(errors, r, tab, ctx, strs);
        },
        Expr::Number { value, width, sized, token } => {
            if *sized && !value_fits(*value, *width) {
                let r = TokenRange { beg: *token, end: *token };
                errors.push(Diagnostic::too_large_number(*width, &r));
            }
        },
        Expr::Unary { operand, .. } => {
            resolve_expr(errors, operand, tab, ctx, strs);
        },
        Expr::Cast { operand, .. } => {
            resolve_expr(errors, operand, tab, ctx, strs);
        },
        Expr::Binary { lhs, rhs, .. } => {
            resolve_expr(errors, lhs, tab, ctx, strs);
            resolve_expr(errors, rhs, tab, ctx, strs);
        },
        Expr::Concat { parts, .. } => {
            let n = parts.len();
            for k in 0..n
                invariant
                    all_wf(errors@),
                    codes_in(errors@, false),
                    extends(errors@, old(errors)@),
            {
                proof {
                    assert(decreases_to!(*parts => parts@[k as int]));
                }
                resolve_expr(errors, &parts[k], tab, ctx, strs);
            }
        },
        Expr::Call { target, args, .. } => {
            match tab.resolve_ref(ctx, &target.scope, target.base.name) {
                Option::Some(_) => {},
                Option::None => {
                    errors.push(
                        Diagnostic::undefined_identifier(
                            strs.get_name(target.base.name),
                            &target.span,
                        ),
                    );
                },
            }
            let n = args.len();
            for k in 0..n
                invariant
                    all_wf(errors@),
                    codes_in(errors@, false),
                    extends(errors@, old(errors)@),
            {
                proof {
                    assert(decreases_to!(*args => args@[k as int]));
                }
                resolve_expr(errors, &args[k], tab, ctx, strs);
            }
        },
        _ => {},
    }
}

/// Resolves the base of an assignment target: it resolves, or it is
/// reported as undefined at its span.
fn resolve_target(
    errors: &mut Vec<Diagnostic>,
    target: &HierIdent,
    tab: &SymbolTable,
    ctx: &Vec<StrId>,
    strs: &StrTable,
)
    requires
        all_wf(old(errors)@),
        codes_in(old(errors)@, false),
    ensures
        all_wf(final(errors)@),
        codes_in(final(errors)@, false),
        extends(final(errors)@, old(errors)@),
        target_checked(tab.symbols@, ctx@, final(errors)@, *strs, *target),
{
    match tab.resolve_base(ctx, target.base.name) {
        Option::Some(_) => {},
        Option::None => {
            errors.push(
                Diagnostic::undefined_identifier(strs.get_name(target.base.name), &target.span),
            );
            proof {
                assert(errors@[errors@.len() - 1].code == DiagCode::UndefinedIdentifier);
                assert(undef_reported(errors@, *strs, target.base.name, target.span));
            }
        },
    }
}

/// Checks the separators of a reference against the kind its first
/// segment resolves to: namespace syntax on an instance, variable or
/// port asks for member access, and member access on a package or
/// enum asks for namespace syntax; each misuse names the separator
/// that was owed.
fn check_separators(
    errors: &mut Vec<Diagnostic>,
    r: &crate::ast::ExprRef,
    tab: &SymbolTable,
    ctx: &Vec<StrId>,
    strs: &StrTable,
)
    requires
        all_wf(old(errors)@),
        codes_in(old(errors)@, false),
    ensures
        all_wf(final(errors)@),
        codes_in(final(errors)@, false),
        extends(final(errors)@, old(errors)@),
{
    if r.scope.len() > 0 {
        match tab.resolve_base(ctx, r.scope[0].name) {
            Option::Some(i) => {
                let scoped_misuse = matches!(
                    &tab.symbols[i].kind,
                    SymbolKind::Instance(_) | SymbolKind::Variable(_) | SymbolKind::Port(_)
                        | SymbolKind::StructDef(_),
                );
                if scoped_misuse {
                    errors.push(Diagnostic::wrong_seperator(".", &r.span));
                }
            },
            Option::None => {},
        }
    }
    if r.members.len() > 0 && r.scope.len() == 0 {
        match tab.resolve_base(ctx, r.base.name) {
            Option::Some(i) => {
                let hier_misuse = matches!(
                    &tab.symbols[i].kind,
                    SymbolKind::Package(_) | SymbolKind::EnumDef(_),
                );
                if hier_misuse {
                    errors.push(Diagnostic::wrong_seperator("::", &r.span));
                }
            },
            Option::None => {},
        }
    }
}

/// Resolves every reference in a statement.
#[verifier::loop_isolation(false)]
#[verifier::rlimit(100)]
fn resolve_stmt(
    errors: &mut Vec<Diagnostic>,
    s: &Statement,
    tab: &SymbolTable,
    ctx: &Vec<StrId>,
    strs: &StrTable,
)
    requires
        all_wf(old(errors)@),
        codes_in(old(errors)@, false),
    ensures
        all_wf(final(errors)@),
        codes_in(final(errors)@, false),
        extends(final(errors)@, old(errors)@),
    decreases *s,
{
    match s {
        Statement::Assign { target, rhs, .. } => {
            resolve_expr(errors, rhs, tab, ctx, strs);
            resolve_target(errors, target, tab, ctx, strs);
        },
        Statement::LetStmt { rhs, .. } => {
            resolve_expr(errors, rhs, tab, ctx, strs);
        },
        Statement::If { cond, then_block, else_block, .. } => {
            resolve_expr(errors, cond, tab, ctx, strs);
            resolve_stmts(errors, then_block, tab, ctx, strs);
            resolve_stmts(errors, else_block, tab, ctx, strs);
        },
        Statement::IfEnable { block, else_block, .. } => {
            resolve_stmts(errors, block, tab, ctx, strs);
            resolve_stmts(errors, else_block, tab, ctx, strs);
        },
        Statement::Case { subject, arms, default_block, .. } => {
            resolve_expr(errors, subject, tab, ctx, strs);
            let n = arms.len();
            for k in 0..n
                invariant
                    all_wf(errors@),
                    codes_in(errors@, false),
                    extends(errors@, old(errors)@),
            {
                proof {
                    assert(decreases_to!(*arms => arms@[k as int]));
                }
                resolve_expr(errors, &arms[k].cond, tab, ctx, strs);
                resolve_stmts(errors, &arms[k].block, tab, ctx, strs);
            }
            resolve_stmts(errors, default_block, tab, ctx, strs);
        },
        Statement::For { body, .. } => {
            resolve_stmts(errors, body, tab, ctx, strs);
        },
        Statement::CallStmt { target, args, .. } => {
            match tab.resolve_ref(ctx, &target.scope, target.base.name) {
                Option::Some(_) => {},
                Option::None => {
                    errors.push(
                        Diagnostic::undefined_identifier(
                            strs.get_name(target.base.name),
                            &target.span,
                        ),
                    );
                },
            }
            let n = args.len();
            for k in 0..n
                invariant
                    all_wf(errors@),
                    codes_in(errors@, false),
                    extends(errors@, old(errors)@),
            {
                proof {
                    assert(decreases_to!(*args => args@[k as int]));
                }
                resolve_expr(errors, &args[k], tab, ctx, strs);
            }
        },
        _ => {},
    }
}

/// Resolves every reference in a block.
#[verifier::loop_isolation(false)]
fn resolve_stmts(
    errors: &mut Vec<Diagnostic>,
    ss: &Vec<Statement>,
    tab: &SymbolTable,
    ctx: &Vec<StrId>,
    strs: &StrTable,
)
    requires
        all_wf(old(errors)@),
        codes_in(old(errors)@, false),
    ensures
        all_wf(final(errors)@),
        codes_in(final(errors)@, false),
        extends(final(errors)@, old(errors)@),
    decreases *ss,
{
    let n = ss.len();
    for k in 0..n
        invariant
            all_wf(errors@),
            codes_in(errors@, false),
            extends(errors@, old(errors)@),
    {
        proof {
            assert(decreases_to!(*ss => ss@[k as int]));
        }
        resolve_stmt(errors, &ss[k], tab, ctx, strs);
    }
}

/// Checks that a declared type's user-defined element kind resolves to
/// a type-like symbol.
fn check_type_name(
    errors: &mut Vec<Diagnostic>,
    ty: &Type,
    anchor: Token,
    tab: &SymbolTable,
    ctx: &Vec<StrId>,
    strs: &StrTable,
)
    requires
        all_wf(old(errors)@),
        codes_in(old(errors)@, false),
    ensures
        all_wf(final(errors)@),
        codes_in(final(errors)@, false),
        extends(final(errors)@, old(errors)@),
{
    if let TypeKind::UserDefined(nm) = ty.kind {
        let r = TokenRange { beg: anchor, end: anchor };
        match tab.resolve_base(ctx, nm) {
            Option::Some(i) => {
                let ok = matches!(
                    &tab.symbols[i].kind,
                    SymbolKind::EnumDef(_) | SymbolKind::StructDef(_) | SymbolKind::ProtoEntity(_)
                        | SymbolKind::Interface(_),
                );
                if !ok {
                    errors.push(
                        Diagnostic::mismatch_type(
                            strs.get_name(nm),
                            "type",
                            tab.symbols[i].kind.to_kind_name(),
                            &r,
                        ),
                    );
                }
            },
            Option::None => {
                errors.push(Diagnostic::undefined_identifier(strs.get_name(nm), &r));
            },
        }
    }
}

impl Analyzer {
    /// Pass 2: resolves every identifier reference against the now
    /// complete symbol graph, re-runs the enum encodings for their
    /// diagnostics, validates instance connections against the
    /// referenced entity's signature, checks declared type names,
    /// detects cyclic struct-member and instance dependencies, and
    /// instantiates every generic reference with fixed arguments. The
    /// target of every continuous assignment and of every non-foreign
    /// instantiation either resolves against the table as the barrier
    /// left it or is reported as undefined; the table grows only by
    /// generic specializations.
    #[verifier::loop_isolation(false)]
    #[verifier::rlimit(100)]
    pub fn analyze_pass2(&mut self, unit: &CompUnit, strs: &StrTable) -> (out: Vec<Diagnostic>)
        requires
            old(self).barrier_done,
        ensures
            all_wf(out@),
            codes_in(out@, false),
            final(self).barrier_done,
            final(self).suppressions == old(self).suppressions,
            extends(final(self).table.symbols@, old(self).table.symbols@),
            forall|j: int|
                old(self).table.symbols@.len() <= j < final(self).table.symbols@.len()
                    ==> (#[trigger] final(self).table.symbols@[j]).kind is GenericInstance,
            unit_targets_checked(old(self).table.symbols@, out@, *strs, *unit),
    {
        let mut out: Vec<Diagnostic> = Vec::new();
        let ghost syms0 = self.table.symbols@;
        let n = unit.decls.len();
        for d in 0..n
            invariant
                all_wf(out@),
                codes_in(out@, false),
                *self == *old(self),
                forall|j: int|
                    0 <= j < d && (#[trigger] unit.decls@[j]) is Entity ==> items_targets_upto(
                        syms0,
                        seq![unit.decls@[j]->Entity_0.ident.name],
                        out@,
                        *strs,
                        unit.decls@[j]->Entity_0.items@,
                        unit.decls@[j]->Entity_0.items@.len() as int,
                    ),
        {
            let ghost o0 = out@;
            match &unit.decls[d] {
                Declaration::Entity(e) => {
                    let mut ctx: Vec<StrId> = Vec::new();
                    ctx.push(e.ident.name);
                    proof {
                        assert(ctx@ =~= seq![e.ident.name]);
                    }
                    let np = e.ports.len();
                    for i in 0..np
                        invariant
                            all_wf(out@),
                            codes_in(out@, false),
                            *self == *old(self),
                            extends(out@, o0),
                    {
                        let ghost oi = out@;
                        match &e.ports[i].ty {
                            Option::Some(t) => {
                                check_type_name(
                                    &mut out,
                                    t,
                                    e.ports[i].ident.token,
                                    &self.table,
                                    &ctx,
                                    strs,
                                );
                            },
                            Option::None => {},
                        }
                        proof {
                            lemma_extends_trans(out@, oi, o0);
                        }
                    }
                    let ghost o_mid = out@;
                    self.resolve_items(&e.items, &ctx, &mut out, strs);
                    proof {
                        lemma_extends_trans(out@, o_mid, o0);
                    }
                },
                _ => {},
            }
            proof {
                assert forall|j: int|
                    0 <= j < d + 1 && (#[trigger] unit.decls@[j]) is Entity
                    implies items_targets_upto(
                    syms0,
                    seq![unit.decls@[j]->Entity_0.ident.name],
                    out@,
                    *strs,
                    unit.decls@[j]->Entity_0.items@,
                    unit.decls@[j]->Entity_0.items@.len() as int,
                ) by {
                    if j < d {
                        lemma_items_targets_grows(
                            syms0,
                            seq![unit.decls@[j]->Entity_0.ident.name],
                            o0,
                            out@,
                            *strs,
                            unit.decls@[j]->Entity_0.items@,
                            unit.decls@[j]->Entity_0.items@.len() as int,
                        );
                    }
                }
            }
        }
        let ghost o1 = out@;
        self.check_cycles(unit, &mut out, strs);
        proof {
            assert forall|j: int|
                0 <= j < unit.decls@.len() && (#[trigger] unit.decls@[j]) is Entity
                implies items_targets_upto(
                syms0,
                seq![unit.decls@[j]->Entity_0.ident.name],
                out@,
                *strs,
                unit.decls@[j]->Entity_0.items@,
                unit.decls@[j]->Entity_0.items@.len() as int,
            ) by {
                lemma_items_targets_grows(
                    syms0,
                    seq![unit.decls@[j]->Entity_0.ident.name],
                    o1,
                    out@,
                    *strs,
                    unit.decls@[j]->Entity_0.items@,
                    unit.decls@[j]->Entity_0.items@.len() as int,
                );
            }
        }
        let ghost o2 = out@;
        self.instantiate_generics(unit, &mut out, strs);
        proof {
            assert forall|j: int|
                0 <= j < unit.decls@.len() && (#[trigger] unit.decls@[j]) is Entity
                implies items_targets_upto(
                syms0,
                seq![unit.decls@[j]->Entity_0.ident.name],
                out@,
                *strs,
                unit.decls@[j]->Entity_0.items@,
                unit.decls@[j]->Entity_0.items@.len() as int,
            ) by {
                lemma_items_targets_grows(
                    syms0,
                    seq![unit.decls@[j]->Entity_0.ident.name],
                    o2,
                    out@,
                    *strs,
                    unit.decls@[j]->Entity_0.items@,
                    unit.decls@[j]->Entity_0.items@.len() as int,
                );
            }
        }
        out
    }

    /// Instantiates every generic reference of the unit that carries
    /// arguments: an argument count above the parameter count, a
    /// parameter left without argument or default, and an argument the
    /// evaluator cannot fix are each one diagnostic; a reference whose
    /// arguments all settle is specialized through the memoized cache,
    /// so repeated references add nothing. The table grows only by
    /// generic specializations.
    #[verifier::loop_isolation(false)]
    #[verifier::rlimit(100)]
    fn instantiate_generics(&mut self, unit: &CompUnit, out: &mut Vec<Diagnostic>, strs: &StrTable)
        requires
            all_wf(old(out)@),
            codes_in(old(out)@, false),
        ensures
            all_wf(final(out)@),
            codes_in(final(out)@, false),
            extends(final(out)@, old(out)@),
            final(self).barrier_done == old(self).barrier_done,
            final(self).suppressions == old(self).suppressions,
            extends(final(self).table.symbols@, old(self).table.symbols@),
            forall|j: int|
                old(self).table.symbols@.len() <= j < final(self).table.symbols@.len()
                    ==> (#[trigger] final(self).table.symbols@[j]).kind is GenericInstance,
    {
        let n = unit.decls.len();
        for d in 0..n
            invariant
                all_wf(out@),
                codes_in(out@, false),
                extends(out@, old(out)@),
                self.barrier_done == old(self).barrier_done,
                self.suppressions == old(self).suppressions,
                extends(self.table.symbols@, old(self).table.symbols@),
                forall|j: int|
                    old(self).table.symbols@.len() <= j < self.table.symbols@.len()
                        ==> (#[trigger] self.table.symbols@[j]).kind is GenericInstance,
        {
            match &unit.decls[d] {
                Declaration::Entity(e) => {
                    let mut ctx: Vec<StrId> = Vec::new();
                    ctx.push(e.ident.name);
                    let m = e.items.len();
                    for k in 0..m
                        invariant
                            all_wf(out@),
                            codes_in(out@, false),
                            extends(out@, old(out)@),
                            self.barrier_done == old(self).barrier_done,
                            self.suppressions == old(self).suppressions,
                            extends(self.table.symbols@, old(self).table.symbols@),
                            forall|j: int|
                                old(self).table.symbols@.len() <= j < self.table.symbols@.len()
                                    ==> (#[trigger] self.table.symbols@[j]).kind
                                    is GenericInstance,
                    {
                        match &e.items[k] {
                            EntityItem::Inst(inst) => {
                                self.instantiate_one(inst, &ctx, out, strs);
                            },
                            _ => {},
                        }
                    }
                },
                _ => {},
            }
        }
    }

    /// Handles one instantiation's generic arguments.
    #[verifier::loop_isolation(false)]
    #[verifier::rlimit(100)]
    fn instantiate_one(
        &mut self,
        inst: &crate::ast::InstDecl,
        ctx: &Vec<StrId>,
        out: &mut Vec<Diagnostic>,
        strs: &StrTable,
    )
        requires
            all_wf(old(out)@),
            codes_in(old(out)@, false),
        ensures
            all_wf(final(out)@),
            codes_in(final(out)@, false),
            extends(final(out)@, old(out)@),
            final(self).barrier_done == old(self).barrier_done,
            final(self).suppressions == old(self).suppressions,
            extends(final(self).table.symbols@, old(self).table.symbols@),
            forall|j: int|
                old(self).table.symbols@.len() <= j < final(self).table.symbols@.len()
                    ==> (#[trigger] final(self).table.symbols@[j]).kind is GenericInstance,
    {
        if inst.generic_args.len() == 0 {
            return ;
        }
        let base = match self.table.resolve_base(ctx, inst.target.base.name) {
            Option::Some(i) => i,
            Option::None => {
                return ;
            },
        };
        let nparams: usize;
        match &self.table.symbols[base].kind {
            SymbolKind::Entity(ep) => {
                nparams = ep.generic_parameters.len();
            },
            SymbolKind::Package(gps) => {
                nparams = gps.len();
            },
            _ => {
                return ;
            },
        }
        let name = strs.get_name(inst.target.base.name);
        let r = TokenRange { beg: inst.target.base.token, end: inst.target.base.token };
        let def_sym_tok = self.table.symbols[base].token;
        let def_r = TokenRange { beg: def_sym_tok, end: def_sym_tok };
        let nargs = inst.generic_args.len();
        if nargs > nparams {
            out.push(
                Diagnostic::mismatch_generics_arity(name, nparams as u64, nargs as u64, &r),
            );
            return ;
        }
        let mut values: Vec<u64> = Vec::new();
        let mut settled = true;
        let ev = Evaluator::new();
        for a in 0..nargs
            invariant
                all_wf(out@),
                codes_in(out@, false),
                extends(out@, old(out)@),
                *self == *old(self),
        {
            match ev.expression(&inst.generic_args[a], &self.table, ctx) {
                crate::evaluator::Evaluated::Fixed { value, .. } => {
                    values.push(value);
                },
                _ => {
                    settled = false;
                    out.push(Diagnostic::unresolvable_generic_argument(name, &r, &def_r));
                },
            }
        }
        let mut filled = true;
        match &self.table.symbols[base].kind {
            SymbolKind::Entity(ep) => {
                let m = ep.generic_parameters.len();
                for p in nargs..m
                    invariant
                        nargs <= m,
                        all_wf(out@),
                        codes_in(out@, false),
                        extends(out@, old(out)@),
                        *self == *old(self),
                {
                    match ep.generic_parameters[p].default_value {
                        Option::Some(_) => {},
                        Option::None => {
                            filled = false;
                            out.push(
                                Diagnostic::missing_default_argument(
                                    strs.get_name(ep.generic_parameters[p].name),
                                    &r,
                                ),
                            );
                        },
                    }
                }
            },
            SymbolKind::Package(gps) => {
                let m = gps.len();
                for p in nargs..m
                    invariant
                        nargs <= m,
                        all_wf(out@),
                        codes_in(out@, false),
                        extends(out@, old(out)@),
                        *self == *old(self),
                {
                    match gps[p].default_value {
                        Option::Some(_) => {},
                        Option::None => {
                            filled = false;
                            out.push(
                                Diagnostic::missing_default_argument(
                                    strs.get_name(gps[p].name),
                                    &r,
                                ),
                            );
                        },
                    }
                }
            },
            _ => {},
        }
        if settled && filled {
            let _ = self.table.instantiate(base, &values);
        }
    }

    /// Resolves the items of one entity body. The target of every
    /// continuous assignment and of every non-foreign instantiation
    /// either resolves or is reported as undefined.
    #[verifier::loop_isolation(false)]
    #[verifier::rlimit(100)]
    fn resolve_items(
        &self,
        items: &Vec<EntityItem>,
        ctx: &Vec<StrId>,
        out: &mut Vec<Diagnostic>,
        strs: &StrTable,
    )
        requires
            all_wf(old(out)@),
            codes_in(old(out)@, false),
        ensures
            all_wf(final(out)@),
            codes_in(final(out)@, false),
            extends(final(out)@, old(out)@),
            items_targets_upto(
                self.table.symbols@,
                ctx@,
                final(out)@,
                *strs,
                items@,
                items@.len() as int,
            ),
        decreases *items,
    {
        let n = items.len();
        for k in 0..n
            invariant
                all_wf(out@),
                codes_in(out@, false),
                extends(out@, old(out)@),
                items_targets_upto(self.table.symbols@, ctx@, out@, *strs, items@, k as int),
        {
            let ghost o0 = out@;
            match &items[k] {
                EntityItem::Var { ident, ty, .. } => {
                    check_type_name(out, ty, ident.token, &self.table, ctx, strs);
                },
                EntityItem::Const { ident, ty, value, .. } => {
                    check_type_name(out, ty, ident.token, &self.table, ctx, strs);
                    resolve_expr(out, value, &self.table, ctx, strs);
                },
                EntityItem::Let { ident, ty, rhs, .. } => {
                    check_type_name(out, ty, ident.token, &self.table, ctx, strs);
                    resolve_expr(out, rhs, &self.table, ctx, strs);
                },
                EntityItem::AssignDecl { target, rhs, .. } => {
                    resolve_expr(out, rhs, &self.table, ctx, strs);
                    resolve_target(out, target, &self.table, ctx, strs);
                },
                EntityItem::Sequence(sd) => {
                    self.resolve_seq_event(sd, ctx, out, strs);
                    resolve_stmts(out, &sd.block, &self.table, ctx, strs);
                },
                EntityItem::AlwaysComb { block, .. } => {
                    resolve_stmts(out, block, &self.table, ctx, strs);
                },
                EntityItem::Initial { block, .. } => {
                    resolve_stmts(out, block, &self.table, ctx, strs);
                },
                EntityItem::Final { block, .. } => {
                    resolve_stmts(out, block, &self.table, ctx, strs);
                },
                EntityItem::FunctionDecl { block, .. } => {
                    resolve_stmts(out, block, &self.table, ctx, strs);
                },
                EntityItem::EnumDecl(ed) => {
                    self.enum_diags(ed, ctx, out, strs);
                },
                EntityItem::Inst(inst) => {
                    self.check_inst_signature(inst, ctx, out, strs);
                },
                EntityItem::UnsafeBlock { items: inner, .. } => {
                    proof {
                        assert(decreases_to!(*items => items@[k as int]));
                        assert(decreases_to!(items@[k as int] => *inner));
                    }
                    self.resolve_items(inner, ctx, out, strs);
                },
                _ => {},
            }
            proof {
                assert(item_targets_checked(
                    self.table.symbols@,
                    ctx@,
                    out@,
                    *strs,
                    items@[k as int],
                ));
                lemma_items_targets_grows(
                    self.table.symbols@,
                    ctx@,
                    o0,
                    out@,
                    *strs,
                    items@,
                    k as int,
                );
            }
        }
    }

    /// Resolves the clock and reset references of a clocked block's
    /// event list.
    fn resolve_seq_event(
        &self,
        sd: &crate::ast::SequenceDecl,
        ctx: &Vec<StrId>,
        out: &mut Vec<Diagnostic>,
        strs: &StrTable,
    )
        requires
            all_wf(old(out)@),
            codes_in(old(out)@, false),
        ensures
            all_wf(final(out)@),
            codes_in(final(out)@, false),
            extends(final(out)@, old(out)@),
    {
        match &sd.event {
            Option::Some(ev) => {
                match self.table.resolve_base(ctx, ev.power.base.name) {
                    Option::Some(_) => {},
                    Option::None => {
                        out.push(
                            Diagnostic::undefined_identifier(
                                strs.get_name(ev.power.base.name),
                                &ev.power.span,
                            ),
                        );
                    },
                }
                match &ev.enable {
                    Option::Some(en) => {
                        match self.table.resolve_base(ctx, en.base.name) {
                            Option::Some(_) => {},
                            Option::None => {
                                out.push(
                                    Diagnostic::undefined_identifier(
                                        strs.get_name(en.base.name),
                                        &en.span,
                                    ),
                                );
                            },
                        }
                    },
                    Option::None => {},
                }
            },
            Option::None => {},
        }
    }

    /// Re-runs the enum encoding for its diagnostics: every finding of
    /// the encoding check is reported.
    #[verifier::loop_isolation(false)]
    #[verifier::rlimit(100)]
    fn enum_diags(
        &self,
        ed: &EnumDeclAst,
        ctx: &Vec<StrId>,
        out: &mut Vec<Diagnostic>,
        strs: &StrTable,
    )
        requires
            all_wf(old(out)@),
            codes_in(old(out)@, false),
        ensures
            all_wf(final(out)@),
            codes_in(final(out)@, false),
            extends(final(out)@, old(out)@),
            enum_reported(final(out)@, *strs, *ed, self.table.symbols@, ctx@),
    {
        let width = enum_width(ed);
        let inputs = enum_inputs(ed, &self.table, ctx);
        let (_codes, issues) = encode_enum(&inputs, width, ed.encoding);
        proof {
            assert(issues@ == enum_issues_of(*ed, self.table.symbols@, ctx@));
        }
        let er = TokenRange { beg: ed.ident.token, end: ed.ident.token };
        let count = ed.variants.len() as u64;
        let n = issues.len();
        for i in 0..n
            invariant
                n == issues@.len(),
                issues@ == enum_issues_of(*ed, self.table.symbols@, ctx@),
                all_wf(out@),
                codes_in(out@, false),
                extends(out@, old(out)@),
                forall|j: int|
                    0 <= j < i ==> enum_issue_reported(
                        out@,
                        *strs,
                        *ed,
                        #[trigger] issues@[j],
                    ),
        {
            let ghost o_pre = out@;
            match issues[i] {
                crate::evaluator::EnumIssue::TooMany => {
                    out.push(
                        Diagnostic::too_much_enum_variant(
                            strs.get_name(ed.ident.name),
                            count,
                            width,
                            &er,
                        ),
                    );
                },
                crate::evaluator::EnumIssue::TooLarge { index, value } => {
                    let tok = if index < ed.variants.len() {
                        ed.variants[index].ident.token
                    } else {
                        ed.ident.token
                    };
                    let nm = if index < ed.variants.len() {
                        ed.variants[index].ident.name
                    } else {
                        ed.ident.name
                    };
                    let r = TokenRange { beg: tok, end: tok };
                    out.push(
                        Diagnostic::too_large_enum_variant(strs.get_name(nm), value, width, &r),
                    );
                },
                crate::evaluator::EnumIssue::UnevaluatableVariant { index } => {
                    let tok = if index < ed.variants.len() {
                        ed.variants[index].ident.token
                    } else {
                        ed.ident.token
                    };
                    let nm = if index < ed.variants.len() {
                        ed.variants[index].ident.name
                    } else {
                        ed.ident.name
                    };
                    let r = TokenRange { beg: tok, end: tok };
                    out.push(Diagnostic::unevaluatable_enum_variant(strs.get_name(nm), &r));
                },
                crate::evaluator::EnumIssue::InvalidVariant { index } => {
                    let tok = if index < ed.variants.len() {
                        ed.variants[index].ident.token
                    } else {
                        ed.ident.token
                    };
                    let nm = if index < ed.variants.len() {
                        ed.variants[index].ident.name
                    } else {
                        ed.ident.name
                    };
                    let r = TokenRange { beg: tok, end: tok };
                    let enc = match ed.encoding {
                        EnumEncoding::OneHot => "onehot",
                        EnumEncoding::Gray => "gray",
                        EnumEncoding::Sequential => "sequential",
                    };
                    out.push(Diagnostic::invalid_enum_variant_value(strs.get_name(nm), enc, &r));
                },
            }
            proof {
                assert(enum_issue_reported(out@, *strs, *ed, issues@[i as int])) by {
                    if out@.len() > o_pre.len() {
                        assert(extends(out@, o_pre));
                        let w = out@.len() - 1;
                        assert(out@[w] == out@.last());
                    }
                };
                assert forall|j: int| 0 <= j < i + 1 implies enum_issue_reported(
                    out@,
                    *strs,
                    *ed,
                    #[trigger] issues@[j],
                ) by {
                    if j < i {
                        lemma_enum_issue_reported_grows(o_pre, out@, *strs, *ed, issues@[j]);
                    }
                }
            }
        }
        proof {
            assert forall|k: int|
                0 <= k < enum_issues_of(*ed, self.table.symbols@, ctx@).len()
                implies enum_issue_reported(
                final(out)@,
                *strs,
                *ed,
                #[trigger] enum_issues_of(*ed, self.table.symbols@, ctx@)[k],
            ) by {
                assert(enum_issues_of(*ed, self.table.symbols@, ctx@)[k] == issues@[k]);
            }
        }
    }

    /// Validates an instance's connections against the referenced
    /// entity's port signature: an unknown connection and an
    /// unconnected port each yield one diagnostic.
    #[verifier::loop_isolation(false)]
    #[verifier::rlimit(100)]
    fn check_inst_signature(
        &self,
        inst: &crate::ast::InstDecl,
        ctx: &Vec<StrId>,
        out: &mut Vec<Diagnostic>,
        strs: &StrTable,
    )
        requires
            all_wf(old(out)@),
            codes_in(old(out)@, false),
        ensures
            all_wf(final(out)@),
            codes_in(final(out)@, false),
            extends(final(out)@, old(out)@),
            inst.foreign || crate::symbol_table::resolve_base_spec(
                self.table.symbols@,
                ctx@,
                inst.target.base.name,
            ) is Some || undef_reported(
                final(out)@,
                *strs,
                inst.target.base.name,
                inst.target.span,
            ),
    {
        let np = inst.ports.len();
        for i in 0..np
            invariant
                all_wf(out@),
                codes_in(out@, false),
                extends(out@, old(out)@),
        {
            match &inst.ports[i].expr {
                Option::Some(e) => {
                    resolve_expr(out, e, &self.table, ctx, strs);
                },
                Option::None => {},
            }
        }
        if inst.foreign {
            return ;
        }
        let target_sym = match self.table.resolve_base(ctx, inst.target.base.name) {
            Option::Some(i) => i,
            Option::None => {
                out.push(
                    Diagnostic::undefined_identifier(
                        strs.get_name(inst.target.base.name),
                        &inst.target.span,
                    ),
                );
                proof {
                    assert(out@[out@.len() - 1].code == DiagCode::UndefinedIdentifier);
                    assert(undef_reported(
                        out@,
                        *strs,
                        inst.target.base.name,
                        inst.target.span,
                    ));
                }
                return ;
            },
        };
        match &self.table.symbols[target_sym].kind {
            SymbolKind::Entity(ep) => {
                for i in 0..np
                    invariant
                        all_wf(out@),
                        codes_in(out@, false),
                        extends(out@, old(out)@),
                {
                    let mut known = false;
                    let m = ep.ports.len();
                    for j in 0..m
                        invariant
                            all_wf(out@),
                            codes_in(out@, false),
                    {
                        if ep.ports[j].name == inst.ports[i].port.name {
                            known = true;
                        }
                    }
                    if !known {
                        let r = TokenRange {
                            beg: inst.ports[i].port.token,
                            end: inst.ports[i].port.token,
                        };
                        out.push(
                            Diagnostic::unknown_port(
                                strs.get_name(inst.target.base.name),
                                strs.get_name(inst.ports[i].port.name),
                                &r,
                            ),
                        );
                    }
                }
                let m = ep.ports.len();
                for j in 0..m
                    invariant
                        all_wf(out@),
                        codes_in(out@, false),
                        extends(out@, old(out)@),
                {
                    let mut connected = false;
                    for i in 0..np
                        invariant
                            all_wf(out@),
                            codes_in(out@, false),
                    {
                        if ep.ports[j].name == inst.ports[i].port.name {
                            connected = true;
                        }
                    }
                    if !connected {
                        let r = TokenRange { beg: inst.ident.token, end: inst.ident.token };
                        out.push(
                            Diagnostic::missing_port(
                                strs.get_name(inst.target.base.name),
                                strs.get_name(ep.ports[j].name),
                                &r,
                            ),
                        );
                    }
                }
            },
            _ => {},
        }
    }

    /// Detects cyclic struct-member and instance dependencies inside a
    /// unit, one diagnostic per edge on a cycle, naming both endpoints.
    #[verifier::loop_isolation(false)]
    #[verifier::rlimit(100)]
    fn check_cycles(&self, unit: &CompUnit, out: &mut Vec<Diagnostic>, strs: &StrTable)
        requires
            all_wf(old(out)@),
            codes_in(old(out)@, false),
        ensures
            all_wf(final(out)@),
            codes_in(final(out)@, false),
            extends(final(out)@, old(out)@),
    {
        let mut nodes: Vec<(StrId, Token)> = Vec::new();
        let mut edges: Vec<(usize, usize)> = Vec::new();
        let n = unit.decls.len();
        for d in 0..n {
            match &unit.decls[d] {
                Declaration::Entity(e) => {
                    let m = e.items.len();
                    for k in 0..m {
                        match &e.items[k] {
                            EntityItem::StructDecl { ident, .. } => {
                                nodes.push((ident.name, ident.token));
                            },
                            _ => {},
                        }
                    }
                },
                _ => {},
            }
        }
        for d in 0..n
            invariant
                nodes@.len() == nodes@.len(),
        {
            match &unit.decls[d] {
                Declaration::Entity(e) => {
                    let m = e.items.len();
                    for k in 0..m {
                        match &e.items[k] {
                            EntityItem::StructDecl { ident, members, .. } => {
                                let from = find_node(&nodes, ident.name);
                                let mm = members.len();
                                for j in 0..mm {
                                    if let TypeKind::UserDefined(nm) = members[j].1.kind {
                                        let to = find_node(&nodes, nm);
                                        match (from, to) {
                                            (Option::Some(a), Option::Some(b)) => {
                                                edges.push((a, b));
                                            },
                                            _ => {},
                                        }
                                    }
                                }
                            },
                            _ => {},
                        }
                    }
                },
                _ => {},
            }
        }
        let cyc = crate::graph::find_cycle_edges(&edges);
        let nc = cyc.len();
        for i in 0..nc
            invariant
                all_wf(out@),
                codes_in(out@, false),
                extends(out@, old(out)@),
        {
            let ei = cyc[i];
            if ei < edges.len() {
                let (a, b) = edges[ei];
                if a < nodes.len() && b < nodes.len() {
                    let r = TokenRange { beg: nodes[a].1, end: nodes[a].1 };
                    out.push(
                        Diagnostic::cyclic_type_dependency(
                            strs.get_name(nodes[a].0),
                            strs.get_name(nodes[b].0),
                            &r,
                        ),
                    );
                }
            }
        }
        // the instance-reference graph across the unit's entities
        let mut enodes: Vec<(StrId, Token)> = Vec::new();
        let mut eedges: Vec<(usize, usize)> = Vec::new();
        for d in 0..n {
            match &unit.decls[d] {
                Declaration::Entity(e) => {
                    enodes.push((e.ident.name, e.ident.token));
                },
                _ => {},
            }
        }
        for d in 0..n {
            match &unit.decls[d] {
                Declaration::Entity(e) => {
                    let from = find_node(&enodes, e.ident.name);
                    let m = e.items.len();
                    for k in 0..m {
                        match &e.items[k] {
                            EntityItem::Inst(inst) => {
                                let to = find_node(&enodes, inst.target.base.name);
                                match (from, to) {
                                    (Option::Some(a), Option::Some(b)) => {
                                        eedges.push((a, b));
                                    },
                                    _ => {},
                                }
                            },
                            _ => {},
                        }
                    }
                },
                _ => {},
            }
        }
        let ecyc = crate::graph::find_cycle_edges(&eedges);
        let nec = ecyc.len();
        for i in 0..nec
            invariant
                all_wf(out@),
                codes_in(out@, false),
                extends(out@, old(out)@),
        {
            let ei = ecyc[i];
            if ei < eedges.len() {
                let (a, b) = eedges[ei];
                if a < enodes.len() && b < enodes.len() {
                    let r = TokenRange { beg: enodes[a].1, end: enodes[a].1 };
                    out.push(
                        Diagnostic::cyclic_type_dependency(
                            strs.get_name(enodes[a].0),
                            strs.get_name(enodes[b].0),
                            &r,
                        ),
                    );
                }
            }
        }
    }
}

/// The index of a named node.
#[verifier::loop_isolation(false)]
fn find_node(nodes: &Vec<(StrId, Token)>, name: StrId) -> (r: Option<usize>)
    ensures
        r matches Option::Some(i) ==> i < nodes@.len(),
{
    let n = nodes.len();
    for i in 0..n {
        if nodes[i].0 == name {
            return Some(i);
        }
    }
    None
}

/// The context namespace of an entity body.
pub open spec fn entity_ctx(e: EntityDecl) -> Seq<StrId> {
    seq![e.ident.name]
}

/// Whether a run of diagnostics is exactly what the six flow handlers
/// report for one entity, in handler order: domain propagation, then
/// clock/reset structure, then ports, then statement contexts, then
/// prototype conformance, then dataflow.
pub open spec fn entity_pass3_matches(
    ds: Seq<Diagnostic>,
    e: EntityDecl,
    syms: Seq<Symbol>,
    entries: Seq<(Unsafe, TokenRange)>,
    strs: StrTable,
) -> bool {
    let f1 = crate::handlers::check_power_domain::entity_dfindings(e, syms, entity_ctx(e), entries);
    let f2 = crate::handlers::check_power_enable::entity_efindings(e, syms, entity_ctx(e));
    let f3 = crate::handlers::check_port::entity_port_findings(e);
    let f4 = crate::handlers::check_statement::entity_sfindings(e);
    let f5 = crate::handlers::check_proto::proto_findings(e, syms, entity_ctx(e));
    let wrong = crate::handlers::check_proto::proto_wrong_kind(e, syms, entity_ctx(e));
    let f6 = crate::handlers::check_coverage::entity_cfindings(e, e.items@.len() as int);
    let l5: int = f5.len() + (if wrong is Some {
        1int
    } else {
        0int
    });
    let o1 = f1.len() as int;
    let o2 = o1 + f2.len();
    let o3 = o2 + f3.len();
    let o4 = o3 + f4.len();
    let o5 = o4 + l5;
    let o6 = o5 + f6.len();
    &&& ds.len() == o6
    &&& crate::handlers::check_power_domain::dmatches(ds.subrange(0, o1), f1, strs)
    &&& crate::handlers::check_power_enable::ematches(ds.subrange(o1, o2), f2, strs)
    &&& crate::handlers::check_port::diags_match(ds.subrange(o2, o3), f3, strs)
    &&& crate::handlers::check_statement::smatches(ds.subrange(o3, o4), f4, strs)
    &&& (forall|i: int|
        #![trigger f5[i]]
        0 <= i < f5.len() ==> crate::handlers::check_proto::incompat_diag_ok(
            ds[o4 + i],
            e.ident.name,
            f5[i],
            e.ident.token,
            strs,
        ))
    &&& (wrong matches Option::Some(w) ==> ds[o5 - 1].code == DiagCode::MismatchType)
    &&& crate::handlers::check_coverage::cmatches(ds.subrange(o5, o6), f6, strs)
}

/// The number of diagnostics pass 3 yields for the first `n`
/// declarations of a unit.
pub open spec fn unit_pass3_len(
    decls: Seq<Declaration>,
    syms: Seq<Symbol>,
    entries: Seq<(Unsafe, TokenRange)>,
    n: int,
) -> int
    decreases n,
{
    if n <= 0 || n > decls.len() {
        0
    } else {
        unit_pass3_len(decls, syms, entries, n - 1) + (match decls[n - 1] {
            Declaration::Entity(e) => {
                let f5 = crate::handlers::check_proto::proto_findings(e, syms, entity_ctx(e));
                let wrong = crate::handlers::check_proto::proto_wrong_kind(
                    e,
                    syms,
                    entity_ctx(e),
                );
                crate::handlers::check_power_domain::entity_dfindings(
                    e,
                    syms,
                    entity_ctx(e),
                    entries,
                ).len() + crate::handlers::check_power_enable::entity_efindings(
                    e,
                    syms,
                    entity_ctx(e),
                ).len() + crate::handlers::check_port::entity_port_findings(e).len()
                    + crate::handlers::check_statement::entity_sfindings(e).len() + f5.len() + (
                if wrong is Some {
                    1int
                } else {
                    0int
                }) + crate::handlers::check_coverage::entity_cfindings(
                    e,
                    e.items@.len() as int,
                ).len()
            },
            _ => 0,
        })
    }
}

/// Pass 3 never shrinks across declarations: the diagnostic count of
/// a prefix never exceeds that of a longer prefix.
proof fn lemma_pass3_len_mono(
    decls: Seq<Declaration>,
    syms: Seq<Symbol>,
    entries: Seq<(Unsafe, TokenRange)>,
    a: int,
    b: int,
)
    requires
        0 <= a <= b <= decls.len(),
    ensures
        unit_pass3_len(decls, syms, entries, a) <= unit_pass3_len(decls, syms, entries, b),
        unit_pass3_len(decls, syms, entries, a) >= 0,
    decreases b,
{
    if a < b {
        lemma_pass3_len_mono(decls, syms, entries, a, b - 1);
    } else if a == b && a > 0 {
        lemma_pass3_len_mono(decls, syms, entries, a - 1, a - 1);
    }
}

impl Analyzer {
    /// Runs the six flow handlers over one entity, in handler order.
    pub fn check_entity_pass3(&self, e: &EntityDecl, strs: &StrTable) -> (out: Vec<Diagnostic>)
        ensures
            entity_pass3_matches(
                out@,
                *e,
                self.table.symbols@,
                self.suppressions.entries@,
                *strs,
            ),
    {
        let mut ctx: Vec<StrId> = Vec::new();
        ctx.push(e.ident.name);
        proof {
            assert(ctx@ =~= entity_ctx(*e));
        }
        let mut out: Vec<Diagnostic> = Vec::new();
        let mut h1 = crate::handlers::check_power_domain::CheckPowerDomain::new();
        h1.entity_declaration(e, &self.table, &ctx, &self.suppressions, strs);
        let mut h2 = crate::handlers::check_power_enable::CheckPowerEnable::new();
        h2.entity_declaration(e, &self.table, &ctx, strs);
        let mut h3 = crate::handlers::check_port::CheckPort::new();
        h3.entity_declaration(e, strs);
        let mut h4 = crate::handlers::check_statement::CheckStatement::new();
        h4.entity_declaration(e, strs);
        let mut h5 = crate::handlers::check_proto::CheckProto::new();
        h5.entity_declaration(e, &self.table, &ctx, strs);
        let mut h6 = crate::handlers::check_coverage::CheckCoverage::new();
        h6.entity_declaration(e, strs);
        let ghost g1 = h1.errors@;
        let ghost g2 = h2.errors@;
        let ghost g3 = h3.errors@;
        let ghost g4 = h4.errors@;
        let ghost g5 = h5.errors@;
        let ghost g6 = h6.errors@;
        out.append(&mut h1.errors);
        out.append(&mut h2.errors);
        out.append(&mut h3.errors);
        out.append(&mut h4.errors);
        out.append(&mut h5.errors);
        out.append(&mut h6.errors);
        proof {
            let syms = self.table.symbols@;
            let entries = self.suppressions.entries@;
            let f1 = crate::handlers::check_power_domain::entity_dfindings(
                *e,
                syms,
                entity_ctx(*e),
                entries,
            );
            let f2 = crate::handlers::check_power_enable::entity_efindings(
                *e,
                syms,
                entity_ctx(*e),
            );
            let f3 = crate::handlers::check_port::entity_port_findings(*e);
            let f4 = crate::handlers::check_statement::entity_sfindings(*e);
            let f5 = crate::handlers::check_proto::proto_findings(*e, syms, entity_ctx(*e));
            let wrong = crate::handlers::check_proto::proto_wrong_kind(*e, syms, entity_ctx(*e));
            let f6 = crate::handlers::check_coverage::entity_cfindings(*e, e.items@.len() as int);
            assert(out@ =~= g1 + g2 + g3 + g4 + g5 + g6);
            let o1 = f1.len() as int;
            let o2 = o1 + f2.len();
            let o3 = o2 + f3.len();
            let o4 = o3 + f4.len();
            let o5 = o4 + f5.len() + (if wrong is Some {
                1int
            } else {
                0int
            });
            let o6 = o5 + f6.len();
            assert(g1 =~= g1.skip(0));
            assert(out@.subrange(0, o1) =~= g1);
            assert(out@.subrange(o1, o2) =~= g2.skip(0));
            assert(out@.subrange(o2, o3) =~= g3.skip(0));
            assert(out@.subrange(o3, o4) =~= g4.skip(0));
            assert(forall|i: int| 0 <= i < g5.len() ==> out@[o4 + i] == g5[i]);
            assert(out@.subrange(o5, o6) =~= g6.skip(0));
        }
        out
    }

    /// Pass 3: runs the independent structural and flow handlers over
    /// every entity of the unit, in declaration order, and returns all
    /// their diagnostics together.
    #[verifier::loop_isolation(false)]
    #[verifier::rlimit(100)]
    pub fn analyze_pass3(&self, unit: &CompUnit, strs: &StrTable) -> (out: Vec<Diagnostic>)
        requires
            self.barrier_done,
        ensures
            out@.len() == unit_pass3_len(
                unit.decls@,
                self.table.symbols@,
                self.suppressions.entries@,
                unit.decls@.len() as int,
            ),
            forall|k: int|
                0 <= k < unit.decls@.len() && unit.decls@[k] is Entity ==> entity_pass3_matches(
                    out@.subrange(
                        unit_pass3_len(
                            unit.decls@,
                            self.table.symbols@,
                            self.suppressions.entries@,
                            k,
                        ),
                        unit_pass3_len(
                            unit.decls@,
                            self.table.symbols@,
                            self.suppressions.entries@,
                            k + 1,
                        ),
                    ),
                    unit.decls@[k]->Entity_0,
                    self.table.symbols@,
                    self.suppressions.entries@,
                    *strs,
                ),
    {
        let ghost syms = self.table.symbols@;
        let ghost entries = self.suppressions.entries@;
        let mut out: Vec<Diagnostic> = Vec::new();
        let n = unit.decls.len();
        for k in 0..n
            invariant
                out@.len() == unit_pass3_len(unit.decls@, syms, entries, k as int),
                forall|j: int|
                    0 <= j < k && unit.decls@[j] is Entity ==> entity_pass3_matches(
                        out@.subrange(
                            unit_pass3_len(unit.decls@, syms, entries, j),
                            unit_pass3_len(unit.decls@, syms, entries, j + 1),
                        ),
                        unit.decls@[j]->Entity_0,
                        syms,
                        entries,
                        *strs,
                    ),
        {
            let ghost before = out@;
            match &unit.decls[k] {
                Declaration::Entity(e) => {
                    let mut seg = self.check_entity_pass3(e, strs);
                    proof {
                        assert(unit.decls@[k as int]->Entity_0 == *e);
                        assert(entity_pass3_matches(seg@, *e, syms, entries, *strs));
                    }
                    out.append(&mut seg);
                },
                _ => {},
            }
            proof {
                assert(out@.len() == unit_pass3_len(unit.decls@, syms, entries, k + 1 as int));
                assert forall|j: int|
                    0 <= j < k + 1 && unit.decls@[j] is Entity implies entity_pass3_matches(
                    out@.subrange(
                        unit_pass3_len(unit.decls@, syms, entries, j),
                        unit_pass3_len(unit.decls@, syms, entries, j + 1),
                    ),
                    unit.decls@[j]->Entity_0,
                    syms,
                    entries,
                    *strs,
                ) by {
                    lemma_pass3_len_mono(unit.decls@, syms, entries, 0, j);
                    lemma_pass3_len_mono(unit.decls@, syms, entries, j, j + 1);
                    lemma_pass3_len_mono(unit.decls@, syms, entries, j + 1, k + 1 as int);
                    if j < k {
                        lemma_pass3_len_mono(unit.decls@, syms, entries, j + 1, k as int);
                        assert(out@.subrange(
                            unit_pass3_len(unit.decls@, syms, entries, j),
                            unit_pass3_len(unit.decls@, syms, entries, j + 1),
                        ) =~= before.subrange(
                            unit_pass3_len(unit.decls@, syms, entries, j),
                            unit_pass3_len(unit.decls@, syms, entries, j + 1),
                        ));
                    } else {
                        assert(out@.subrange(
                            unit_pass3_len(unit.decls@, syms, entries, j),
                            unit_pass3_len(unit.decls@, syms, entries, j + 1),
                        ) =~= out@.skip(before.len() as int));
                    }
                }
            }
        }
        out
    }
}

} // verus!

use vstd::prelude::*;
use vstd::string::StringExecFns;
use crate::ast::EntityDecl;
use crate::diag::{DiagCode, Diagnostic};
use crate::symbol::{kind_label, proto_compat_spec, ProtoIncompatible, SymbolKind};
use crate::symbol_table::{resolve_base_spec, resolve_ref_spec, SymbolTable};
use crate::token::{name_view, StrId, StrTable, TokenRange};

verus! {

/// The cause text of one conformance failure, as the diagnostic
/// spells it.
pub open spec fn cause_label(c: ProtoIncompatible, strs: StrTable) -> Seq<char> {
    match c {
        ProtoIncompatible::MissingParam(x) => "parameter "@ + name_view(strs, x) + " is missing"@,
        ProtoIncompatible::MissingPort(x) => "port "@ + name_view(strs, x) + " is missing"@,
        ProtoIncompatible::UnnecessaryParam(x) => "parameter "@ + name_view(strs, x)
            + " is unnecessary"@,
        ProtoIncompatible::UnnecessaryPort(x) => "port "@ + name_view(strs, x)
            + " is unnecessary"@,
        ProtoIncompatible::IncompatibleParam(x) => "parameter "@ + name_view(strs, x)
            + " has incompatible type"@,
        ProtoIncompatible::IncompatiblePort(x) => "port "@ + name_view(strs, x)
            + " has incompatible type"@,
    }
}

/// Builds the cause text of one conformance failure.
fn cause_string(c: &ProtoIncompatible, strs: &StrTable) -> (s: String)
    ensures
        s@ == cause_label(*c, *strs),
{
    let mut s: String;
    match c {
        ProtoIncompatible::MissingParam(x) => {
            s = String::from_str("parameter ");
            s.append(strs.get_name(*x));
            s.append(" is missing");
        },
        ProtoIncompatible::MissingPort(x) => {
            s = String::from_str("port ");
            s.append(strs.get_name(*x));
            s.append(" is missing");
        },
        ProtoIncompatible::UnnecessaryParam(x) => {
            s = String::from_str("parameter ");
            s.append(strs.get_name(*x));
            s.append(" is unnecessary");
        },
        ProtoIncompatible::UnnecessaryPort(x) => {
            s = String::from_str("port ");
            s.append(strs.get_name(*x));
            s.append(" is unnecessary");
        },
        ProtoIncompatible::IncompatibleParam(x) => {
            s = String::from_str("parameter ");
            s.append(strs.get_name(*x));
            s.append(" has incompatible type");
        },
        ProtoIncompatible::IncompatiblePort(x) => {
            s = String::from_str("port ");
            s.append(strs.get_name(*x));
            s.append(" has incompatible type");
        },
    }
    s
}

/// The conformance findings of one entity declaration: one failure per
/// mismatch where the bound names a prototype, and a kind mismatch
/// where it names anything else.
pub open spec fn proto_findings(
    decl: EntityDecl,
    syms: Seq<crate::symbol::Symbol>,
    ctx: Seq<StrId>,
) -> Seq<ProtoIncompatible> {
    if decl.proto is Some {
        let parts = crate::handlers::check_power_domain::scoped_parts(decl.proto->Some_0);
        match resolve_ref_spec(syms, ctx, parts.0, parts.1) {
            Option::Some(i) => match syms[i].kind {
                SymbolKind::ProtoEntity(proto) => {
                    match resolve_base_spec(syms, ctx, decl.ident.name) {
                        Option::Some(j) => match syms[j].kind {
                            SymbolKind::Entity(ep) => proto_compat_spec(proto, ep),
                            _ => Seq::empty(),
                        },
                        Option::None => Seq::empty(),
                    }
                },
                _ => Seq::empty(),
            },
            Option::None => Seq::empty(),
        }
    } else {
        Seq::empty()
    }
}

/// Whether the proto bound of an entity names something that is not a
/// prototype, and which symbol it named.
pub open spec fn proto_wrong_kind(
    decl: EntityDecl,
    syms: Seq<crate::symbol::Symbol>,
    ctx: Seq<StrId>,
) -> Option<int> {
    if decl.proto is Some {
        let parts = crate::handlers::check_power_domain::scoped_parts(decl.proto->Some_0);
        match resolve_ref_spec(syms, ctx, parts.0, parts.1) {
            Option::Some(i) => if !(syms[i].kind is ProtoEntity) {
                Option::Some(i)
            } else {
                Option::None
            },
            Option::None => Option::None,
        }
    } else {
        Option::None
    }
}

/// Whether a diagnostic is the conformance-failure diagnostic a
/// finding calls for.
pub open spec fn incompat_diag_ok(
    d: Diagnostic,
    entity_name: StrId,
    cause: ProtoIncompatible,
    tok: crate::token::Token,
    strs: StrTable,
) -> bool {
    &&& d.code == DiagCode::IncompatProto
    &&& d.fields@.len() == 3
    &&& d.fields@[0]@ == name_view(strs, entity_name)
    &&& d.fields@[2]@ == cause_label(cause, strs)
    &&& d.primary == (TokenRange { beg: tok, end: tok })
}

/// The prototype conformance handler.
pub struct CheckProto {
    pub errors: Vec<Diagnostic>,
}

impl CheckProto {
    pub fn new() -> (h: CheckProto)
        ensures
            h.errors@.len() == 0,
    {
        CheckProto { errors: Vec::new() }
    }

    /// Checks one entity declaration against its prototype bound, if
    /// any: one diagnostic per conformance failure, or one
    /// kind-mismatch diagnostic where the bound is no prototype.
    #[verifier::loop_isolation(false)]
    pub fn entity_declaration(
        &mut self,
        decl: &EntityDecl,
        tab: &SymbolTable,
        ctx: &Vec<StrId>,
        strs: &StrTable,
    )
        ensures
            ({
                let fs = proto_findings(*decl, tab.symbols@, ctx@);
                let wrong = proto_wrong_kind(*decl, tab.symbols@, ctx@);
                &&& final(self).errors@.len() == old(self).errors@.len() + fs.len() + (
                if wrong is Some {
                    1int
                } else {
                    0int
                })
                &&& (forall|i: int|
                    0 <= i < old(self).errors@.len() ==> final(self).errors@[i] == old(
                        self,
                    ).errors@[i])
                &&& (forall|i: int|
                    #![trigger fs[i]]
                    0 <= i < fs.len() ==> incompat_diag_ok(
                        final(self).errors@[old(self).errors@.len() + i],
                        decl.ident.name,
                        fs[i],
                        decl.ident.token,
                        *strs,
                    ))
                &&& (wrong matches Option::Some(w) ==> {
                    let d = final(self).errors@.last();
                    &&& d.code == DiagCode::MismatchType
                    &&& d.fields@.len() == 3
                    &&& d.fields@[0]@ == name_view(*strs, tab.symbols@[w].token.text)
                    &&& d.fields@[1]@ == "entity prototype"@
                    &&& d.fields@[2]@ == kind_label(tab.symbols@[w].kind)
                })
            }),
    {
        let ghost syms = tab.symbols@;
        let target = match &decl.proto {
            Option::Some(t) => t,
            Option::None => {
                return ;
            },
        };
        let mut scope: Vec<crate::ast::Ident> = Vec::new();
        let name: StrId;
        if target.path.len() == 0 {
            name = target.base.name;
        } else {
            scope.push(target.base);
            let m = target.path.len();
            for k in 0..m - 1
                invariant
                    m == target.path@.len(),
                    m >= 1,
                    scope@.len() == k + 1,
                    scope@[0] == target.base,
                    forall|j: int| 1 <= j < scope@.len() ==> scope@[j] == target.path@[j - 1],
            {
                scope.push(target.path[k]);
            }
            name = target.path[target.path.len() - 1].name;
        }
        proof {
            let parts = crate::handlers::check_power_domain::scoped_parts(*target);
            assert(scope@.map_values(|id: crate::ast::Ident| id.name) =~= parts.0);
            assert(name == parts.1);
        }
        let proto_sym = match tab.resolve_ref(ctx, &scope, name) {
            Option::Some(i) => i,
            Option::None => {
                return ;
            },
        };
        let proto_name = tab.symbols[proto_sym].token.text;
        match &tab.symbols[proto_sym].kind {
            SymbolKind::ProtoEntity(proto) => {
                let entity_sym = match tab.resolve_base(ctx, decl.ident.name) {
                    Option::Some(j) => j,
                    Option::None => {
                        return ;
                    },
                };
                match &tab.symbols[entity_sym].kind {
                    SymbolKind::Entity(ep) => {
                        let causes = proto.check_compat(ep);
                        let ghost fs = proto_findings(*decl, syms, ctx@);
                        let ghost base = self.errors@;
                        let n = causes.len();
                        let r = TokenRange { beg: decl.ident.token, end: decl.ident.token };
                        for i in 0..n
                            invariant
                                n == fs.len(),
                                causes@ == fs,
                                self.errors@.len() == base.len() + i,
                                forall|j: int| 0 <= j < base.len() ==> self.errors@[j] == base[j],
                                forall|j: int|
                                    #![trigger fs[j]]
                                    0 <= j < i ==> incompat_diag_ok(
                                        self.errors@[base.len() + j],
                                        decl.ident.name,
                                        fs[j],
                                        decl.ident.token,
                                        *strs,
                                    ),
                        {
                            let cause = cause_string(&causes[i], strs);
                            self.errors.push(
                                Diagnostic::incompat_proto(
                                    strs.get_name(decl.ident.name),
                                    strs.get_name(proto_name),
                                    cause.as_str(),
                                    &r,
                                ),
                            );
                            proof {
                                assert(fs[i as int] == causes@[i as int]);
                                assert(incompat_diag_ok(
                                    self.errors@[base.len() + i as int],
                                    decl.ident.name,
                                    fs[i as int],
                                    decl.ident.token,
                                    *strs,
                                ));
                            }
                        }
                    },
                    _ => {},
                }
            },
            _ => {
                let r = TokenRange { beg: decl.ident.token, end: decl.ident.token };
                self.errors.push(
                    Diagnostic::mismatch_type(
                        strs.get_name(proto_name),
                        "entity prototype",
                        tab.symbols[proto_sym].kind.to_kind_name(),
                        &r,
                    ),
                );
            },
        }
    }
}

} // verus!

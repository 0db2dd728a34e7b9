use veryla_analyzer::ast::{Expr, ExprRef, HierIdent, Ident, ScopedIdent};
use veryla_analyzer::diag::{DiagCode, Diagnostic, Severity};
use veryla_analyzer::evaluator::{
    clog2_u64, count_fits_width, encode_enum, gray_step, onehot, value_fits, EnumIssue,
    EnumVariantInput, Evaluated, Evaluator,
};
use veryla_analyzer::finder::Finder;
use veryla_analyzer::graph::{find_cycle_edges, reaches_exec};
use veryla_analyzer::last_token::LastToken;
use veryla_analyzer::lint::{check_case, check_identifier, check_prefix, check_suffix, Case, NamingRule};
use veryla_analyzer::suppression::{Unsafe, UnsafeError, UnsafeTable};
use veryla_analyzer::doc::{fmt_generic_parameters, sort_items_by_name, CmdDoc, DocSection};
use veryla_analyzer::symbol::{
    Direction, EnumEncoding, EntityProperty, GenericParameter, ParamDecl, PortProperty,
    PowerDomain, ProtoEntityProperty, ProtoIncompatible, Symbol, SymbolKind, Type, TypeKind,
    VariableProperty,
};
use veryla_analyzer::symbol_table::SymbolTable;
use veryla_analyzer::token::{StrTable, Token, TokenRange};

fn tk(strs: &mut StrTable, name: &str, line: u32, column: u32) -> Token {
    Token { text: strs.insert_str(name), line, column, length: name.len() as u32 }
}

fn plain_ty(kind: TypeKind) -> Type {
    Type { kind, width: vec![], array: vec![], tri: false }
}

// Power-domain compatibility is reflexive and symmetric, and an
// unspecified domain is compatible with everything.
#[test]
fn domain_compatibility_laws() {
    let a = PowerDomain::Named(1);
    let b = PowerDomain::Named(2);
    let u = PowerDomain::Unspecified;
    for d in [a, b, u] {
        assert!(d.compatible(&d));
    }
    for x in [a, b, u] {
        for y in [a, b, u] {
            assert_eq!(x.compatible(&y), y.compatible(&x));
        }
    }
    assert!(!a.compatible(&b));
    assert!(u.compatible(&a));
    assert!(a.compatible(&u));
}

// The suppression table answers by position: inside the recorded span
// the check is waived, outside it is not.
#[test]
fn suppression_by_position() {
    let mut strs = StrTable::new();
    let beg = tk(&mut strs, "a", 2, 1);
    let end = tk(&mut strs, "b", 5, 1);
    let mut t = UnsafeTable::new();
    t.insert(Unsafe::Pdc, TokenRange { beg, end });
    let inside = tk(&mut strs, "c", 3, 7);
    let outside = tk(&mut strs, "d", 9, 1);
    assert!(t.contains(&inside, Unsafe::Pdc));
    assert!(!t.contains(&outside, Unsafe::Pdc));
    assert_eq!(Unsafe::from_name("pdc"), Ok(Unsafe::Pdc));
    assert_eq!(Unsafe::from_name("x"), Err(UnsafeError::UnknownUnsafe));
}

// An enum whose count is a power of two fits exactly in clog2(count)
// bits; one more variant at the same width overflows. (For a count
// that is not a power of two, the next count still fits.)
#[test]
fn enum_width_boundaries() {
    assert_eq!(clog2_u64(1), 0);
    assert_eq!(clog2_u64(2), 1);
    assert_eq!(clog2_u64(3), 2);
    assert_eq!(clog2_u64(4), 2);
    assert_eq!(clog2_u64(5), 3);
    assert_eq!(clog2_u64(u64::MAX), 64);

    let mut strs = StrTable::new();
    let t = tk(&mut strs, "v", 1, 1);
    let mk = |n: usize| -> Vec<EnumVariantInput> {
        (0..n).map(|_| EnumVariantInput { name: 0, token: t, value: None }).collect()
    };
    // four variants at clog2(4) == 2 bits: no too-many finding
    let (codes, issues) = encode_enum(&mk(4), clog2_u64(4), EnumEncoding::Sequential);
    assert_eq!(codes, vec![0, 1, 2, 3]);
    assert!(issues.iter().all(|i| !matches!(i, EnumIssue::TooMany)));
    // five variants at the same width: the too-many finding leads
    let (_codes, issues) = encode_enum(&mk(5), clog2_u64(4), EnumEncoding::Sequential);
    assert!(matches!(issues[0], EnumIssue::TooMany));
    // three variants at clog2(3) == 2 bits, and four still fit
    let (_codes, issues) = encode_enum(&mk(3), clog2_u64(3), EnumEncoding::Sequential);
    assert!(issues.is_empty());
    let (_codes, issues) = encode_enum(&mk(4), clog2_u64(3), EnumEncoding::Sequential);
    assert!(issues.is_empty());
}

#[test]
fn onehot_and_gray_steps() {
    assert!(onehot(1));
    assert!(onehot(2));
    assert!(onehot(0x8000_0000_0000_0000));
    assert!(!onehot(0));
    assert!(!onehot(3));
    assert!(gray_step(0, 1));
    assert!(gray_step(1, 3));
    assert!(!gray_step(0, 3));
    assert!(!gray_step(5, 5));
    assert!(value_fits(3, 2));
    assert!(!value_fits(4, 2));
    assert!(count_fits_width(4, 2));
    assert!(!count_fits_width(5, 2));
}

// Instantiating the same generic symbol with the same arguments twice
// yields the same specialization id and adds nothing the second time;
// in particular no duplicated-identifier diagnostic can arise.
#[test]
fn generic_instantiation_idempotent() {
    let mut strs = StrTable::new();
    let t = tk(&mut strs, "PkgA", 1, 1);
    let mut tab = SymbolTable::new();
    let base = tab
        .insert(
            Symbol {
                token: t,
                namespace: vec![],
                public: true,
                kind: SymbolKind::Package(vec![]),
            },
            &strs,
        )
        .unwrap();
    let args = vec![1u64, 2u64];
    let first = tab.instantiate(base, &args);
    let len_after_first = tab.symbols.len();
    let second = tab.instantiate(base, &args);
    assert_eq!(first, second);
    assert_eq!(tab.symbols.len(), len_after_first);
    match &tab.symbols[first].kind {
        SymbolKind::GenericInstance(g) => {
            assert_eq!(g.base, base);
            assert_eq!(g.args, args);
        },
        _ => panic!("expected a generic instance"),
    }
    // different arguments give a different specialization
    let third = tab.instantiate(base, &vec![1u64, 3u64]);
    assert_ne!(first, third);
}

// The arena rejects a second symbol of the same name in one namespace
// and leaves itself unchanged.
#[test]
fn symbol_table_queries() {
    let mut strs = StrTable::new();
    let t = tk(&mut strs, "a", 1, 1);
    let mut tab = SymbolTable::new();
    let sym = Symbol {
        token: t,
        namespace: vec![],
        public: false,
        kind: SymbolKind::Variable(VariableProperty {
            ty: plain_ty(TypeKind::Logic),
            power_domain: PowerDomain::Unspecified,
        }),
    };
    let id = tab.insert(sym, &strs).unwrap();
    assert!(tab.get(id).is_some());
    assert!(tab.get(id + 1).is_none());
    assert_eq!(tab.get_all().len(), 1);
    let dup = Symbol {
        token: t,
        namespace: vec![],
        public: false,
        kind: SymbolKind::Modport,
    };
    let err = tab.insert(dup, &strs).unwrap_err();
    assert!(matches!(err.code, DiagCode::DuplicatedIdentifier));
    assert_eq!(err.fields[0], "a");
    assert_eq!(tab.get_all().len(), 1);
    let found = tab.resolve_base(&vec![], t.text);
    assert_eq!(found, Some(id));
    tab.clear();
    assert_eq!(tab.get_all().len(), 0);
}

#[test]
fn evaluator_expressions() {
    let mut strs = StrTable::new();
    let tab = SymbolTable::new();
    let ctx: Vec<u64> = vec![];
    let ev = Evaluator::new();
    let t = tk(&mut strs, "n", 1, 1);
    let n = |v: u64| Expr::Number { value: v, width: 64, sized: false, token: t };
    let add = Expr::Binary {
        op: veryla_analyzer::ast::BinaryOp::Add,
        lhs: Box::new(n(2)),
        rhs: Box::new(n(3)),
        token: t,
    };
    assert_eq!(ev.expression(&add, &tab, &ctx), Evaluated::Fixed { value: 5, width: 64 });
    let div0 = Expr::Binary {
        op: veryla_analyzer::ast::BinaryOp::Div,
        lhs: Box::new(n(2)),
        rhs: Box::new(n(0)),
        token: t,
    };
    assert_eq!(ev.expression(&div0, &tab, &ctx), Evaluated::Unevaluatable);
    let dc = Expr::DontCare { token: t };
    assert_eq!(ev.expression(&dc, &tab, &ctx), Evaluated::Unevaluatable);
    let unresolved = Expr::Ref(ExprRef {
        scope: vec![],
        base: Ident { name: strs.insert_str("nope"), token: t },
        base_selects: 0,
        members: vec![],
        span: TokenRange { beg: t, end: t },
    });
    assert_eq!(ev.expression(&unresolved, &tab, &ctx), Evaluated::UnknownStatic);
    let shifted = Expr::Binary {
        op: veryla_analyzer::ast::BinaryOp::Shl,
        lhs: Box::new(n(1)),
        rhs: Box::new(n(70)),
        token: t,
    };
    assert_eq!(ev.expression(&shifted, &tab, &ctx), Evaluated::Fixed { value: 0, width: 64 });
}

#[test]
fn lint_case_rules() {
    assert!(check_case(Case::Snake, "snake_name0"));
    assert!(!check_case(Case::Snake, "SnakeName"));
    assert!(check_case(Case::ScreamingSnake, "LOUD_NAME"));
    assert!(!check_case(Case::ScreamingSnake, "quiet"));
    assert!(check_case(Case::UpperCamel, "UpperCamel0"));
    assert!(!check_case(Case::UpperCamel, "lowerFirst"));
    assert!(!check_case(Case::UpperCamel, "With_Underscore"));
    assert!(check_case(Case::LowerCamel, "lowerCamel"));
    assert!(!check_case(Case::LowerCamel, ""));
    assert!(check_prefix("i_data", "i_"));
    assert!(!check_prefix("data", "i_"));
    assert!(check_suffix("data_q", "_q"));
    assert!(!check_suffix("data", "_q"));
    assert_eq!(Case::default(), Case::Snake);
}

#[test]
fn lint_identifier_rule() {
    let mut strs = StrTable::new();
    let t = tk(&mut strs, "BadName", 1, 1);
    let rule = NamingRule {
        case: Some(Case::Snake),
        prefix: None,
        suffix: None,
        re_forbidden: Some(String::from("^tmp")),
        re_required: None,
    };
    let out = check_identifier(&rule, "BadName", &t);
    assert_eq!(out.len(), 1);
    assert!(matches!(out[0].code, DiagCode::InvalidIdentifier));
    assert!(matches!(out[0].severity, Severity::Warning));
    assert_eq!(out[0].fields[0], "BadName");
    assert_eq!(out[0].fields[1], "snake_case");

    let out = check_identifier(&rule, "tmp_value", &t);
    assert_eq!(out.len(), 1);
    assert_eq!(out[0].fields[1], "forbidden");

    let out = check_identifier(&rule, "good_name", &t);
    assert!(out.is_empty());

    // a required pattern that fails to match is reported; one that
    // matches passes
    let rule = NamingRule {
        case: None,
        prefix: None,
        suffix: None,
        re_forbidden: None,
        re_required: Some(String::from("^i_")),
    };
    let out = check_identifier(&rule, "data", &t);
    assert_eq!(out.len(), 1);
    assert_eq!(out[0].fields[1], "required");
    let out = check_identifier(&rule, "i_data", &t);
    assert!(out.is_empty());
}

#[test]
fn finder_positions() {
    let mut strs = StrTable::new();
    let base = tk(&mut strs, "alpha", 3, 5);
    let member = tk(&mut strs, "beta", 3, 11);
    let h = HierIdent {
        base: Ident { name: base.text, token: base },
        base_selects: 0,
        members: vec![veryla_analyzer::ast::HierMember {
            ident: Ident { name: member.text, token: member },
            selects: 0,
        }],
        span: TokenRange { beg: base, end: member },
    };
    // a position on the member finds it and keeps the whole group
    let mut f = Finder::new();
    f.line = 3;
    f.column = 12;
    f.hierarchical_identifier(&h);
    assert_eq!(f.token, Some(member));
    assert_eq!(f.token_group, vec![base, member]);
    // a position on nothing clears the group
    let mut f = Finder::new();
    f.line = 9;
    f.column = 1;
    f.hierarchical_identifier(&h);
    assert!(f.token.is_none());
    assert!(f.token_group.is_empty());
    // a scoped path behaves alike
    let s = ScopedIdent {
        base: Ident { name: base.text, token: base },
        path: vec![Ident { name: member.text, token: member }],
        span: TokenRange { beg: base, end: member },
    };
    let mut f = Finder::new();
    f.line = 3;
    f.column = 5;
    f.scoped_identifier(&s);
    assert_eq!(f.token, Some(base));
    assert_eq!(f.token_group, vec![base, member]);
}

#[test]
fn last_token_walk() {
    let mut strs = StrTable::new();
    let a = tk(&mut strs, "a", 1, 1);
    let b = tk(&mut strs, "b", 1, 3);
    let mut lt = LastToken::new();
    assert!(lt.token().is_none());
    lt.walk(&vec![a, b]);
    assert_eq!(*lt.token(), Some(b));
    lt.walk(&vec![]);
    assert_eq!(*lt.token(), Some(b));
}

#[test]
fn dependency_cycles() {
    // a self loop, a two-cycle, and an acyclic tail
    let edges = vec![(0usize, 0usize), (1, 2), (2, 1), (2, 3)];
    let on_cycle = find_cycle_edges(&edges);
    assert_eq!(on_cycle, vec![0, 1, 2]);
    assert!(reaches_exec(&edges, 1, 3, edges.len()));
    assert!(!reaches_exec(&edges, 3, 1, edges.len()));
    let acyclic = vec![(0usize, 1usize), (1, 2)];
    assert!(find_cycle_edges(&acyclic).is_empty());
}

#[test]
fn proto_conformance() {
    let mut strs = StrTable::new();
    let w = strs.insert_str("width");
    let d = strs.insert_str("depth");
    let i_dat = strs.insert_str("i_dat");
    let o_dat = strs.insert_str("o_dat");
    let proto = ProtoEntityProperty {
        params: vec![ParamDecl { name: w, ty: plain_ty(TypeKind::U32) }],
        ports: vec![
            PortProperty {
                name: i_dat,
                direction: Direction::Input,
                ty: Some(plain_ty(TypeKind::Logic)),
                power_domain: PowerDomain::Unspecified,
            },
            PortProperty {
                name: o_dat,
                direction: Direction::Output,
                ty: Some(plain_ty(TypeKind::Logic)),
                power_domain: PowerDomain::Unspecified,
            },
        ],
    };
    let entity = EntityProperty {
        params: vec![ParamDecl { name: d, ty: plain_ty(TypeKind::U32) }],
        ports: vec![PortProperty {
            name: i_dat,
            direction: Direction::Input,
            ty: Some(plain_ty(TypeKind::Bit)),
            power_domain: PowerDomain::Unspecified,
        }],
        default_power: None,
        default_enable: None,
        generic_parameters: vec![],
        proto: None,
    };
    let causes = proto.check_compat(&entity);
    assert_eq!(
        causes,
        vec![
            ProtoIncompatible::MissingParam(w),
            ProtoIncompatible::UnnecessaryParam(d),
            ProtoIncompatible::IncompatiblePort(i_dat),
            ProtoIncompatible::MissingPort(o_dat),
        ],
    );
}

// A few constructors of the diagnostic taxonomy: each carries its
// stable code, its severity, and its interpolated fields.
#[test]
fn diagnostic_constructors() {
    let mut strs = StrTable::new();
    let t = tk(&mut strs, "x", 1, 1);
    let r = TokenRange { beg: t, end: t };
    let d = Diagnostic::undefined_identifier("x", &r);
    assert!(matches!(d.code, DiagCode::UndefinedIdentifier));
    assert!(matches!(d.severity, Severity::Error));
    assert_eq!(d.fields, vec!["x"]);

    let d = Diagnostic::mismatch_power_domain("a", "b", &r, &r);
    assert!(matches!(d.code, DiagCode::MismatchPowerDomain));
    assert!(matches!(d.severity, Severity::Warning));
    assert_eq!(d.fields, vec!["a", "b"]);
    assert_eq!(d.secondaries.len(), 1);

    let d = Diagnostic::too_much_enum_variant("E", 5, 2, &r);
    assert!(matches!(d.code, DiagCode::TooMuchEnumVariant));
    assert_eq!(d.nums, vec![5, 2]);

    let d = Diagnostic::mismatch_generics_arity("f", 2, 3, &r);
    assert!(matches!(d.code, DiagCode::MismatchGenericsArity));
    assert_eq!(d.nums, vec![2, 3]);

    let d = Diagnostic::multiple_assignment("v", &r, &r, &r);
    assert!(matches!(d.code, DiagCode::MultipleAssignment));
    assert_eq!(d.secondaries.len(), 2);

    let d = Diagnostic::unused_variable("v", &r);
    assert!(matches!(d.severity, Severity::Warning));

    let d = Diagnostic::invalid_number_character("binary", 'q', &r);
    assert!(matches!(d.code, DiagCode::InvalidNumberCharacter));
    assert_eq!(d.nums, vec!['q' as u64]);

    let d = Diagnostic::wrong_seperator("::", &r);
    assert!(matches!(d.code, DiagCode::WrongSeparator));
    assert_eq!(d.fields, vec!["::"]);
}

#[test]
fn doc_labels() {
    let mut strs = StrTable::new();
    let a = strs.insert_str("WIDTH");
    let b = strs.insert_str("DEPTH");
    let none: Vec<GenericParameter> = vec![];
    assert_eq!(fmt_generic_parameters("fifo", &none, &strs), "fifo");
    let two = vec![
        GenericParameter { name: a, default_value: None },
        GenericParameter { name: b, default_value: Some(4) },
    ];
    assert_eq!(fmt_generic_parameters("fifo", &two, &strs), "fifo::&lt;WIDTH, DEPTH&gt;");

    // the index keeps only public top-level entities
    let t = tk(&mut strs, "Top", 1, 1);
    let mut tab = SymbolTable::new();
    tab.insert(
        Symbol {
            token: t,
            namespace: vec![],
            public: true,
            kind: SymbolKind::Entity(EntityProperty {
                params: vec![],
                ports: vec![],
                default_power: None,
                default_enable: None,
                generic_parameters: vec![],
                proto: None,
            }),
        },
        &strs,
    )
    .unwrap();
    let hidden = tk(&mut strs, "Inner", 2, 1);
    tab.insert(
        Symbol {
            token: hidden,
            namespace: vec![t.text],
            public: false,
            kind: SymbolKind::Modport,
        },
        &strs,
    )
    .unwrap();
    let cmd = CmdDoc::new();
    let items = cmd.collect_entities(&tab, &strs);
    assert_eq!(items.len(), 1);
    assert_eq!(items[0].html_name, "Top");

    // a further section holds exactly its own kind
    let pk = tk(&mut strs, "PkgDoc", 3, 1);
    tab.insert(
        Symbol { token: pk, namespace: vec![], public: true, kind: SymbolKind::Package(vec![]) },
        &strs,
    )
    .unwrap();
    let pkgs = cmd.collect_kind(&tab, &strs, DocSection::Package);
    assert_eq!(pkgs.len(), 1);
    assert_eq!(pkgs[0].html_name, "PkgDoc");
    let protos = cmd.collect_kind(&tab, &strs, DocSection::Proto);
    assert!(protos.is_empty());

    // the index comes sorted by name, not in table order
    let z = tk(&mut strs, "Alpha", 4, 1);
    tab.insert(
        Symbol {
            token: z,
            namespace: vec![],
            public: true,
            kind: SymbolKind::Entity(EntityProperty {
                params: vec![],
                ports: vec![],
                default_power: None,
                default_enable: None,
                generic_parameters: vec![],
                proto: None,
            }),
        },
        &strs,
    )
    .unwrap();
    let items = sort_items_by_name(&cmd.collect_entities(&tab, &strs), &strs);
    assert_eq!(items.len(), 2);
    assert_eq!(items[0].html_name, "Alpha");
    assert_eq!(items[1].html_name, "Top");
}

#[test]
fn interner_round_trip() {
    let mut strs = StrTable::new();
    let a = strs.insert_str("alpha");
    let b = strs.insert_str("beta");
    let a2 = strs.insert_str("alpha");
    assert_eq!(a, a2);
    assert_ne!(a, b);
    assert_eq!(strs.get_name(a), "alpha");
    assert_eq!(strs.get_name(b), "beta");
    assert_eq!(strs.get_name(999), "");
}

use veryla_analyzer::analyzer::Analyzer;
use veryla_analyzer::ast::{
    CompUnit, Declaration, EntityDecl, EntityItem, EnumDeclAst, EnumVariantAst, Expr, ExprRef,
    HierIdent, Ident, InstDecl, InstPortItem, PackageDecl, PortDecl, ProtoDecl, SequenceDecl,
    SequenceEvent, Statement,
};
use veryla_analyzer::symbol::SymbolKind;
use veryla_analyzer::diag::{DiagCode, Diagnostic, Severity};
use veryla_analyzer::symbol::{Direction, EnumEncoding, PowerDomain, Type, TypeKind};
use veryla_analyzer::token::{StrTable, Token, TokenRange};

fn tok(strs: &mut StrTable, name: &str, line: u32) -> Token {
    Token { text: strs.insert_str(name), line, column: 1, length: name.len() as u32 }
}

fn ident(strs: &mut StrTable, name: &str, line: u32) -> Ident {
    let t = tok(strs, name, line);
    Ident { name: t.text, token: t }
}

fn ty(kind: TypeKind) -> Type {
    Type { kind, width: vec![], array: vec![], tri: false }
}

fn ty_dims(kind: TypeKind, width: Vec<u64>, array: Vec<u64>) -> Type {
    Type { kind, width, array, tri: false }
}

fn port(strs: &mut StrTable, name: &str, dir: Direction, kind: TypeKind, line: u32) -> PortDecl {
    let i = ident(strs, name, line);
    PortDecl {
        ident: i,
        direction: dir,
        ty: Some(ty(kind)),
        domain: PowerDomain::Unspecified,
        default_value: None,
        token: i.token,
    }
}

fn port_dom(
    strs: &mut StrTable,
    name: &str,
    dir: Direction,
    kind: TypeKind,
    dom: &str,
    line: u32,
) -> PortDecl {
    let d = PowerDomain::Named(strs.insert_str(dom));
    let i = ident(strs, name, line);
    PortDecl {
        ident: i,
        direction: dir,
        ty: Some(ty(kind)),
        domain: d,
        default_value: None,
        token: i.token,
    }
}

fn var(strs: &mut StrTable, name: &str, kind: TypeKind, line: u32) -> EntityItem {
    let i = ident(strs, name, line);
    EntityItem::Var { ident: i, ty: ty(kind), domain: PowerDomain::Unspecified, token: i.token }
}

fn var_dom(strs: &mut StrTable, name: &str, kind: TypeKind, dom: &str, line: u32) -> EntityItem {
    let d = PowerDomain::Named(strs.insert_str(dom));
    let i = ident(strs, name, line);
    EntityItem::Var { ident: i, ty: ty(kind), domain: d, token: i.token }
}

fn rref(strs: &mut StrTable, name: &str, line: u32) -> Expr {
    let i = ident(strs, name, line);
    Expr::Ref(ExprRef {
        scope: vec![],
        base: i,
        base_selects: 0,
        members: vec![],
        span: TokenRange { beg: i.token, end: i.token },
    })
}

fn num(strs: &mut StrTable, value: u64, line: u32) -> Expr {
    let t = tok(strs, "0", line);
    Expr::Number { value, width: 64, sized: false, token: t }
}

fn sized_num(strs: &mut StrTable, value: u64, width: u64, line: u32) -> Expr {
    let t = tok(strs, "0", line);
    Expr::Number { value, width, sized: true, token: t }
}

fn hier(strs: &mut StrTable, name: &str, selects: u64, line: u32) -> HierIdent {
    let i = ident(strs, name, line);
    HierIdent {
        base: i,
        base_selects: selects,
        members: vec![],
        span: TokenRange { beg: i.token, end: i.token },
    }
}

fn assign(strs: &mut StrTable, target: &str, rhs: Expr, line: u32) -> Statement {
    let t = tok(strs, "=", line);
    Statement::Assign { target: hier(strs, target, 0, line), rhs, token: t }
}

fn sequence(
    strs: &mut StrTable,
    power: Option<&str>,
    enable: Option<&str>,
    block: Vec<Statement>,
    line: u32,
) -> EntityItem {
    let t = tok(strs, "sequence", line);
    let event = power.map(|p| SequenceEvent {
        power: hier(strs, p, 0, line),
        enable: enable.map(|e| hier(strs, e, 0, line)),
    });
    EntityItem::Sequence(SequenceDecl { event, block, token: t })
}

fn sequence_sel(
    strs: &mut StrTable,
    power: &str,
    selects: u64,
    block: Vec<Statement>,
    line: u32,
) -> EntityItem {
    let t = tok(strs, "sequence", line);
    let event = Some(SequenceEvent { power: hier(strs, power, selects, line), enable: None });
    EntityItem::Sequence(SequenceDecl { event, block, token: t })
}

fn entity(
    strs: &mut StrTable,
    name: &str,
    ports: Vec<PortDecl>,
    items: Vec<EntityItem>,
) -> Declaration {
    let i = ident(strs, name, 1);
    Declaration::Entity(EntityDecl { ident: i, ports, proto: None, items, public: true, token: i.token })
}

fn analyze(strs: &StrTable, unit: &CompUnit) -> Vec<Diagnostic> {
    let mut a = Analyzer::new();
    let mut errs = a.analyze_pass1(unit, strs);
    a.analyze_post_pass1();
    errs.extend(a.analyze_pass2(unit, strs));
    errs.extend(a.analyze_pass3(unit, strs));
    errs
}

#[test]
fn power_check() {
    // a clock-kinded event operand with the right number of selections
    let mut strs = StrTable::new();
    let pwr = port(&mut strs, "pwr", Direction::Input, TypeKind::Power, 2);
    let a = var(&mut strs, "a", TypeKind::Logic, 3);
    let z = num(&mut strs, 0, 4);
    let body = vec![assign(&mut strs, "a", z, 4)];
    let sq = sequence(&mut strs, Some("pwr"), None, body, 4);
    let unit = CompUnit { decls: vec![entity(&mut strs, "EntityA", vec![pwr], vec![a, sq])] };
    assert!(analyze(&strs, &unit).is_empty());

    // a clock with one packed dimension, selected once
    let mut strs = StrTable::new();
    let mut pwr = port(&mut strs, "pwr_a", Direction::Input, TypeKind::Power, 2);
    pwr.ty = Some(ty_dims(TypeKind::Power, vec![2], vec![]));
    let a = var(&mut strs, "a", TypeKind::Logic, 3);
    let z = num(&mut strs, 0, 4);
    let body = vec![assign(&mut strs, "a", z, 4)];
    let sq = sequence_sel(&mut strs, "pwr_a", 1, body, 4);
    let unit = CompUnit { decls: vec![entity(&mut strs, "EntityB", vec![pwr], vec![a, sq])] };
    assert!(analyze(&strs, &unit).is_empty());

    // a logic-kinded event operand is no clock
    let mut strs = StrTable::new();
    let pwr = port(&mut strs, "pwr", Direction::Input, TypeKind::Logic, 2);
    let a = var(&mut strs, "a", TypeKind::Logic, 3);
    let z = num(&mut strs, 0, 4);
    let body = vec![assign(&mut strs, "a", z, 4)];
    let sq = sequence(&mut strs, Some("pwr"), None, body, 4);
    let unit = CompUnit { decls: vec![entity(&mut strs, "EntityD", vec![pwr], vec![a, sq])] };
    let errors = analyze(&strs, &unit);
    assert!(matches!(errors[0].code, DiagCode::InvalidPower));

    // a dimensioned clock selected too few times
    let mut strs = StrTable::new();
    let mut pwr = port(&mut strs, "pwr_a", Direction::Input, TypeKind::Power, 2);
    pwr.ty = Some(ty_dims(TypeKind::Power, vec![2], vec![]));
    let a = var(&mut strs, "a", TypeKind::Logic, 3);
    let z = num(&mut strs, 0, 4);
    let body = vec![assign(&mut strs, "a", z, 4)];
    let sq = sequence_sel(&mut strs, "pwr_a", 0, body, 4);
    let unit = CompUnit { decls: vec![entity(&mut strs, "EntityE", vec![pwr], vec![a, sq])] };
    let errors = analyze(&strs, &unit);
    assert!(matches!(errors[0].code, DiagCode::InvalidPower));
}

#[test]
fn enable_check() {
    // a reset-kinded event operand, with the reset guard first
    let mut strs = StrTable::new();
    let pwr = port(&mut strs, "pwr", Direction::Input, TypeKind::Power, 2);
    let rst = port(&mut strs, "rst", Direction::Input, TypeKind::Enable, 3);
    let a = var(&mut strs, "a", TypeKind::Logic, 4);
    let z = num(&mut strs, 0, 5);
    let guard = Statement::IfEnable {
        block: vec![assign(&mut strs, "a", z, 5)],
        else_block: vec![],
        token: tok(&mut strs, "if_enable", 5),
    };
    let sq = sequence(&mut strs, Some("pwr"), Some("rst"), vec![guard], 5);
    let unit = CompUnit { decls: vec![entity(&mut strs, "EntityA", vec![pwr, rst], vec![a, sq])] };
    assert!(analyze(&strs, &unit).is_empty());

    // a logic-kinded reset operand is no reset
    let mut strs = StrTable::new();
    let pwr = port(&mut strs, "pwr", Direction::Input, TypeKind::Power, 2);
    let rst = port(&mut strs, "rst", Direction::Input, TypeKind::Logic, 3);
    let a = var(&mut strs, "a", TypeKind::Logic, 4);
    let z = num(&mut strs, 0, 5);
    let guard = Statement::IfEnable {
        block: vec![assign(&mut strs, "a", z, 5)],
        else_block: vec![],
        token: tok(&mut strs, "if_enable", 5),
    };
    let sq = sequence(&mut strs, Some("pwr"), Some("rst"), vec![guard], 5);
    let unit = CompUnit { decls: vec![entity(&mut strs, "EntityB", vec![pwr, rst], vec![a, sq])] };
    let errors = analyze(&strs, &unit);
    assert!(matches!(errors[0].code, DiagCode::InvalidEnable));
}

#[test]
fn power_connection_check() {
    // two connections of one callee domain group from incompatible
    // domains
    let mut strs = StrTable::new();
    let d_pwr = port(&mut strs, "d_pwr", Direction::Input, TypeKind::Power, 2);
    let d_in = port(&mut strs, "d_in", Direction::Input, TypeKind::Logic, 3);
    let callee = entity(&mut strs, "EntityD", vec![d_pwr, d_in], vec![]);

    let i_pwr = port_dom(&mut strs, "i_pwr", Direction::Input, TypeKind::Power, "a", 2);
    let i_dat = var_dom(&mut strs, "i_dat", TypeKind::Logic, "b", 3);
    let e1 = rref(&mut strs, "i_pwr", 5);
    let e2 = rref(&mut strs, "i_dat", 6);
    let inst = EntityItem::Inst(InstDecl {
        ident: ident(&mut strs, "u", 4),
        target: veryla_analyzer::ast::ScopedIdent {
            base: ident(&mut strs, "EntityD", 4),
            path: vec![],
            span: TokenRange { beg: tok(&mut strs, "EntityD", 4), end: tok(&mut strs, "EntityD", 4) },
        },
        foreign: false,
        generic_args: vec![],
        ports: vec![
            InstPortItem { port: ident(&mut strs, "d_pwr", 5), expr: Some(e1), token: tok(&mut strs, "d_pwr", 5) },
            InstPortItem { port: ident(&mut strs, "d_in", 6), expr: Some(e2), token: tok(&mut strs, "d_in", 6) },
        ],
        token: tok(&mut strs, "inst", 4),
    });
    let caller = entity(&mut strs, "EntityC", vec![i_pwr], vec![i_dat, inst]);
    let unit = CompUnit { decls: vec![callee, caller] };
    let errors = analyze(&strs, &unit);
    assert!(matches!(errors[0].code, DiagCode::MismatchPowerDomain));
}

#[test]
fn enable_connection_check() {
    // compatible domains in one callee group raise nothing
    let mut strs = StrTable::new();
    let d_pwr = port(&mut strs, "d_pwr", Direction::Input, TypeKind::Power, 2);
    let d_in = port(&mut strs, "d_in", Direction::Input, TypeKind::Logic, 3);
    let callee = entity(&mut strs, "EntityD", vec![d_pwr, d_in], vec![]);

    let i_pwr = port_dom(&mut strs, "i_pwr", Direction::Input, TypeKind::Power, "a", 2);
    let i_dat = var_dom(&mut strs, "i_dat", TypeKind::Logic, "a", 3);
    let e1 = rref(&mut strs, "i_pwr", 5);
    let e2 = rref(&mut strs, "i_dat", 6);
    let inst = EntityItem::Inst(InstDecl {
        ident: ident(&mut strs, "u", 4),
        target: veryla_analyzer::ast::ScopedIdent {
            base: ident(&mut strs, "EntityD", 4),
            path: vec![],
            span: TokenRange { beg: tok(&mut strs, "EntityD", 4), end: tok(&mut strs, "EntityD", 4) },
        },
        foreign: false,
        generic_args: vec![],
        ports: vec![
            InstPortItem { port: ident(&mut strs, "d_pwr", 5), expr: Some(e1), token: tok(&mut strs, "d_pwr", 5) },
            InstPortItem { port: ident(&mut strs, "d_in", 6), expr: Some(e2), token: tok(&mut strs, "d_in", 6) },
        ],
        token: tok(&mut strs, "inst", 4),
    });
    let caller = entity(&mut strs, "EntityC", vec![i_pwr], vec![i_dat, inst]);
    let unit = CompUnit { decls: vec![callee, caller] };
    assert!(analyze(&strs, &unit).is_empty());
}

#[test]
fn missing_power_signal() {
    let mut strs = StrTable::new();
    let a = var(&mut strs, "a", TypeKind::Logic, 2);
    let z = num(&mut strs, 0, 3);
    let body = vec![assign(&mut strs, "a", z, 3)];
    let sq = sequence(&mut strs, None, None, body, 3);
    let unit = CompUnit { decls: vec![entity(&mut strs, "EntityA", vec![], vec![a, sq])] };
    let errors = analyze(&strs, &unit);
    assert!(matches!(errors[0].code, DiagCode::MissingPowerSignal));
}

#[test]
fn missing_if_enable() {
    let mut strs = StrTable::new();
    let pwr = port(&mut strs, "pwr", Direction::Input, TypeKind::Power, 2);
    let rst = port(&mut strs, "rst", Direction::Input, TypeKind::Enable, 3);
    let a = var(&mut strs, "a", TypeKind::Logic, 4);
    let z = num(&mut strs, 0, 5);
    let body = vec![assign(&mut strs, "a", z, 5)];
    let sq = sequence(&mut strs, Some("pwr"), Some("rst"), body, 5);
    let unit = CompUnit { decls: vec![entity(&mut strs, "EntityA", vec![pwr, rst], vec![a, sq])] };
    let errors = analyze(&strs, &unit);
    assert!(matches!(errors[0].code, DiagCode::MissingIfEnable));
}

#[test]
fn missing_enable_signal() {
    let mut strs = StrTable::new();
    let pwr = port(&mut strs, "pwr", Direction::Input, TypeKind::Power, 2);
    let a = var(&mut strs, "a", TypeKind::Logic, 3);
    let z = num(&mut strs, 0, 4);
    let guard = Statement::IfEnable {
        block: vec![assign(&mut strs, "a", z, 4)],
        else_block: vec![],
        token: tok(&mut strs, "if_enable", 4),
    };
    let sq = sequence(&mut strs, Some("pwr"), None, vec![guard], 4);
    let unit = CompUnit { decls: vec![entity(&mut strs, "EntityA", vec![pwr], vec![a, sq])] };
    let errors = analyze(&strs, &unit);
    assert!(matches!(errors[0].code, DiagCode::MissingEnableSignal));
}

#[test]
fn missing_power_domain() {
    let mut strs = StrTable::new();
    let p0 = port(&mut strs, "pwr0", Direction::Input, TypeKind::Power, 2);
    let p1 = port(&mut strs, "pwr1", Direction::Input, TypeKind::Power, 3);
    let unit = CompUnit { decls: vec![entity(&mut strs, "M", vec![p0, p1], vec![])] };
    let errors = analyze(&strs, &unit);
    assert_eq!(errors.len(), 1);
    assert!(matches!(errors[0].code, DiagCode::MissingPowerDomain));
}

#[test]
fn power_domain() {
    // an assignment that crosses from domain `a` into domain `b`
    let mut strs = StrTable::new();
    let i_pwr = port_dom(&mut strs, "i_pwr", Direction::Input, TypeKind::Power, "a", 2);
    let i_dat = port_dom(&mut strs, "i_dat", Direction::Input, TypeKind::Logic, "a", 3);
    let o_dat = port_dom(&mut strs, "o_dat", Direction::Output, TypeKind::Logic, "b", 4);
    let rhs = rref(&mut strs, "i_dat", 5);
    let t = tok(&mut strs, "=", 5);
    let asn = EntityItem::AssignDecl { target: hier(&mut strs, "o_dat", 0, 5), rhs, token: t };
    let unit =
        CompUnit { decls: vec![entity(&mut strs, "EntityA", vec![i_pwr, i_dat, o_dat], vec![asn])] };
    let errors = analyze(&strs, &unit);
    assert!(matches!(errors[0].code, DiagCode::MismatchPowerDomain));

    // the same crossing inside a combinational block
    let mut strs = StrTable::new();
    let i_pwr = port_dom(&mut strs, "i_pwr", Direction::Input, TypeKind::Power, "a", 2);
    let i_dat = port_dom(&mut strs, "i_dat", Direction::Input, TypeKind::Logic, "a", 3);
    let o_dat = port_dom(&mut strs, "o_dat", Direction::Output, TypeKind::Logic, "b", 4);
    let rhs = rref(&mut strs, "i_dat", 5);
    let body = vec![assign(&mut strs, "o_dat", rhs, 5)];
    let t = tok(&mut strs, "always_comb", 5);
    let blk = EntityItem::AlwaysComb { block: body, token: t };
    let unit =
        CompUnit { decls: vec![entity(&mut strs, "EntityH", vec![i_pwr, i_dat, o_dat], vec![blk])] };
    let errors = analyze(&strs, &unit);
    assert!(matches!(errors[0].code, DiagCode::MismatchPowerDomain));

    // a clocked block inherits the single clock port's domain as its
    // baseline
    let mut strs = StrTable::new();
    let i_pwr = port_dom(&mut strs, "i_pwr", Direction::Input, TypeKind::Power, "a", 2);
    let i_dat1 = port_dom(&mut strs, "i_dat1", Direction::Input, TypeKind::Logic, "b", 3);
    let r_dat = var_dom(&mut strs, "r_dat", TypeKind::Logic, "b", 4);
    let rhs = rref(&mut strs, "i_dat1", 5);
    let body = vec![assign(&mut strs, "r_dat", rhs, 5)];
    let sq = sequence(&mut strs, None, None, body, 5);
    let unit =
        CompUnit { decls: vec![entity(&mut strs, "EntityF", vec![i_pwr, i_dat1], vec![r_dat, sq])] };
    let errors = analyze(&strs, &unit);
    assert!(matches!(errors[0].code, DiagCode::MismatchPowerDomain));
}

#[test]
fn unknown_suppression_name() {
    let mut strs = StrTable::new();
    let name = ident(&mut strs, "x", 2);
    let t = tok(&mut strs, "unsafe", 2);
    let blk = EntityItem::UnsafeBlock {
        name,
        items: vec![],
        token: t,
        span: TokenRange { beg: t, end: t },
    };
    let unit = CompUnit { decls: vec![entity(&mut strs, "EntityA", vec![], vec![blk])] };
    let errors = analyze(&strs, &unit);
    assert!(matches!(errors[0].code, DiagCode::UnknownUnsafe));
}

#[test]
fn duplicated_identifier() {
    let mut strs = StrTable::new();
    let a0 = var(&mut strs, "a", TypeKind::Logic, 2);
    let a1 = var(&mut strs, "a", TypeKind::Logic, 3);
    let unit = CompUnit { decls: vec![entity(&mut strs, "EntityA", vec![], vec![a0, a1])] };
    let errors = analyze(&strs, &unit);
    assert!(matches!(errors[0].code, DiagCode::DuplicatedIdentifier));
}

#[test]
fn undefined_identifier() {
    let mut strs = StrTable::new();
    let one = num(&mut strs, 1, 2);
    let t = tok(&mut strs, "=", 2);
    let asn = EntityItem::AssignDecl { target: hier(&mut strs, "a", 0, 2), rhs: one, token: t };
    let unit = CompUnit { decls: vec![entity(&mut strs, "EntityA", vec![], vec![asn])] };
    let errors = analyze(&strs, &unit);
    assert_eq!(errors.len(), 1);
    assert!(matches!(errors[0].code, DiagCode::UndefinedIdentifier));
}

#[test]
fn detect_recursive() {
    // a port whose declared type names the port itself
    let mut strs = StrTable::new();
    let x_name = strs.insert_str("x");
    let i = ident(&mut strs, "x", 2);
    let p = PortDecl {
        ident: i,
        direction: Direction::Input,
        ty: Some(ty(TypeKind::UserDefined(x_name))),
        domain: PowerDomain::Unspecified,
        default_value: None,
        token: i.token,
    };
    let unit = CompUnit { decls: vec![entity(&mut strs, "EntityA", vec![p], vec![])] };
    let errors = analyze(&strs, &unit);
    assert!(matches!(errors[0].code, DiagCode::MismatchType));
}

#[test]
fn invalid_statement() {
    let mut strs = StrTable::new();
    let a = var(&mut strs, "a", TypeKind::Logic, 2);
    let z = num(&mut strs, 0, 3);
    let body = vec![assign(&mut strs, "a", z, 3)];
    let t = tok(&mut strs, "initial", 3);
    let blk = EntityItem::Initial { block: body, token: t };
    let unit = CompUnit { decls: vec![entity(&mut strs, "EntityA", vec![], vec![a, blk])] };
    let errors = analyze(&strs, &unit);
    assert!(matches!(errors[0].code, DiagCode::InvalidStatement));

    // a reset guard that is not the first statement of its block
    let mut strs = StrTable::new();
    let pwr = port(&mut strs, "pwr", Direction::Input, TypeKind::Power, 2);
    let a = var(&mut strs, "a", TypeKind::Logic, 3);
    let z0 = num(&mut strs, 0, 4);
    let first = assign(&mut strs, "a", z0, 4);
    let z1 = num(&mut strs, 1, 5);
    let guard = Statement::IfEnable {
        block: vec![assign(&mut strs, "a", z1, 5)],
        else_block: vec![],
        token: tok(&mut strs, "if_enable", 5),
    };
    let sq = sequence(&mut strs, Some("pwr"), None, vec![first, guard], 4);
    let unit = CompUnit { decls: vec![entity(&mut strs, "EntityB", vec![pwr], vec![a, sq])] };
    let errors = analyze(&strs, &unit);
    assert!(errors.iter().any(|d| matches!(d.code, DiagCode::InvalidStatement)));
}

#[test]
fn break_outside_loop() {
    let mut strs = StrTable::new();
    let t = tok(&mut strs, "break", 2);
    let body = vec![Statement::Break { token: t }];
    let bt = tok(&mut strs, "always_comb", 2);
    let blk = EntityItem::AlwaysComb { block: body, token: bt };
    let unit = CompUnit { decls: vec![entity(&mut strs, "EntityA", vec![], vec![blk])] };
    let errors = analyze(&strs, &unit);
    assert!(matches!(errors[0].code, DiagCode::InvalidStatement));

    // a break inside a loop is fine
    let mut strs = StrTable::new();
    let bt2 = tok(&mut strs, "break", 3);
    let ft = tok(&mut strs, "for", 2);
    let i = ident(&mut strs, "i", 2);
    let body = vec![Statement::For {
        ident: i,
        body: vec![Statement::Break { token: bt2 }],
        token: ft,
    }];
    let at = tok(&mut strs, "always_comb", 2);
    let blk = EntityItem::AlwaysComb { block: body, token: at };
    let unit = CompUnit { decls: vec![entity(&mut strs, "EntityB", vec![], vec![blk])] };
    assert!(analyze(&strs, &unit).is_empty());
}

#[test]
fn invalid_direction() {
    let mut strs = StrTable::new();
    let p = port(&mut strs, "r", Direction::Ref, TypeKind::Logic, 2);
    let unit = CompUnit { decls: vec![entity(&mut strs, "EntityA", vec![p], vec![])] };
    let errors = analyze(&strs, &unit);
    assert!(matches!(errors[0].code, DiagCode::InvalidDirection));
}

#[test]
fn missing_tri() {
    let mut strs = StrTable::new();
    let p = port(&mut strs, "io", Direction::Inout, TypeKind::Logic, 2);
    let unit = CompUnit { decls: vec![entity(&mut strs, "EntityA", vec![p], vec![])] };
    let errors = analyze(&strs, &unit);
    assert!(matches!(errors[0].code, DiagCode::MissingTri));

    // the tri-state modifier satisfies the check
    let mut strs = StrTable::new();
    let mut p = port(&mut strs, "io", Direction::Inout, TypeKind::Logic, 2);
    p.ty = Some(Type { kind: TypeKind::Logic, width: vec![], array: vec![], tri: true });
    let unit = CompUnit { decls: vec![entity(&mut strs, "EntityB", vec![p], vec![])] };
    assert!(analyze(&strs, &unit).is_empty());
}

#[test]
fn invalid_port_default_value() {
    let mut strs = StrTable::new();
    let mut p = port(&mut strs, "o", Direction::Output, TypeKind::Logic, 2);
    let dv = num(&mut strs, 1, 2);
    p.default_value = Some(dv);
    let unit = CompUnit { decls: vec![entity(&mut strs, "EntityA", vec![p], vec![])] };
    let errors = analyze(&strs, &unit);
    assert!(matches!(errors[0].code, DiagCode::InvalidPortDefaultValue));

    // an input may carry any default value
    let mut strs = StrTable::new();
    let mut p = port(&mut strs, "i", Direction::Input, TypeKind::Logic, 2);
    let dv = num(&mut strs, 1, 2);
    p.default_value = Some(dv);
    let unit = CompUnit { decls: vec![entity(&mut strs, "EntityB", vec![p], vec![])] };
    assert!(analyze(&strs, &unit).is_empty());
}

#[test]
fn invalid_cast() {
    let mut strs = StrTable::new();
    let i_dat = port(&mut strs, "i_dat", Direction::Input, TypeKind::Logic, 2);
    let o_dat = port(&mut strs, "o_dat", Direction::Output, TypeKind::Power, 3);
    let inner = rref(&mut strs, "i_dat", 4);
    let ct = tok(&mut strs, "as", 4);
    let cast = Expr::Cast { into: TypeKind::Power, operand: Box::new(inner), token: ct };
    let t = tok(&mut strs, "=", 4);
    let asn = EntityItem::AssignDecl { target: hier(&mut strs, "o_dat", 0, 4), rhs: cast, token: t };
    let unit = CompUnit { decls: vec![entity(&mut strs, "EntityA", vec![i_dat, o_dat], vec![asn])] };
    let errors = analyze(&strs, &unit);
    assert!(errors.iter().any(|d| matches!(d.code, DiagCode::InvalidCast)));

    // a cast from an already clock-kinded source is legal; both clock
    // ports carry their domain annotation
    let mut strs = StrTable::new();
    let i_pwr = port_dom(&mut strs, "i_pwr", Direction::Input, TypeKind::Power, "a", 2);
    let o_pwr = port_dom(&mut strs, "o_pwr", Direction::Output, TypeKind::PowerPosedge, "a", 3);
    let inner = rref(&mut strs, "i_pwr", 4);
    let ct = tok(&mut strs, "as", 4);
    let cast = Expr::Cast { into: TypeKind::PowerPosedge, operand: Box::new(inner), token: ct };
    let t = tok(&mut strs, "=", 4);
    let asn = EntityItem::AssignDecl { target: hier(&mut strs, "o_pwr", 0, 4), rhs: cast, token: t };
    let unit = CompUnit { decls: vec![entity(&mut strs, "EntityB", vec![i_pwr, o_pwr], vec![asn])] };
    assert!(analyze(&strs, &unit).is_empty());
}

fn enum_decl(
    strs: &mut StrTable,
    name: &str,
    width: Option<u64>,
    encoding: EnumEncoding,
    variants: Vec<(&str, Option<Expr>)>,
) -> EntityItem {
    let i = ident(strs, name, 2);
    let vars = variants
        .into_iter()
        .enumerate()
        .map(|(k, (n, v))| EnumVariantAst { ident: ident(strs, n, 3 + k as u32), value: v })
        .collect();
    EntityItem::EnumDecl(EnumDeclAst { ident: i, width, encoding, variants: vars, token: i.token })
}

#[test]
fn too_large_enum_variant() {
    let mut strs = StrTable::new();
    let v = sized_num(&mut strs, 100, 64, 3);
    let ed = enum_decl(&mut strs, "EnumA", Some(2), EnumEncoding::Sequential, vec![("A", Some(v))]);
    let unit = CompUnit { decls: vec![entity(&mut strs, "EntityA", vec![], vec![ed])] };
    let errors = analyze(&strs, &unit);
    assert!(matches!(errors[0].code, DiagCode::TooLargeEnumVariant));

    // an implicit successor can overflow the width too
    let mut strs = StrTable::new();
    let v = sized_num(&mut strs, 3, 64, 3);
    let ed = enum_decl(
        &mut strs,
        "EnumB",
        Some(2),
        EnumEncoding::Sequential,
        vec![("A", Some(v)), ("B", None)],
    );
    let unit = CompUnit { decls: vec![entity(&mut strs, "EntityB", vec![], vec![ed])] };
    let errors = analyze(&strs, &unit);
    assert!(matches!(errors[0].code, DiagCode::TooLargeEnumVariant));
}

#[test]
fn too_large_number() {
    let mut strs = StrTable::new();
    let i = ident(&mut strs, "a", 2);
    let v = sized_num(&mut strs, 100, 2, 2);
    let c = EntityItem::Const { ident: i, ty: ty(TypeKind::U32), value: v, token: i.token };
    let unit = CompUnit { decls: vec![entity(&mut strs, "EntityA", vec![], vec![c])] };
    let errors = analyze(&strs, &unit);
    assert!(matches!(errors[0].code, DiagCode::TooLargeNumber));
}

#[test]
fn too_much_enum_variant() {
    let mut strs = StrTable::new();
    let ed = enum_decl(
        &mut strs,
        "EnumA",
        Some(2),
        EnumEncoding::Sequential,
        vec![("A", None), ("B", None), ("C", None), ("D", None), ("E", None)],
    );
    let unit = CompUnit { decls: vec![entity(&mut strs, "EntityA", vec![], vec![ed])] };
    let errors = analyze(&strs, &unit);
    assert!(matches!(errors[0].code, DiagCode::TooMuchEnumVariant));

    // one bit holds two codes, not five
    let mut strs = StrTable::new();
    let ed = enum_decl(
        &mut strs,
        "EnumB",
        Some(1),
        EnumEncoding::Sequential,
        vec![("A", None), ("B", None), ("C", None), ("D", None), ("E", None)],
    );
    let unit = CompUnit { decls: vec![entity(&mut strs, "EntityB", vec![], vec![ed])] };
    let errors = analyze(&strs, &unit);
    assert!(matches!(errors[0].code, DiagCode::TooMuchEnumVariant));
}

#[test]
fn unevaluatable_enum_variant() {
    // a don't-care value followed by an explicit one is tolerated
    let mut strs = StrTable::new();
    let dc = Expr::DontCare { token: tok(&mut strs, "x", 3) };
    let v = sized_num(&mut strs, 2, 2, 4);
    let ed = enum_decl(
        &mut strs,
        "EnumA",
        Some(2),
        EnumEncoding::Sequential,
        vec![("A", Some(dc)), ("B", Some(v))],
    );
    let unit = CompUnit { decls: vec![entity(&mut strs, "EntityA", vec![], vec![ed])] };
    assert!(analyze(&strs, &unit).is_empty());

    // an implicit successor of a don't-care cannot be computed
    let mut strs = StrTable::new();
    let dc = Expr::DontCare { token: tok(&mut strs, "x", 3) };
    let ed = enum_decl(
        &mut strs,
        "EnumB",
        Some(2),
        EnumEncoding::Sequential,
        vec![("A", Some(dc)), ("B", None)],
    );
    let unit = CompUnit { decls: vec![entity(&mut strs, "EntityB", vec![], vec![ed])] };
    let errors = analyze(&strs, &unit);
    assert!(matches!(errors[0].code, DiagCode::UnevaluatableEnumVariant));

    // onehot admits no don't-care bits at all
    let mut strs = StrTable::new();
    let dc = Expr::DontCare { token: tok(&mut strs, "x", 3) };
    let ed = enum_decl(&mut strs, "EnumC", Some(2), EnumEncoding::OneHot, vec![("A", Some(dc))]);
    let unit = CompUnit { decls: vec![entity(&mut strs, "EntityC", vec![], vec![ed])] };
    let errors = analyze(&strs, &unit);
    assert!(matches!(errors[0].code, DiagCode::UnevaluatableEnumVariant));
}

#[test]
fn invalid_enum_variant() {
    // zero has no set bit, so it is no onehot code
    let mut strs = StrTable::new();
    let v = sized_num(&mut strs, 0, 2, 3);
    let ed = enum_decl(&mut strs, "EnumA", None, EnumEncoding::OneHot, vec![("A", Some(v))]);
    let unit = CompUnit { decls: vec![entity(&mut strs, "EntityA", vec![], vec![ed])] };
    let errors = analyze(&strs, &unit);
    assert!(matches!(errors[0].code, DiagCode::InvalidEnumVariantValue));

    // three has two set bits
    let mut strs = StrTable::new();
    let v = sized_num(&mut strs, 3, 2, 3);
    let ed = enum_decl(&mut strs, "EnumB", Some(2), EnumEncoding::OneHot, vec![("A", Some(v))]);
    let unit = CompUnit { decls: vec![entity(&mut strs, "EntityB", vec![], vec![ed])] };
    let errors = analyze(&strs, &unit);
    assert!(matches!(errors[0].code, DiagCode::InvalidEnumVariantValue));

    // a gray step from 0 to 3 flips two bits
    let mut strs = StrTable::new();
    let v = sized_num(&mut strs, 3, 2, 4);
    let ed = enum_decl(
        &mut strs,
        "EnumC",
        Some(2),
        EnumEncoding::Gray,
        vec![("A", None), ("B", Some(v))],
    );
    let unit = CompUnit { decls: vec![entity(&mut strs, "EntityC", vec![], vec![ed])] };
    let errors = analyze(&strs, &unit);
    assert!(matches!(errors[0].code, DiagCode::InvalidEnumVariantValue));
}

#[test]
fn sv_with_implicit_enable() {
    // a plain-polarity reset connected by name to a foreign instance
    let mut strs = StrTable::new();
    let en = var(&mut strs, "en", TypeKind::Enable, 2);
    let inst = EntityItem::Inst(InstDecl {
        ident: ident(&mut strs, "u", 3),
        target: veryla_analyzer::ast::ScopedIdent {
            base: ident(&mut strs, "Entity", 3),
            path: vec![],
            span: TokenRange { beg: tok(&mut strs, "Entity", 3), end: tok(&mut strs, "Entity", 3) },
        },
        foreign: true,
        generic_args: vec![],
        ports: vec![InstPortItem {
            port: ident(&mut strs, "en", 4),
            expr: None,
            token: tok(&mut strs, "en", 4),
        }],
        token: tok(&mut strs, "inst", 3),
    });
    let unit = CompUnit { decls: vec![entity(&mut strs, "EntityA", vec![], vec![en, inst])] };
    let errors = analyze(&strs, &unit);
    assert!(matches!(errors[0].code, DiagCode::SvWithImplicitEnable));

    // an explicit-polarity reset carries its meaning and passes
    let mut strs = StrTable::new();
    let en = var(&mut strs, "en", TypeKind::EnableLow, 2);
    let inst = EntityItem::Inst(InstDecl {
        ident: ident(&mut strs, "u", 3),
        target: veryla_analyzer::ast::ScopedIdent {
            base: ident(&mut strs, "Entity", 3),
            path: vec![],
            span: TokenRange { beg: tok(&mut strs, "Entity", 3), end: tok(&mut strs, "Entity", 3) },
        },
        foreign: true,
        generic_args: vec![],
        ports: vec![InstPortItem {
            port: ident(&mut strs, "en", 4),
            expr: None,
            token: tok(&mut strs, "en", 4),
        }],
        token: tok(&mut strs, "inst", 3),
    });
    let unit = CompUnit { decls: vec![entity(&mut strs, "EntityB", vec![], vec![en, inst])] };
    assert!(analyze(&strs, &unit).is_empty());
}

#[test]
fn enable_value_non_elaborative() {
    // a runtime value under a reset guard is rejected
    let mut strs = StrTable::new();
    let pwr = port(&mut strs, "pwr", Direction::Input, TypeKind::Power, 2);
    let rst = port(&mut strs, "rst", Direction::Input, TypeKind::Enable, 3);
    let d = port(&mut strs, "d", Direction::Input, TypeKind::Logic, 4);
    let a = var(&mut strs, "a", TypeKind::Logic, 5);
    let rhs = rref(&mut strs, "d", 6);
    let guard = Statement::IfEnable {
        block: vec![assign(&mut strs, "a", rhs, 6)],
        else_block: vec![],
        token: tok(&mut strs, "if_enable", 6),
    };
    let sq = sequence(&mut strs, Some("pwr"), Some("rst"), vec![guard], 6);
    let unit =
        CompUnit { decls: vec![entity(&mut strs, "EntityA", vec![pwr, rst, d], vec![a, sq])] };
    let errors = analyze(&strs, &unit);
    assert!(errors.iter().any(|e| matches!(e.code, DiagCode::InvalidEnableNonElaborative)));

    // a fixed value passes
    let mut strs = StrTable::new();
    let pwr = port(&mut strs, "pwr", Direction::Input, TypeKind::Power, 2);
    let rst = port(&mut strs, "rst", Direction::Input, TypeKind::Enable, 3);
    let a = var(&mut strs, "a", TypeKind::Logic, 4);
    let z = num(&mut strs, 0, 5);
    let guard = Statement::IfEnable {
        block: vec![assign(&mut strs, "a", z, 5)],
        else_block: vec![],
        token: tok(&mut strs, "if_enable", 5),
    };
    let sq = sequence(&mut strs, Some("pwr"), Some("rst"), vec![guard], 5);
    let unit = CompUnit { decls: vec![entity(&mut strs, "EntityB", vec![pwr, rst], vec![a, sq])] };
    assert!(analyze(&strs, &unit).is_empty());

    // the guard's else branch is ordinary clocked context: a runtime
    // right-hand side there is legal
    let mut strs = StrTable::new();
    let pwr = port(&mut strs, "pwr", Direction::Input, TypeKind::Power, 2);
    let rst = port(&mut strs, "rst", Direction::Input, TypeKind::Enable, 3);
    let d = port(&mut strs, "d", Direction::Input, TypeKind::Logic, 4);
    let a = var(&mut strs, "a", TypeKind::Logic, 5);
    let z = num(&mut strs, 0, 6);
    let rhs = rref(&mut strs, "d", 7);
    let guard = Statement::IfEnable {
        block: vec![assign(&mut strs, "a", z, 6)],
        else_block: vec![assign(&mut strs, "a", rhs, 7)],
        token: tok(&mut strs, "if_enable", 6),
    };
    let sq = sequence(&mut strs, Some("pwr"), Some("rst"), vec![guard], 6);
    let unit =
        CompUnit { decls: vec![entity(&mut strs, "EntityC", vec![pwr, rst, d], vec![a, sq])] };
    assert!(analyze(&strs, &unit).is_empty());
}

#[test]
fn enum_non_const_exception() {
    // an enum member with don't-care bits still has a settled code, so
    // assigning it under a reset guard is legal
    let mut strs = StrTable::new();
    let i_pwr = port(&mut strs, "i_pwr", Direction::Input, TypeKind::Power, 2);
    let i_rst = port(&mut strs, "i_rst", Direction::Input, TypeKind::Enable, 3);
    let dc = Expr::DontCare { token: tok(&mut strs, "x", 4) };
    let run_value = sized_num(&mut strs, 0, 3, 5);
    let ed = enum_decl(&mut strs, "State", Some(3), EnumEncoding::Sequential, vec![
        ("Idle", Some(dc)),
        ("Run", Some(run_value)),
    ]);
    let state = var(&mut strs, "state", TypeKind::Logic, 6);
    let idle = ident(&mut strs, "Idle", 7);
    let scope_id = ident(&mut strs, "State", 7);
    let rhs = Expr::Ref(ExprRef {
        scope: vec![scope_id],
        base: idle,
        base_selects: 0,
        members: vec![],
        span: TokenRange { beg: idle.token, end: idle.token },
    });
    let guard = Statement::IfEnable {
        block: vec![assign(&mut strs, "state", rhs, 7)],
        else_block: vec![],
        token: tok(&mut strs, "if_enable", 7),
    };
    let sq = sequence(&mut strs, Some("i_pwr"), Some("i_rst"), vec![guard], 7);
    let unit = CompUnit {
        decls: vec![entity(&mut strs, "EntityA", vec![i_pwr, i_rst], vec![ed, state, sq])],
    };
    assert!(analyze(&strs, &unit).is_empty());
}

#[test]
fn unassign_variable() {
    // one branch leaves the variable unassigned before the read
    let mut strs = StrTable::new();
    let a = var(&mut strs, "a", TypeKind::Logic, 2);
    let b = var(&mut strs, "b", TypeKind::Logic, 3);
    let c = port(&mut strs, "c", Direction::Input, TypeKind::Logic, 4);
    let cond = rref(&mut strs, "c", 5);
    let z = num(&mut strs, 0, 5);
    let branch = Statement::If {
        cond,
        then_block: vec![assign(&mut strs, "a", z, 5)],
        else_block: vec![],
        has_else: true,
        token: tok(&mut strs, "if", 5),
    };
    let read = rref(&mut strs, "a", 6);
    let last = assign(&mut strs, "b", read, 6);
    let at = tok(&mut strs, "always_comb", 5);
    let blk = EntityItem::AlwaysComb { block: vec![branch, last], token: at };
    let unit = CompUnit { decls: vec![entity(&mut strs, "EntityA", vec![c], vec![a, b, blk])] };
    let errors = analyze(&strs, &unit);
    assert!(errors.iter().any(|e| matches!(e.code, DiagCode::UnassignVariable)));
    let warn: Vec<_> =
        errors.iter().filter(|e| matches!(e.code, DiagCode::UnassignVariable)).collect();
    assert!(matches!(warn[0].severity, Severity::Warning));

    // both branches assign before the read: nothing may fire
    let mut strs = StrTable::new();
    let a = var(&mut strs, "a", TypeKind::Logic, 2);
    let b = var(&mut strs, "b", TypeKind::Logic, 3);
    let c = port(&mut strs, "c", Direction::Input, TypeKind::Logic, 4);
    let cond = rref(&mut strs, "c", 5);
    let z0 = num(&mut strs, 0, 5);
    let z1 = num(&mut strs, 1, 5);
    let branch = Statement::If {
        cond,
        then_block: vec![assign(&mut strs, "a", z0, 5)],
        else_block: vec![assign(&mut strs, "a", z1, 5)],
        has_else: true,
        token: tok(&mut strs, "if", 5),
    };
    let read = rref(&mut strs, "a", 6);
    let last = assign(&mut strs, "b", read, 6);
    let at = tok(&mut strs, "always_comb", 5);
    let blk = EntityItem::AlwaysComb { block: vec![branch, last], token: at };
    let unit = CompUnit { decls: vec![entity(&mut strs, "EntityB", vec![c], vec![a, b, blk])] };
    assert!(analyze(&strs, &unit).is_empty());
}

#[test]
fn mismatch_type() {
    // binding an entity to something that is no prototype
    let mut strs = StrTable::new();
    let other = entity(&mut strs, "NotAProto", vec![], vec![]);
    let i = ident(&mut strs, "EntityA", 1);
    let pr = ident(&mut strs, "NotAProto", 1);
    let bound = Declaration::Entity(EntityDecl {
        ident: i,
        ports: vec![],
        proto: Some(veryla_analyzer::ast::ScopedIdent {
            base: pr,
            path: vec![],
            span: TokenRange { beg: pr.token, end: pr.token },
        }),
        items: vec![],
        public: true,
        token: i.token,
    });
    let unit = CompUnit { decls: vec![other, bound] };
    let errors = analyze(&strs, &unit);
    assert!(matches!(errors[0].code, DiagCode::MismatchType));
}

#[test]
fn incompat_proto() {
    // a prototype port the entity does not declare
    let mut strs = StrTable::new();
    let pi = ident(&mut strs, "ProtoA", 1);
    let pport = port(&mut strs, "i_dat", Direction::Input, TypeKind::Logic, 2);
    let proto = Declaration::Proto(ProtoDecl {
        ident: pi,
        params: vec![],
        ports: vec![pport],
        public: true,
        token: pi.token,
    });
    let i = ident(&mut strs, "EntityA", 3);
    let pr = ident(&mut strs, "ProtoA", 3);
    let bound = Declaration::Entity(EntityDecl {
        ident: i,
        ports: vec![],
        proto: Some(veryla_analyzer::ast::ScopedIdent {
            base: pr,
            path: vec![],
            span: TokenRange { beg: pr.token, end: pr.token },
        }),
        items: vec![],
        public: true,
        token: i.token,
    });
    let unit = CompUnit { decls: vec![proto, bound] };
    let errors = analyze(&strs, &unit);
    assert!(matches!(errors[0].code, DiagCode::IncompatProto));
    assert_eq!(errors[0].fields[2], "port i_dat is missing");
}

#[test]
fn uknown_port() {
    // a connection the callee never declared
    let mut strs = StrTable::new();
    let d_in = port(&mut strs, "d_in", Direction::Input, TypeKind::Logic, 2);
    let callee = entity(&mut strs, "EntityD", vec![d_in], vec![]);
    let sig = var(&mut strs, "sig", TypeKind::Logic, 3);
    let e = rref(&mut strs, "sig", 5);
    let inst = EntityItem::Inst(InstDecl {
        ident: ident(&mut strs, "u", 4),
        target: veryla_analyzer::ast::ScopedIdent {
            base: ident(&mut strs, "EntityD", 4),
            path: vec![],
            span: TokenRange { beg: tok(&mut strs, "EntityD", 4), end: tok(&mut strs, "EntityD", 4) },
        },
        foreign: false,
        generic_args: vec![],
        ports: vec![InstPortItem {
            port: ident(&mut strs, "nope", 5),
            expr: Some(e),
            token: tok(&mut strs, "nope", 5),
        }],
        token: tok(&mut strs, "inst", 4),
    });
    let caller = entity(&mut strs, "EntityC", vec![], vec![sig, inst]);
    let unit = CompUnit { decls: vec![callee, caller] };
    let errors = analyze(&strs, &unit);
    assert!(errors.iter().any(|d| matches!(d.code, DiagCode::UnknownPort)));
    // the declared but unconnected port is reported as missing
    assert!(errors.iter().any(|d| matches!(d.code, DiagCode::MissingPort)));
}

#[test]
fn cyclic_type_dependency() {
    // two structs that hold each other as members
    let mut strs = StrTable::new();
    let b_name = strs.insert_str("B");
    let a_name = strs.insert_str("A");
    let ai = ident(&mut strs, "A", 2);
    let am = ident(&mut strs, "mb", 2);
    let sa = EntityItem::StructDecl {
        ident: ai,
        members: vec![(am, ty(TypeKind::UserDefined(b_name)))],
        token: ai.token,
    };
    let bi = ident(&mut strs, "B", 3);
    let bm = ident(&mut strs, "ma", 3);
    let sb = EntityItem::StructDecl {
        ident: bi,
        members: vec![(bm, ty(TypeKind::UserDefined(a_name)))],
        token: bi.token,
    };
    let unit = CompUnit { decls: vec![entity(&mut strs, "EntityA", vec![], vec![sa, sb])] };
    let errors = analyze(&strs, &unit);
    assert!(errors.iter().any(|d| matches!(d.code, DiagCode::CyclicTypeDependency)));
}

#[test]
fn suppressed_crossing() {
    // the same crossing twice: enclosed in a power-domain-crossing
    // suppression it is waived; with the suppression removed the
    // mismatch diagnostic is reproduced
    let build = |suppress: bool| -> (StrTable, CompUnit) {
        let mut strs = StrTable::new();
        let i_pwr = port_dom(&mut strs, "i_pwr", Direction::Input, TypeKind::Power, "a", 2);
        let i_dat = port_dom(&mut strs, "i_dat", Direction::Input, TypeKind::Logic, "a", 3);
        let o_dat = port_dom(&mut strs, "o_dat", Direction::Output, TypeKind::Logic, "b", 4);
        let rhs = rref(&mut strs, "i_dat", 5);
        let t = tok(&mut strs, "=", 5);
        let asn = EntityItem::AssignDecl { target: hier(&mut strs, "o_dat", 0, 5), rhs, token: t };
        let items = if suppress {
            let name = ident(&mut strs, "pdc", 5);
            let bt = tok(&mut strs, "unsafe", 5);
            let beg = tok(&mut strs, "{", 5);
            let end = tok(&mut strs, "}", 6);
            vec![EntityItem::UnsafeBlock {
                name,
                items: vec![asn],
                token: bt,
                span: TokenRange { beg, end },
            }]
        } else {
            vec![asn]
        };
        let unit =
            CompUnit { decls: vec![entity(&mut strs, "EntityA", vec![i_pwr, i_dat, o_dat], items)] };
        (strs, unit)
    };
    let (strs, unit) = build(true);
    assert!(analyze(&strs, &unit).is_empty());
    let (strs, unit) = build(false);
    let errors = analyze(&strs, &unit);
    assert_eq!(errors.len(), 1);
    assert!(matches!(errors[0].code, DiagCode::MismatchPowerDomain));
}

#[test]
fn unresolvable_generic_argument() {
    // a generic package reference: fixed arguments specialize it
    // through the memoized cache, a runtime argument is diagnosed, and
    // an overlong argument list is an arity mismatch
    let build = |args: fn(&mut StrTable) -> Vec<Expr>| -> (StrTable, CompUnit) {
        let mut strs = StrTable::new();
        let pkg_ident = ident(&mut strs, "PkgA", 1);
        let w = ident(&mut strs, "W", 1);
        let d = ident(&mut strs, "D", 1);
        let d_default = num(&mut strs, 4, 1);
        let pkg = Declaration::Package(PackageDecl {
            ident: pkg_ident,
            generic_parameters: vec![(w, None), (d, Some(d_default))],
            items: vec![],
            public: true,
            token: pkg_ident.token,
        });
        let sig = var(&mut strs, "sig", TypeKind::Logic, 3);
        let ga = args(&mut strs);
        let inst = EntityItem::Inst(InstDecl {
            ident: ident(&mut strs, "u", 4),
            target: veryla_analyzer::ast::ScopedIdent {
                base: ident(&mut strs, "PkgA", 4),
                path: vec![],
                span: TokenRange {
                    beg: tok(&mut strs, "PkgA", 4),
                    end: tok(&mut strs, "PkgA", 4),
                },
            },
            foreign: false,
            generic_args: ga,
            ports: vec![],
            token: tok(&mut strs, "inst", 4),
        });
        let unit = CompUnit { decls: vec![pkg, entity(&mut strs, "EntityA", vec![], vec![sig, inst])] };
        (strs, unit)
    };

    // one fixed argument; the second parameter has a default
    let (strs, unit) = build(|s| vec![num(s, 8, 4)]);
    let mut a = Analyzer::new();
    let mut errs = a.analyze_pass1(&unit, &strs);
    a.analyze_post_pass1();
    errs.extend(a.analyze_pass2(&unit, &strs));
    assert!(errs.is_empty());
    let n_before = a.table.symbols.len();
    assert!(matches!(
        a.table.symbols[n_before - 1].kind,
        SymbolKind::GenericInstance(_)
    ));
    // the same reference a second time adds nothing
    let errs2 = a.analyze_pass2(&unit, &strs);
    assert!(errs2.is_empty());
    assert_eq!(a.table.symbols.len(), n_before);

    // a runtime argument cannot be fixed at elaboration time
    let (strs, unit) = build(|s| vec![rref(s, "sig", 4)]);
    let errors = analyze(&strs, &unit);
    assert!(errors.iter().any(|e| matches!(e.code, DiagCode::UnresolvableGenericArgument)));
}

#[test]
fn mismatch_generics_arity() {
    // three arguments against two declared parameters
    let mut strs = StrTable::new();
    let pkg_ident = ident(&mut strs, "PkgA", 1);
    let w = ident(&mut strs, "W", 1);
    let d = ident(&mut strs, "D", 1);
    let pkg = Declaration::Package(PackageDecl {
        ident: pkg_ident,
        generic_parameters: vec![(w, None), (d, None)],
        items: vec![],
        public: true,
        token: pkg_ident.token,
    });
    let a0 = num(&mut strs, 1, 4);
    let a1 = num(&mut strs, 2, 4);
    let a2 = num(&mut strs, 3, 4);
    let inst = EntityItem::Inst(InstDecl {
        ident: ident(&mut strs, "u", 4),
        target: veryla_analyzer::ast::ScopedIdent {
            base: ident(&mut strs, "PkgA", 4),
            path: vec![],
            span: TokenRange { beg: tok(&mut strs, "PkgA", 4), end: tok(&mut strs, "PkgA", 4) },
        },
        foreign: false,
        generic_args: vec![a0, a1, a2],
        ports: vec![],
        token: tok(&mut strs, "inst", 4),
    });
    let unit = CompUnit { decls: vec![pkg, entity(&mut strs, "EntityA", vec![], vec![inst])] };
    let errors = analyze(&strs, &unit);
    assert!(errors.iter().any(|e| matches!(e.code, DiagCode::MismatchGenericsArity)));
}

#[test]
fn missing_default_generic_argument() {
    // one argument against two parameters, the second without default
    let mut strs = StrTable::new();
    let pkg_ident = ident(&mut strs, "PkgA", 1);
    let w = ident(&mut strs, "W", 1);
    let d = ident(&mut strs, "D", 1);
    let pkg = Declaration::Package(PackageDecl {
        ident: pkg_ident,
        generic_parameters: vec![(w, None), (d, None)],
        items: vec![],
        public: true,
        token: pkg_ident.token,
    });
    let a0 = num(&mut strs, 1, 4);
    let inst = EntityItem::Inst(InstDecl {
        ident: ident(&mut strs, "u", 4),
        target: veryla_analyzer::ast::ScopedIdent {
            base: ident(&mut strs, "PkgA", 4),
            path: vec![],
            span: TokenRange { beg: tok(&mut strs, "PkgA", 4), end: tok(&mut strs, "PkgA", 4) },
        },
        foreign: false,
        generic_args: vec![a0],
        ports: vec![],
        token: tok(&mut strs, "inst", 4),
    });
    let unit = CompUnit { decls: vec![pkg, entity(&mut strs, "EntityA", vec![], vec![inst])] };
    let errors = analyze(&strs, &unit);
    assert!(errors.iter().any(|e| matches!(e.code, DiagCode::MissingDefaultArgument)));
    assert!(errors.iter().any(|e| e.fields.first().map(|f| f == "D").unwrap_or(false)));
}

#[test]
fn wrong_seperator() {
    // namespace syntax on an instance asks for member access
    let mut strs = StrTable::new();
    let callee = entity(&mut strs, "EntityD", vec![], vec![]);
    let a = var(&mut strs, "a", TypeKind::Logic, 2);
    let inst = EntityItem::Inst(InstDecl {
        ident: ident(&mut strs, "u", 3),
        target: veryla_analyzer::ast::ScopedIdent {
            base: ident(&mut strs, "EntityD", 3),
            path: vec![],
            span: TokenRange { beg: tok(&mut strs, "EntityD", 3), end: tok(&mut strs, "EntityD", 3) },
        },
        foreign: false,
        generic_args: vec![],
        ports: vec![],
        token: tok(&mut strs, "inst", 3),
    });
    let u = ident(&mut strs, "u", 4);
    let x = ident(&mut strs, "x", 4);
    let rhs = Expr::Ref(ExprRef {
        scope: vec![u],
        base: x,
        base_selects: 0,
        members: vec![],
        span: TokenRange { beg: u.token, end: x.token },
    });
    let t = tok(&mut strs, "=", 4);
    let asn = EntityItem::AssignDecl { target: hier(&mut strs, "a", 0, 4), rhs, token: t };
    let caller = entity(&mut strs, "EntityC", vec![], vec![a, inst, asn]);
    let unit = CompUnit { decls: vec![callee, caller] };
    let errors = analyze(&strs, &unit);
    let seps: Vec<_> = errors.iter().filter(|e| matches!(e.code, DiagCode::WrongSeparator)).collect();
    assert_eq!(seps.len(), 1);
    assert_eq!(seps[0].fields[0], ".");

    // member access on an enum asks for namespace syntax
    let mut strs = StrTable::new();
    let ed = enum_decl(&mut strs, "EnumA", Some(1), EnumEncoding::Sequential, vec![("X", None)]);
    let a = var(&mut strs, "a", TypeKind::Logic, 3);
    let b = ident(&mut strs, "EnumA", 4);
    let m = ident(&mut strs, "X", 4);
    let rhs = Expr::Ref(ExprRef {
        scope: vec![],
        base: b,
        base_selects: 0,
        members: vec![veryla_analyzer::ast::HierMember { ident: m, selects: 0 }],
        span: TokenRange { beg: b.token, end: m.token },
    });
    let t = tok(&mut strs, "=", 4);
    let asn = EntityItem::AssignDecl { target: hier(&mut strs, "a", 0, 4), rhs, token: t };
    let unit = CompUnit { decls: vec![entity(&mut strs, "EntityA", vec![], vec![ed, a, asn])] };
    let errors = analyze(&strs, &unit);
    let seps: Vec<_> = errors.iter().filter(|e| matches!(e.code, DiagCode::WrongSeparator)).collect();
    assert_eq!(seps.len(), 1);
    assert_eq!(seps[0].fields[0], "::");
}

use vstd::prelude::*;
use crate::token::{StrId, Token};

verus! {

/// A clock-domain tag attached to signals for crossing-hazard detection:
/// either unspecified or a named domain.
#[derive(Clone, Copy, Debug, PartialEq, Eq, Structural)]
pub enum PowerDomain {
    Unspecified,
    Named(StrId),
}

/// What it means for two power domains to be compatible: equal, or at
/// least one of them unspecified.
pub open spec fn domain_compatible(a: PowerDomain, b: PowerDomain) -> bool {
    a == b || a is Unspecified || b is Unspecified
}

impl PowerDomain {
    /// Exec check matching `domain_compatible`.
    pub fn compatible(&self, other: &PowerDomain) -> (r: bool)
        ensures
            r == domain_compatible(*self, *other),
    {
        match (self, other) {
            (PowerDomain::Unspecified, _) => true,
            (_, PowerDomain::Unspecified) => true,
            (PowerDomain::Named(a), PowerDomain::Named(b)) => a == b,
        }
    }
}

/// The label of a power domain, as diagnostics spell it.
pub open spec fn domain_label(strs: crate::token::StrTable, d: PowerDomain) -> Seq<char> {
    match d {
        PowerDomain::Unspecified => "none"@,
        PowerDomain::Named(id) => crate::token::name_view(strs, id),
    }
}

impl PowerDomain {
    /// The label of this domain, as diagnostics spell it.
    pub fn label<'a>(&self, strs: &'a crate::token::StrTable) -> (s: &'a str)
        ensures
            s@ == domain_label(*strs, *self),
    {
        match self {
            PowerDomain::Unspecified => "none",
            PowerDomain::Named(id) => strs.get_name(*id),
        }
    }
}

/// Compatibility of power domains is reflexive.
pub proof fn lemma_domain_compatible_reflexive(a: PowerDomain)
    ensures
        domain_compatible(a, a),
{
}

/// Compatibility of power domains is symmetric.
pub proof fn lemma_domain_compatible_symmetric(a: PowerDomain, b: PowerDomain)
    ensures
        domain_compatible(a, b) == domain_compatible(b, a),
{
}

/// The element kind of a type: ordinary bit/logic/numeric kinds, the
/// three clock kinds, the three reset kinds, and user-defined names.
#[derive(Clone, Copy, Debug, PartialEq, Eq, Structural)]
pub enum TypeKind {
    Bit,
    Logic,
    U32,
    U64,
    I32,
    I64,
    Power,
    PowerPosedge,
    PowerNegedge,
    Enable,
    EnableHigh,
    EnableLow,
    UserDefined(StrId),
}

impl TypeKind {
    /// Whether this is one of the three clock kinds.
    pub fn is_power(&self) -> (r: bool)
        ensures
            r == kind_is_power(*self),
    {
        matches!(self, TypeKind::Power | TypeKind::PowerPosedge | TypeKind::PowerNegedge)
    }

    /// Whether this is one of the three reset kinds.
    pub fn is_enable(&self) -> (r: bool)
        ensures
            r == kind_is_enable(*self),
    {
        matches!(self, TypeKind::Enable | TypeKind::EnableHigh | TypeKind::EnableLow)
    }
}

pub open spec fn kind_is_power(k: TypeKind) -> bool {
    k is Power || k is PowerPosedge || k is PowerNegedge
}

pub open spec fn kind_is_enable(k: TypeKind) -> bool {
    k is Enable || k is EnableHigh || k is EnableLow
}

/// A type: an element kind, packed width dimensions and unpacked array
/// dimensions (already elaborated to sizes), and the tri-state modifier.
#[derive(Clone, Debug)]
pub struct Type {
    pub kind: TypeKind,
    pub width: Vec<u64>,
    pub array: Vec<u64>,
    pub tri: bool,
}

/// Deep equality of two types.
pub open spec fn type_eq(a: Type, b: Type) -> bool {
    a.kind == b.kind && a.width@ == b.width@ && a.array@ == b.array@ && a.tri == b.tri
}

/// Exec check matching `type_eq`.
pub fn type_equal(a: &Type, b: &Type) -> (r: bool)
    ensures
        r == type_eq(*a, *b),
{
    let mut same = a.kind == b.kind && a.tri == b.tri && a.width.len() == b.width.len()
        && a.array.len() == b.array.len();
    if !same {
        proof {
            assert(a.width@.len() != b.width@.len() ==> a.width@ != b.width@);
            assert(a.array@.len() != b.array@.len() ==> a.array@ != b.array@);
        }
        return false;
    }
    let n = a.width.len();
    for i in 0..n
        invariant
            same,
            n == a.width@.len() == b.width@.len(),
            forall|j: int| 0 <= j < i ==> a.width@[j] == b.width@[j],
    {
        if a.width[i] != b.width[i] {
            return false;
        }
    }
    let m = a.array.len();
    for i in 0..m
        invariant
            same,
            m == a.array@.len() == b.array@.len(),
            forall|j: int| 0 <= j < i ==> a.array@[j] == b.array@[j],
    {
        if a.array[i] != b.array[i] {
            return false;
        }
    }
    proof {
        assert(a.width@ =~= b.width@);
        assert(a.array@ =~= b.array@);
    }
    true
}

impl Type {
    /// How many index/selection operations a reference to a value of
    /// this type must apply to reach a scalar element: one per packed
    /// width dimension plus one per array dimension.
    pub fn select_count(&self) -> (n: usize)
        ensures
            n == type_select_count(*self),
    {
        proof {
            assert(self.width.len() == self.width@.len());
            assert(self.array.len() == self.array@.len());
        }
        if usize::MAX - self.width.len() >= self.array.len() {
            self.width.len() + self.array.len()
        } else {
            usize::MAX
        }
    }
}

/// The combined width and array dimensionality of a type, saturated at
/// the machine limit.
pub open spec fn type_select_count(t: Type) -> int {
    if t.width@.len() + t.array@.len() <= usize::MAX as int {
        t.width@.len() + t.array@.len() as int
    } else {
        usize::MAX as int
    }
}

/// Direction of a port.
#[derive(Clone, Copy, Debug, PartialEq, Eq, Structural)]
pub enum Direction {
    Input,
    Output,
    Inout,
    Ref,
    Modport,
    Import,
}

/// The label of a direction, as diagnostics spell it.
pub open spec fn direction_label(d: Direction) -> Seq<char> {
    match d {
        Direction::Input => "input"@,
        Direction::Output => "output"@,
        Direction::Inout => "inout"@,
        Direction::Ref => "ref"@,
        Direction::Modport => "modport"@,
        Direction::Import => "import"@,
    }
}

impl Direction {
    /// The label of this direction, as diagnostics spell it.
    pub fn name(&self) -> (s: &'static str)
        ensures
            s@ == direction_label(*self),
    {
        match self {
            Direction::Input => "input",
            Direction::Output => "output",
            Direction::Inout => "inout",
            Direction::Ref => "ref",
            Direction::Modport => "modport",
            Direction::Import => "import",
        }
    }
}

/// The per-port data carried by a port symbol and by the port list of an
/// entity symbol.
#[derive(Clone, Debug)]
pub struct PortProperty {
    pub name: StrId,
    pub direction: Direction,
    pub ty: Option<Type>,
    pub power_domain: PowerDomain,
}

/// The per-variable data carried by a variable symbol.
#[derive(Clone, Debug)]
pub struct VariableProperty {
    pub ty: Type,
    pub power_domain: PowerDomain,
}

/// The data carried by a constant symbol: its type and its value as
/// the constant evaluator settled it.
#[derive(Clone, Debug)]
pub struct ConstProperty {
    pub ty: Type,
    pub value: crate::evaluator::Evaluated,
}

/// A generic parameter declaration: its name and its default argument,
/// if one was declared.
#[derive(Clone, Copy, Debug, PartialEq, Eq, Structural)]
pub struct GenericParameter {
    pub name: StrId,
    pub default_value: Option<u64>,
}

/// The data carried by a module/entity symbol.
#[derive(Clone, Debug)]
pub struct EntityProperty {
    pub params: Vec<ParamDecl>,
    pub ports: Vec<PortProperty>,
    pub default_power: Option<usize>,
    pub default_enable: Option<usize>,
    pub generic_parameters: Vec<GenericParameter>,
    pub proto: Option<StrId>,
}

/// An elaboration-time parameter of a prototype: its name and type.
#[derive(Clone, Debug)]
pub struct ParamDecl {
    pub name: StrId,
    pub ty: Type,
}

/// The data carried by an entity prototype symbol.
#[derive(Clone, Debug)]
pub struct ProtoEntityProperty {
    pub params: Vec<ParamDecl>,
    pub ports: Vec<PortProperty>,
}

/// The data carried by a function symbol.
#[derive(Clone, Debug)]
pub struct FunctionProperty {
    pub ports: Vec<PortProperty>,
    pub has_return: bool,
}

/// Encoding discipline of an enum.
#[derive(Clone, Copy, Debug, PartialEq, Eq, Structural)]
pub enum EnumEncoding {
    Sequential,
    OneHot,
    Gray,
}

/// The data carried by an enum symbol.
#[derive(Clone, Debug)]
pub struct EnumProperty {
    pub width: u64,
    pub encoding: EnumEncoding,
    pub members: Vec<StrId>,
}

/// The data carried by a struct or union symbol: member names with the
/// names of their (possibly user-defined) types.
#[derive(Clone, Debug)]
pub struct CompositeProperty {
    pub members: Vec<(StrId, TypeKind)>,
}

/// The data carried by a symbol made by generic instantiation: the base
/// generic symbol and the evaluated argument tuple.
#[derive(Clone, Debug)]
pub struct GenericInstanceProperty {
    pub base: usize,
    pub args: Vec<u64>,
}

/// The data carried by an instance symbol: the name of the instantiated
/// entity.
#[derive(Clone, Copy, Debug, PartialEq, Eq, Structural)]
pub struct InstanceProperty {
    pub entity_name: StrId,
}

/// The tagged kind of a declared symbol, with its kind-specific data.
#[derive(Clone, Debug)]
pub enum SymbolKind {
    Entity(EntityProperty),
    ProtoEntity(ProtoEntityProperty),
    Port(PortProperty),
    Variable(VariableProperty),
    Constant(ConstProperty),
    Function(FunctionProperty),
    Package(Vec<GenericParameter>),
    Interface(Vec<GenericParameter>),
    Modport,
    StructDef(CompositeProperty),
    EnumDef(EnumProperty),
    EnumMember(u64),
    GenericParameter(GenericParameter),
    GenericInstance(GenericInstanceProperty),
    Instance(InstanceProperty),
    SystemVerilog,
}

/// The short name of a symbol kind, as diagnostics spell it.
pub open spec fn kind_label(k: SymbolKind) -> Seq<char> {
    match k {
        SymbolKind::Entity(_) => "entity"@,
        SymbolKind::ProtoEntity(_) => "entity prototype"@,
        SymbolKind::Port(_) => "port"@,
        SymbolKind::Variable(_) => "variable"@,
        SymbolKind::Constant(_) => "constant"@,
        SymbolKind::Function(_) => "function"@,
        SymbolKind::Package(_) => "package"@,
        SymbolKind::Interface(_) => "interface"@,
        SymbolKind::Modport => "modport"@,
        SymbolKind::StructDef(_) => "struct"@,
        SymbolKind::EnumDef(_) => "enum"@,
        SymbolKind::EnumMember(_) => "enum member"@,
        SymbolKind::GenericParameter(_) => "generic parameter"@,
        SymbolKind::GenericInstance(_) => "generic instance"@,
        SymbolKind::Instance(_) => "instance"@,
        SymbolKind::SystemVerilog => "systemverilog"@,
    }
}

impl SymbolKind {
    /// A short name for the kind, used in diagnostics.
    pub fn to_kind_name(&self) -> (s: &'static str)
        ensures
            s@ == kind_label(*self),
    {
        match self {
            SymbolKind::Entity(_) => "entity",
            SymbolKind::ProtoEntity(_) => "entity prototype",
            SymbolKind::Port(_) => "port",
            SymbolKind::Variable(_) => "variable",
            SymbolKind::Constant(_) => "constant",
            SymbolKind::Function(_) => "function",
            SymbolKind::Package(_) => "package",
            SymbolKind::Interface(_) => "interface",
            SymbolKind::Modport => "modport",
            SymbolKind::StructDef(_) => "struct",
            SymbolKind::EnumDef(_) => "enum",
            SymbolKind::EnumMember(_) => "enum member",
            SymbolKind::GenericParameter(_) => "generic parameter",
            SymbolKind::GenericInstance(_) => "generic instance",
            SymbolKind::Instance(_) => "instance",
            SymbolKind::SystemVerilog => "systemverilog",
        }
    }
}

/// A declared entity in the symbol table: its defining token, enclosing
/// namespace path, visibility, and tagged kind.
#[derive(Clone, Debug)]
pub struct Symbol {
    pub token: Token,
    pub namespace: Vec<StrId>,
    pub public: bool,
    pub kind: SymbolKind,
}

/// One way a concrete entity can fail to conform to a prototype.
#[derive(Clone, Copy, Debug, PartialEq, Eq, Structural)]
pub enum ProtoIncompatible {
    MissingParam(StrId),
    MissingPort(StrId),
    UnnecessaryParam(StrId),
    UnnecessaryPort(StrId),
    IncompatibleParam(StrId),
    IncompatiblePort(StrId),
}

/// The first parameter of a list with the given name.
pub open spec fn find_param(params: Seq<ParamDecl>, name: StrId, i: int) -> Option<int>
    decreases params.len() - i,
{
    if i < 0 || i >= params.len() {
        Option::None
    } else if params[i].name == name {
        Option::Some(i)
    } else {
        find_param(params, name, i + 1)
    }
}

/// The first port of a list with the given name.
pub open spec fn find_port(ports: Seq<PortProperty>, name: StrId, i: int) -> Option<int>
    decreases ports.len() - i,
{
    if i < 0 || i >= ports.len() {
        Option::None
    } else if ports[i].name == name {
        Option::Some(i)
    } else {
        find_port(ports, name, i + 1)
    }
}

/// Equality of optional types.
pub open spec fn opt_type_eq(a: Option<Type>, b: Option<Type>) -> bool {
    match (a, b) {
        (Option::Some(x), Option::Some(y)) => type_eq(x, y),
        (Option::None, Option::None) => true,
        _ => false,
    }
}

/// The conformance failures of the first `n` expected parameters:
/// missing from the entity, or present with an incompatible type.
pub open spec fn param_diffs(pp: Seq<ParamDecl>, ep: Seq<ParamDecl>, n: int) -> Seq<
    ProtoIncompatible,
>
    decreases n,
{
    if n <= 0 || n > pp.len() {
        Seq::empty()
    } else {
        param_diffs(pp, ep, n - 1) + (match find_param(ep, pp[n - 1].name, 0) {
            Option::None => seq![ProtoIncompatible::MissingParam(pp[n - 1].name)],
            Option::Some(j) => if !type_eq(pp[n - 1].ty, ep[j].ty) {
                seq![ProtoIncompatible::IncompatibleParam(pp[n - 1].name)]
            } else {
                Seq::empty()
            },
        })
    }
}

/// The first `n` actual parameters the prototype never asked for.
pub open spec fn extra_params(pp: Seq<ParamDecl>, ep: Seq<ParamDecl>, n: int) -> Seq<
    ProtoIncompatible,
>
    decreases n,
{
    if n <= 0 || n > ep.len() {
        Seq::empty()
    } else {
        extra_params(pp, ep, n - 1) + (match find_param(pp, ep[n - 1].name, 0) {
            Option::None => seq![ProtoIncompatible::UnnecessaryParam(ep[n - 1].name)],
            Option::Some(_) => Seq::empty(),
        })
    }
}

/// The conformance failures of the first `n` expected ports: missing
/// from the entity, or present with an incompatible type or direction.
pub open spec fn port_diffs(pp: Seq<PortProperty>, ep: Seq<PortProperty>, n: int) -> Seq<
    ProtoIncompatible,
>
    decreases n,
{
    if n <= 0 || n > pp.len() {
        Seq::empty()
    } else {
        port_diffs(pp, ep, n - 1) + (match find_port(ep, pp[n - 1].name, 0) {
            Option::None => seq![ProtoIncompatible::MissingPort(pp[n - 1].name)],
            Option::Some(j) => if !opt_type_eq(pp[n - 1].ty, ep[j].ty) || pp[n - 1].direction
                != ep[j].direction {
                seq![ProtoIncompatible::IncompatiblePort(pp[n - 1].name)]
            } else {
                Seq::empty()
            },
        })
    }
}

/// The first `n` actual ports the prototype never asked for.
pub open spec fn extra_ports(pp: Seq<PortProperty>, ep: Seq<PortProperty>, n: int) -> Seq<
    ProtoIncompatible,
>
    decreases n,
{
    if n <= 0 || n > ep.len() {
        Seq::empty()
    } else {
        extra_ports(pp, ep, n - 1) + (match find_port(pp, ep[n - 1].name, 0) {
            Option::None => seq![ProtoIncompatible::UnnecessaryPort(ep[n - 1].name)],
            Option::Some(_) => Seq::empty(),
        })
    }
}

/// Every conformance failure of an entity against a prototype: the
/// expected-side differences first, then the unnecessary actuals, for
/// parameters and then ports.
pub open spec fn proto_compat_spec(proto: ProtoEntityProperty, entity: EntityProperty) -> Seq<
    ProtoIncompatible,
> {
    param_diffs(proto.params@, entity.params@, proto.params@.len() as int) + extra_params(
        proto.params@,
        entity.params@,
        entity.params@.len() as int,
    ) + port_diffs(proto.ports@, entity.ports@, proto.ports@.len() as int) + extra_ports(
        proto.ports@,
        entity.ports@,
        entity.ports@.len() as int,
    )
}

/// Exec lookup matching `find_param`.
#[verifier::loop_isolation(false)]
fn find_param_exec(params: &Vec<ParamDecl>, name: StrId) -> (r: Option<usize>)
    ensures
        match r {
            Option::Some(j) => find_param(params@, name, 0) == Option::Some(j as int) && j
                < params@.len(),
            Option::None => find_param(params@, name, 0) is None,
        },
{
    let n = params.len();
    for i in 0..n
        invariant
            find_param(params@, name, 0) == find_param(params@, name, i as int),
    {
        if params[i].name == name {
            return Some(i);
        }
    }
    None
}

/// Exec lookup matching `find_port`.
#[verifier::loop_isolation(false)]
fn find_port_exec(ports: &Vec<PortProperty>, name: StrId) -> (r: Option<usize>)
    ensures
        match r {
            Option::Some(j) => find_port(ports@, name, 0) == Option::Some(j as int) && j
                < ports@.len(),
            Option::None => find_port(ports@, name, 0) is None,
        },
{
    let n = ports.len();
    for i in 0..n
        invariant
            find_port(ports@, name, 0) == find_port(ports@, name, i as int),
    {
        if ports[i].name == name {
            return Some(i);
        }
    }
    None
}

/// Exec equality matching `opt_type_eq`.
fn opt_type_equal(a: &Option<Type>, b: &Option<Type>) -> (r: bool)
    ensures
        r == opt_type_eq(*a, *b),
{
    match (a, b) {
        (Option::Some(x), Option::Some(y)) => type_equal(x, y),
        (Option::None, Option::None) => true,
        _ => false,
    }
}

impl ProtoEntityProperty {
    /// Computes the set-difference of the expected and actual
    /// parameters and ports, one failure per mismatch.
    #[verifier::loop_isolation(false)]
    pub fn check_compat(&self, entity: &EntityProperty) -> (r: Vec<ProtoIncompatible>)
        ensures
            r@ == proto_compat_spec(*self, *entity),
    {
        let mut out: Vec<ProtoIncompatible> = Vec::new();
        let n1 = self.params.len();
        for i in 0..n1
            invariant
                out@ == param_diffs(self.params@, entity.params@, i as int),
        {
            match find_param_exec(&entity.params, self.params[i].name) {
                Option::None => out.push(ProtoIncompatible::MissingParam(self.params[i].name)),
                Option::Some(j) => {
                    if !type_equal(&self.params[i].ty, &entity.params[j].ty) {
                        out.push(ProtoIncompatible::IncompatibleParam(self.params[i].name));
                    }
                },
            }
            proof {
                assert(out@ =~= param_diffs(self.params@, entity.params@, i + 1 as int));
            }
        }
        let ghost f1 = out@;
        let n2 = entity.params.len();
        for i in 0..n2
            invariant
                out@ == f1 + extra_params(self.params@, entity.params@, i as int),
        {
            match find_param_exec(&self.params, entity.params[i].name) {
                Option::None => out.push(
                    ProtoIncompatible::UnnecessaryParam(entity.params[i].name),
                ),
                Option::Some(_) => {},
            }
            proof {
                assert(out@ =~= f1 + extra_params(self.params@, entity.params@, i + 1 as int));
            }
        }
        let ghost f2 = out@;
        let n3 = self.ports.len();
        for i in 0..n3
            invariant
                out@ == f2 + port_diffs(self.ports@, entity.ports@, i as int),
        {
            match find_port_exec(&entity.ports, self.ports[i].name) {
                Option::None => out.push(ProtoIncompatible::MissingPort(self.ports[i].name)),
                Option::Some(j) => {
                    if !opt_type_equal(&self.ports[i].ty, &entity.ports[j].ty) || !(
                    self.ports[i].direction == entity.ports[j].direction) {
                        out.push(ProtoIncompatible::IncompatiblePort(self.ports[i].name));
                    }
                },
            }
            proof {
                assert(out@ =~= f2 + port_diffs(self.ports@, entity.ports@, i + 1 as int));
            }
        }
        let ghost f3 = out@;
        let n4 = entity.ports.len();
        for i in 0..n4
            invariant
                out@ == f3 + extra_ports(self.ports@, entity.ports@, i as int),
        {
            match find_port_exec(&self.ports, entity.ports[i].name) {
                Option::None => out.push(ProtoIncompatible::UnnecessaryPort(entity.ports[i].name)),
                Option::Some(_) => {},
            }
            proof {
                assert(out@ =~= f3 + extra_ports(self.ports@, entity.ports@, i + 1 as int));
            }
        }
        proof {
            assert(out@ =~= proto_compat_spec(*self, *entity));
        }
        out
    }
}

} // verus!

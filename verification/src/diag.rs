use vstd::prelude::*;
use vstd::string::StringExecFns;
use crate::token::TokenRange;

verus! {

/// How serious a diagnostic is: errors block code generation, warnings
/// do not.
#[derive(Clone, Copy, Debug, PartialEq, Eq, Structural)]
pub enum Severity {
    Error,
    Warning,
}

/// The stable machine-readable code of a diagnostic.
#[derive(Clone, Copy, Debug, PartialEq, Eq, Structural)]
pub enum DiagCode {
    AnonymousIdentifierUsage,
    CallNonFunction,
    CyclicTypeDependency,
    DuplicatedIdentifier,
    MultipleAssignment,
    InvalidAllow,
    InvalidAssignment,
    InvalidAssignmentToConst,
    InvalidDirection,
    InvalidFactor,
    InvalidIdentifier,
    InvalidImport,
    InvalidLsb,
    InvalidMsb,
    InvalidNumberCharacter,
    InvalidStatement,
    InvalidPower,
    InvalidEnable,
    InvalidEnableNonElaborative,
    InvalidCaseConditionNonElaborative,
    InvalidCast,
    InvalidTest,
    InvalidModportVariableItem,
    InvalidModportFunctionItem,
    InvalidPortDefaultValue,
    IncompatProto,
    MissingDefaultArgument,
    MismatchFunctionArity,
    MismatchGenericsArity,
    MismatchType,
    MismatchPowerDomain,
    MissingPowerSignal,
    MissingIfEnable,
    MissingEnableSignal,
    MissingEnableStatement,
    MissingTri,
    MissingPowerDomain,
    MismatchAttributeArgs,
    MissingPort,
    SvKeywordUsage,
    SvWithImplicitEnable,
    InvalidEnumEncoding,
    InvalidCondType,
    TooLargeEnumVariant,
    UnevaluatableEnumVariant,
    InvalidEnumVariantValue,
    TooLargeNumber,
    TooMuchEnumVariant,
    UndefinedIdentifier,
    ReferringPackageBeforeDefinition,
    UnresolvableGenericArgument,
    UnknownAttribute,
    UnknownEmbedLang,
    UnknownEmbedWay,
    UnknownSourceWay,
    UnknownMember,
    UnknownUnsafe,
    PrivateMember,
    UnknownMsb,
    UnknownPort,
    UnknownParam,
    UnusedVariable,
    UnusedReturn,
    UnassignVariable,
    UncoveredBranch,
    ReservedIdentifier,
    SourceReadFailure,
    WrongSeparator,
}

/// The severity attached to each diagnostic code.
pub open spec fn severity_of(code: DiagCode) -> Severity {
    match code {
        DiagCode::InvalidIdentifier
        | DiagCode::MismatchPowerDomain
        | DiagCode::MissingEnableStatement
        | DiagCode::MissingPort
        | DiagCode::UnusedVariable
        | DiagCode::UnusedReturn
        | DiagCode::UnassignVariable
        | DiagCode::UncoveredBranch => Severity::Warning,
        _ => Severity::Error,
    }
}

/// One diagnostic: a tagged code with its severity, the interpolated
/// identifier fields and numeric fields of its message in order, a
/// primary source span, and zero or more secondary labeled spans.
#[derive(Clone, Debug)]
pub struct Diagnostic {
    pub severity: Severity,
    pub code: DiagCode,
    pub fields: Vec<String>,
    pub nums: Vec<u64>,
    pub primary: TokenRange,
    pub secondaries: Vec<TokenRange>,
}

/// A diagnostic is well formed when its severity is the one its code
/// carries.
pub open spec fn diag_wf(d: Diagnostic) -> bool {
    d.severity == severity_of(d.code)
}

fn fields0() -> (v: Vec<String>)
    ensures
        v@.len() == 0,
{
    Vec::new()
}

fn fields1(a: &str) -> (v: Vec<String>)
    ensures
        v@.len() == 1,
        v@[0]@ == a@,
{
    let mut v: Vec<String> = Vec::new();
    v.push(String::from_str(a));
    v
}

fn fields2(a: &str, b: &str) -> (v: Vec<String>)
    ensures
        v@.len() == 2,
        v@[0]@ == a@,
        v@[1]@ == b@,
{
    let mut v: Vec<String> = Vec::new();
    v.push(String::from_str(a));
    v.push(String::from_str(b));
    v
}

fn fields3(a: &str, b: &str, c: &str) -> (v: Vec<String>)
    ensures
        v@.len() == 3,
        v@[0]@ == a@,
        v@[1]@ == b@,
        v@[2]@ == c@,
{
    let mut v: Vec<String> = Vec::new();
    v.push(String::from_str(a));
    v.push(String::from_str(b));
    v.push(String::from_str(c));
    v
}

fn nums0() -> (v: Vec<u64>)
    ensures
        v@ == Seq::<u64>::empty(),
{
    let v: Vec<u64> = Vec::new();
    proof {
        assert(v@ =~= Seq::<u64>::empty());
    }
    v
}

fn nums1(a: u64) -> (v: Vec<u64>)
    ensures
        v@ == seq![a],
{
    let mut v: Vec<u64> = Vec::new();
    v.push(a);
    proof {
        assert(v@ =~= seq![a]);
    }
    v
}

fn nums2(a: u64, b: u64) -> (v: Vec<u64>)
    ensures
        v@ == seq![a, b],
{
    let mut v: Vec<u64> = Vec::new();
    v.push(a);
    v.push(b);
    proof {
        assert(v@ =~= seq![a, b]);
    }
    v
}

fn spans0() -> (v: Vec<TokenRange>)
    ensures
        v@ == Seq::<TokenRange>::empty(),
{
    let v: Vec<TokenRange> = Vec::new();
    proof {
        assert(v@ =~= Seq::<TokenRange>::empty());
    }
    v
}

fn spans1(a: &TokenRange) -> (v: Vec<TokenRange>)
    ensures
        v@ == seq![*a],
{
    let mut v: Vec<TokenRange> = Vec::new();
    v.push(*a);
    proof {
        assert(v@ =~= seq![*a]);
    }
    v
}

fn spans2(a: &TokenRange, b: &TokenRange) -> (v: Vec<TokenRange>)
    ensures
        v@ == seq![*a, *b],
{
    let mut v: Vec<TokenRange> = Vec::new();
    v.push(*a);
    v.push(*b);
    proof {
        assert(v@ =~= seq![*a, *b]);
    }
    v
}

impl Diagnostic {
    pub fn anonymous_identifier_usage(token: &TokenRange) -> (d: Diagnostic)
        ensures
            d.code == DiagCode::AnonymousIdentifierUsage,
            d.severity == severity_of(d.code),
            d.fields@.len() == 0,
            d.nums@ == Seq::<u64>::empty(),
            d.primary == *token,
            d.secondaries@ == Seq::<TokenRange>::empty(),
    {
        Diagnostic {
            severity: Severity::Error,
            code: DiagCode::AnonymousIdentifierUsage,
            fields: fields0(),
            nums: nums0(),
            primary: *token,
            secondaries: spans0(),
        }
    }

    pub fn call_non_function(identifier: &str, kind: &str, token: &TokenRange) -> (d: Diagnostic)
        ensures
            d.code == DiagCode::CallNonFunction,
            d.severity == severity_of(d.code),
            d.fields@.len() == 2,
            d.fields@[0]@ == identifier@,
            d.fields@[1]@ == kind@,
            d.nums@ == Seq::<u64>::empty(),
            d.primary == *token,
            d.secondaries@ == Seq::<TokenRange>::empty(),
    {
        Diagnostic {
            severity: Severity::Error,
            code: DiagCode::CallNonFunction,
            fields: fields2(identifier, kind),
            nums: nums0(),
            primary: *token,
            secondaries: spans0(),
        }
    }

    pub fn cyclic_type_dependency(start: &str, end: &str, token: &TokenRange) -> (d: Diagnostic)
        ensures
            d.code == DiagCode::CyclicTypeDependency,
            d.severity == severity_of(d.code),
            d.fields@.len() == 2,
            d.fields@[0]@ == start@,
            d.fields@[1]@ == end@,
            d.nums@ == Seq::<u64>::empty(),
            d.primary == *token,
            d.secondaries@ == Seq::<TokenRange>::empty(),
    {
        Diagnostic {
            severity: Severity::Error,
            code: DiagCode::CyclicTypeDependency,
            fields: fields2(start, end),
            nums: nums0(),
            primary: *token,
            secondaries: spans0(),
        }
    }

    pub fn duplicated_identifier(identifier: &str, token: &TokenRange) -> (d: Diagnostic)
        ensures
            d.code == DiagCode::DuplicatedIdentifier,
            d.severity == severity_of(d.code),
            d.fields@.len() == 1,
            d.fields@[0]@ == identifier@,
            d.nums@ == Seq::<u64>::empty(),
            d.primary == *token,
            d.secondaries@ == Seq::<TokenRange>::empty(),
    {
        Diagnostic {
            severity: Severity::Error,
            code: DiagCode::DuplicatedIdentifier,
            fields: fields1(identifier),
            nums: nums0(),
            primary: *token,
            secondaries: spans0(),
        }
    }

    pub fn multiple_assignment(identifier: &str, token: &TokenRange, assign_pos0: &TokenRange, assign_pos1: &TokenRange) -> (d: Diagnostic)
        ensures
            d.code == DiagCode::MultipleAssignment,
            d.severity == severity_of(d.code),
            d.fields@.len() == 1,
            d.fields@[0]@ == identifier@,
            d.nums@ == Seq::<u64>::empty(),
            d.primary == *token,
            d.secondaries@ == seq![*assign_pos0, *assign_pos1],
    {
        Diagnostic {
            severity: Severity::Error,
            code: DiagCode::MultipleAssignment,
            fields: fields1(identifier),
            nums: nums0(),
            primary: *token,
            secondaries: spans2(assign_pos0, assign_pos1),
        }
    }

    pub fn invalid_allow(identifier: &str, token: &TokenRange) -> (d: Diagnostic)
        ensures
            d.code == DiagCode::InvalidAllow,
            d.severity == severity_of(d.code),
            d.fields@.len() == 1,
            d.fields@[0]@ == identifier@,
            d.nums@ == Seq::<u64>::empty(),
            d.primary == *token,
            d.secondaries@ == Seq::<TokenRange>::empty(),
    {
        Diagnostic {
            severity: Severity::Error,
            code: DiagCode::InvalidAllow,
            fields: fields1(identifier),
            nums: nums0(),
            primary: *token,
            secondaries: spans0(),
        }
    }

    pub fn invalid_assignment(identifier: &str, kind: &str, token: &TokenRange) -> (d: Diagnostic)
        ensures
            d.code == DiagCode::InvalidAssignment,
            d.severity == severity_of(d.code),
            d.fields@.len() == 2,
            d.fields@[0]@ == identifier@,
            d.fields@[1]@ == kind@,
            d.nums@ == Seq::<u64>::empty(),
            d.primary == *token,
            d.secondaries@ == Seq::<TokenRange>::empty(),
    {
        Diagnostic {
            severity: Severity::Error,
            code: DiagCode::InvalidAssignment,
            fields: fields2(identifier, kind),
            nums: nums0(),
            primary: *token,
            secondaries: spans0(),
        }
    }

    pub fn invalid_assignment_to_const(identifier: &str, kind: &str, token: &TokenRange) -> (d: Diagnostic)
        ensures
            d.code == DiagCode::InvalidAssignmentToConst,
            d.severity == severity_of(d.code),
            d.fields@.len() == 2,
            d.fields@[0]@ == identifier@,
            d.fields@[1]@ == kind@,
            d.nums@ == Seq::<u64>::empty(),
            d.primary == *token,
            d.secondaries@ == Seq::<TokenRange>::empty(),
    {
        Diagnostic {
            severity: Severity::Error,
            code: DiagCode::InvalidAssignmentToConst,
            fields: fields2(identifier, kind),
            nums: nums0(),
            primary: *token,
            secondaries: spans0(),
        }
    }

    pub fn invalid_direction(kind: &str, token: &TokenRange) -> (d: Diagnostic)
        ensures
            d.code == DiagCode::InvalidDirection,
            d.severity == severity_of(d.code),
            d.fields@.len() == 1,
            d.fields@[0]@ == kind@,
            d.nums@ == Seq::<u64>::empty(),
            d.primary == *token,
            d.secondaries@ == Seq::<TokenRange>::empty(),
    {
        Diagnostic {
            severity: Severity::Error,
            code: DiagCode::InvalidDirection,
            fields: fields1(kind),
            nums: nums0(),
            primary: *token,
            secondaries: spans0(),
        }
    }

    pub fn invalid_factor(identifier: &str, kind: &str, token: &TokenRange) -> (d: Diagnostic)
        ensures
            d.code == DiagCode::InvalidFactor,
            d.severity == severity_of(d.code),
            d.fields@.len() == 2,
            d.fields@[0]@ == identifier@,
            d.fields@[1]@ == kind@,
            d.nums@ == Seq::<u64>::empty(),
            d.primary == *token,
            d.secondaries@ == Seq::<TokenRange>::empty(),
    {
        Diagnostic {
            severity: Severity::Error,
            code: DiagCode::InvalidFactor,
            fields: fields2(identifier, kind),
            nums: nums0(),
            primary: *token,
            secondaries: spans0(),
        }
    }

    pub fn invalid_identifier(identifier: &str, rule: &str, token: &TokenRange) -> (d: Diagnostic)
        ensures
            d.code == DiagCode::InvalidIdentifier,
            d.severity == severity_of(d.code),
            d.fields@.len() == 2,
            d.fields@[0]@ == identifier@,
            d.fields@[1]@ == rule@,
            d.nums@ == Seq::<u64>::empty(),
            d.primary == *token,
            d.secondaries@ == Seq::<TokenRange>::empty(),
    {
        Diagnostic {
            severity: Severity::Warning,
            code: DiagCode::InvalidIdentifier,
            fields: fields2(identifier, rule),
            nums: nums0(),
            primary: *token,
            secondaries: spans0(),
        }
    }

    pub fn invalid_import(token: &TokenRange) -> (d: Diagnostic)
        ensures
            d.code == DiagCode::InvalidImport,
            d.severity == severity_of(d.code),
            d.fields@.len() == 0,
            d.nums@ == Seq::<u64>::empty(),
            d.primary == *token,
            d.secondaries@ == Seq::<TokenRange>::empty(),
    {
        Diagnostic {
            severity: Severity::Error,
            code: DiagCode::InvalidImport,
            fields: fields0(),
            nums: nums0(),
            primary: *token,
            secondaries: spans0(),
        }
    }

    pub fn invalid_lsb(token: &TokenRange) -> (d: Diagnostic)
        ensures
            d.code == DiagCode::InvalidLsb,
            d.severity == severity_of(d.code),
            d.fields@.len() == 0,
            d.nums@ == Seq::<u64>::empty(),
            d.primary == *token,
            d.secondaries@ == Seq::<TokenRange>::empty(),
    {
        Diagnostic {
            severity: Severity::Error,
            code: DiagCode::InvalidLsb,
            fields: fields0(),
            nums: nums0(),
            primary: *token,
            secondaries: spans0(),
        }
    }

    pub fn invalid_msb(token: &TokenRange) -> (d: Diagnostic)
        ensures
            d.code == DiagCode::InvalidMsb,
            d.severity == severity_of(d.code),
            d.fields@.len() == 0,
            d.nums@ == Seq::<u64>::empty(),
            d.primary == *token,
            d.secondaries@ == Seq::<TokenRange>::empty(),
    {
        Diagnostic {
            severity: Severity::Error,
            code: DiagCode::InvalidMsb,
            fields: fields0(),
            nums: nums0(),
            primary: *token,
            secondaries: spans0(),
        }
    }

    pub fn invalid_number_character(kind: &str, cause: char, token: &TokenRange) -> (d: Diagnostic)
        ensures
            d.code == DiagCode::InvalidNumberCharacter,
            d.severity == severity_of(d.code),
            d.fields@.len() == 1,
            d.fields@[0]@ == kind@,
            d.nums@ == seq![cause as u64],
            d.primary == *token,
            d.secondaries@ == Seq::<TokenRange>::empty(),
    {
        Diagnostic {
            severity: Severity::Error,
            code: DiagCode::InvalidNumberCharacter,
            fields: fields1(kind),
            nums: nums1(cause as u64),
            primary: *token,
            secondaries: spans0(),
        }
    }

    pub fn invalid_statement(kind: &str, token: &TokenRange) -> (d: Diagnostic)
        ensures
            d.code == DiagCode::InvalidStatement,
            d.severity == severity_of(d.code),
            d.fields@.len() == 1,
            d.fields@[0]@ == kind@,
            d.nums@ == Seq::<u64>::empty(),
            d.primary == *token,
            d.secondaries@ == Seq::<TokenRange>::empty(),
    {
        Diagnostic {
            severity: Severity::Error,
            code: DiagCode::InvalidStatement,
            fields: fields1(kind),
            nums: nums0(),
            primary: *token,
            secondaries: spans0(),
        }
    }

    pub fn invalid_power(identifier: &str, token: &TokenRange) -> (d: Diagnostic)
        ensures
            d.code == DiagCode::InvalidPower,
            d.severity == severity_of(d.code),
            d.fields@.len() == 1,
            d.fields@[0]@ == identifier@,
            d.nums@ == Seq::<u64>::empty(),
            d.primary == *token,
            d.secondaries@ == Seq::<TokenRange>::empty(),
    {
        Diagnostic {
            severity: Severity::Error,
            code: DiagCode::InvalidPower,
            fields: fields1(identifier),
            nums: nums0(),
            primary: *token,
            secondaries: spans0(),
        }
    }

    pub fn invalid_enable(identifier: &str, token: &TokenRange) -> (d: Diagnostic)
        ensures
            d.code == DiagCode::InvalidEnable,
            d.severity == severity_of(d.code),
            d.fields@.len() == 1,
            d.fields@[0]@ == identifier@,
            d.nums@ == Seq::<u64>::empty(),
            d.primary == *token,
            d.secondaries@ == Seq::<TokenRange>::empty(),
    {
        Diagnostic {
            severity: Severity::Error,
            code: DiagCode::InvalidEnable,
            fields: fields1(identifier),
            nums: nums0(),
            primary: *token,
            secondaries: spans0(),
        }
    }

    pub fn invalid_enable_non_elaborative(token: &TokenRange) -> (d: Diagnostic)
        ensures
            d.code == DiagCode::InvalidEnableNonElaborative,
            d.severity == severity_of(d.code),
            d.fields@.len() == 0,
            d.nums@ == Seq::<u64>::empty(),
            d.primary == *token,
            d.secondaries@ == Seq::<TokenRange>::empty(),
    {
        Diagnostic {
            severity: Severity::Error,
            code: DiagCode::InvalidEnableNonElaborative,
            fields: fields0(),
            nums: nums0(),
            primary: *token,
            secondaries: spans0(),
        }
    }

    pub fn invalid_case_condition_non_elaborative(token: &TokenRange) -> (d: Diagnostic)
        ensures
            d.code == DiagCode::InvalidCaseConditionNonElaborative,
            d.severity == severity_of(d.code),
            d.fields@.len() == 0,
            d.nums@ == Seq::<u64>::empty(),
            d.primary == *token,
            d.secondaries@ == Seq::<TokenRange>::empty(),
    {
        Diagnostic {
            severity: Severity::Error,
            code: DiagCode::InvalidCaseConditionNonElaborative,
            fields: fields0(),
            nums: nums0(),
            primary: *token,
            secondaries: spans0(),
        }
    }

    pub fn invalid_cast(from_kind: &str, to_kind: &str, token: &TokenRange) -> (d: Diagnostic)
        ensures
            d.code == DiagCode::InvalidCast,
            d.severity == severity_of(d.code),
            d.fields@.len() == 2,
            d.fields@[0]@ == from_kind@,
            d.fields@[1]@ == to_kind@,
            d.nums@ == Seq::<u64>::empty(),
            d.primary == *token,
            d.secondaries@ == Seq::<TokenRange>::empty(),
    {
        Diagnostic {
            severity: Severity::Error,
            code: DiagCode::InvalidCast,
            fields: fields2(from_kind, to_kind),
            nums: nums0(),
            primary: *token,
            secondaries: spans0(),
        }
    }

    pub fn invalid_test(cause: &str, token: &TokenRange) -> (d: Diagnostic)
        ensures
            d.code == DiagCode::InvalidTest,
            d.severity == severity_of(d.code),
            d.fields@.len() == 1,
            d.fields@[0]@ == cause@,
            d.nums@ == Seq::<u64>::empty(),
            d.primary == *token,
            d.secondaries@ == Seq::<TokenRange>::empty(),
    {
        Diagnostic {
            severity: Severity::Error,
            code: DiagCode::InvalidTest,
            fields: fields1(cause),
            nums: nums0(),
            primary: *token,
            secondaries: spans0(),
        }
    }

    pub fn invalid_modport_variable_item(identifier: &str, token: &TokenRange) -> (d: Diagnostic)
        ensures
            d.code == DiagCode::InvalidModportVariableItem,
            d.severity == severity_of(d.code),
            d.fields@.len() == 1,
            d.fields@[0]@ == identifier@,
            d.nums@ == Seq::<u64>::empty(),
            d.primary == *token,
            d.secondaries@ == Seq::<TokenRange>::empty(),
    {
        Diagnostic {
            severity: Severity::Error,
            code: DiagCode::InvalidModportVariableItem,
            fields: fields1(identifier),
            nums: nums0(),
            primary: *token,
            secondaries: spans0(),
        }
    }

    pub fn invalid_modport_function_item(identifier: &str, token: &TokenRange) -> (d: Diagnostic)
        ensures
            d.code == DiagCode::InvalidModportFunctionItem,
            d.severity == severity_of(d.code),
            d.fields@.len() == 1,
            d.fields@[0]@ == identifier@,
            d.nums@ == Seq::<u64>::empty(),
            d.primary == *token,
            d.secondaries@ == Seq::<TokenRange>::empty(),
    {
        Diagnostic {
            severity: Severity::Error,
            code: DiagCode::InvalidModportFunctionItem,
            fields: fields1(identifier),
            nums: nums0(),
            primary: *token,
            secondaries: spans0(),
        }
    }

    pub fn invalid_port_default_value(identifier: &str, direction: &str, token: &TokenRange) -> (d: Diagnostic)
        ensures
            d.code == DiagCode::InvalidPortDefaultValue,
            d.severity == severity_of(d.code),
            d.fields@.len() == 2,
            d.fields@[0]@ == identifier@,
            d.fields@[1]@ == direction@,
            d.nums@ == Seq::<u64>::empty(),
            d.primary == *token,
            d.secondaries@ == Seq::<TokenRange>::empty(),
    {
        Diagnostic {
            severity: Severity::Error,
            code: DiagCode::InvalidPortDefaultValue,
            fields: fields2(identifier, direction),
            nums: nums0(),
            primary: *token,
            secondaries: spans0(),
        }
    }

    pub fn incompat_proto(identifier: &str, proto: &str, cause: &str, token: &TokenRange) -> (d: Diagnostic)
        ensures
            d.code == DiagCode::IncompatProto,
            d.severity == severity_of(d.code),
            d.fields@.len() == 3,
            d.fields@[0]@ == identifier@,
            d.fields@[1]@ == proto@,
            d.fields@[2]@ == cause@,
            d.nums@ == Seq::<u64>::empty(),
            d.primary == *token,
            d.secondaries@ == Seq::<TokenRange>::empty(),
    {
        Diagnostic {
            severity: Severity::Error,
            code: DiagCode::IncompatProto,
            fields: fields3(identifier, proto, cause),
            nums: nums0(),
            primary: *token,
            secondaries: spans0(),
        }
    }

    pub fn missing_default_argument(identifier: &str, token: &TokenRange) -> (d: Diagnostic)
        ensures
            d.code == DiagCode::MissingDefaultArgument,
            d.severity == severity_of(d.code),
            d.fields@.len() == 1,
            d.fields@[0]@ == identifier@,
            d.nums@ == Seq::<u64>::empty(),
            d.primary == *token,
            d.secondaries@ == Seq::<TokenRange>::empty(),
    {
        Diagnostic {
            severity: Severity::Error,
            code: DiagCode::MissingDefaultArgument,
            fields: fields1(identifier),
            nums: nums0(),
            primary: *token,
            secondaries: spans0(),
        }
    }

    pub fn mismatch_function_arity(name: &str, arity: u64, args: u64, token: &TokenRange) -> (d: Diagnostic)
        ensures
            d.code == DiagCode::MismatchFunctionArity,
            d.severity == severity_of(d.code),
            d.fields@.len() == 1,
            d.fields@[0]@ == name@,
            d.nums@ == seq![arity, args],
            d.primary == *token,
            d.secondaries@ == Seq::<TokenRange>::empty(),
    {
        Diagnostic {
            severity: Severity::Error,
            code: DiagCode::MismatchFunctionArity,
            fields: fields1(name),
            nums: nums2(arity, args),
            primary: *token,
            secondaries: spans0(),
        }
    }

    pub fn mismatch_generics_arity(name: &str, arity: u64, args: u64, token: &TokenRange) -> (d: Diagnostic)
        ensures
            d.code == DiagCode::MismatchGenericsArity,
            d.severity == severity_of(d.code),
            d.fields@.len() == 1,
            d.fields@[0]@ == name@,
            d.nums@ == seq![arity, args],
            d.primary == *token,
            d.secondaries@ == Seq::<TokenRange>::empty(),
    {
        Diagnostic {
            severity: Severity::Error,
            code: DiagCode::MismatchGenericsArity,
            fields: fields1(name),
            nums: nums2(arity, args),
            primary: *token,
            secondaries: spans0(),
        }
    }

    pub fn mismatch_type(name: &str, expected: &str, actual: &str, token: &TokenRange) -> (d: Diagnostic)
        ensures
            d.code == DiagCode::MismatchType,
            d.severity == severity_of(d.code),
            d.fields@.len() == 3,
            d.fields@[0]@ == name@,
            d.fields@[1]@ == expected@,
            d.fields@[2]@ == actual@,
            d.nums@ == Seq::<u64>::empty(),
            d.primary == *token,
            d.secondaries@ == Seq::<TokenRange>::empty(),
    {
        Diagnostic {
            severity: Severity::Error,
            code: DiagCode::MismatchType,
            fields: fields3(name, expected, actual),
            nums: nums0(),
            primary: *token,
            secondaries: spans0(),
        }
    }

    pub fn mismatch_power_domain(power_domain: &str, other_domain: &str, token: &TokenRange, other_token: &TokenRange) -> (d: Diagnostic)
        ensures
            d.code == DiagCode::MismatchPowerDomain,
            d.severity == severity_of(d.code),
            d.fields@.len() == 2,
            d.fields@[0]@ == power_domain@,
            d.fields@[1]@ == other_domain@,
            d.nums@ == Seq::<u64>::empty(),
            d.primary == *token,
            d.secondaries@ == seq![*other_token],
    {
        Diagnostic {
            severity: Severity::Warning,
            code: DiagCode::MismatchPowerDomain,
            fields: fields2(power_domain, other_domain),
            nums: nums0(),
            primary: *token,
            secondaries: spans1(other_token),
        }
    }

    pub fn missing_power_signal(token: &TokenRange) -> (d: Diagnostic)
        ensures
            d.code == DiagCode::MissingPowerSignal,
            d.severity == severity_of(d.code),
            d.fields@.len() == 0,
            d.nums@ == Seq::<u64>::empty(),
            d.primary == *token,
            d.secondaries@ == Seq::<TokenRange>::empty(),
    {
        Diagnostic {
            severity: Severity::Error,
            code: DiagCode::MissingPowerSignal,
            fields: fields0(),
            nums: nums0(),
            primary: *token,
            secondaries: spans0(),
        }
    }

    pub fn missing_if_enable(token: &TokenRange) -> (d: Diagnostic)
        ensures
            d.code == DiagCode::MissingIfEnable,
            d.severity == severity_of(d.code),
            d.fields@.len() == 0,
            d.nums@ == Seq::<u64>::empty(),
            d.primary == *token,
            d.secondaries@ == Seq::<TokenRange>::empty(),
    {
        Diagnostic {
            severity: Severity::Error,
            code: DiagCode::MissingIfEnable,
            fields: fields0(),
            nums: nums0(),
            primary: *token,
            secondaries: spans0(),
        }
    }

    pub fn missing_enable_signal(token: &TokenRange) -> (d: Diagnostic)
        ensures
            d.code == DiagCode::MissingEnableSignal,
            d.severity == severity_of(d.code),
            d.fields@.len() == 0,
            d.nums@ == Seq::<u64>::empty(),
            d.primary == *token,
            d.secondaries@ == Seq::<TokenRange>::empty(),
    {
        Diagnostic {
            severity: Severity::Error,
            code: DiagCode::MissingEnableSignal,
            fields: fields0(),
            nums: nums0(),
            primary: *token,
            secondaries: spans0(),
        }
    }

    pub fn missing_enable_statement(name: &str, token: &TokenRange, enable: &TokenRange) -> (d: Diagnostic)
        ensures
            d.code == DiagCode::MissingEnableStatement,
            d.severity == severity_of(d.code),
            d.fields@.len() == 1,
            d.fields@[0]@ == name@,
            d.nums@ == Seq::<u64>::empty(),
            d.primary == *token,
            d.secondaries@ == seq![*enable],
    {
        Diagnostic {
            severity: Severity::Warning,
            code: DiagCode::MissingEnableStatement,
            fields: fields1(name),
            nums: nums0(),
            primary: *token,
            secondaries: spans1(enable),
        }
    }

    pub fn missing_tri(token: &TokenRange) -> (d: Diagnostic)
        ensures
            d.code == DiagCode::MissingTri,
            d.severity == severity_of(d.code),
            d.fields@.len() == 0,
            d.nums@ == Seq::<u64>::empty(),
            d.primary == *token,
            d.secondaries@ == Seq::<TokenRange>::empty(),
    {
        Diagnostic {
            severity: Severity::Error,
            code: DiagCode::MissingTri,
            fields: fields0(),
            nums: nums0(),
            primary: *token,
            secondaries: spans0(),
        }
    }

    pub fn missing_power_domain(token: &TokenRange) -> (d: Diagnostic)
        ensures
            d.code == DiagCode::MissingPowerDomain,
            d.severity == severity_of(d.code),
            d.fields@.len() == 0,
            d.nums@ == Seq::<u64>::empty(),
            d.primary == *token,
            d.secondaries@ == Seq::<TokenRange>::empty(),
    {
        Diagnostic {
            severity: Severity::Error,
            code: DiagCode::MissingPowerDomain,
            fields: fields0(),
            nums: nums0(),
            primary: *token,
            secondaries: spans0(),
        }
    }

    pub fn mismatch_attribute_args(name: &str, expected: &str, token: &TokenRange) -> (d: Diagnostic)
        ensures
            d.code == DiagCode::MismatchAttributeArgs,
            d.severity == severity_of(d.code),
            d.fields@.len() == 2,
            d.fields@[0]@ == name@,
            d.fields@[1]@ == expected@,
            d.nums@ == Seq::<u64>::empty(),
            d.primary == *token,
            d.secondaries@ == Seq::<TokenRange>::empty(),
    {
        Diagnostic {
            severity: Severity::Error,
            code: DiagCode::MismatchAttributeArgs,
            fields: fields2(name, expected),
            nums: nums0(),
            primary: *token,
            secondaries: spans0(),
        }
    }

    pub fn missing_port(name: &str, port: &str, token: &TokenRange) -> (d: Diagnostic)
        ensures
            d.code == DiagCode::MissingPort,
            d.severity == severity_of(d.code),
            d.fields@.len() == 2,
            d.fields@[0]@ == name@,
            d.fields@[1]@ == port@,
            d.nums@ == Seq::<u64>::empty(),
            d.primary == *token,
            d.secondaries@ == Seq::<TokenRange>::empty(),
    {
        Diagnostic {
            severity: Severity::Warning,
            code: DiagCode::MissingPort,
            fields: fields2(name, port),
            nums: nums0(),
            primary: *token,
            secondaries: spans0(),
        }
    }

    pub fn sv_keyword_usage(identifier: &str, token: &TokenRange) -> (d: Diagnostic)
        ensures
            d.code == DiagCode::SvKeywordUsage,
            d.severity == severity_of(d.code),
            d.fields@.len() == 1,
            d.fields@[0]@ == identifier@,
            d.nums@ == Seq::<u64>::empty(),
            d.primary == *token,
            d.secondaries@ == Seq::<TokenRange>::empty(),
    {
        Diagnostic {
            severity: Severity::Error,
            code: DiagCode::SvKeywordUsage,
            fields: fields1(identifier),
            nums: nums0(),
            primary: *token,
            secondaries: spans0(),
        }
    }

    pub fn sv_with_implicit_enable(token: &TokenRange) -> (d: Diagnostic)
        ensures
            d.code == DiagCode::SvWithImplicitEnable,
            d.severity == severity_of(d.code),
            d.fields@.len() == 0,
            d.nums@ == Seq::<u64>::empty(),
            d.primary == *token,
            d.secondaries@ == Seq::<TokenRange>::empty(),
    {
        Diagnostic {
            severity: Severity::Error,
            code: DiagCode::SvWithImplicitEnable,
            fields: fields0(),
            nums: nums0(),
            primary: *token,
            secondaries: spans0(),
        }
    }

    pub fn invalid_enum_encoding(identifier: &str, token: &TokenRange) -> (d: Diagnostic)
        ensures
            d.code == DiagCode::InvalidEnumEncoding,
            d.severity == severity_of(d.code),
            d.fields@.len() == 1,
            d.fields@[0]@ == identifier@,
            d.nums@ == Seq::<u64>::empty(),
            d.primary == *token,
            d.secondaries@ == Seq::<TokenRange>::empty(),
    {
        Diagnostic {
            severity: Severity::Error,
            code: DiagCode::InvalidEnumEncoding,
            fields: fields1(identifier),
            nums: nums0(),
            primary: *token,
            secondaries: spans0(),
        }
    }

    pub fn invalid_cond_type(identifier: &str, token: &TokenRange) -> (d: Diagnostic)
        ensures
            d.code == DiagCode::InvalidCondType,
            d.severity == severity_of(d.code),
            d.fields@.len() == 1,
            d.fields@[0]@ == identifier@,
            d.nums@ == Seq::<u64>::empty(),
            d.primary == *token,
            d.secondaries@ == Seq::<TokenRange>::empty(),
    {
        Diagnostic {
            severity: Severity::Error,
            code: DiagCode::InvalidCondType,
            fields: fields1(identifier),
            nums: nums0(),
            primary: *token,
            secondaries: spans0(),
        }
    }

    pub fn too_large_enum_variant(identifier: &str, value: u64, width: u64, token: &TokenRange) -> (d: Diagnostic)
        ensures
            d.code == DiagCode::TooLargeEnumVariant,
            d.severity == severity_of(d.code),
            d.fields@.len() == 1,
            d.fields@[0]@ == identifier@,
            d.nums@ == seq![value, width],
            d.primary == *token,
            d.secondaries@ == Seq::<TokenRange>::empty(),
    {
        Diagnostic {
            severity: Severity::Error,
            code: DiagCode::TooLargeEnumVariant,
            fields: fields1(identifier),
            nums: nums2(value, width),
            primary: *token,
            secondaries: spans0(),
        }
    }

    pub fn unevaluatable_enum_variant(identifier: &str, token: &TokenRange) -> (d: Diagnostic)
        ensures
            d.code == DiagCode::UnevaluatableEnumVariant,
            d.severity == severity_of(d.code),
            d.fields@.len() == 1,
            d.fields@[0]@ == identifier@,
            d.nums@ == Seq::<u64>::empty(),
            d.primary == *token,
            d.secondaries@ == Seq::<TokenRange>::empty(),
    {
        Diagnostic {
            severity: Severity::Error,
            code: DiagCode::UnevaluatableEnumVariant,
            fields: fields1(identifier),
            nums: nums0(),
            primary: *token,
            secondaries: spans0(),
        }
    }

    pub fn invalid_enum_variant_value(identifier: &str, encoding: &str, token: &TokenRange) -> (d: Diagnostic)
        ensures
            d.code == DiagCode::InvalidEnumVariantValue,
            d.severity == severity_of(d.code),
            d.fields@.len() == 2,
            d.fields@[0]@ == identifier@,
            d.fields@[1]@ == encoding@,
            d.nums@ == Seq::<u64>::empty(),
            d.primary == *token,
            d.secondaries@ == Seq::<TokenRange>::empty(),
    {
        Diagnostic {
            severity: Severity::Error,
            code: DiagCode::InvalidEnumVariantValue,
            fields: fields2(identifier, encoding),
            nums: nums0(),
            primary: *token,
            secondaries: spans0(),
        }
    }

    pub fn too_large_number(width: u64, token: &TokenRange) -> (d: Diagnostic)
        ensures
            d.code == DiagCode::TooLargeNumber,
            d.severity == severity_of(d.code),
            d.fields@.len() == 0,
            d.nums@ == seq![width],
            d.primary == *token,
            d.secondaries@ == Seq::<TokenRange>::empty(),
    {
        Diagnostic {
            severity: Severity::Error,
            code: DiagCode::TooLargeNumber,
            fields: fields0(),
            nums: nums1(width),
            primary: *token,
            secondaries: spans0(),
        }
    }

    pub fn too_much_enum_variant(identifier: &str, number: u64, width: u64, token: &TokenRange) -> (d: Diagnostic)
        ensures
            d.code == DiagCode::TooMuchEnumVariant,
            d.severity == severity_of(d.code),
            d.fields@.len() == 1,
            d.fields@[0]@ == identifier@,
            d.nums@ == seq![number, width],
            d.primary == *token,
            d.secondaries@ == Seq::<TokenRange>::empty(),
    {
        Diagnostic {
            severity: Severity::Error,
            code: DiagCode::TooMuchEnumVariant,
            fields: fields1(identifier),
            nums: nums2(number, width),
            primary: *token,
            secondaries: spans0(),
        }
    }

    pub fn undefined_identifier(identifier: &str, token: &TokenRange) -> (d: Diagnostic)
        ensures
            d.code == DiagCode::UndefinedIdentifier,
            d.severity == severity_of(d.code),
            d.fields@.len() == 1,
            d.fields@[0]@ == identifier@,
            d.nums@ == Seq::<u64>::empty(),
            d.primary == *token,
            d.secondaries@ == Seq::<TokenRange>::empty(),
    {
        Diagnostic {
            severity: Severity::Error,
            code: DiagCode::UndefinedIdentifier,
            fields: fields1(identifier),
            nums: nums0(),
            primary: *token,
            secondaries: spans0(),
        }
    }

    pub fn referring_package_before_definition(identifier: &str, token: &TokenRange) -> (d: Diagnostic)
        ensures
            d.code == DiagCode::ReferringPackageBeforeDefinition,
            d.severity == severity_of(d.code),
            d.fields@.len() == 1,
            d.fields@[0]@ == identifier@,
            d.nums@ == Seq::<u64>::empty(),
            d.primary == *token,
            d.secondaries@ == Seq::<TokenRange>::empty(),
    {
        Diagnostic {
            severity: Severity::Error,
            code: DiagCode::ReferringPackageBeforeDefinition,
            fields: fields1(identifier),
            nums: nums0(),
            primary: *token,
            secondaries: spans0(),
        }
    }

    pub fn unresolvable_generic_argument(identifier: &str, token: &TokenRange, definition_token: &TokenRange) -> (d: Diagnostic)
        ensures
            d.code == DiagCode::UnresolvableGenericArgument,
            d.severity == severity_of(d.code),
            d.fields@.len() == 1,
            d.fields@[0]@ == identifier@,
            d.nums@ == Seq::<u64>::empty(),
            d.primary == *token,
            d.secondaries@ == seq![*definition_token],
    {
        Diagnostic {
            severity: Severity::Error,
            code: DiagCode::UnresolvableGenericArgument,
            fields: fields1(identifier),
            nums: nums0(),
            primary: *token,
            secondaries: spans1(definition_token),
        }
    }

    pub fn unknown_attribute(name: &str, token: &TokenRange) -> (d: Diagnostic)
        ensures
            d.code == DiagCode::UnknownAttribute,
            d.severity == severity_of(d.code),
            d.fields@.len() == 1,
            d.fields@[0]@ == name@,
            d.nums@ == Seq::<u64>::empty(),
            d.primary == *token,
            d.secondaries@ == Seq::<TokenRange>::empty(),
    {
        Diagnostic {
            severity: Severity::Error,
            code: DiagCode::UnknownAttribute,
            fields: fields1(name),
            nums: nums0(),
            primary: *token,
            secondaries: spans0(),
        }
    }

    pub fn unknown_embed_lang(name: &str, token: &TokenRange) -> (d: Diagnostic)
        ensures
            d.code == DiagCode::UnknownEmbedLang,
            d.severity == severity_of(d.code),
            d.fields@.len() == 1,
            d.fields@[0]@ == name@,
            d.nums@ == Seq::<u64>::empty(),
            d.primary == *token,
            d.secondaries@ == Seq::<TokenRange>::empty(),
    {
        Diagnostic {
            severity: Severity::Error,
            code: DiagCode::UnknownEmbedLang,
            fields: fields1(name),
            nums: nums0(),
            primary: *token,
            secondaries: spans0(),
        }
    }

    pub fn unknown_embed_way(name: &str, token: &TokenRange) -> (d: Diagnostic)
        ensures
            d.code == DiagCode::UnknownEmbedWay,
            d.severity == severity_of(d.code),
            d.fields@.len() == 1,
            d.fields@[0]@ == name@,
            d.nums@ == Seq::<u64>::empty(),
            d.primary == *token,
            d.secondaries@ == Seq::<TokenRange>::empty(),
    {
        Diagnostic {
            severity: Severity::Error,
            code: DiagCode::UnknownEmbedWay,
            fields: fields1(name),
            nums: nums0(),
            primary: *token,
            secondaries: spans0(),
        }
    }

    pub fn unknown_source_way(name: &str, token: &TokenRange) -> (d: Diagnostic)
        ensures
            d.code == DiagCode::UnknownSourceWay,
            d.severity == severity_of(d.code),
            d.fields@.len() == 1,
            d.fields@[0]@ == name@,
            d.nums@ == Seq::<u64>::empty(),
            d.primary == *token,
            d.secondaries@ == Seq::<TokenRange>::empty(),
    {
        Diagnostic {
            severity: Severity::Error,
            code: DiagCode::UnknownSourceWay,
            fields: fields1(name),
            nums: nums0(),
            primary: *token,
            secondaries: spans0(),
        }
    }

    pub fn unknown_member(name: &str, member: &str, token: &TokenRange) -> (d: Diagnostic)
        ensures
            d.code == DiagCode::UnknownMember,
            d.severity == severity_of(d.code),
            d.fields@.len() == 2,
            d.fields@[0]@ == name@,
            d.fields@[1]@ == member@,
            d.nums@ == Seq::<u64>::empty(),
            d.primary == *token,
            d.secondaries@ == Seq::<TokenRange>::empty(),
    {
        Diagnostic {
            severity: Severity::Error,
            code: DiagCode::UnknownMember,
            fields: fields2(name, member),
            nums: nums0(),
            primary: *token,
            secondaries: spans0(),
        }
    }

    pub fn unknown_unsafe(name: &str, token: &TokenRange) -> (d: Diagnostic)
        ensures
            d.code == DiagCode::UnknownUnsafe,
            d.severity == severity_of(d.code),
            d.fields@.len() == 1,
            d.fields@[0]@ == name@,
            d.nums@ == Seq::<u64>::empty(),
            d.primary == *token,
            d.secondaries@ == Seq::<TokenRange>::empty(),
    {
        Diagnostic {
            severity: Severity::Error,
            code: DiagCode::UnknownUnsafe,
            fields: fields1(name),
            nums: nums0(),
            primary: *token,
            secondaries: spans0(),
        }
    }

    pub fn private_member(name: &str, token: &TokenRange) -> (d: Diagnostic)
        ensures
            d.code == DiagCode::PrivateMember,
            d.severity == severity_of(d.code),
            d.fields@.len() == 1,
            d.fields@[0]@ == name@,
            d.nums@ == Seq::<u64>::empty(),
            d.primary == *token,
            d.secondaries@ == Seq::<TokenRange>::empty(),
    {
        Diagnostic {
            severity: Severity::Error,
            code: DiagCode::PrivateMember,
            fields: fields1(name),
            nums: nums0(),
            primary: *token,
            secondaries: spans0(),
        }
    }

    pub fn unknown_msb(token: &TokenRange) -> (d: Diagnostic)
        ensures
            d.code == DiagCode::UnknownMsb,
            d.severity == severity_of(d.code),
            d.fields@.len() == 0,
            d.nums@ == Seq::<u64>::empty(),
            d.primary == *token,
            d.secondaries@ == Seq::<TokenRange>::empty(),
    {
        Diagnostic {
            severity: Severity::Error,
            code: DiagCode::UnknownMsb,
            fields: fields0(),
            nums: nums0(),
            primary: *token,
            secondaries: spans0(),
        }
    }

    pub fn unknown_port(name: &str, port: &str, token: &TokenRange) -> (d: Diagnostic)
        ensures
            d.code == DiagCode::UnknownPort,
            d.severity == severity_of(d.code),
            d.fields@.len() == 2,
            d.fields@[0]@ == name@,
            d.fields@[1]@ == port@,
            d.nums@ == Seq::<u64>::empty(),
            d.primary == *token,
            d.secondaries@ == Seq::<TokenRange>::empty(),
    {
        Diagnostic {
            severity: Severity::Error,
            code: DiagCode::UnknownPort,
            fields: fields2(name, port),
            nums: nums0(),
            primary: *token,
            secondaries: spans0(),
        }
    }

    pub fn unknown_param(name: &str, param: &str, token: &TokenRange) -> (d: Diagnostic)
        ensures
            d.code == DiagCode::UnknownParam,
            d.severity == severity_of(d.code),
            d.fields@.len() == 2,
            d.fields@[0]@ == name@,
            d.fields@[1]@ == param@,
            d.nums@ == Seq::<u64>::empty(),
            d.primary == *token,
            d.secondaries@ == Seq::<TokenRange>::empty(),
    {
        Diagnostic {
            severity: Severity::Error,
            code: DiagCode::UnknownParam,
            fields: fields2(name, param),
            nums: nums0(),
            primary: *token,
            secondaries: spans0(),
        }
    }

    pub fn unused_variable(identifier: &str, token: &TokenRange) -> (d: Diagnostic)
        ensures
            d.code == DiagCode::UnusedVariable,
            d.severity == severity_of(d.code),
            d.fields@.len() == 1,
            d.fields@[0]@ == identifier@,
            d.nums@ == Seq::<u64>::empty(),
            d.primary == *token,
            d.secondaries@ == Seq::<TokenRange>::empty(),
    {
        Diagnostic {
            severity: Severity::Warning,
            code: DiagCode::UnusedVariable,
            fields: fields1(identifier),
            nums: nums0(),
            primary: *token,
            secondaries: spans0(),
        }
    }

    pub fn unused_return(identifier: &str, token: &TokenRange) -> (d: Diagnostic)
        ensures
            d.code == DiagCode::UnusedReturn,
            d.severity == severity_of(d.code),
            d.fields@.len() == 1,
            d.fields@[0]@ == identifier@,
            d.nums@ == Seq::<u64>::empty(),
            d.primary == *token,
            d.secondaries@ == Seq::<TokenRange>::empty(),
    {
        Diagnostic {
            severity: Severity::Warning,
            code: DiagCode::UnusedReturn,
            fields: fields1(identifier),
            nums: nums0(),
            primary: *token,
            secondaries: spans0(),
        }
    }

    pub fn unassign_variable(identifier: &str, token: &TokenRange) -> (d: Diagnostic)
        ensures
            d.code == DiagCode::UnassignVariable,
            d.severity == severity_of(d.code),
            d.fields@.len() == 1,
            d.fields@[0]@ == identifier@,
            d.nums@ == Seq::<u64>::empty(),
            d.primary == *token,
            d.secondaries@ == Seq::<TokenRange>::empty(),
    {
        Diagnostic {
            severity: Severity::Warning,
            code: DiagCode::UnassignVariable,
            fields: fields1(identifier),
            nums: nums0(),
            primary: *token,
            secondaries: spans0(),
        }
    }

    pub fn uncovered_branch(identifier: &str, token: &TokenRange, uncovered: &TokenRange) -> (d: Diagnostic)
        ensures
            d.code == DiagCode::UncoveredBranch,
            d.severity == severity_of(d.code),
            d.fields@.len() == 1,
            d.fields@[0]@ == identifier@,
            d.nums@ == Seq::<u64>::empty(),
            d.primary == *token,
            d.secondaries@ == seq![*uncovered],
    {
        Diagnostic {
            severity: Severity::Warning,
            code: DiagCode::UncoveredBranch,
            fields: fields1(identifier),
            nums: nums0(),
            primary: *token,
            secondaries: spans1(uncovered),
        }
    }

    pub fn reserved_identifier(identifier: &str, token: &TokenRange) -> (d: Diagnostic)
        ensures
            d.code == DiagCode::ReservedIdentifier,
            d.severity == severity_of(d.code),
            d.fields@.len() == 1,
            d.fields@[0]@ == identifier@,
            d.nums@ == Seq::<u64>::empty(),
            d.primary == *token,
            d.secondaries@ == Seq::<TokenRange>::empty(),
    {
        Diagnostic {
            severity: Severity::Error,
            code: DiagCode::ReservedIdentifier,
            fields: fields1(identifier),
            nums: nums0(),
            primary: *token,
            secondaries: spans0(),
        }
    }

    pub fn source_read_failure(name: &str, cause: &str, token: &TokenRange) -> (d: Diagnostic)
        ensures
            d.code == DiagCode::SourceReadFailure,
            d.severity == severity_of(d.code),
            d.fields@.len() == 2,
            d.fields@[0]@ == name@,
            d.fields@[1]@ == cause@,
            d.nums@ == Seq::<u64>::empty(),
            d.primary == *token,
            d.secondaries@ == Seq::<TokenRange>::empty(),
    {
        Diagnostic {
            severity: Severity::Error,
            code: DiagCode::SourceReadFailure,
            fields: fields2(name, cause),
            nums: nums0(),
            primary: *token,
            secondaries: spans0(),
        }
    }

    pub fn wrong_seperator(separator: &str, token: &TokenRange) -> (d: Diagnostic)
        ensures
            d.code == DiagCode::WrongSeparator,
            d.severity == severity_of(d.code),
            d.fields@.len() == 1,
            d.fields@[0]@ == separator@,
            d.nums@ == Seq::<u64>::empty(),
            d.primary == *token,
            d.secondaries@ == Seq::<TokenRange>::empty(),
    {
        Diagnostic {
            severity: Severity::Error,
            code: DiagCode::WrongSeparator,
            fields: fields1(separator),
            nums: nums0(),
            primary: *token,
            secondaries: spans0(),
        }
    }

}

} // verus!

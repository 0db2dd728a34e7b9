use vstd::prelude::*;
use vstd::arithmetic::power2::{lemma2_to64, lemma_pow2_strictly_increases, pow2};
use vstd::bits::lemma_u64_shl_is_mul;
use crate::ast::{BinaryOp, Expr, UnaryOp};
use crate::symbol::{kind_is_enable, kind_is_power, EnumEncoding, SymbolKind};
use crate::symbol_table::SymbolTable;
use crate::token::StrId;
use crate::token::Token;

verus! {

/// Result of constant evaluation: a value fixed at elaboration time, a
/// value that is legal in elaboration-time contexts but not yet known
/// (generic/parameter-derived), a runtime-dependent value, or a value
/// with unresolved don't-care bits.
#[derive(Clone, Copy, Debug, PartialEq, Eq, Structural)]
pub enum Evaluated {
    Fixed { value: u64, width: u64 },
    UnknownStatic,
    Variable,
    Unevaluatable,
}

impl Evaluated {
    /// Whether this result is legal where elaboration-time evaluability
    /// is required.
    pub fn is_static(&self) -> (r: bool)
        ensures
            r == (*self is Fixed || *self is UnknownStatic),
    {
        matches!(self, Evaluated::Fixed { .. } | Evaluated::UnknownStatic)
    }
}

/// Whether a count of codes fits in `width` bits.
pub open spec fn fits_in_width(count: nat, width: nat) -> bool {
    count <= pow2(width)
}

/// Whether a value is representable in `width` bits.
pub open spec fn value_fits_width(value: nat, width: nat) -> bool {
    value < pow2(width)
}

/// Exec check matching `fits_in_width`.
pub fn count_fits_width(count: u64, width: u64) -> (b: bool)
    ensures
        b == fits_in_width(count as nat, width as nat),
{
    if width >= 64 {
        proof {
            lemma2_to64();
            if width > 64 {
                lemma_pow2_strictly_increases(64, width as nat);
            }
        }
        true
    } else {
        proof {
            if width > 0 {
                lemma_pow2_strictly_increases(width as nat, 64);
            }
            lemma2_to64();
            lemma_u64_shl_is_mul(1u64, width);
        }
        count <= (1u64 << width)
    }
}

/// Exec check matching `value_fits_width`.
pub fn value_fits(value: u64, width: u64) -> (b: bool)
    ensures
        b == value_fits_width(value as nat, width as nat),
{
    if width >= 64 {
        proof {
            lemma2_to64();
            if width > 64 {
                lemma_pow2_strictly_increases(64, width as nat);
            }
        }
        true
    } else {
        proof {
            if width > 0 {
                lemma_pow2_strictly_increases(width as nat, 64);
            }
            lemma2_to64();
            lemma_u64_shl_is_mul(1u64, width);
        }
        value < (1u64 << width)
    }
}

/// Whether exactly one bit of `v` is set.
pub open spec fn is_onehot(v: u64) -> bool {
    v != 0 && (v & ((v - 1) as u64)) == 0
}

/// Exec check matching `is_onehot`.
pub fn onehot(v: u64) -> (b: bool)
    ensures
        b == is_onehot(v),
{
    v != 0 && (v & (v - 1)) == 0
}

/// Whether two values differ in exactly one bit.
pub open spec fn one_bit_diff(a: u64, b: u64) -> bool {
    is_onehot(a ^ b)
}

/// Exec check matching `one_bit_diff`.
pub fn gray_step(a: u64, b: u64) -> (r: bool)
    ensures
        r == one_bit_diff(a, b),
{
    onehot(a ^ b)
}

/// The smallest number of bits that can hold `n` distinct codes.
pub open spec fn clog2(n: nat) -> nat
    decreases n,
{
    if n <= 1 {
        0
    } else {
        (1 + clog2(((n + 1) / 2) as nat)) as nat
    }
}

/// `n` distinct codes always fit in `clog2(n)` bits.
pub proof fn lemma_clog2_fits(n: nat)
    ensures
        n <= pow2(clog2(n)),
    decreases n,
{
    if n <= 1 {
        lemma2_to64();
    } else {
        let m = ((n + 1) / 2) as nat;
        lemma_clog2_fits(m);
        assert(pow2(clog2(n)) == 2 * pow2(clog2(m))) by {
            vstd::arithmetic::power2::lemma_pow2_unfold(clog2(n));
        }
        assert(n <= 2 * m);
    }
}

/// `clog2` is exact: one fewer bit cannot hold `n` codes.
pub proof fn lemma_clog2_tight(n: nat)
    requires
        n >= 2,
    ensures
        clog2(n) >= 1,
        pow2((clog2(n) - 1) as nat) < n,
    decreases n,
{
    let m = ((n + 1) / 2) as nat;
    if m >= 2 {
        lemma_clog2_tight(m);
        assert(pow2((clog2(n) - 1) as nat) == 2 * pow2((clog2(m) - 1) as nat)) by {
            vstd::arithmetic::power2::lemma_pow2_unfold((clog2(n) - 1) as nat);
        }
        assert(2 * pow2((clog2(m) - 1) as nat) < 2 * m);
        assert(2 * pow2((clog2(m) - 1) as nat) <= 2 * m - 2);
        assert(2 * m <= n + 1);
    } else {
        assert(n == 2 || n == 3);
        assert(clog2(2) == 1 + clog2(1));
        assert(clog2(3) == 1 + clog2(2));
        lemma2_to64();
    }
}

/// Exec computation of `clog2` for machine-sized counts.
pub fn clog2_u64(n: u64) -> (w: u64)
    ensures
        w == clog2(n as nat),
{
    if n <= 1 {
        return 0;
    }
    let mut w: u64 = 0;
    let mut c: u64 = 1;
    proof {
        lemma2_to64();
    }
    loop
        invariant
            1 <= c,
            w < 64,
            c == pow2(w as nat),
            c < n,
            n >= 2,
        ensures
            n <= 2 * c,
            c == pow2(w as nat),
            c < n,
            w + 1 <= u64::MAX,
        decreases n - c,
    {
        proof {
            lemma2_to64();
            if (w as nat) + 1 < 64 {
                lemma_pow2_strictly_increases(w as nat + 1, 64);
            }
            vstd::arithmetic::power2::lemma_pow2_unfold((w + 1) as nat);
        }
        if c >= 0x8000_0000_0000_0000 || 2 * c >= n {
            proof {
                if c >= 0x8000_0000_0000_0000 {
                    assert(pow2(63) == 0x8000_0000_0000_0000) by {
                        lemma2_to64();
                    }
                    if (w as nat) < 63 {
                        lemma_pow2_strictly_increases(w as nat, 63);
                    }
                    assert(w == 63);
                }
            }
            if c >= 0x8000_0000_0000_0000 {
                // every u64 count fits in 64 bits
                proof {
                    lemma2_to64();
                }
                assert(n <= 2 * c) by {
                    assert(2 * c >= 0x1_0000_0000_0000_0000int);
                };
                break;
            }
            break;
        }
        c = 2 * c;
        w = w + 1;
    }
    proof {
        vstd::arithmetic::power2::lemma_pow2_unfold((w + 1) as nat);
        lemma_clog2_pinned(n as nat, (w + 1) as nat);
    }
    w + 1
}

/// A width `v` with `pow2(v - 1) < n <= pow2(v)` is exactly `clog2(n)`.
proof fn lemma_clog2_pinned(n: nat, v: nat)
    requires
        n >= 2,
        v >= 1,
        pow2((v - 1) as nat) < n,
        n <= pow2(v),
    ensures
        v == clog2(n),
{
    lemma_clog2_fits(n);
    lemma_clog2_tight(n);
    if v < clog2(n) {
        if v <= clog2(n) - 1 {
            if v < clog2(n) - 1 {
                lemma_pow2_strictly_increases(v, (clog2(n) - 1) as nat);
            }
            assert(pow2(v) <= pow2((clog2(n) - 1) as nat));
        }
    }
    if v > clog2(n) {
        if clog2(n) < v - 1 {
            lemma_pow2_strictly_increases(clog2(n), (v - 1) as nat);
        }
        assert(pow2(clog2(n)) <= pow2((v - 1) as nat));
    }
}

/// One enum variant as handed to the encoder: its name, defining token,
/// and its evaluated explicit value, if one was written.
#[derive(Clone, Copy, Debug, PartialEq, Eq, Structural)]
pub struct EnumVariantInput {
    pub name: StrId,
    pub token: Token,
    pub value: Option<Evaluated>,
}

/// What the encoder knows of a variant's code once assigned.
#[derive(Clone, Copy, Debug, PartialEq, Eq, Structural)]
pub enum VariantCode {
    Known(u64),
    Dontcare,
    Static,
}

/// One finding of the enum encoding check, by variant index.
#[derive(Clone, Copy, Debug, PartialEq, Eq, Structural)]
pub enum EnumIssue {
    /// More variants than the backing width can represent.
    TooMany,
    /// A variant's code does not fit in the backing width.
    TooLarge { index: usize, value: u64 },
    /// Unresolved don't-care bits under an encoding that admits none.
    UnevaluatableVariant { index: usize },
    /// A code that breaks the onehot or gray discipline.
    InvalidVariant { index: usize },
}

/// The code of the variant at `i` under the default sequence: the first
/// implicit code is 0 under sequential and gray, 1 under onehot; a later
/// implicit code continues from its predecessor (sequential), doubles it
/// (onehot), or takes the standard reflected value of its position
/// (gray).
pub open spec fn variant_code_at(
    vals: Seq<Option<Evaluated>>,
    enc: EnumEncoding,
    i: int,
) -> VariantCode
    decreases i,
{
    match vals[i] {
        Option::Some(e) => match e {
            Evaluated::Fixed { value, width } => VariantCode::Known(value),
            Evaluated::Unevaluatable => VariantCode::Dontcare,
            Evaluated::UnknownStatic => VariantCode::Static,
            Evaluated::Variable => VariantCode::Static,
        },
        Option::None => {
            if i <= 0 {
                match enc {
                    EnumEncoding::OneHot => VariantCode::Known(1),
                    _ => VariantCode::Known(0),
                }
            } else {
                match variant_code_at(vals, enc, i - 1) {
                    VariantCode::Known(p) => match enc {
                        EnumEncoding::Sequential => VariantCode::Known(p.wrapping_add(1)),
                        EnumEncoding::OneHot => VariantCode::Known(p.wrapping_mul(2)),
                        EnumEncoding::Gray => VariantCode::Known(
                            ((i as u64) ^ ((i as u64) >> 1u64)),
                        ),
                    },
                    VariantCode::Dontcare => VariantCode::Dontcare,
                    VariantCode::Static => VariantCode::Static,
                }
            }
        },
    }
}

/// The findings of the encoding check for the variant at `i` alone.
pub open spec fn variant_issues_at(
    vals: Seq<Option<Evaluated>>,
    enc: EnumEncoding,
    width: nat,
    i: int,
) -> Seq<EnumIssue> {
    let code = variant_code_at(vals, enc, i);
    let dontcare_issue: Seq<EnumIssue> = if code is Dontcare && !(enc is Sequential
        && vals[i] is Some) {
        seq![EnumIssue::UnevaluatableVariant { index: i as usize }]
    } else {
        Seq::empty()
    };
    let value_issues: Seq<EnumIssue> = match code {
        VariantCode::Known(v) => {
            let large: Seq<EnumIssue> = if !value_fits_width(v as nat, width) {
                seq![EnumIssue::TooLarge { index: i as usize, value: v }]
            } else {
                Seq::empty()
            };
            let disc: Seq<EnumIssue> = match enc {
                EnumEncoding::Sequential => Seq::empty(),
                EnumEncoding::OneHot => if !is_onehot(v) {
                    seq![EnumIssue::InvalidVariant { index: i as usize }]
                } else {
                    Seq::empty()
                },
                EnumEncoding::Gray => {
                    if i > 0 && (variant_code_at(vals, enc, i - 1) matches VariantCode::Known(p)
                        && !one_bit_diff(p, v)) {
                        seq![EnumIssue::InvalidVariant { index: i as usize }]
                    } else {
                        Seq::empty()
                    }
                },
            };
            large + disc
        },
        _ => Seq::empty(),
    };
    dontcare_issue + value_issues
}

/// The findings for the first `n` variants, in declaration order.
pub open spec fn variant_issues_upto(
    vals: Seq<Option<Evaluated>>,
    enc: EnumEncoding,
    width: nat,
    n: int,
) -> Seq<EnumIssue>
    decreases n,
{
    if n <= 0 {
        Seq::empty()
    } else {
        variant_issues_upto(vals, enc, width, n - 1) + variant_issues_at(vals, enc, width, n - 1)
    }
}

/// Every finding of the encoding check: the too-many finding first,
/// then the per-variant findings in declaration order.
pub open spec fn enum_issues(
    vals: Seq<Option<Evaluated>>,
    enc: EnumEncoding,
    width: nat,
) -> Seq<EnumIssue> {
    let head: Seq<EnumIssue> = if !fits_in_width(vals.len(), width) {
        seq![EnumIssue::TooMany]
    } else {
        Seq::empty()
    };
    head + variant_issues_upto(vals, enc, width, vals.len() as int)
}

/// The code assigned to the variant at `i`: its computed code where
/// known, and 0 where don't-care or parameter-dependent.
pub open spec fn assigned_code_at(vals: Seq<Option<Evaluated>>, enc: EnumEncoding, i: int) -> u64 {
    match variant_code_at(vals, enc, i) {
        VariantCode::Known(v) => v,
        _ => 0,
    }
}

/// Runs the enum encoding check of the constant evaluator: assigns each
/// variant its code and accumulates every finding.
#[verifier::rlimit(80)]
pub fn encode_enum(variants: &Vec<EnumVariantInput>, width: u64, enc: EnumEncoding) -> (out: (
    Vec<u64>,
    Vec<EnumIssue>,
))
    ensures
        out.1@ == enum_issues(variants@.map_values(|v: EnumVariantInput| v.value), enc, width as nat),
        out.0@.len() == variants@.len(),
        forall|i: int|
            0 <= i < variants@.len() ==> out.0@[i] == assigned_code_at(
                variants@.map_values(|v: EnumVariantInput| v.value),
                enc,
                i,
            ),
{
    let ghost vals = variants@.map_values(|v: EnumVariantInput| v.value);
    let mut issues: Vec<EnumIssue> = Vec::new();
    let mut codes: Vec<u64> = Vec::new();
    let n = variants.len();
    proof {
        assert(variants.len() == variants@.len());
    }
    if !count_fits_width(n as u64, width) {
        issues.push(EnumIssue::TooMany);
    }
    let ghost head = issues@;
    let mut prev: VariantCode = VariantCode::Static;
    for i in 0..n
        invariant
            n == variants@.len(),
            vals == variants@.map_values(|v: EnumVariantInput| v.value),
            head == (if !fits_in_width(vals.len(), width as nat) {
                seq![EnumIssue::TooMany]
            } else {
                Seq::<EnumIssue>::empty()
            }),
            issues@ == head + variant_issues_upto(vals, enc, width as nat, i as int),
            codes@.len() == i,
            forall|j: int| 0 <= j < i ==> codes@[j] == assigned_code_at(vals, enc, j),
            i > 0 ==> prev == variant_code_at(vals, enc, i - 1),
    {
        proof {
            assert(vals[i as int] == variants@[i as int].value);
        }
        let code: VariantCode = match &variants[i].value {
            Option::Some(e) => match e {
                Evaluated::Fixed { value, .. } => VariantCode::Known(*value),
                Evaluated::Unevaluatable => VariantCode::Dontcare,
                Evaluated::UnknownStatic => VariantCode::Static,
                Evaluated::Variable => VariantCode::Static,
            },
            Option::None => {
                if i == 0 {
                    match enc {
                        EnumEncoding::OneHot => VariantCode::Known(1),
                        _ => VariantCode::Known(0),
                    }
                } else {
                    match prev {
                        VariantCode::Known(p) => match enc {
                            EnumEncoding::Sequential => VariantCode::Known(
                                p.wrapping_add(1),
                            ),
                            EnumEncoding::OneHot => VariantCode::Known(p.wrapping_mul(2)),
                            EnumEncoding::Gray => VariantCode::Known(
                                (i as u64) ^ ((i as u64) >> 1u64),
                            ),
                        },
                        VariantCode::Dontcare => VariantCode::Dontcare,
                        VariantCode::Static => VariantCode::Static,
                    }
                }
            },
        };
        proof {
            assert(code == variant_code_at(vals, enc, i as int));
        }
        let ghost before = issues@;
        match code {
            VariantCode::Dontcare => {
                let explicit = variants[i].value.is_some();
                if !(matches!(enc, EnumEncoding::Sequential) && explicit) {
                    issues.push(EnumIssue::UnevaluatableVariant { index: i });
                }
            },
            VariantCode::Known(v) => {
                if !value_fits(v, width) {
                    issues.push(EnumIssue::TooLarge { index: i, value: v });
                }
                match enc {
                    EnumEncoding::Sequential => {},
                    EnumEncoding::OneHot => {
                        if !onehot(v) {
                            issues.push(EnumIssue::InvalidVariant { index: i });
                        }
                    },
                    EnumEncoding::Gray => {
                        if i > 0 {
                            if let VariantCode::Known(p) = prev {
                                if !gray_step(p, v) {
                                    issues.push(EnumIssue::InvalidVariant { index: i });
                                }
                            }
                        }
                    },
                }
            },
            VariantCode::Static => {},
        }
        proof {
            assert(issues@ =~= before + variant_issues_at(vals, enc, width as nat, i as int));
            assert(variant_issues_upto(vals, enc, width as nat, i + 1 as int)
                == variant_issues_upto(vals, enc, width as nat, i as int) + variant_issues_at(
                vals,
                enc,
                width as nat,
                i as int,
            ));
            assert(issues@ =~= head + variant_issues_upto(vals, enc, width as nat, i + 1 as int));
        }
        match code {
            VariantCode::Known(v) => codes.push(v),
            _ => codes.push(0),
        }
        prev = code;
    }
    (codes, issues)
}

/// An enum whose variant count fits its backing width exactly — the
/// width is the ceiling base-two logarithm of the count — never yields
/// the too-many finding.
pub proof fn lemma_enum_fits_at_clog2(vals: Seq<Option<Evaluated>>, enc: EnumEncoding)
    ensures
        forall|issue: EnumIssue|
            enum_issues(vals, enc, clog2(vals.len())).contains(issue) ==> issue !is TooMany,
{
    lemma_clog2_fits(vals.len());
    let width = clog2(vals.len());
    lemma_upto_no_too_many(vals, enc, width, vals.len() as int);
    assert forall|issue: EnumIssue|
        enum_issues(vals, enc, width).contains(issue) implies issue !is TooMany by {
        assert(fits_in_width(vals.len(), width));
        assert(enum_issues(vals, enc, width) =~= variant_issues_upto(
            vals,
            enc,
            width,
            vals.len() as int,
        ));
        assert(variant_issues_upto(vals, enc, width, vals.len() as int).contains(issue));
    }
}

/// The per-variant findings never hold the too-many finding.
proof fn lemma_upto_no_too_many(
    vals: Seq<Option<Evaluated>>,
    enc: EnumEncoding,
    width: nat,
    n: int,
)
    ensures
        forall|issue: EnumIssue|
            variant_issues_upto(vals, enc, width, n).contains(issue) ==> issue !is TooMany,
    decreases n,
{
    if n > 0 {
        lemma_upto_no_too_many(vals, enc, width, n - 1);
        assert forall|issue: EnumIssue|
            variant_issues_upto(vals, enc, width, n).contains(issue) implies issue !is TooMany by {
            let s = variant_issues_upto(vals, enc, width, n - 1);
            let t = variant_issues_at(vals, enc, width, n - 1);
            let idx = choose|idx: int|
                0 <= idx < (s + t).len() && (s + t)[idx] == issue;
            if idx < s.len() {
                assert(s.contains(issue));
            } else {
                assert(t[idx - s.len()] == issue);
                lemma_at_no_too_many(vals, enc, width, n - 1);
                assert(t.contains(issue));
            }
        }
    }
}

/// The findings for one variant never hold the too-many finding.
proof fn lemma_at_no_too_many(vals: Seq<Option<Evaluated>>, enc: EnumEncoding, width: nat, i: int)
    ensures
        forall|issue: EnumIssue|
            variant_issues_at(vals, enc, width, i).contains(issue) ==> issue !is TooMany,
{
}

/// One variant more than a power-of-two count, at the width that held
/// that count exactly, always yields the too-many finding. (For a count
/// that is not a power of two, the next count still fits the same
/// width, so nothing is owed.)
pub proof fn lemma_enum_overflow_at_clog2(
    vals: Seq<Option<Evaluated>>,
    more: Seq<Option<Evaluated>>,
    enc: EnumEncoding,
)
    requires
        vals.len() >= 1,
        vals.len() == pow2(clog2(vals.len())),
        more.len() == vals.len() + 1,
    ensures
        enum_issues(more, enc, clog2(vals.len()))[0] is TooMany,
{
    let width = clog2(vals.len());
    assert(more.len() > pow2(width));
    assert(!fits_in_width(more.len(), width));
    assert(enum_issues(more, enc, width) == seq![EnumIssue::TooMany] + variant_issues_upto(
        more,
        enc,
        width,
        more.len() as int,
    ));
}

/// Left shift on 64-bit values, zero once every bit is shifted out.
pub open spec fn shl64(a: u64, b: u64) -> u64 {
    if b >= 64 {
        0
    } else {
        a << b
    }
}

/// Right shift on 64-bit values, zero once every bit is shifted out.
pub open spec fn shr64(a: u64, b: u64) -> u64 {
    if b >= 64 {
        0
    } else {
        a >> b
    }
}

/// The value a binary operator yields on two fixed operands, or
/// nothing for a division or remainder by zero.
pub open spec fn binary_value(op: BinaryOp, lv: u64, rv: u64) -> Option<u64> {
    match op {
        BinaryOp::Add => Option::Some(lv.wrapping_add(rv)),
        BinaryOp::Sub => Option::Some(lv.wrapping_sub(rv)),
        BinaryOp::Mul => Option::Some(lv.wrapping_mul(rv)),
        BinaryOp::Div => if rv == 0 {
            Option::None
        } else {
            Option::Some(lv / rv)
        },
        BinaryOp::Mod => if rv == 0 {
            Option::None
        } else {
            Option::Some(lv % rv)
        },
        BinaryOp::BitAnd => Option::Some(lv & rv),
        BinaryOp::BitOr => Option::Some(lv | rv),
        BinaryOp::BitXor => Option::Some(lv ^ rv),
        BinaryOp::Shl => Option::Some(shl64(lv, rv)),
        BinaryOp::Shr => Option::Some(shr64(lv, rv)),
        BinaryOp::LogAnd => Option::Some(if lv != 0 && rv != 0 { 1 } else { 0 }),
        BinaryOp::LogOr => Option::Some(if lv != 0 || rv != 0 { 1 } else { 0 }),
        BinaryOp::CmpEq => Option::Some(if lv == rv { 1 } else { 0 }),
        BinaryOp::CmpNe => Option::Some(if lv != rv { 1 } else { 0 }),
        BinaryOp::CmpLt => Option::Some(if lv < rv { 1 } else { 0 }),
        BinaryOp::CmpLe => Option::Some(if lv <= rv { 1 } else { 0 }),
        BinaryOp::CmpGt => Option::Some(if lv > rv { 1 } else { 0 }),
        BinaryOp::CmpGe => Option::Some(if lv >= rv { 1 } else { 0 }),
    }
}

/// The value a unary operator yields on a fixed operand.
pub open spec fn unary_value(op: UnaryOp, v: u64) -> u64 {
    match op {
        UnaryOp::Plus => v,
        UnaryOp::Minus => (0u64).wrapping_sub(v),
        UnaryOp::LogNot => if v == 0 {
            1
        } else {
            0
        },
        UnaryOp::BitNot => !v,
    }
}

/// How the evaluations of two operands combine: a runtime-dependent
/// operand makes the whole runtime-dependent; otherwise a don't-care
/// operand poisons the result; otherwise an unknown-static operand
/// leaves it static but unknown.
pub open spec fn combine_rank(a: Evaluated, b: Evaluated) -> Evaluated {
    if a is Variable || b is Variable {
        Evaluated::Variable
    } else if a is Unevaluatable || b is Unevaluatable {
        Evaluated::Unevaluatable
    } else if a is UnknownStatic || b is UnknownStatic {
        Evaluated::UnknownStatic
    } else {
        a
    }
}

/// What a reference to a resolved symbol evaluates to: a constant's
/// settled value, an enum member's code, unknown-but-static for a
/// generic parameter, and runtime-dependent for everything else.
pub open spec fn eval_of_symbol(kind: SymbolKind) -> Evaluated {
    match kind {
        SymbolKind::Constant(c) => c.value,
        SymbolKind::EnumMember(v) => Evaluated::Fixed { value: v, width: 64 },
        SymbolKind::GenericParameter(_) => Evaluated::UnknownStatic,
        _ => Evaluated::Variable,
    }
}

/// Constant evaluation of an expression against the symbols in scope.
/// An unresolved name evaluates to unknown-but-static: the resolver,
/// not the evaluator, reports it.
pub open spec fn eval_expr(e: Expr, syms: Seq<crate::symbol::Symbol>, ctx: Seq<StrId>) -> Evaluated
    decreases e,
{
    match e {
        Expr::Number { value, width, sized, .. } => Evaluated::Fixed {
            value,
            width: if sized {
                width
            } else {
                64
            },
        },
        Expr::DontCare { .. } => Evaluated::Unevaluatable,
        Expr::Anonymous { .. } => Evaluated::Variable,
        Expr::Ref(r) => {
            match crate::symbol_table::resolve_ref_spec(
                syms,
                ctx,
                r.scope@.map_values(|id: crate::ast::Ident| id.name),
                r.base.name,
            ) {
                Option::Some(i) => eval_of_symbol(syms[i].kind),
                Option::None => Evaluated::UnknownStatic,
            }
        },
        Expr::Unary { op, operand, .. } => {
            match eval_expr(*operand, syms, ctx) {
                Evaluated::Fixed { value, width } => Evaluated::Fixed {
                    value: unary_value(op, value),
                    width,
                },
                other => other,
            }
        },
        Expr::Binary { op, lhs, rhs, .. } => {
            let l = eval_expr(*lhs, syms, ctx);
            let r = eval_expr(*rhs, syms, ctx);
            match (l, r) {
                (
                    Evaluated::Fixed { value: lv, width: lw },
                    Evaluated::Fixed { value: rv, width: rw },
                ) => match binary_value(op, lv, rv) {
                    Option::Some(v) => Evaluated::Fixed {
                        value: v,
                        width: if lw >= rw {
                            lw
                        } else {
                            rw
                        },
                    },
                    Option::None => Evaluated::Unevaluatable,
                },
                _ => combine_rank(l, r),
            }
        },
        Expr::Concat { parts, .. } => eval_concat(parts@, syms, ctx, parts@.len() as int),
        Expr::Cast { operand, .. } => eval_expr(*operand, syms, ctx),
        Expr::Call { .. } => Evaluated::Variable,
    }
}

/// Constant evaluation of the first `n` parts of a concatenation,
/// packing each further part below the accumulated value.
pub open spec fn eval_concat(
    parts: Seq<Expr>,
    syms: Seq<crate::symbol::Symbol>,
    ctx: Seq<StrId>,
    n: int,
) -> Evaluated
    decreases parts, n,
{
    if n <= 0 {
        Evaluated::Fixed { value: 0, width: 0 }
    } else if n > parts.len() {
        Evaluated::Fixed { value: 0, width: 0 }
    } else {
        let acc = eval_concat(parts, syms, ctx, n - 1);
        let last = eval_expr(parts[n - 1], syms, ctx);
        match (acc, last) {
            (
                Evaluated::Fixed { value: av, width: aw },
                Evaluated::Fixed { value: lv, width: lw },
            ) => Evaluated::Fixed { value: shl64(av, lw) | lv, width: aw.wrapping_add(lw) },
            _ => combine_rank(acc, last),
        }
    }
}

/// Whether an expression is clock-kinded: a reference to a
/// clock-kinded signal, or an explicit cast into a clock kind.
pub open spec fn expr_is_power(e: Expr, syms: Seq<crate::symbol::Symbol>, ctx: Seq<StrId>) -> bool
    decreases e,
{
    match e {
        Expr::Ref(r) => {
            match crate::symbol_table::resolve_ref_spec(
                syms,
                ctx,
                r.scope@.map_values(|id: crate::ast::Ident| id.name),
                r.base.name,
            ) {
                Option::Some(i) => symbol_kind_is_power(syms[i].kind),
                Option::None => false,
            }
        },
        Expr::Cast { into, .. } => kind_is_power(into),
        Expr::Unary { operand, .. } => expr_is_power(*operand, syms, ctx),
        _ => false,
    }
}

/// Whether an expression is reset-kinded: a reference to a
/// reset-kinded signal, or an explicit cast into a reset kind.
pub open spec fn expr_is_enable(e: Expr, syms: Seq<crate::symbol::Symbol>, ctx: Seq<StrId>) -> bool
    decreases e,
{
    match e {
        Expr::Ref(r) => {
            match crate::symbol_table::resolve_ref_spec(
                syms,
                ctx,
                r.scope@.map_values(|id: crate::ast::Ident| id.name),
                r.base.name,
            ) {
                Option::Some(i) => symbol_kind_is_enable(syms[i].kind),
                Option::None => false,
            }
        },
        Expr::Cast { into, .. } => kind_is_enable(into),
        Expr::Unary { operand, .. } => expr_is_enable(*operand, syms, ctx),
        _ => false,
    }
}

/// Whether a symbol declares a clock-kinded signal.
pub open spec fn symbol_kind_is_power(kind: SymbolKind) -> bool {
    match kind {
        SymbolKind::Port(p) => p.ty matches Option::Some(t) && kind_is_power(t.kind),
        SymbolKind::Variable(v) => kind_is_power(v.ty.kind),
        SymbolKind::Constant(c) => kind_is_power(c.ty.kind),
        _ => false,
    }
}

/// Whether a symbol declares a reset-kinded signal.
pub open spec fn symbol_kind_is_enable(kind: SymbolKind) -> bool {
    match kind {
        SymbolKind::Port(p) => p.ty matches Option::Some(t) && kind_is_enable(t.kind),
        SymbolKind::Variable(v) => kind_is_enable(v.ty.kind),
        SymbolKind::Constant(c) => kind_is_enable(c.ty.kind),
        _ => false,
    }
}

/// The constant evaluator: decides whether an expression is fixed at
/// elaboration time and computes its value.
pub struct Evaluator {
}

impl Evaluator {
    pub fn new() -> (e: Evaluator) {
        Evaluator {  }
    }

    /// Evaluates an expression against the symbols in scope.
    #[verifier::loop_isolation(false)]
    pub fn expression(&self, e: &Expr, tab: &SymbolTable, ctx: &Vec<StrId>) -> (r: Evaluated)
        ensures
            r == eval_expr(*e, tab.symbols@, ctx@),
        decreases *e,
    {
        match e {
            Expr::Number { value, width, sized, .. } => Evaluated::Fixed {
                value: *value,
                width: if *sized {
                    *width
                } else {
                    64
                },
            },
            Expr::DontCare { .. } => Evaluated::Unevaluatable,
            Expr::Anonymous { .. } => Evaluated::Variable,
            Expr::Ref(r) => {
                match tab.resolve_ref(ctx, &r.scope, r.base.name) {
                    Option::Some(i) => {
                        let sym = &tab.symbols[i];
                        match &sym.kind {
                            SymbolKind::Constant(c) => c.value,
                            SymbolKind::EnumMember(v) => Evaluated::Fixed { value: *v, width: 64 },
                            SymbolKind::GenericParameter(_) => Evaluated::UnknownStatic,
                            _ => Evaluated::Variable,
                        }
                    },
                    Option::None => Evaluated::UnknownStatic,
                }
            },
            Expr::Unary { op, operand, .. } => {
                let inner = self.expression(operand, tab, ctx);
                match inner {
                    Evaluated::Fixed { value, width } => Evaluated::Fixed {
                        value: unary_op_exec(*op, value),
                        width,
                    },
                    other => other,
                }
            },
            Expr::Binary { op, lhs, rhs, .. } => {
                let l = self.expression(lhs, tab, ctx);
                let r = self.expression(rhs, tab, ctx);
                match (l, r) {
                    (
                        Evaluated::Fixed { value: lv, width: lw },
                        Evaluated::Fixed { value: rv, width: rw },
                    ) => {
                        match binary_op_exec(*op, lv, rv) {
                            Option::Some(v) => Evaluated::Fixed {
                                value: v,
                                width: if lw >= rw {
                                    lw
                                } else {
                                    rw
                                },
                            },
                            Option::None => Evaluated::Unevaluatable,
                        }
                    },
                    _ => combine_exec(l, r),
                }
            },
            Expr::Concat { parts, .. } => {
                let mut acc = Evaluated::Fixed { value: 0, width: 0 };
                let n = parts.len();
                proof {
                    assert(parts.len() == parts@.len());
                }
                for i in 0..n
                    invariant
                        n == parts@.len(),
                        acc == eval_concat(parts@, tab.symbols@, ctx@, i as int),
                {
                    proof {
                        assert(decreases_to!(*parts => parts@[i as int]));
                    }
                    let last = self.expression(&parts[i], tab, ctx);
                    acc = match (acc, last) {
                        (
                            Evaluated::Fixed { value: av, width: aw },
                            Evaluated::Fixed { value: lv, width: lw },
                        ) => Evaluated::Fixed {
                            value: shl_exec(av, lw) | lv,
                            width: aw.wrapping_add(lw),
                        },
                        _ => combine_exec(acc, last),
                    };
                }
                acc
            },
            Expr::Cast { operand, .. } => self.expression(operand, tab, ctx),
            Expr::Call { .. } => Evaluated::Variable,
        }
    }

    /// Whether an expression is clock-kinded.
    pub fn is_power_expr(&self, e: &Expr, tab: &SymbolTable, ctx: &Vec<StrId>) -> (r: bool)
        ensures
            r == expr_is_power(*e, tab.symbols@, ctx@),
        decreases *e,
    {
        match e {
            Expr::Ref(r) => {
                match tab.resolve_ref(ctx, &r.scope, r.base.name) {
                    Option::Some(i) => {
                        let sym = &tab.symbols[i];
                        match &sym.kind {
                            SymbolKind::Port(p) => match &p.ty {
                                Option::Some(t) => t.kind.is_power(),
                                Option::None => false,
                            },
                            SymbolKind::Variable(v) => v.ty.kind.is_power(),
                            SymbolKind::Constant(c) => c.ty.kind.is_power(),
                            _ => false,
                        }
                    },
                    Option::None => false,
                }
            },
            Expr::Cast { into, .. } => into.is_power(),
            Expr::Unary { operand, .. } => self.is_power_expr(operand, tab, ctx),
            _ => false,
        }
    }

    /// Whether an expression is reset-kinded.
    pub fn is_enable_expr(&self, e: &Expr, tab: &SymbolTable, ctx: &Vec<StrId>) -> (r: bool)
        ensures
            r == expr_is_enable(*e, tab.symbols@, ctx@),
        decreases *e,
    {
        match e {
            Expr::Ref(r) => {
                match tab.resolve_ref(ctx, &r.scope, r.base.name) {
                    Option::Some(i) => {
                        let sym = &tab.symbols[i];
                        match &sym.kind {
                            SymbolKind::Port(p) => match &p.ty {
                                Option::Some(t) => t.kind.is_enable(),
                                Option::None => false,
                            },
                            SymbolKind::Variable(v) => v.ty.kind.is_enable(),
                            SymbolKind::Constant(c) => c.ty.kind.is_enable(),
                            _ => false,
                        }
                    },
                    Option::None => false,
                }
            },
            Expr::Cast { into, .. } => into.is_enable(),
            Expr::Unary { operand, .. } => self.is_enable_expr(operand, tab, ctx),
            _ => false,
        }
    }
}

/// Exec application of a unary operator, matching `unary_value`.
fn unary_op_exec(op: UnaryOp, v: u64) -> (r: u64)
    ensures
        r == unary_value(op, v),
{
    match op {
        UnaryOp::Plus => v,
        UnaryOp::Minus => (0u64).wrapping_sub(v),
        UnaryOp::LogNot => if v == 0 {
            1
        } else {
            0
        },
        UnaryOp::BitNot => !v,
    }
}

/// Exec left shift matching `shl64`.
fn shl_exec(a: u64, b: u64) -> (r: u64)
    ensures
        r == shl64(a, b),
{
    if b >= 64 {
        0
    } else {
        a << b
    }
}

/// Exec right shift matching `shr64`.
fn shr_exec(a: u64, b: u64) -> (r: u64)
    ensures
        r == shr64(a, b),
{
    if b >= 64 {
        0
    } else {
        a >> b
    }
}

/// Exec application of a binary operator, matching `binary_value`.
fn binary_op_exec(op: BinaryOp, lv: u64, rv: u64) -> (r: Option<u64>)
    ensures
        r == binary_value(op, lv, rv),
{
    match op {
        BinaryOp::Add => Some(lv.wrapping_add(rv)),
        BinaryOp::Sub => Some(lv.wrapping_sub(rv)),
        BinaryOp::Mul => Some(lv.wrapping_mul(rv)),
        BinaryOp::Div => if rv == 0 {
            None
        } else {
            Some(lv / rv)
        },
        BinaryOp::Mod => if rv == 0 {
            None
        } else {
            Some(lv % rv)
        },
        BinaryOp::BitAnd => Some(lv & rv),
        BinaryOp::BitOr => Some(lv | rv),
        BinaryOp::BitXor => Some(lv ^ rv),
        BinaryOp::Shl => Some(shl_exec(lv, rv)),
        BinaryOp::Shr => Some(shr_exec(lv, rv)),
        BinaryOp::LogAnd => Some(if lv != 0 && rv != 0 { 1 } else { 0 }),
        BinaryOp::LogOr => Some(if lv != 0 || rv != 0 { 1 } else { 0 }),
        BinaryOp::CmpEq => Some(if lv == rv { 1 } else { 0 }),
        BinaryOp::CmpNe => Some(if lv != rv { 1 } else { 0 }),
        BinaryOp::CmpLt => Some(if lv < rv { 1 } else { 0 }),
        BinaryOp::CmpLe => Some(if lv <= rv { 1 } else { 0 }),
        BinaryOp::CmpGt => Some(if lv > rv { 1 } else { 0 }),
        BinaryOp::CmpGe => Some(if lv >= rv { 1 } else { 0 }),
    }
}

/// Exec combination of operand ranks, matching `combine_rank`.
fn combine_exec(a: Evaluated, b: Evaluated) -> (r: Evaluated)
    ensures
        r == combine_rank(a, b),
{
    if matches!(a, Evaluated::Variable) || matches!(b, Evaluated::Variable) {
        Evaluated::Variable
    } else if matches!(a, Evaluated::Unevaluatable) || matches!(b, Evaluated::Unevaluatable) {
        Evaluated::Unevaluatable
    } else if matches!(a, Evaluated::UnknownStatic) || matches!(b, Evaluated::UnknownStatic) {
        Evaluated::UnknownStatic
    } else {
        a
    }
}

} // verus!

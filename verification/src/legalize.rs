//! The wide-integer legalizer: a stateless decision, per matched binary
//! operation on double-width (128-bit) integer operands, between letting the
//! ordinary lowering proceed, rewriting the operation into a call to a
//! fixed-name runtime routine with a target-dependent calling convention,
//! splitting a shift by a constant 64 into pure data movement, and failing
//! loudly on a combination the target cannot express.
//!
//! The value-level halves of the constant-64 fast path (`split_shift_by_64`
//! and friends) are here too, proved against the arithmetic meaning of
//! taking or placing the low and high machine words of a 128-bit value.

use vstd::prelude::*;

verus! {

/// The binary operator of the matched instruction, with the comparison
/// operators spelled out.
#[derive(Clone, Copy, PartialEq, Eq, Structural, Debug)]
pub enum WideBinOp {
    Add,
    Sub,
    Mul,
    Div,
    Rem,
    BitAnd,
    BitOr,
    BitXor,
    Shl,
    Shr,
    CmpLt,
    CmpLe,
    CmpEq,
    CmpGe,
    CmpGt,
    CmpNe,
    Offset,
}

/// The direction of a shift.
#[derive(Clone, Copy, PartialEq, Eq, Structural, Debug)]
pub enum ShiftDir {
    Left,
    Right,
}

/// The two calling-convention families a target can fall under. Under
/// `StructReturn`, double-width operands are materialized into stack-resident
/// copies and passed by address, and results are written through a
/// caller-supplied output address. Under `RegisterPair`, operands and results
/// pass directly as (possibly split) machine words.
#[derive(Clone, Copy, PartialEq, Eq, Structural, Debug)]
pub enum AbiFamily {
    StructReturn,
    RegisterPair,
}

/// The fixed-name runtime routines a rewrite can call into.
#[derive(Clone, Copy, PartialEq, Eq, Structural, Debug)]
pub enum Routine {
    Mul3,
    AddOvfU,
    AddOvfI,
    SubOvfU,
    SubOvfI,
    MulOvfU,
    MulOvfI,
    DivU,
    DivI,
    RemU,
    RemI,
    ShlA,
    ShrL,
    ShrA,
}

/// The link-time symbol name of a runtime routine.
pub open spec fn routine_symbol_spec(r: Routine) -> Seq<char> {
    match r {
        Routine::Mul3 => "__multi3"@,
        Routine::AddOvfU => "__rust_u128_addo"@,
        Routine::AddOvfI => "__rust_i128_addo"@,
        Routine::SubOvfU => "__rust_u128_subo"@,
        Routine::SubOvfI => "__rust_i128_subo"@,
        Routine::MulOvfU => "__rust_u128_mulo"@,
        Routine::MulOvfI => "__rust_i128_mulo"@,
        Routine::DivU => "__udivti3"@,
        Routine::DivI => "__divti3"@,
        Routine::RemU => "__umodti3"@,
        Routine::RemI => "__modti3"@,
        Routine::ShlA => "__ashlti3"@,
        Routine::ShrL => "__lshrti3"@,
        Routine::ShrA => "__ashrti3"@,
    }
}

impl Routine {
    /// The link-time symbol name of the routine.
    pub fn symbol(&self) -> (r: &'static str)
        ensures
            r@ == routine_symbol_spec(*self),
    {
        match self {
            Routine::Mul3 => "__multi3",
            Routine::AddOvfU => "__rust_u128_addo",
            Routine::AddOvfI => "__rust_i128_addo",
            Routine::SubOvfU => "__rust_u128_subo",
            Routine::SubOvfI => "__rust_i128_subo",
            Routine::MulOvfU => "__rust_u128_mulo",
            Routine::MulOvfI => "__rust_i128_mulo",
            Routine::DivU => "__udivti3",
            Routine::DivI => "__divti3",
            Routine::RemU => "__umodti3",
            Routine::RemI => "__modti3",
            Routine::ShlA => "__ashlti3",
            Routine::ShrL => "__lshrti3",
            Routine::ShrA => "__ashrti3",
        }
    }

    /// Whether the routine reports overflow: it yields a (value, overflow
    /// boolean) pair through its output address.
    pub open spec fn reports_overflow(self) -> bool {
        match self {
            Routine::AddOvfU | Routine::AddOvfI | Routine::SubOvfU | Routine::SubOvfI
                | Routine::MulOvfU | Routine::MulOvfI => true,
            _ => false,
        }
    }
}

/// How the routine's result reaches the caller: directly in (split) machine
/// words, through a caller-supplied output address, or as a packed wide
/// register pair that must be placed into a stack-resident copy before being
/// reinterpreted as the double-width result type.
#[derive(Clone, Copy, PartialEq, Eq, Structural, Debug)]
pub enum ResultPassing {
    Direct,
    OutPtr,
    PackedPairViaStack,
}

/// Where the overflow component of a checked operation's result pair comes
/// from: the routine's own overflow report, or a separate check that the
/// shift count is at least 128.
#[derive(Clone, Copy, PartialEq, Eq, Structural, Debug)]
pub enum OverflowSource {
    NotChecked,
    FromRoutine,
    FromCountCheck,
}

/// A synthesized call: which routine, and with which calling convention.
#[derive(Clone, Copy, PartialEq, Eq, Structural, Debug)]
pub struct CallPlan {
    /// The runtime routine to call.
    pub routine: Routine,
    /// Operands are materialized into stack-resident copies and passed by
    /// address (the struct-return family does this uniformly).
    pub operands_by_ref: bool,
    /// How the result comes back.
    pub result: ResultPassing,
    /// The result is a (value, overflow boolean) pair.
    pub returns_pair: bool,
    /// Where the overflow component comes from, if any.
    pub overflow: OverflowSource,
    /// The shift-count operand is truncated to a 32-bit word before the call.
    pub truncate_count: bool,
}

/// The constant-64 fast path: pure data movement instead of a call, with the
/// overflow flag (for a checked shift) computed from the count separately.
#[derive(Clone, Copy, PartialEq, Eq, Structural, Debug)]
pub struct SplitPlan {
    pub dir: ShiftDir,
    pub signed: bool,
    pub checked: bool,
}

/// The legalization decision for one matched operation.
#[derive(Clone, Copy, PartialEq, Eq, Structural, Debug)]
pub enum Legalization {
    /// The target lowers the operation natively; nothing is rewritten.
    NoRewrite,
    /// Rewrite into a call to a runtime routine.
    RuntimeCall(CallPlan),
    /// Shift by a constant 64: emit the data movement of
    /// [`split_shift_by_64`] instead of any call.
    ShiftSplit(SplitPlan),
    /// The target cannot express the operation (a checked shift under the
    /// struct-return family): fail loudly with an explicit trap value rather
    /// than emit wrong code.
    Unsupported,
}

/// An operator for which a checked (overflow-reporting) form exists here.
pub open spec fn checkable_op(op: WideBinOp) -> bool {
    match op {
        WideBinOp::Add | WideBinOp::Sub | WideBinOp::Mul | WideBinOp::Shl | WideBinOp::Shr => true,
        _ => false,
    }
}

/// The overflow-reporting routine for a checked add, sub or multiply.
pub open spec fn checked_routine(op: WideBinOp, signed: bool) -> Routine {
    match (op, signed) {
        (WideBinOp::Add, false) => Routine::AddOvfU,
        (WideBinOp::Add, true) => Routine::AddOvfI,
        (WideBinOp::Sub, false) => Routine::SubOvfU,
        (WideBinOp::Sub, true) => Routine::SubOvfI,
        (WideBinOp::Mul, false) => Routine::MulOvfU,
        _ => Routine::MulOvfI,
    }
}

/// The division routine for a divide or remainder.
pub open spec fn div_rem_routine(op: WideBinOp, signed: bool) -> Routine {
    match (op, signed) {
        (WideBinOp::Div, false) => Routine::DivU,
        (WideBinOp::Div, true) => Routine::DivI,
        (WideBinOp::Rem, false) => Routine::RemU,
        _ => Routine::RemI,
    }
}

/// The shift routine for a shift direction and signedness.
pub open spec fn shift_routine(op: WideBinOp, signed: bool) -> Routine {
    match (op, signed) {
        (WideBinOp::Shl, _) => Routine::ShlA,
        (_, false) => Routine::ShrL,
        _ => Routine::ShrA,
    }
}

/// The decision table: given the operator, whether the operation is
/// overflow-checked, the computed signedness of the operands, the target's
/// calling-convention family, and the shift count when it is a compile-time
/// constant, the action the legalizer takes.
pub open spec fn legalize_spec(
    op: WideBinOp,
    checked: bool,
    signed: bool,
    abi: AbiFamily,
    const_count: Option<u128>,
) -> Legalization {
    match op {
        WideBinOp::BitAnd | WideBinOp::BitOr | WideBinOp::BitXor => Legalization::NoRewrite,
        WideBinOp::CmpLt | WideBinOp::CmpLe | WideBinOp::CmpEq | WideBinOp::CmpGe
            | WideBinOp::CmpGt | WideBinOp::CmpNe => Legalization::NoRewrite,
        WideBinOp::Add | WideBinOp::Sub | WideBinOp::Mul => {
            if !checked {
                if op is Mul {
                    Legalization::RuntimeCall(
                        CallPlan {
                            routine: Routine::Mul3,
                            operands_by_ref: abi is StructReturn,
                            result: if abi is StructReturn {
                                ResultPassing::OutPtr
                            } else {
                                ResultPassing::Direct
                            },
                            returns_pair: false,
                            overflow: OverflowSource::NotChecked,
                            truncate_count: false,
                        },
                    )
                } else {
                    Legalization::NoRewrite
                }
            } else {
                Legalization::RuntimeCall(
                    CallPlan {
                        routine: checked_routine(op, signed),
                        operands_by_ref: abi is StructReturn,
                        result: ResultPassing::OutPtr,
                        returns_pair: true,
                        overflow: OverflowSource::FromRoutine,
                        truncate_count: false,
                    },
                )
            }
        },
        WideBinOp::Div | WideBinOp::Rem => Legalization::RuntimeCall(
            CallPlan {
                routine: div_rem_routine(op, signed),
                operands_by_ref: abi is StructReturn,
                result: if abi is StructReturn {
                    ResultPassing::OutPtr
                } else {
                    ResultPassing::PackedPairViaStack
                },
                returns_pair: false,
                overflow: OverflowSource::NotChecked,
                truncate_count: false,
            },
        ),
        WideBinOp::Shl | WideBinOp::Shr => {
            if const_count == Some(64u128) {
                Legalization::ShiftSplit(
                    SplitPlan {
                        dir: if op is Shl {
                            ShiftDir::Left
                        } else {
                            ShiftDir::Right
                        },
                        signed,
                        checked,
                    },
                )
            } else if checked && abi is StructReturn {
                Legalization::Unsupported
            } else {
                Legalization::RuntimeCall(
                    CallPlan {
                        routine: shift_routine(op, signed),
                        operands_by_ref: abi is StructReturn,
                        result: if abi is StructReturn {
                            ResultPassing::OutPtr
                        } else {
                            ResultPassing::Direct
                        },
                        returns_pair: checked,
                        overflow: if checked {
                            OverflowSource::FromCountCheck
                        } else {
                            OverflowSource::NotChecked
                        },
                        truncate_count: true,
                    },
                )
            }
        },
        WideBinOp::Offset => Legalization::Unsupported,
    }
}

/// Decides how one binary operation on double-width integer operands is
/// lowered. `const_count` is the shift-count operand when it is a known
/// compile-time constant; it is ignored for every operator but the shifts.
///
/// The checked flag only exists for add, sub, multiply and the shifts; a
/// checked bitwise, comparison, divide or remainder operation, and a
/// pointer-offset on a double-width integer, are internal-consistency faults
/// that well-formed input never reaches.
pub fn legalize(
    op: WideBinOp,
    checked: bool,
    signed: bool,
    abi: AbiFamily,
    const_count: Option<u128>,
) -> (r: Legalization)
    requires
        checked ==> checkable_op(op),
        !(op is Offset),
    ensures
        r == legalize_spec(op, checked, signed, abi, const_count),
{
    match op {
        WideBinOp::BitAnd | WideBinOp::BitOr | WideBinOp::BitXor => Legalization::NoRewrite,
        WideBinOp::CmpLt | WideBinOp::CmpLe | WideBinOp::CmpEq | WideBinOp::CmpGe
            | WideBinOp::CmpGt | WideBinOp::CmpNe => Legalization::NoRewrite,
        WideBinOp::Add | WideBinOp::Sub | WideBinOp::Mul => {
            if !checked {
                if matches!(op, WideBinOp::Mul) {
                    Legalization::RuntimeCall(
                        CallPlan {
                            routine: Routine::Mul3,
                            operands_by_ref: matches!(abi, AbiFamily::StructReturn),
                            result: if matches!(abi, AbiFamily::StructReturn) {
                                ResultPassing::OutPtr
                            } else {
                                ResultPassing::Direct
                            },
                            returns_pair: false,
                            overflow: OverflowSource::NotChecked,
                            truncate_count: false,
                        },
                    )
                } else {
                    Legalization::NoRewrite
                }
            } else {
                let routine = match (op, signed) {
                    (WideBinOp::Add, false) => Routine::AddOvfU,
                    (WideBinOp::Add, true) => Routine::AddOvfI,
                    (WideBinOp::Sub, false) => Routine::SubOvfU,
                    (WideBinOp::Sub, true) => Routine::SubOvfI,
                    (WideBinOp::Mul, false) => Routine::MulOvfU,
                    _ => Routine::MulOvfI,
                };
                Legalization::RuntimeCall(
                    CallPlan {
                        routine,
                        operands_by_ref: matches!(abi, AbiFamily::StructReturn),
                        result: ResultPassing::OutPtr,
                        returns_pair: true,
                        overflow: OverflowSource::FromRoutine,
                        truncate_count: false,
                    },
                )
            }
        },
        WideBinOp::Div | WideBinOp::Rem => {
            let routine = match (op, signed) {
                (WideBinOp::Div, false) => Routine::DivU,
                (WideBinOp::Div, true) => Routine::DivI,
                (WideBinOp::Rem, false) => Routine::RemU,
                _ => Routine::RemI,
            };
            Legalization::RuntimeCall(
                CallPlan {
                    routine,
                    operands_by_ref: matches!(abi, AbiFamily::StructReturn),
                    result: if matches!(abi, AbiFamily::StructReturn) {
                        ResultPassing::OutPtr
                    } else {
                        ResultPassing::PackedPairViaStack
                    },
                    returns_pair: false,
                    overflow: OverflowSource::NotChecked,
                    truncate_count: false,
                },
            )
        },
        WideBinOp::Shl | WideBinOp::Shr => {
            let is_const_64 = match const_count {
                Some(c) => c == 64,
                None => false,
            };
            if is_const_64 {
                Legalization::ShiftSplit(
                    SplitPlan {
                        dir: if matches!(op, WideBinOp::Shl) {
                            ShiftDir::Left
                        } else {
                            ShiftDir::Right
                        },
                        signed,
                        checked,
                    },
                )
            } else if checked && matches!(abi, AbiFamily::StructReturn) {
                Legalization::Unsupported
            } else {
                let routine = match (op, signed) {
                    (WideBinOp::Shl, _) => Routine::ShlA,
                    (_, false) => Routine::ShrL,
                    _ => Routine::ShrA,
                };
                Legalization::RuntimeCall(
                    CallPlan {
                        routine,
                        operands_by_ref: matches!(abi, AbiFamily::StructReturn),
                        result: if matches!(abi, AbiFamily::StructReturn) {
                            ResultPassing::OutPtr
                        } else {
                            ResultPassing::Direct
                        },
                        returns_pair: checked,
                        overflow: if checked {
                            OverflowSource::FromCountCheck
                        } else {
                            OverflowSource::NotChecked
                        },
                        truncate_count: true,
                    },
                )
            }
        },
        WideBinOp::Offset => {
            proof {
                assert(false);
            }
            Legalization::Unsupported
        },
    }
}

/// The low machine word of a 128-bit value.
pub open spec fn lo64(v: u128) -> u64 {
    (v % 0x1_0000_0000_0000_0000) as u64
}

/// The high machine word of a 128-bit value.
pub open spec fn hi64(v: u128) -> u64 {
    (v / 0x1_0000_0000_0000_0000) as u64
}

/// A 128-bit value is its high word placed above its low word.
pub proof fn lemma_split_recompose(v: u128)
    ensures
        v == hi64(v) * 0x1_0000_0000_0000_0000 + lo64(v),
        hi64(v) == v / 0x1_0000_0000_0000_0000,
        lo64(v) == v % 0x1_0000_0000_0000_0000,
{
    assert(v / 0x1_0000_0000_0000_0000 < 0x1_0000_0000_0000_0000) by (nonlinear_arith);
    assert(v == (v / 0x1_0000_0000_0000_0000) * 0x1_0000_0000_0000_0000 + v
        % 0x1_0000_0000_0000_0000) by (nonlinear_arith);
}

/// Splits a 128-bit value into its low and high machine words.
pub fn split_value(v: u128) -> (r: (u64, u64))
    ensures
        r.0 == lo64(v),
        r.1 == hi64(v),
        v == r.1 * 0x1_0000_0000_0000_0000 + r.0,
{
    proof {
        lemma_split_recompose(v);
    }
    ((v % 0x1_0000_0000_0000_0000) as u64, (v / 0x1_0000_0000_0000_0000) as u64)
}

/// Places `hi` above `lo` in one 128-bit value.
pub fn concat_value(lo: u64, hi: u64) -> (r: u128)
    ensures
        r == hi * 0x1_0000_0000_0000_0000 + lo,
        lo64(r) == lo,
        hi64(r) == hi,
{
    let r = (hi as u128) * 0x1_0000_0000_0000_0000 + (lo as u128);
    proof {
        lemma_split_recompose(r);
        assert((hi * 0x1_0000_0000_0000_0000 + lo) / 0x1_0000_0000_0000_0000 == hi
            && (hi * 0x1_0000_0000_0000_0000 + lo) % 0x1_0000_0000_0000_0000 == lo)
            by (nonlinear_arith)
            requires
                hi <= 0xffff_ffff_ffff_ffffu64 && lo <= 0xffff_ffff_ffff_ffffu64,
        ;
    }
    r
}

/// Logical (unsigned) right shift by the constant 64: the result is
/// (high word, zero), which is the high word itself.
pub fn shift64_logical_right(v: u128) -> (r: u128)
    ensures
        lo64(r) == hi64(v) && hi64(r) == 0,
        r == v / 0x1_0000_0000_0000_0000,
{
    let (_lo, hi) = split_value(v);
    concat_value(hi, 0)
}

/// Arithmetic (signed) right shift by the constant 64: the result is
/// (high word, all-ones if the high word is negative else all-zero).
pub fn shift64_arithmetic_right(v: u128) -> (r: u128)
    ensures
        lo64(r) == hi64(v),
        hi64(r) == if hi64(v) >= 0x8000_0000_0000_0000 {
            0xffff_ffff_ffff_ffffu64
        } else {
            0u64
        },
        hi64(v) < 0x8000_0000_0000_0000 ==> r == v / 0x1_0000_0000_0000_0000,
{
    let (_lo, hi) = split_value(v);
    let sign_bits: u64 = if hi >= 0x8000_0000_0000_0000 {
        0xffff_ffff_ffff_ffff
    } else {
        0
    };
    concat_value(hi, sign_bits)
}

/// Left shift by the constant 64: the result is (zero, low word), the low
/// word placed above an all-zero low half.
pub fn shift64_left(v: u128) -> (r: u128)
    ensures
        lo64(r) == 0 && hi64(r) == lo64(v),
        r == lo64(v) * 0x1_0000_0000_0000_0000,
{
    let (lo, _hi) = split_value(v);
    concat_value(0, lo)
}

/// The constant-64 shift fast path: pure data movement in place of a runtime
/// call, for any shift direction and signedness, splitting the value into
/// its machine-word halves. Used by generic wide-integer support code to
/// deconstruct a 128-bit value into its halves without a call.
pub fn split_shift_by_64(v: u128, dir: ShiftDir, signed: bool) -> (r: u128)
    ensures
        dir is Right && !signed ==> lo64(r) == hi64(v) && hi64(r) == 0,
        dir is Right && signed ==> lo64(r) == hi64(v) && hi64(r) == (
        if hi64(v) >= 0x8000_0000_0000_0000 {
            0xffff_ffff_ffff_ffffu64
        } else {
            0u64
        }),
        dir is Left ==> lo64(r) == 0 && hi64(r) == lo64(v),
{
    match (dir, signed) {
        (ShiftDir::Right, false) => shift64_logical_right(v),
        (ShiftDir::Right, true) => shift64_arithmetic_right(v),
        (ShiftDir::Left, _) => shift64_left(v),
    }
}

/// The overflow flag of a checked 128-bit shift: whether the full-width
/// shift count is at least 128, checked bit-width-aware on both machine-word
/// halves of the count.
pub fn shift_count_overflows(count: u128) -> (r: bool)
    ensures
        r == (count >= 128),
{
    let (lo, hi) = split_value(count);
    hi != 0 || lo >= 128
}

/// A double-width unchecked multiply is legalized on every target: the
/// decision is never "no rewrite", and is always a call to the multiply
/// routine.
pub proof fn lemma_unchecked_mul_always_legalized(
    signed: bool,
    abi: AbiFamily,
    const_count: Option<u128>,
)
    ensures
        legalize_spec(WideBinOp::Mul, false, signed, abi, const_count) != Legalization::NoRewrite,
        legalize_spec(WideBinOp::Mul, false, signed, abi, const_count) matches
            Legalization::RuntimeCall(plan) && plan.routine == Routine::Mul3,
{
}

/// A checked double-width add, sub or multiply is always rewritten into a
/// call to an overflow-reporting routine whose result is a (value, overflow
/// boolean) pair, the boolean derived strictly from the routine's overflow
/// report.
pub proof fn lemma_checked_ops_return_pair(
    op: WideBinOp,
    signed: bool,
    abi: AbiFamily,
    const_count: Option<u128>,
)
    requires
        op is Add || op is Sub || op is Mul,
    ensures
        legalize_spec(op, true, signed, abi, const_count) matches Legalization::RuntimeCall(plan)
            && plan.returns_pair && plan.overflow == OverflowSource::FromRoutine
            && plan.routine.reports_overflow(),
{
}

/// A shift whose count is the compile-time constant 64 takes the data-
/// movement fast path on every target family, checked or not: no call is
/// made, and the plan records the direction and signedness of the shift.
pub proof fn lemma_const64_shift_takes_fast_path(
    op: WideBinOp,
    checked: bool,
    signed: bool,
    abi: AbiFamily,
)
    requires
        op is Shl || op is Shr,
    ensures
        legalize_spec(op, checked, signed, abi, Some(64u128)) == Legalization::ShiftSplit(
            SplitPlan {
                dir: if op is Shl {
                    ShiftDir::Left
                } else {
                    ShiftDir::Right
                },
                signed,
                checked,
            },
        ),
{
}

} // verus!

//! The plain-value model of the intermediate-representation function that the
//! pack encoder reads: an ordered sequence of basic blocks in layout order,
//! each with a parameter list and an instruction list, plus a table of the
//! machine type of every SSA value and the byte sizes of the function's
//! stack-resident slots.
//!
//! The function is an external input, already built and typed by the front
//! end; the encoder only reads it.

use vstd::prelude::*;

verus! {

/// The machine type of an SSA value. `Float` and `Vector` stand for every
/// floating-point and vector type; `Other` for the remaining machine types
/// (wide boolean types, reference types) that the pack model cannot type.
#[derive(Clone, Copy, PartialEq, Eq, Structural, Debug)]
pub enum MachineType {
    B1,
    I8,
    I16,
    I32,
    I64,
    I128,
    Float,
    Vector,
    Other,
}

/// An integer-comparison condition. Only equality and unsigned less-than
/// map to true pack comparators; every other condition degrades to the
/// placeholder operator.
#[derive(Clone, Copy, PartialEq, Eq, Structural, Debug)]
pub enum IntCondition {
    Equal,
    NotEqual,
    SignedLessThan,
    SignedLessThanOrEqual,
    SignedGreaterThan,
    SignedGreaterThanOrEqual,
    UnsignedLessThan,
    UnsignedLessThanOrEqual,
    UnsignedGreaterThan,
    UnsignedGreaterThanOrEqual,
}

/// The payload of one instruction, reduced to what the encoder dispatches
/// on. Value operands and results are indices into the function's value-type
/// table. `Other` and `OtherTerminator` stand for every opcode the encoder
/// does not map; they carry no operands because the encoder reads none.
#[derive(Clone, PartialEq, Eq, Debug)]
pub enum InstData {
    Nop,
    BoolConst { result: u32, imm: bool },
    IntConst { result: u32, imm: i64 },
    BoolToInt { result: u32, arg: u32 },
    ZeroExtend { result: u32, arg: u32 },
    IntCompare { result: u32, cond: IntCondition, lhs: u32, rhs: u32 },
    DirectCall { callee: u32, args: Vec<u32>, results: Vec<u32> },
    Jump { destination: u32, args: Vec<u32> },
    BranchIfZero { arg: u32, destination: u32 },
    Ret { args: Vec<u32> },
    OtherTerminator,
    Other,
}

/// One instruction: an identity (for the skip-set), its payload, its
/// controlling type variable, and the renderer's text for it (used verbatim
/// when the instruction degrades to an unimplemented node).
#[derive(Clone, PartialEq, Eq, Debug)]
pub struct IrInst {
    pub ident: u32,
    pub data: InstData,
    pub ctrl_type: MachineType,
    pub desc: String,
}

/// One basic block: its parameter list (phi-equivalent values supplied by
/// each predecessor's jump) and its ordered instruction list.
#[derive(Clone, PartialEq, Eq, Debug)]
pub struct IrBlock {
    pub params: Vec<u32>,
    pub insts: Vec<IrInst>,
}

/// One function, in layout order.
#[derive(Clone, PartialEq, Eq, Debug)]
pub struct IrFunction {
    pub value_types: Vec<MachineType>,
    pub stack_slot_sizes: Vec<u32>,
    pub blocks: Vec<IrBlock>,
}

/// The encoding context supplied by collaborators: instructions to elide
/// (pre-existing instrumentation), the side-table from internal callee
/// identifiers to link-time symbol names, and whether the function is marked
/// as a trace-entry or trace-exit point.
pub struct ExtraInfo {
    pub sw_trace_insts: Vec<u32>,
    pub func_names: Vec<(u32, String)>,
    pub trace_head: bool,
    pub trace_tail: bool,
}

impl Default for ExtraInfo {
    /// An empty context: nothing skipped, no callee known, no trace marks.
    fn default() -> (r: Self)
        ensures
            r.sw_trace_insts@ == Seq::<u32>::empty(),
            r.func_names@ == Seq::<(u32, String)>::empty(),
            !r.trace_head,
            !r.trace_tail,
    {
        ExtraInfo {
            sw_trace_insts: Vec::new(),
            func_names: Vec::new(),
            trace_head: false,
            trace_tail: false,
        }
    }
}

/// The value operands and results of an instruction, in the order the
/// encoder inspects them for unsupported (floating-point or vector) types.
pub open spec fn inst_values(data: InstData) -> Seq<u32> {
    match data {
        InstData::Nop => Seq::empty(),
        InstData::BoolConst { result, .. } => seq![result],
        InstData::IntConst { result, .. } => seq![result],
        InstData::BoolToInt { result, arg } => seq![arg, result],
        InstData::ZeroExtend { result, arg } => seq![arg, result],
        InstData::IntCompare { result, lhs, rhs, .. } => seq![lhs, rhs, result],
        InstData::DirectCall { args, results, .. } => args@ + results@,
        InstData::Jump { args, .. } => args@,
        InstData::BranchIfZero { arg, .. } => seq![arg],
        InstData::Ret { args } => args@,
        InstData::OtherTerminator => Seq::empty(),
        InstData::Other => Seq::empty(),
    }
}

/// Whether an instruction is a control-transfer instruction. A direct call
/// is not: in this representation a call continues in a successor block only
/// once the encoder rewrites it.
pub open spec fn is_terminator_inst(data: InstData) -> bool {
    match data {
        InstData::Jump { .. } => true,
        InstData::BranchIfZero { .. } => true,
        InstData::Ret { .. } => true,
        InstData::OtherTerminator => true,
        _ => false,
    }
}

/// Whether a machine type has no pack representation at all, degrading any
/// instruction that touches a value of it.
pub open spec fn is_unsupported_value_type(t: MachineType) -> bool {
    t is Float || t is Vector
}

/// Whether `inst` touches a floating-point or vector value, so that the
/// encoder must degrade it instead of translating it.
pub open spec fn inst_touches_unsupported(f: IrFunction, inst: IrInst) -> bool {
    exists|k: int|
        0 <= k < inst_values(inst.data).len() && is_unsupported_value_type(
            f.value_types@[inst_values(inst.data)[k] as int],
        )
}

/// The total number of instructions of the function's first `i` blocks.
pub open spec fn insts_before(f: IrFunction, i: int) -> int
    decreases i,
{
    if i <= 0 {
        0
    } else {
        insts_before(f, i - 1) + f.blocks@[i - 1].insts@.len()
    }
}

/// Every value index that one instruction holds is in range, and every
/// branch destination names a block of the function.
pub open spec fn wf_inst(f: IrFunction, inst: IrInst) -> bool {
    &&& forall|k: int|
        0 <= k < inst_values(inst.data).len() ==> inst_values(inst.data)[k]
            < f.value_types@.len()
    &&& (inst.data matches InstData::Jump { destination, .. } ==> destination
        < f.blocks@.len())
    &&& (inst.data matches InstData::BranchIfZero { destination, .. } ==> destination
        < f.blocks@.len())
}

/// A well-formed function, as the front end hands it over: every value
/// index in range, every branch target a block of the function, every block
/// parameter a value of the function, every stack slot small enough for its
/// pack entry, and the function far below the (machine-limit) index bounds
/// of the pack model.
pub open spec fn wf_func(f: IrFunction) -> bool {
    &&& forall|i: int, j: int|
        0 <= i < f.blocks@.len() && 0 <= j < f.blocks@[i].insts@.len() ==> wf_inst(
            f,
            #[trigger] f.blocks@[i].insts@[j],
        )
    &&& forall|i: int, k: int|
        0 <= i < f.blocks@.len() && 0 <= k < f.blocks@[i].params@.len()
            ==> #[trigger] f.blocks@[i].params@[k] < f.value_types@.len()
    &&& forall|s: int|
        0 <= s < f.stack_slot_sizes@.len() ==> #[trigger] f.stack_slot_sizes@[s]
            <= 0x7fff_ffff
    &&& f.value_types@.len() + f.stack_slot_sizes@.len() < 0x4000_0000
    &&& f.blocks@.len() + insts_before(f, f.blocks@.len() as int) < 0x4000_0000
}

/// Prefix counts of instructions never decrease and never pass the total.
pub proof fn lemma_insts_before_mono(f: IrFunction, i: int, j: int)
    requires
        0 <= i <= j <= f.blocks@.len(),
    ensures
        insts_before(f, i) <= insts_before(f, j),
        i < j ==> insts_before(f, i) + f.blocks@[i].insts@.len() <= insts_before(f, j),
    decreases j - i,
{
    if i < j {
        lemma_insts_before_mono(f, i + 1, j);
    }
}

/// Instruction counts are never negative.
pub proof fn lemma_insts_before_nonneg(f: IrFunction, i: int)
    requires
        0 <= i,
    ensures
        insts_before(f, i) >= 0,
    decreases i,
{
    if i > 0 {
        lemma_insts_before_nonneg(f, i - 1);
    }
}

} // verus!

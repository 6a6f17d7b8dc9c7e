//! The serializable pack data model: the shared type table, and the per-function
//! "body" made of typed local declarations and basic blocks.
//!
//! A body's statement and terminator values carry growable data (strings,
//! argument lists), so each carries a ghost mirror (`StmtV`, `TermV`, ...)
//! that contracts are stated over.

use vstd::prelude::*;

verus! {

/// Width of an unsigned-integer entry in the shared type table.
#[derive(Clone, Copy, PartialEq, Eq, Structural, Debug)]
pub enum UIntWidth {
    W8,
    W16,
    W32,
    W64,
    W128,
}

/// One entry of the shared type table: an unsigned integer of a fixed width,
/// or an opaque struct known only by size and alignment (used for
/// stack-resident slots).
#[derive(Clone, Copy, PartialEq, Eq, Structural, Debug)]
pub enum PackTy {
    UnsignedInt(UIntWidth),
    OpaqueStruct { size: i32, align: i32 },
}

/// A reference to a type table entry: the owning table's hash plus the index
/// of the entry.
#[derive(Clone, Copy, PartialEq, Eq, Structural, Debug)]
pub struct TyRef {
    pub hash: u64,
    pub index: u32,
}

/// The append-only type table shared by every function encoded in one
/// compilation unit.
pub struct TypeTable {
    pub crate_hash: u64,
    pub entries: Vec<PackTy>,
}

impl View for TypeTable {
    type V = Seq<PackTy>;

    open spec fn view(&self) -> Seq<PackTy> {
        self.entries@
    }
}

/// Index of the type-table entry that a machine word (64-bit unsigned
/// integer) maps to, once the fixed prefix of entries is in place.
pub const WORD_TY_INDEX: u32 = 3;

/// The fixed prefix of type-table entries that the encoder's type references
/// assume: the five unsigned-integer widths, in order.
pub open spec fn preallocated_entries() -> Seq<PackTy> {
    seq![
        PackTy::UnsignedInt(UIntWidth::W8),
        PackTy::UnsignedInt(UIntWidth::W16),
        PackTy::UnsignedInt(UIntWidth::W32),
        PackTy::UnsignedInt(UIntWidth::W64),
        PackTy::UnsignedInt(UIntWidth::W128),
    ]
}

/// Appends the fixed prefix of unsigned-integer entries to the table. Every
/// type reference the encoder hands out by index assumes this prefix stands
/// at the front of the table.
pub fn preallocate_clif_types(types: &mut TypeTable)
    requires
        old(types)@.len() + 5 <= usize::MAX,
    ensures
        final(types)@ == old(types)@ + preallocated_entries(),
        final(types).crate_hash == old(types).crate_hash,
{
    types.entries.push(PackTy::UnsignedInt(UIntWidth::W8));
    types.entries.push(PackTy::UnsignedInt(UIntWidth::W16));
    types.entries.push(PackTy::UnsignedInt(UIntWidth::W32));
    types.entries.push(PackTy::UnsignedInt(UIntWidth::W64));
    types.entries.push(PackTy::UnsignedInt(UIntWidth::W128));
    proof {
        assert(types@ =~= old(types)@ + preallocated_entries());
    }
}

/// The opaque-struct entry that stands for a stack slot of `size` bytes.
pub open spec fn stack_slot_entry(size: u32) -> PackTy {
    PackTy::OpaqueStruct { size: size as i32, align: 8 }
}

/// Appends a fresh opaque-struct entry for a stack slot of `size` bytes and
/// returns the reference to it. Entries are not deduplicated: equal slots get
/// equal but distinct entries.
pub fn pack_ty_for_stack_slot(types: &mut TypeTable, size: u32) -> (r: TyRef)
    requires
        size <= 0x7fff_ffff,
        old(types)@.len() < u32::MAX as usize,
    ensures
        final(types)@ == old(types)@.push(stack_slot_entry(size)),
        final(types).crate_hash == old(types).crate_hash,
        (r == TyRef { hash: old(types).crate_hash, index: old(types)@.len() as u32 }),
{
    let ty_index = types.entries.len() as u32;
    types.entries.push(PackTy::OpaqueStruct { size: size as i32, align: 8 });
    TyRef { hash: types.crate_hash, index: ty_index }
}

/// One local declaration: a reference into the shared type table.
#[derive(Clone, Copy, PartialEq, Eq, Structural, Debug)]
pub struct LocalDecl {
    pub ty: TyRef,
}

/// A place: a local index. The pack model of this subset produces no
/// field or index projections, so a place is the bare local.
#[derive(Clone, Copy, PartialEq, Eq, Structural, Debug)]
pub struct Place {
    pub local: u32,
}

/// An unsigned-integer literal of a fixed width.
#[derive(Clone, Copy, PartialEq, Eq, Structural, Debug)]
pub enum UIntConst {
    U8(u8),
    U16(u16),
    U32(u32),
    U64(u64),
}

/// A literal value.
#[derive(Clone, Copy, PartialEq, Eq, Structural, Debug)]
pub enum Constant {
    Bool(bool),
    UInt(UIntConst),
}

/// An operand of a statement: a literal or a reference to a local.
#[derive(Clone, Copy, PartialEq, Eq, Structural, Debug)]
pub enum Operand {
    Constant(Constant),
    Place(Place),
}

/// A binary operator of the pack model. Only equality and unsigned
/// less-than carry their true semantics; `BitXor` doubles as the documented
/// placeholder for every comparator the encoder does not map.
#[derive(Clone, Copy, PartialEq, Eq, Structural, Debug)]
pub enum PackBinOp {
    CmpEq,
    CmpLt,
    BitXor,
}

/// A right-hand side of an assignment.
#[derive(Clone, Copy, PartialEq, Eq, Structural, Debug)]
pub enum Rvalue {
    Use(Operand),
    BinaryOp(PackBinOp, Operand, Operand),
}

/// The callee of a call: a resolved link-time symbol name, or unknown.
#[derive(Clone, PartialEq, Eq, Debug)]
pub enum CallOperand {
    Sym(String),
    Unknown,
}

/// Ghost mirror of [`CallOperand`].
#[verifier::ext_equal]
pub enum CallOpV {
    Sym(Seq<char>),
    Unknown,
}

impl View for CallOperand {
    type V = CallOpV;

    open spec fn view(&self) -> CallOpV {
        match self {
            CallOperand::Sym(s) => CallOpV::Sym(s@),
            CallOperand::Unknown => CallOpV::Unknown,
        }
    }
}

/// A statement of a basic block.
#[derive(Clone, PartialEq, Eq, Debug)]
pub enum Statement {
    Assign(Place, Rvalue),
    Call(CallOperand, Vec<Operand>, Option<Place>),
    Unimplemented(String),
}

/// Ghost mirror of [`Statement`].
#[verifier::ext_equal]
pub enum StmtV {
    Assign(Place, Rvalue),
    Call(CallOpV, Seq<Operand>, Option<Place>),
    Unimplemented(Seq<char>),
}

impl View for Statement {
    type V = StmtV;

    open spec fn view(&self) -> StmtV {
        match self {
            Statement::Assign(p, r) => StmtV::Assign(*p, *r),
            Statement::Call(op, args, dest) => StmtV::Call(op@, args@, *dest),
            Statement::Unimplemented(d) => StmtV::Unimplemented(d@),
        }
    }
}

/// The single control-transfer instruction that ends a basic block.
/// `Unreachable` is the default of a block that has not been finalized yet.
#[derive(Clone, PartialEq, Eq, Debug)]
pub enum Terminator {
    Goto { target: u32 },
    SwitchInt { discr: Place, values: Vec<u128>, targets: Vec<u32>, otherwise: u32 },
    Call { operand: CallOperand, args: Vec<Operand>, destination: Option<(Place, u32)> },
    Return,
    Unreachable,
    Unimplemented(String),
}

/// Ghost mirror of [`Terminator`].
#[verifier::ext_equal]
pub enum TermV {
    Goto { target: u32 },
    SwitchInt { discr: Place, values: Seq<u128>, targets: Seq<u32>, otherwise: u32 },
    Call { operand: CallOpV, args: Seq<Operand>, destination: Option<(Place, u32)> },
    Return,
    Unreachable,
    Unimplemented(Seq<char>),
}

impl View for Terminator {
    type V = TermV;

    open spec fn view(&self) -> TermV {
        match self {
            Terminator::Goto { target } => TermV::Goto { target: *target },
            Terminator::SwitchInt { discr, values, targets, otherwise } => TermV::SwitchInt {
                discr: *discr,
                values: values@,
                targets: targets@,
                otherwise: *otherwise,
            },
            Terminator::Call { operand, args, destination } => TermV::Call {
                operand: operand@,
                args: args@,
                destination: *destination,
            },
            Terminator::Return => TermV::Return,
            Terminator::Unreachable => TermV::Unreachable,
            Terminator::Unimplemented(d) => TermV::Unimplemented(d@),
        }
    }
}

/// A pack-level basic block: an ordered statement list and one terminator.
#[derive(Clone, PartialEq, Eq, Debug)]
pub struct BasicBlock {
    pub stmts: Vec<Statement>,
    pub term: Terminator,
}

/// Ghost mirror of [`BasicBlock`].
#[verifier::ext_equal]
pub struct BlockV {
    pub stmts: Seq<StmtV>,
    pub term: TermV,
}

impl View for BasicBlock {
    type V = BlockV;

    open spec fn view(&self) -> BlockV {
        BlockV { stmts: self.stmts@.map_values(|s: Statement| s@), term: self.term@ }
    }
}

/// A fresh block: no statements, not yet finalized.
pub open spec fn fresh_block() -> BlockV {
    BlockV { stmts: Seq::empty(), term: TermV::Unreachable }
}

/// Whether a block has been finalized: its terminator has been assigned
/// (the default `Unreachable` never is).
pub open spec fn block_finalized(b: BlockV) -> bool {
    !(b.term is Unreachable)
}

/// Flag bit marking a function as a valid trace-entry point.
pub const FLAG_TRACE_HEAD: u8 = 1;

/// Flag bit marking a function as a valid trace-exit point.
pub const FLAG_TRACE_TAIL: u8 = 2;

/// The complete pack representation of one function.
#[derive(Clone, PartialEq, Eq, Debug)]
pub struct Body {
    pub symbol_name: String,
    pub flags: u8,
    pub trace_inputs_local: Option<u32>,
    pub local_decls: Vec<LocalDecl>,
    pub blocks: Vec<BasicBlock>,
}

/// Ghost mirror of [`Body`].
#[verifier::ext_equal]
pub struct BodyV {
    pub symbol_name: Seq<char>,
    pub flags: u8,
    pub trace_inputs_local: Option<u32>,
    pub local_decls: Seq<LocalDecl>,
    pub blocks: Seq<BlockV>,
}

impl View for Body {
    type V = BodyV;

    open spec fn view(&self) -> BodyV {
        BodyV {
            symbol_name: self.symbol_name@,
            flags: self.flags,
            trace_inputs_local: self.trace_inputs_local,
            local_decls: self.local_decls@,
            blocks: self.blocks@.map_values(|b: BasicBlock| b@),
        }
    }
}

} // verus!

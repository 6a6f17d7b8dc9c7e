//! The pack encoder: walks one function's basic blocks and instructions in
//! layout order and builds the isomorphic-but-simplified [`Body`].
//!
//! The whole encoding is pinned to the specification-level encoder
//! [`encode_spec`]: a fold of [`step_inst`] over every instruction of every
//! block, starting from the prologue state (the return-value local, one local
//! per stack slot, and one fresh pack block per function block).

use vstd::prelude::*;

use crate::builder::SirBuilder;
use crate::ir::{ExtraInfo, InstData, IntCondition, IrFunction, IrInst, MachineType};
use crate::ir::{inst_touches_unsupported, inst_values, is_terminator_inst, wf_inst};
use crate::pack::{fresh_block, pack_ty_for_stack_slot, stack_slot_entry, BlockV, Body};
use crate::pack::{BodyV, CallOpV, CallOperand, Constant};
use crate::pack::{LocalDecl, Operand, PackBinOp, PackTy, Place, Rvalue, StmtV, TermV, TyRef};
use crate::pack::{Statement, Terminator, TypeTable, UIntConst, WORD_TY_INDEX};

verus! {

/// An unrecoverable encoding fault: it aborts encoding of the current
/// function and is surfaced to the caller as a hard compilation failure.
#[derive(Clone, Copy, PartialEq, Eq, Structural, Debug)]
pub enum EncodeError {
    /// An SSA value's machine type cannot be mapped into the type table.
    UnsupportedLocalType,
    /// An integer constant's controlling type has no pack literal form.
    UnsupportedConstantType,
    /// An instruction needed an open block while none was open.
    NoOpenBlock,
    /// A block was still open when the next one was due, or when encoding
    /// ended.
    BlockLeftOpen,
}

/// The type-table reference for a machine type, against the fixed prefix of
/// entries that [`crate::pack::preallocate_clif_types`] lays down. Single-bit
/// booleans share the 8-bit unsigned entry. Types outside the supported set
/// have no reference.
pub open spec fn pack_ty_spec(hash: u64, t: MachineType) -> Option<TyRef> {
    match t {
        MachineType::B1 => Some(TyRef { hash, index: 0 }),
        MachineType::I8 => Some(TyRef { hash, index: 0 }),
        MachineType::I16 => Some(TyRef { hash, index: 1 }),
        MachineType::I32 => Some(TyRef { hash, index: 2 }),
        MachineType::I64 => Some(TyRef { hash, index: 3 }),
        MachineType::I128 => Some(TyRef { hash, index: 4 }),
        MachineType::Float => None,
        MachineType::Vector => None,
        MachineType::Other => None,
    }
}

/// Maps a machine type to its type-table reference, or fails with the
/// unrecoverable fault of an unmappable local type.
pub fn pack_ty_for_clif_ty(types: &TypeTable, ty: MachineType) -> (r: Result<TyRef, EncodeError>)
    ensures
        (match pack_ty_spec(types.crate_hash, ty) {
            Some(t) => r == Ok::<TyRef, EncodeError>(t),
            None => r == Err::<TyRef, EncodeError>(EncodeError::UnsupportedLocalType),
        }),
{
    let hash = types.crate_hash;
    match ty {
        MachineType::B1 => Ok(TyRef { hash, index: 0 }),
        MachineType::I8 => Ok(TyRef { hash, index: 0 }),
        MachineType::I16 => Ok(TyRef { hash, index: 1 }),
        MachineType::I32 => Ok(TyRef { hash, index: 2 }),
        MachineType::I64 => Ok(TyRef { hash, index: 3 }),
        MachineType::I128 => Ok(TyRef { hash, index: 4 }),
        MachineType::Float => Err(EncodeError::UnsupportedLocalType),
        MachineType::Vector => Err(EncodeError::UnsupportedLocalType),
        MachineType::Other => Err(EncodeError::UnsupportedLocalType),
    }
}

/// The pack literal for an integer constant of a controlling type, by
/// truncation to the type's width. Only the plain machine integer widths have
/// a literal form here.
pub open spec fn const_uint(t: MachineType, imm: i64) -> Option<UIntConst> {
    match t {
        MachineType::I8 => Some(UIntConst::U8(imm as u8)),
        MachineType::I16 => Some(UIntConst::U16(imm as u16)),
        MachineType::I32 => Some(UIntConst::U32(imm as u32)),
        MachineType::I64 => Some(UIntConst::U64(imm as u64)),
        _ => None,
    }
}

/// The zero literal of a machine type, for the placeholder assigned to a
/// call's result local. Types without one are skipped.
pub open spec fn zero_const(t: MachineType) -> Option<UIntConst> {
    match t {
        MachineType::I8 => Some(UIntConst::U8(0)),
        MachineType::I16 => Some(UIntConst::U16(0)),
        MachineType::I32 => Some(UIntConst::U32(0)),
        MachineType::I64 => Some(UIntConst::U64(0)),
        _ => None,
    }
}

/// The pack comparator of an integer condition. Only equality and unsigned
/// less-than map to their true semantic comparator; every other comparator
/// degrades to the documented placeholder operator.
pub open spec fn map_condition(cond: IntCondition) -> PackBinOp {
    match cond {
        IntCondition::Equal => PackBinOp::CmpEq,
        IntCondition::UnsignedLessThan => PackBinOp::CmpLt,
        _ => PackBinOp::BitXor,
    }
}

/// The first link-time name the side-table holds for a callee identifier.
pub open spec fn lookup_name_spec(names: Seq<(u32, String)>, id: u32) -> Option<String>
    decreases names.len(),
{
    if names.len() == 0 {
        None
    } else if names[0].0 == id {
        Some(names[0].1)
    } else {
        lookup_name_spec(names.drop_first(), id)
    }
}

/// Looks a callee identifier up in the side-table.
pub fn lookup_name(names: &Vec<(u32, String)>, id: u32) -> (r: Option<String>)
    ensures
        r == lookup_name_spec(names@, id),
{
    let n = names.len();
    let mut i: usize = 0;
    proof {
        assert(names@.skip(0) =~= names@);
    }
    while i < n
        invariant
            i <= n,
            n == names@.len(),
            lookup_name_spec(names@, id) == lookup_name_spec(names@.skip(i as int), id),
        decreases n - i,
    {
        proof {
            assert(names@.skip(i as int)[0] == names@[i as int]);
            assert(names@.skip(i as int).drop_first() =~= names@.skip(i as int + 1));
        }
        if names[i].0 == id {
            return Some(names[i].1.clone());
        }
        i = i + 1;
    }
    proof {
        assert(names@.skip(n as int).len() == 0);
    }
    None
}

/// Whether a vector of instruction identities holds `id`.
pub fn ids_contain(ids: &Vec<u32>, id: u32) -> (r: bool)
    ensures
        r == ids@.contains(id),
{
    let n = ids.len();
    let mut i: usize = 0;
    while i < n
        invariant
            i <= n,
            n == ids@.len(),
            forall|k: int| 0 <= k < i ==> ids@[k] != id,
        decreases n - i,
    {
        if ids[i] == id {
            return true;
        }
        i = i + 1;
    }
    false
}

/// The encoder's evolving state, at specification level: the local
/// declarations and blocks built so far, the open block if any, and the
/// value-to-local map (an entry is the local index plus one, zero meaning
/// "no local allocated yet").
#[verifier::ext_equal]
pub struct EncSt {
    pub decls: Seq<LocalDecl>,
    pub blocks: Seq<BlockV>,
    pub current: Option<u32>,
    pub vmap: Seq<u32>,
}

/// The specification-level state a builder holds.
pub open spec fn st_of(b: SirBuilder) -> EncSt {
    EncSt {
        decls: b.body@.local_decls,
        blocks: b.body@.blocks,
        current: b.current_block,
        vmap: b.value_map@,
    }
}

/// Appends a statement to block `c`.
pub open spec fn push_stmt(st: EncSt, c: u32, s: StmtV) -> EncSt {
    EncSt {
        blocks: st.blocks.update(
            c as int,
            BlockV { stmts: st.blocks[c as int].stmts.push(s), term: st.blocks[c as int].term },
        ),
        ..st
    }
}

/// Finalizes block `c` with terminator `t`; afterwards no block is open.
pub open spec fn finish_block(st: EncSt, c: u32, t: TermV) -> EncSt {
    EncSt {
        blocks: st.blocks.update(
            c as int,
            BlockV { stmts: st.blocks[c as int].stmts, term: t },
        ),
        current: None,
        ..st
    }
}

/// How many SSA values have a local allocated.
pub open spec fn count_mapped(vmap: Seq<u32>) -> nat
    decreases vmap.len(),
{
    if vmap.len() == 0 {
        0
    } else {
        count_mapped(vmap.drop_last()) + if vmap.last() != 0 {
            1nat
        } else {
            0nat
        }
    }
}

/// No more values are mapped than there are values.
pub proof fn lemma_count_mapped_le(vmap: Seq<u32>)
    ensures
        count_mapped(vmap) <= vmap.len(),
    decreases vmap.len(),
{
    if vmap.len() > 0 {
        lemma_count_mapped_le(vmap.drop_last());
    }
}

/// Mapping one unmapped value raises the count by exactly one.
pub proof fn lemma_count_mapped_update(vmap: Seq<u32>, i: int, v: u32)
    requires
        0 <= i < vmap.len(),
        vmap[i] == 0,
        v != 0,
    ensures
        count_mapped(vmap.update(i, v)) == count_mapped(vmap) + 1,
    decreases vmap.len(),
{
    let up = vmap.update(i, v);
    if i == vmap.len() - 1 {
        assert(up.drop_last() =~= vmap.drop_last());
    } else {
        assert(up.drop_last() =~= vmap.drop_last().update(i, v));
        lemma_count_mapped_update(vmap.drop_last(), i, v);
        assert(up.last() == vmap.last());
    }
}

/// A map with no value mapped counts zero.
pub proof fn lemma_count_mapped_zeroes(n: nat)
    ensures
        count_mapped(Seq::new(n, |i: int| 0u32)) == 0,
    decreases n,
{
    if n > 0 {
        assert(Seq::new(n, |i: int| 0u32).drop_last() =~= Seq::new(
            (n - 1) as nat,
            |i: int| 0u32,
        ));
        lemma_count_mapped_zeroes((n - 1) as nat);
    }
}

/// Every allocated local names an existing declaration.
pub open spec fn vmap_valid(st: EncSt) -> bool {
    forall|v: int|
        0 <= v < st.vmap.len() && st.vmap[v] != 0 ==> #[trigger] st.vmap[v] <= st.decls.len()
}

/// First-use-memoized local allocation, at specification level: an already
/// referenced value keeps its local and changes nothing; a first reference
/// appends one declaration typed by `ty` and records the new local.
pub open spec fn alloc_spec(hash: u64, st: EncSt, val: int, ty: MachineType) -> Result<
    (EncSt, u32),
    EncodeError,
> {
    if st.vmap[val] != 0 {
        Ok((st, (st.vmap[val] - 1) as u32))
    } else {
        match pack_ty_spec(hash, ty) {
            None => Err(EncodeError::UnsupportedLocalType),
            Some(tr) => {
                let decls2 = st.decls.push(LocalDecl { ty: tr });
                let i = decls2.len() as u32;
                Ok(
                    (
                        EncSt {
                            decls: decls2,
                            vmap: st.vmap.update(val, i),
                            ..st
                        },
                        (i - 1) as u32,
                    ),
                )
            },
        }
    }
}

/// What one successful allocation leaves intact and how far it grows the
/// declarations.
pub proof fn lemma_alloc_frame(hash: u64, st: EncSt, val: int, ty: MachineType)
    requires
        0 <= val < st.vmap.len(),
        st.decls.len() + 1 < u32::MAX,
        vmap_valid(st),
    ensures
        (alloc_spec(hash, st, val, ty) matches Ok(o) ==> {
            let (st1, l) = o;
            &&& st1.blocks == st.blocks
            &&& st1.current == st.current
            &&& st1.vmap.len() == st.vmap.len()
            &&& st.decls.len() <= st1.decls.len() <= st.decls.len() + 1
            &&& st1.decls.subrange(0, st.decls.len() as int) == st.decls
            &&& st1.decls.len() - count_mapped(st1.vmap) == st.decls.len() - count_mapped(st.vmap)
            &&& vmap_valid(st1)
            &&& l < st1.decls.len()
            &&& st1.vmap[val] == l + 1
            &&& st1.vmap[val] != 0
            &&& forall|v: int|
                0 <= v < st.vmap.len() && st.vmap[v] != 0 ==> st1.vmap[v] == #[trigger] st.vmap[v]
        }),
        (alloc_spec(hash, st, val, ty) matches Err(e) ==> e
            == EncodeError::UnsupportedLocalType && pack_ty_spec(hash, ty) is None),
{
    if st.vmap[val] != 0 {
        assert(st.decls.subrange(0, st.decls.len() as int) =~= st.decls);
        lemma_count_mapped_le(st.vmap);
    } else {
        match pack_ty_spec(hash, ty) {
            None => {},
            Some(tr) => {
                let decls2 = st.decls.push(LocalDecl { ty: tr });
                lemma_count_mapped_update(st.vmap, val, decls2.len() as u32);
                assert(decls2.subrange(0, st.decls.len() as int) =~= st.decls);
            },
        }
    }
}


impl SirBuilder {
    /// Allocates (first-use memoized) the local of SSA value `val`, typing a
    /// fresh local by mapping `ty` into the shared type table.
    pub fn local_for_value(&mut self, types: &TypeTable, val: u32, ty: MachineType) -> (r:
        Result<u32, EncodeError>)
        requires
            (val as int) < old(self).value_map@.len(),
            old(self).body@.local_decls.len() + 1 < u32::MAX,
        ensures
            final(self).block_map == old(self).block_map,
            final(self).body.symbol_name == old(self).body.symbol_name,
            final(self).body.flags == old(self).body.flags,
            final(self).body.trace_inputs_local == old(self).body.trace_inputs_local,
            (match alloc_spec(types.crate_hash, st_of(*old(self)), val as int, ty) {
                Ok(o) => r == Ok::<u32, EncodeError>(o.1) && st_of(*final(self)) == o.0,
                Err(e) => r == Err::<u32, EncodeError>(e) && *final(self) == *old(self),
            }),
    {
        let i = self.value_map[val as usize];
        if i != 0 {
            Ok(i - 1)
        } else {
            match pack_ty_for_clif_ty(types, ty) {
                Err(e) => Err(e),
                Ok(tr) => {
                    self.body.local_decls.push(LocalDecl { ty: tr });
                    let i2 = self.body.local_decls.len() as u32;
                    self.value_map[val as usize] = i2;
                    proof {
                        let o = alloc_spec(
                            types.crate_hash,
                            st_of(*old(self)),
                            val as int,
                            ty,
                        )->Ok_0;
                        assert(st_of(*self) =~~= o.0);
                    }
                    Ok(i2 - 1)
                },
            }
        }
    }
}

/// One step of the specification-level encoder for the placeholder
/// assignments after a rewritten call: every result local of a plain machine
/// integer width gets a zero of that width; other result types are skipped.
pub open spec fn run_call_results(
    hash: u64,
    f: IrFunction,
    st: EncSt,
    results: Seq<u32>,
    k: int,
) -> Result<EncSt, EncodeError>
    decreases results.len() - k,
{
    if k < 0 || k >= results.len() {
        Ok(st)
    } else {
        let rv = results[k];
        let vt = f.value_types@[rv as int];
        match alloc_spec(hash, st, rv as int, vt) {
            Err(e) => Err(e),
            Ok(o1) => {
                let (st1, l) = o1;
                match zero_const(vt) {
                    None => run_call_results(hash, f, st1, results, k + 1),
                    Some(z) => match st1.current {
                        None => Err(EncodeError::NoOpenBlock),
                        Some(c) => run_call_results(
                            hash,
                            f,
                            push_stmt(
                                st1,
                                c,
                                StmtV::Assign(
                                    Place { local: l },
                                    Rvalue::Use(Operand::Constant(Constant::UInt(z))),
                                ),
                            ),
                            results,
                            k + 1,
                        ),
                    },
                }
            },
        }
    }
}

/// The block-parameter-eliminating copies of a jump: one assignment
/// (parameter := argument) per passed pair, in parameter order, each through
/// the locals of the two values.
pub open spec fn run_jump_copies(
    hash: u64,
    f: IrFunction,
    st: EncSt,
    params: Seq<u32>,
    args: Seq<u32>,
    k: int,
    n: int,
) -> Result<EncSt, EncodeError>
    decreases n - k,
{
    if k < 0 || k >= n {
        Ok(st)
    } else {
        match alloc_spec(hash, st, params[k] as int, f.value_types@[params[k] as int]) {
            Err(e) => Err(e),
            Ok(o1) => {
                let (st1, p) = o1;
                match alloc_spec(hash, st1, args[k] as int, f.value_types@[args[k] as int]) {
                    Err(e) => Err(e),
                    Ok(o2) => {
                        let (st2, a) = o2;
                        match st2.current {
                            None => Err(EncodeError::NoOpenBlock),
                            Some(c) => run_jump_copies(
                                hash,
                                f,
                                push_stmt(
                                    st2,
                                    c,
                                    StmtV::Assign(
                                        Place { local: p },
                                        Rvalue::Use(Operand::Place(Place { local: a })),
                                    ),
                                ),
                                params,
                                args,
                                k + 1,
                                n,
                            ),
                        }
                    },
                }
            },
        }
    }
}

/// The smaller of two lengths: how many (parameter, argument) pairs a jump
/// passes.
pub open spec fn pair_count(a: int, b: int) -> int {
    if a <= b {
        a
    } else {
        b
    }
}

/// Degrading one unsupported construct: an unimplemented statement, or an
/// unimplemented terminator if the instruction transfers control. `brk` says
/// whether the rest of the block is skipped afterwards.
pub open spec fn step_degrade(st: EncSt, desc: Seq<char>, is_term: bool, brk: bool) -> Result<
    (EncSt, bool),
    EncodeError,
> {
    match st.current {
        None => Err(EncodeError::NoOpenBlock),
        Some(c) => if is_term {
            Ok((finish_block(st, c, TermV::Unimplemented(desc)), brk))
        } else {
            Ok((push_stmt(st, c, StmtV::Unimplemented(desc)), brk))
        },
    }
}

/// A boolean constant: assign the literal to the result local.
pub open spec fn step_bool_const(
    hash: u64,
    st: EncSt,
    result: u32,
    imm: bool,
    ctrl: MachineType,
) -> Result<(EncSt, bool), EncodeError> {
    match alloc_spec(hash, st, result as int, ctrl) {
        Err(e) => Err(e),
        Ok(o) => match o.0.current {
            None => Err(EncodeError::NoOpenBlock),
            Some(c) => Ok(
                (
                    push_stmt(
                        o.0,
                        c,
                        StmtV::Assign(
                            Place { local: o.1 },
                            Rvalue::Use(Operand::Constant(Constant::Bool(imm))),
                        ),
                    ),
                    false,
                ),
            ),
        },
    }
}

/// An integer constant: assign the literal, truncated to the controlling
/// type's width, to the result local.
pub open spec fn step_int_const(
    hash: u64,
    st: EncSt,
    result: u32,
    imm: i64,
    ctrl: MachineType,
) -> Result<(EncSt, bool), EncodeError> {
    match alloc_spec(hash, st, result as int, ctrl) {
        Err(e) => Err(e),
        Ok(o) => match const_uint(ctrl, imm) {
            None => Err(EncodeError::UnsupportedConstantType),
            Some(k) => match o.0.current {
                None => Err(EncodeError::NoOpenBlock),
                Some(c) => Ok(
                    (
                        push_stmt(
                            o.0,
                            c,
                            StmtV::Assign(
                                Place { local: o.1 },
                                Rvalue::Use(Operand::Constant(Constant::UInt(k))),
                            ),
                        ),
                        false,
                    ),
                ),
            },
        },
    }
}

/// An integer comparison: a binary operation on the two operand locals,
/// through the mapped (or placeholder) comparator.
pub open spec fn step_icmp(
    hash: u64,
    f: IrFunction,
    st: EncSt,
    result: u32,
    cond: IntCondition,
    lhs: u32,
    rhs: u32,
    ctrl: MachineType,
) -> Result<(EncSt, bool), EncodeError> {
    match alloc_spec(hash, st, result as int, ctrl) {
        Err(e) => Err(e),
        Ok(o1) => match alloc_spec(hash, o1.0, lhs as int, f.value_types@[lhs as int]) {
            Err(e) => Err(e),
            Ok(o2) => match alloc_spec(hash, o2.0, rhs as int, f.value_types@[rhs as int]) {
                Err(e) => Err(e),
                Ok(o3) => match o3.0.current {
                    None => Err(EncodeError::NoOpenBlock),
                    Some(c) => Ok(
                        (
                            push_stmt(
                                o3.0,
                                c,
                                StmtV::Assign(
                                    Place { local: o1.1 },
                                    Rvalue::BinaryOp(
                                        map_condition(cond),
                                        Operand::Place(Place { local: o2.1 }),
                                        Operand::Place(Place { local: o3.1 }),
                                    ),
                                ),
                            ),
                            false,
                        ),
                    ),
                },
            },
        },
    }
}

/// A direct call. One with arguments is not lowered and degrades. A
/// zero-argument call finalizes the open block with a call terminator
/// pointing at a newly created continuation block, reopens that continuation,
/// and assigns a placeholder zero to each plain-integer result local (the
/// true data flow of the return value is not threaded through).
pub open spec fn step_call(
    hash: u64,
    f: IrFunction,
    x: ExtraInfo,
    st: EncSt,
    desc: Seq<char>,
    callee: u32,
    args: Seq<u32>,
    results: Seq<u32>,
) -> Result<(EncSt, bool), EncodeError> {
    if args.len() != 0 {
        match st.current {
            None => Err(EncodeError::NoOpenBlock),
            Some(c) => Ok((push_stmt(st, c, StmtV::Unimplemented(desc)), false)),
        }
    } else {
        let operand = match lookup_name_spec(x.func_names@, callee) {
            Some(s) => CallOpV::Sym(s@),
            None => CallOpV::Unknown,
        };
        let nb = st.blocks.len() as u32;
        let st1 = EncSt { blocks: st.blocks.push(fresh_block()), ..st };
        match st1.current {
            None => Err(EncodeError::NoOpenBlock),
            Some(c) => {
                let st2 = finish_block(
                    st1,
                    c,
                    TermV::Call {
                        operand,
                        args: Seq::empty(),
                        destination: Some((Place { local: 1 }, nb)),
                    },
                );
                let st3 = EncSt { current: Some(nb), ..st2 };
                match run_call_results(hash, f, st3, results, 0) {
                    Err(e) => Err(e),
                    Ok(st4) => Ok((st4, false)),
                }
            },
        }
    }
}

/// An unconditional jump: one copy per (destination parameter, passed
/// argument) pair, then a goto to the destination's pack block.
pub open spec fn step_jump(hash: u64, f: IrFunction, st: EncSt, destination: u32, args: Seq<u32>)
    -> Result<(EncSt, bool), EncodeError> {
    let params = f.blocks@[destination as int].params@;
    let n = pair_count(params.len() as int, args.len() as int);
    match run_jump_copies(hash, f, st, params, args, 0, n) {
        Err(e) => Err(e),
        Ok(st1) => match st1.current {
            None => Err(EncodeError::NoOpenBlock),
            Some(c) => Ok((finish_block(st1, c, TermV::Goto { target: destination }), false)),
        },
    }
}

/// A zero-test conditional branch: a switch on the tested local against the
/// literal zero, with one explicit target and the default target left
/// unresolved. The rest of the block is skipped.
pub open spec fn step_brz(
    hash: u64,
    st: EncSt,
    arg: u32,
    destination: u32,
    ctrl: MachineType,
) -> Result<(EncSt, bool), EncodeError> {
    match alloc_spec(hash, st, arg as int, ctrl) {
        Err(e) => Err(e),
        Ok(o) => match o.0.current {
            None => Err(EncodeError::NoOpenBlock),
            Some(c) => Ok(
                (
                    finish_block(
                        o.0,
                        c,
                        TermV::SwitchInt {
                            discr: Place { local: o.1 },
                            values: seq![0u128],
                            targets: seq![destination],
                            otherwise: 0,
                        },
                    ),
                    true,
                ),
            ),
        },
    }
}

/// A return: the placeholder assignment into the return slot (local zero),
/// then the return terminator.
pub open spec fn step_ret(st: EncSt) -> Result<(EncSt, bool), EncodeError> {
    match st.current {
        None => Err(EncodeError::NoOpenBlock),
        Some(c) => {
            let st1 = push_stmt(
                st,
                c,
                StmtV::Assign(
                    Place { local: 0 },
                    Rvalue::Use(Operand::Constant(Constant::UInt(UIntConst::U64(0)))),
                ),
            );
            Ok((finish_block(st1, c, TermV::Return), false))
        },
    }
}

/// One instruction's effect on the encoder state, at specification level.
/// `Ok((state, true))` means the rest of the block is skipped (a zero-test
/// branch or an unmapped control-transfer instruction ends translation of
/// the block).
///
/// A skip-listed instruction is elided. An instruction that touches a
/// floating-point or vector value degrades to an unimplemented statement (or
/// terminator). Otherwise the instruction is dispatched by opcode, and
/// anything unmapped degrades the same way.
pub open spec fn step_inst(
    hash: u64,
    f: IrFunction,
    x: ExtraInfo,
    st: EncSt,
    inst: IrInst,
) -> Result<(EncSt, bool), EncodeError> {
    if x.sw_trace_insts@.contains(inst.ident) {
        Ok((st, false))
    } else if inst_touches_unsupported(f, inst) {
        step_degrade(st, inst.desc@, is_terminator_inst(inst.data), false)
    } else {
        match inst.data {
            InstData::Nop => Ok((st, false)),
            InstData::BoolConst { result, imm } => step_bool_const(
                hash,
                st,
                result,
                imm,
                inst.ctrl_type,
            ),
            InstData::IntConst { result, imm } => step_int_const(
                hash,
                st,
                result,
                imm,
                inst.ctrl_type,
            ),
            InstData::BoolToInt { result, arg } => step_copy(
                hash,
                f,
                st,
                result,
                arg,
                inst.ctrl_type,
            ),
            InstData::ZeroExtend { result, arg } => step_copy(
                hash,
                f,
                st,
                result,
                arg,
                inst.ctrl_type,
            ),
            InstData::IntCompare { result, cond, lhs, rhs } => step_icmp(
                hash,
                f,
                st,
                result,
                cond,
                lhs,
                rhs,
                inst.ctrl_type,
            ),
            InstData::DirectCall { callee, args, results } => step_call(
                hash,
                f,
                x,
                st,
                inst.desc@,
                callee,
                args@,
                results@,
            ),
            InstData::Jump { destination, args } => step_jump(hash, f, st, destination, args@),
            InstData::BranchIfZero { arg, destination } => step_brz(
                hash,
                st,
                arg,
                destination,
                inst.ctrl_type,
            ),
            InstData::Ret { .. } => step_ret(st),
            InstData::OtherTerminator => step_degrade(st, inst.desc@, true, true),
            InstData::Other => step_degrade(st, inst.desc@, false, false),
        }
    }
}

/// The shared shape of the two widening copies (boolean-widen and
/// zero-extend): the pack carries no cast node at this granularity, so both
/// become a plain copy of the source local into the result local.
pub open spec fn step_copy(
    hash: u64,
    f: IrFunction,
    st: EncSt,
    result: u32,
    arg: u32,
    ctrl: MachineType,
) -> Result<(EncSt, bool), EncodeError> {
    match alloc_spec(hash, st, result as int, ctrl) {
        Err(e) => Err(e),
        Ok(o1) => match alloc_spec(hash, o1.0, arg as int, f.value_types@[arg as int]) {
            Err(e) => Err(e),
            Ok(o2) => match o2.0.current {
                None => Err(EncodeError::NoOpenBlock),
                Some(c) => Ok(
                    (
                        push_stmt(
                            o2.0,
                            c,
                            StmtV::Assign(
                                Place { local: o1.1 },
                                Rvalue::Use(Operand::Place(Place { local: o2.1 })),
                            ),
                        ),
                        false,
                    ),
                ),
            },
        },
    }
}


/// The block bookkeeping that holds throughout encoding: function blocks
/// `lo..hi` (by pack index) are still untouched and fresh, the open block (if
/// any) lies outside that range and has no terminator yet, and every other
/// block has been finalized.
pub open spec fn blocks_inv(st: EncSt, lo: int, hi: int) -> bool {
    &&& forall|j: int|
        0 <= j < st.blocks.len() && !(lo <= j < hi) && st.current != Some(j as u32)
            ==> crate::pack::block_finalized(#[trigger] st.blocks[j])
    &&& forall|j: int| lo <= j < hi ==> #[trigger] st.blocks[j] == fresh_block()
    &&& (st.current matches Some(c) ==> c < st.blocks.len() && !(lo <= c < hi)
        && st.blocks[c as int].term is Unreachable)
}

/// Everything the encoding loops carry about a state: the value map covers
/// the function's values and names existing declarations, the declarations
/// are the prologue's (`base` many) plus one per mapped value, and the block
/// bookkeeping of [`blocks_inv`] holds.
pub open spec fn st_wf(st: EncSt, f: IrFunction, lo: int, hi: int, base: int) -> bool {
    &&& st.vmap.len() == f.value_types@.len()
    &&& vmap_valid(st)
    &&& st.decls.len() == base + count_mapped(st.vmap)
    &&& 0 <= lo <= hi <= st.blocks.len()
    &&& st.blocks.len() <= u32::MAX
    &&& blocks_inv(st, lo, hi)
}

/// The headroom every local allocation needs: however many values get
/// locals, the declaration count stays below the index bound.
pub open spec fn decl_headroom(f: IrFunction, base: int) -> bool {
    0 <= base && base + f.value_types@.len() + 1 < u32::MAX
}

/// A successful allocation preserves the loop bookkeeping.
pub proof fn lemma_alloc_wf(
    hash: u64,
    st: EncSt,
    val: int,
    ty: MachineType,
    f: IrFunction,
    lo: int,
    hi: int,
    base: int,
)
    requires
        0 <= val < st.vmap.len(),
        st_wf(st, f, lo, hi, base),
        decl_headroom(f, base),
    ensures
        st.decls.len() + 1 < u32::MAX,
        (alloc_spec(hash, st, val, ty) matches Ok(o) ==> {
            let (st1, l) = o;
            &&& st_wf(st1, f, lo, hi, base)
            &&& st1.blocks == st.blocks
            &&& st1.current == st.current
            &&& st.decls.len() <= st1.decls.len()
            &&& st1.decls.subrange(0, st.decls.len() as int) == st.decls
            &&& l < st1.decls.len()
        }),
{
    lemma_count_mapped_le(st.vmap);
    lemma_alloc_frame(hash, st, val, ty);
    match alloc_spec(hash, st, val, ty) {
        Ok(o) => {
            lemma_count_mapped_le(o.0.vmap);
        },
        Err(_) => {},
    }
}

/// Appending a statement to the open block preserves the loop bookkeeping.
pub proof fn lemma_push_stmt_wf(
    st: EncSt,
    c: u32,
    s: StmtV,
    f: IrFunction,
    lo: int,
    hi: int,
    base: int,
)
    requires
        st_wf(st, f, lo, hi, base),
        st.current == Some(c),
    ensures
        st_wf(push_stmt(st, c, s), f, lo, hi, base),
        push_stmt(st, c, s).current == Some(c),
        push_stmt(st, c, s).blocks.len() == st.blocks.len(),
        push_stmt(st, c, s).decls == st.decls,
        push_stmt(st, c, s).vmap == st.vmap,
{
    let st1 = push_stmt(st, c, s);
    assert forall|j: int| lo <= j < hi implies #[trigger] st1.blocks[j] == fresh_block() by {
        assert(st.blocks[j] == fresh_block());
    }
}

/// Finalizing the open block with a real terminator preserves the loop
/// bookkeeping and leaves no block open.
pub proof fn lemma_finish_block_wf(
    st: EncSt,
    c: u32,
    t: TermV,
    f: IrFunction,
    lo: int,
    hi: int,
    base: int,
)
    requires
        st_wf(st, f, lo, hi, base),
        st.current == Some(c),
        !(t is Unreachable),
    ensures
        st_wf(finish_block(st, c, t), f, lo, hi, base),
        finish_block(st, c, t).current is None,
        finish_block(st, c, t).blocks.len() == st.blocks.len(),
        finish_block(st, c, t).decls == st.decls,
        finish_block(st, c, t).vmap == st.vmap,
{
    let st1 = finish_block(st, c, t);
    assert forall|j: int| lo <= j < hi implies #[trigger] st1.blocks[j] == fresh_block() by {
        assert(st.blocks[j] == fresh_block());
    }
    assert forall|j: int|
        0 <= j < st1.blocks.len() && !(lo <= j < hi) && st1.current != Some(j as u32)
        implies crate::pack::block_finalized(#[trigger] st1.blocks[j]) by {
        if j == c as int {
            assert(st1.blocks[j].term == t);
        } else {
            assert(st1.blocks[j] == st.blocks[j]);
        }
    }
}

/// The placeholder-assignment fold after a call preserves the loop
/// bookkeeping and only appends declarations.
pub proof fn lemma_run_call_results_wf(
    hash: u64,
    f: IrFunction,
    x: ExtraInfo,
    st: EncSt,
    results: Seq<u32>,
    k: int,
    lo: int,
    hi: int,
    base: int,
)
    requires
        st_wf(st, f, lo, hi, base),
        decl_headroom(f, base),
        forall|i: int| 0 <= i < results.len() ==> results[i] < f.value_types@.len(),
    ensures
        (run_call_results(hash, f, st, results, k) matches Ok(st1) ==> {
            &&& st_wf(st1, f, lo, hi, base)
            &&& st1.blocks.len() == st.blocks.len()
            &&& st.decls.len() <= st1.decls.len()
            &&& st1.decls.subrange(0, st.decls.len() as int) == st.decls
        }),
    decreases results.len() - k,
{
    if k < 0 || k >= results.len() {
        assert(st.decls.subrange(0, st.decls.len() as int) =~= st.decls);
    } else {
        let rv = results[k];
        let vt = f.value_types@[rv as int];
        lemma_alloc_wf(hash, st, rv as int, vt, f, lo, hi, base);
        match alloc_spec(hash, st, rv as int, vt) {
            Err(e) => {},
            Ok(o1) => {
                let (st1, l) = o1;
                match zero_const(vt) {
                    None => {
                        lemma_run_call_results_wf(hash, f, x, st1, results, k + 1, lo, hi, base);
                        lemma_subrange_chain(st.decls, st1.decls, run_call_results(hash, f, st1, results, k + 1));
                    },
                    Some(z) => match st1.current {
                        None => {},
                        Some(c) => {
                            let s = StmtV::Assign(
                                Place { local: l },
                                Rvalue::Use(Operand::Constant(Constant::UInt(z))),
                            );
                            lemma_push_stmt_wf(st1, c, s, f, lo, hi, base);
                            lemma_run_call_results_wf(
                                hash,
                                f,
                                x,
                                push_stmt(st1, c, s),
                                results,
                                k + 1,
                                lo,
                                hi,
                                base,
                            );
                            lemma_subrange_chain(st.decls, st1.decls, run_call_results(hash, f, push_stmt(st1, c, s), results, k + 1));
                        },
                    },
                }
            },
        }
    }
}

/// Declaration prefixes compose along the fold.
pub proof fn lemma_subrange_chain(
    a: Seq<LocalDecl>,
    b: Seq<LocalDecl>,
    rest: Result<EncSt, EncodeError>,
)
    requires
        a.len() <= b.len(),
        b.subrange(0, a.len() as int) == a,
        (rest matches Ok(st2) ==> b.len() <= st2.decls.len() && st2.decls.subrange(
            0,
            b.len() as int,
        ) == b),
    ensures
        (rest matches Ok(st2) ==> a.len() <= st2.decls.len() && st2.decls.subrange(
            0,
            a.len() as int,
        ) == a),
{
    match rest {
        Ok(st2) => {
            assert(st2.decls.subrange(0, a.len() as int) =~= st2.decls.subrange(
                0,
                b.len() as int,
            ).subrange(0, a.len() as int));
        },
        Err(_) => {},
    }
}

/// The block-parameter-copy fold of a jump preserves the loop bookkeeping
/// and only appends declarations.
pub proof fn lemma_run_jump_copies_wf(
    hash: u64,
    f: IrFunction,
    st: EncSt,
    params: Seq<u32>,
    args: Seq<u32>,
    k: int,
    n: int,
    lo: int,
    hi: int,
    base: int,
)
    requires
        st_wf(st, f, lo, hi, base),
        decl_headroom(f, base),
        n <= params.len() && n <= args.len(),
        forall|i: int| 0 <= i < params.len() ==> params[i] < f.value_types@.len(),
        forall|i: int| 0 <= i < args.len() ==> args[i] < f.value_types@.len(),
    ensures
        (run_jump_copies(hash, f, st, params, args, k, n) matches Ok(st1) ==> {
            &&& st_wf(st1, f, lo, hi, base)
            &&& st1.blocks.len() == st.blocks.len()
            &&& st.decls.len() <= st1.decls.len()
            &&& st1.decls.subrange(0, st.decls.len() as int) == st.decls
        }),
    decreases n - k,
{
    if k < 0 || k >= n {
        assert(st.decls.subrange(0, st.decls.len() as int) =~= st.decls);
    } else {
        lemma_alloc_wf(hash, st, params[k] as int, f.value_types@[params[k] as int], f, lo, hi, base);
        match alloc_spec(hash, st, params[k] as int, f.value_types@[params[k] as int]) {
            Err(e) => {},
            Ok(o1) => {
                let (st1, p) = o1;
                lemma_alloc_wf(hash, st1, args[k] as int, f.value_types@[args[k] as int], f, lo, hi, base);
                match alloc_spec(hash, st1, args[k] as int, f.value_types@[args[k] as int]) {
                    Err(e) => {},
                    Ok(o2) => {
                        let (st2, a) = o2;
                        match st2.current {
                            None => {},
                            Some(c) => {
                                let s = StmtV::Assign(
                                    Place { local: p },
                                    Rvalue::Use(Operand::Place(Place { local: a })),
                                );
                                lemma_push_stmt_wf(st2, c, s, f, lo, hi, base);
                                lemma_run_jump_copies_wf(
                                    hash,
                                    f,
                                    push_stmt(st2, c, s),
                                    params,
                                    args,
                                    k + 1,
                                    n,
                                    lo,
                                    hi,
                                    base,
                                );
                                lemma_subrange_chain(st.decls, st1.decls, Ok(st2));
                                lemma_subrange_chain(st.decls, st2.decls, run_jump_copies(hash, f, push_stmt(st2, c, s), params, args, k + 1, n));
                            },
                        }
                    },
                }
            },
        }
    }
}

/// One instruction step preserves the loop bookkeeping: the value map keeps
/// its length, declarations only grow (keeping their prefix), at most one
/// block (a call's continuation) is created, and the block bookkeeping
/// holds on.
#[verifier::rlimit(20)]
pub proof fn lemma_step_inst_wf(
    hash: u64,
    f: IrFunction,
    x: ExtraInfo,
    st: EncSt,
    inst: IrInst,
    lo: int,
    hi: int,
    base: int,
)
    requires
        wf_inst(f, inst),
        crate::ir::wf_func(f),
        st_wf(st, f, lo, hi, base),
        decl_headroom(f, base),
        st.blocks.len() + 1 < u32::MAX,
    ensures
        (step_inst(hash, f, x, st, inst) matches Ok(o) ==> {
            let (st1, brk) = o;
            &&& st_wf(st1, f, lo, hi, base)
            &&& st.blocks.len() <= st1.blocks.len() <= st.blocks.len() + 1
            &&& st.decls.len() <= st1.decls.len()
            &&& st1.decls.subrange(0, st.decls.len() as int) == st.decls
        }),
{
    let idem = st.decls.subrange(0, st.decls.len() as int);
    assert(idem =~= st.decls);
    if x.sw_trace_insts@.contains(inst.ident) {
    } else if inst_touches_unsupported(f, inst) {
        match st.current {
            None => {},
            Some(c) => {
                if is_terminator_inst(inst.data) {
                    lemma_finish_block_wf(st, c, TermV::Unimplemented(inst.desc@), f, lo, hi, base);
                } else {
                    lemma_push_stmt_wf(st, c, StmtV::Unimplemented(inst.desc@), f, lo, hi, base);
                }
            },
        }
    } else {
        match inst.data {
            InstData::Nop => {},
            InstData::BoolConst { result, imm } => {
                assert(inst_values(inst.data)[0] == result);
                lemma_alloc_wf(hash, st, result as int, inst.ctrl_type, f, lo, hi, base);
                match alloc_spec(hash, st, result as int, inst.ctrl_type) {
                    Ok(o) => match o.0.current {
                        Some(c) => {
                            lemma_push_stmt_wf(
                                o.0,
                                c,
                                StmtV::Assign(
                                    Place { local: o.1 },
                                    Rvalue::Use(Operand::Constant(Constant::Bool(imm))),
                                ),
                                f,
                                lo,
                                hi,
                                base,
                            );
                        },
                        None => {},
                    },
                    Err(_) => {},
                }
            },
            InstData::IntConst { result, imm } => {
                assert(inst_values(inst.data)[0] == result);
                lemma_alloc_wf(hash, st, result as int, inst.ctrl_type, f, lo, hi, base);
                match alloc_spec(hash, st, result as int, inst.ctrl_type) {
                    Ok(o) => match (const_uint(inst.ctrl_type, imm), o.0.current) {
                        (Some(kk), Some(c)) => {
                            lemma_push_stmt_wf(
                                o.0,
                                c,
                                StmtV::Assign(
                                    Place { local: o.1 },
                                    Rvalue::Use(Operand::Constant(Constant::UInt(kk))),
                                ),
                                f,
                                lo,
                                hi,
                                base,
                            );
                        },
                        _ => {},
                    },
                    Err(_) => {},
                }
            },
            InstData::BoolToInt { result, arg } => {
                assert(inst_values(inst.data)[0] == arg && inst_values(inst.data)[1] == result);
                lemma_step_copy_wf(hash, f, st, result, arg, inst.ctrl_type, lo, hi, base);
            },
            InstData::ZeroExtend { result, arg } => {
                assert(inst_values(inst.data)[0] == arg && inst_values(inst.data)[1] == result);
                lemma_step_copy_wf(hash, f, st, result, arg, inst.ctrl_type, lo, hi, base);
            },
            InstData::IntCompare { result, cond, lhs, rhs } => {
                assert(inst_values(inst.data)[0] == lhs && inst_values(inst.data)[1] == rhs
                    && inst_values(inst.data)[2] == result);
                lemma_alloc_wf(hash, st, result as int, inst.ctrl_type, f, lo, hi, base);
                match alloc_spec(hash, st, result as int, inst.ctrl_type) {
                    Ok(o1) => {
                        lemma_alloc_wf(hash, o1.0, lhs as int, f.value_types@[lhs as int], f, lo, hi, base);
                        match alloc_spec(hash, o1.0, lhs as int, f.value_types@[lhs as int]) {
                            Ok(o2) => {
                                lemma_alloc_wf(hash, o2.0, rhs as int, f.value_types@[rhs as int], f, lo, hi, base);
                                match alloc_spec(hash, o2.0, rhs as int, f.value_types@[rhs as int]) {
                                    Ok(o3) => match o3.0.current {
                                        Some(c) => {
                                            lemma_push_stmt_wf(
                                                o3.0,
                                                c,
                                                StmtV::Assign(
                                                    Place { local: o1.1 },
                                                    Rvalue::BinaryOp(
                                                        map_condition(cond),
                                                        Operand::Place(Place { local: o2.1 }),
                                                        Operand::Place(Place { local: o3.1 }),
                                                    ),
                                                ),
                                                f,
                                                lo,
                                                hi,
                                                base,
                                            );
                                            lemma_subrange_chain(st.decls, o1.0.decls, Ok(o2.0));
                                            lemma_subrange_chain(st.decls, o2.0.decls, Ok(o3.0));
                                        },
                                        None => {},
                                    },
                                    Err(_) => {},
                                }
                            },
                            Err(_) => {},
                        }
                    },
                    Err(_) => {},
                }
            },
            InstData::DirectCall { callee, args, results } => {
                if args@.len() != 0 {
                    match st.current {
                        Some(c) => {
                            lemma_push_stmt_wf(st, c, StmtV::Unimplemented(inst.desc@), f, lo, hi, base);
                        },
                        None => {},
                    }
                } else {
                    let operand = match lookup_name_spec(x.func_names@, callee) {
                        Some(sname) => CallOpV::Sym(sname@),
                        None => CallOpV::Unknown,
                    };
                    let nb = st.blocks.len() as u32;
                    let st1 = EncSt { blocks: st.blocks.push(fresh_block()), ..st };
                    match st1.current {
                        None => {},
                        Some(c) => {
                            let t = TermV::Call {
                                operand,
                                args: Seq::empty(),
                                destination: Some((Place { local: 1 }, nb)),
                            };
                            let st2 = finish_block(st1, c, t);
                            let st3 = EncSt { current: Some(nb), ..st2 };
                            assert(st3.blocks[nb as int] == fresh_block());
                            assert forall|j: int| lo <= j < hi
                                implies #[trigger] st3.blocks[j] == fresh_block() by {
                                assert(st.blocks[j] == fresh_block());
                            }
                            assert forall|j: int|
                                0 <= j < st3.blocks.len() && !(lo <= j < hi) && st3.current
                                    != Some(j as u32)
                                implies crate::pack::block_finalized(
                                #[trigger] st3.blocks[j]) by {
                                if j == c as int {
                                    assert(st3.blocks[j].term == t);
                                } else {
                                    assert(j < st.blocks.len());
                                    assert(st3.blocks[j] == st.blocks[j]);
                                }
                            }
                            assert(st_wf(st3, f, lo, hi, base));
                            assert forall|i: int| 0 <= i < results@.len()
                                implies #[trigger] results@[i] < f.value_types@.len() by {
                                assert(inst_values(inst.data)[args@.len() + i] == results@[i]);
                            }
                            lemma_run_call_results_wf(hash, f, x, st3, results@, 0, lo, hi, base);
                        },
                    }
                }
            },
            InstData::Jump { destination, args } => {
                let params = f.blocks@[destination as int].params@;
                let n = pair_count(params.len() as int, args@.len() as int);
                assert forall|i: int| 0 <= i < args@.len()
                    implies #[trigger] args@[i] < f.value_types@.len() by {
                    assert(inst_values(inst.data)[i] == args@[i]);
                }
                assert forall|i: int| 0 <= i < params.len()
                    implies #[trigger] params[i] < f.value_types@.len() by {
                    assert(f.blocks@[destination as int].params@[i] == params[i]);
                }
                lemma_run_jump_copies_wf(hash, f, st, params, args@, 0, n, lo, hi, base);
                match run_jump_copies(hash, f, st, params, args@, 0, n) {
                    Ok(st1) => match st1.current {
                        Some(c) => {
                            lemma_finish_block_wf(st1, c, TermV::Goto { target: destination }, f, lo, hi, base);
                        },
                        None => {},
                    },
                    Err(_) => {},
                }
            },
            InstData::BranchIfZero { arg, destination } => {
                assert(inst_values(inst.data)[0] == arg);
                lemma_alloc_wf(hash, st, arg as int, inst.ctrl_type, f, lo, hi, base);
                match alloc_spec(hash, st, arg as int, inst.ctrl_type) {
                    Ok(o) => match o.0.current {
                        Some(c) => {
                            lemma_finish_block_wf(
                                o.0,
                                c,
                                TermV::SwitchInt {
                                    discr: Place { local: o.1 },
                                    values: seq![0u128],
                                    targets: seq![destination],
                                    otherwise: 0,
                                },
                                f,
                                lo,
                                hi,
                                base,
                            );
                        },
                        None => {},
                    },
                    Err(_) => {},
                }
            },
            InstData::Ret { .. } => {
                match st.current {
                    Some(c) => {
                        let s = StmtV::Assign(
                            Place { local: 0 },
                            Rvalue::Use(Operand::Constant(Constant::UInt(UIntConst::U64(0)))),
                        );
                        lemma_push_stmt_wf(st, c, s, f, lo, hi, base);
                        lemma_finish_block_wf(push_stmt(st, c, s), c, TermV::Return, f, lo, hi, base);
                    },
                    None => {},
                }
            },
            InstData::OtherTerminator => {
                match st.current {
                    Some(c) => {
                        lemma_finish_block_wf(st, c, TermV::Unimplemented(inst.desc@), f, lo, hi, base);
                    },
                    None => {},
                }
            },
            InstData::Other => {
                match st.current {
                    Some(c) => {
                        lemma_push_stmt_wf(st, c, StmtV::Unimplemented(inst.desc@), f, lo, hi, base);
                    },
                    None => {},
                }
            },
        }
    }
}

/// The widening-copy step preserves the loop bookkeeping.
pub proof fn lemma_step_copy_wf(
    hash: u64,
    f: IrFunction,
    st: EncSt,
    result: u32,
    arg: u32,
    ctrl: MachineType,
    lo: int,
    hi: int,
    base: int,
)
    requires
        result < f.value_types@.len(),
        arg < f.value_types@.len(),
        st_wf(st, f, lo, hi, base),
        decl_headroom(f, base),
    ensures
        (step_copy(hash, f, st, result, arg, ctrl) matches Ok(o) ==> {
            let (st1, brk) = o;
            &&& st_wf(st1, f, lo, hi, base)
            &&& st1.blocks.len() == st.blocks.len()
            &&& st.decls.len() <= st1.decls.len()
            &&& st1.decls.subrange(0, st.decls.len() as int) == st.decls
        }),
{
    lemma_alloc_wf(hash, st, result as int, ctrl, f, lo, hi, base);
    match alloc_spec(hash, st, result as int, ctrl) {
        Ok(o1) => {
            lemma_alloc_wf(hash, o1.0, arg as int, f.value_types@[arg as int], f, lo, hi, base);
            match alloc_spec(hash, o1.0, arg as int, f.value_types@[arg as int]) {
                Ok(o2) => match o2.0.current {
                    Some(c) => {
                        lemma_push_stmt_wf(
                            o2.0,
                            c,
                            StmtV::Assign(
                                Place { local: o1.1 },
                                Rvalue::Use(Operand::Place(Place { local: o2.1 })),
                            ),
                            f,
                            lo,
                            hi,
                            base,
                        );
                        lemma_subrange_chain(st.decls, o1.0.decls, Ok(o2.0));
                    },
                    None => {},
                },
                Err(_) => {},
            }
        },
        Err(_) => {},
    }
}


/// Whether the instruction is a control-transfer instruction.
pub fn is_terminator_data(data: &InstData) -> (r: bool)
    ensures
        r == is_terminator_inst(*data),
{
    match data {
        InstData::Jump { .. } => true,
        InstData::BranchIfZero { .. } => true,
        InstData::Ret { .. } => true,
        InstData::OtherTerminator => true,
        _ => false,
    }
}

/// The value operands and results of an instruction, as a vector.
pub fn inst_value_vec(data: &InstData) -> (r: Vec<u32>)
    ensures
        r@ == inst_values(*data),
{
    let mut v: Vec<u32> = Vec::new();
    match data {
        InstData::Nop => {},
        InstData::BoolConst { result, .. } => {
            v.push(*result);
        },
        InstData::IntConst { result, .. } => {
            v.push(*result);
        },
        InstData::BoolToInt { result, arg } => {
            v.push(*arg);
            v.push(*result);
        },
        InstData::ZeroExtend { result, arg } => {
            v.push(*arg);
            v.push(*result);
        },
        InstData::IntCompare { result, lhs, rhs, .. } => {
            v.push(*lhs);
            v.push(*rhs);
            v.push(*result);
        },
        InstData::DirectCall { args, results, .. } => {
            let mut i: usize = 0;
            while i < args.len()
                invariant
                    i <= args@.len(),
                    v@ =~= args@.subrange(0, i as int),
                decreases args@.len() - i,
            {
                v.push(args[i]);
                i = i + 1;
            }
            proof {
                assert(v@ =~= args@);
            }
            let mut j: usize = 0;
            while j < results.len()
                invariant
                    j <= results@.len(),
                    v@ =~= args@ + results@.subrange(0, j as int),
                decreases results@.len() - j,
            {
                v.push(results[j]);
                j = j + 1;
            }
        },
        InstData::Jump { args, .. } => {
            let mut i: usize = 0;
            while i < args.len()
                invariant
                    i <= args@.len(),
                    v@ =~= args@.subrange(0, i as int),
                decreases args@.len() - i,
            {
                v.push(args[i]);
                i = i + 1;
            }
        },
        InstData::BranchIfZero { arg, .. } => {
            v.push(*arg);
        },
        InstData::Ret { args } => {
            let mut i: usize = 0;
            while i < args.len()
                invariant
                    i <= args@.len(),
                    v@ =~= args@.subrange(0, i as int),
                decreases args@.len() - i,
            {
                v.push(args[i]);
                i = i + 1;
            }
        },
        InstData::OtherTerminator => {},
        InstData::Other => {},
    }
    proof {
        assert(v@ =~= inst_values(*data));
    }
    v
}

/// Whether the instruction touches a floating-point or vector value.
pub fn touches_unsupported(f: &IrFunction, inst: &IrInst) -> (r: bool)
    requires
        wf_inst(*f, *inst),
    ensures
        r == inst_touches_unsupported(*f, *inst),
{
    let vals = inst_value_vec(&inst.data);
    let n = vals.len();
    let mut i: usize = 0;
    while i < n
        invariant
            i <= n,
            n == vals@.len(),
            vals@ == inst_values(inst.data),
            wf_inst(*f, *inst),
            forall|k: int|
                0 <= k < i ==> !crate::ir::is_unsupported_value_type(
                    f.value_types@[#[trigger] inst_values(inst.data)[k] as int],
                ),
        decreases n - i,
    {
        let val = vals[i];
        proof {
            assert(inst_values(inst.data)[i as int] == val);
        }
        match f.value_types[val as usize] {
            MachineType::Float => {
                proof {
                    assert(crate::ir::is_unsupported_value_type(f.value_types@[val as int]));
                }
                return true;
            },
            MachineType::Vector => {
                proof {
                    assert(crate::ir::is_unsupported_value_type(f.value_types@[val as int]));
                }
                return true;
            },
            _ => {},
        }
        i = i + 1;
    }
    false
}


/// The zero literal of a machine type.
pub fn zero_const_exec(t: MachineType) -> (r: Option<UIntConst>)
    ensures
        r == zero_const(t),
{
    match t {
        MachineType::I8 => Some(UIntConst::U8(0)),
        MachineType::I16 => Some(UIntConst::U16(0)),
        MachineType::I32 => Some(UIntConst::U32(0)),
        MachineType::I64 => Some(UIntConst::U64(0)),
        _ => None,
    }
}

/// The pack literal of an integer constant, truncated to the controlling
/// type's width.
pub fn const_uint_exec(t: MachineType, imm: i64) -> (r: Option<UIntConst>)
    ensures
        r == const_uint(t, imm),
{
    match t {
        MachineType::I8 => Some(UIntConst::U8(imm as u8)),
        MachineType::I16 => Some(UIntConst::U16(imm as u16)),
        MachineType::I32 => Some(UIntConst::U32(imm as u32)),
        MachineType::I64 => Some(UIntConst::U64(imm as u64)),
        _ => None,
    }
}

/// Assigns the placeholder zero to every plain-integer result local of a
/// rewritten call, in the freshly opened continuation block.
#[verifier::loop_isolation(false)]
pub fn encode_call_results(
    b: &mut SirBuilder,
    types: &TypeTable,
    f: &IrFunction,
    results: &Vec<u32>,
) -> (r: Result<(), EncodeError>)
    requires
        old(b).value_map@.len() == f.value_types@.len(),
        vmap_valid(st_of(*old(b))),
        old(b).body@.local_decls.len() as int - count_mapped(old(b).value_map@)
            + f.value_types@.len() + 1 < u32::MAX,
        forall|i: int| 0 <= i < results@.len() ==> results@[i] < f.value_types@.len(),
        (old(b).current_block matches Some(c) && c < old(b).body@.blocks.len()),
    ensures
        final(b).block_map == old(b).block_map,
        final(b).body.symbol_name == old(b).body.symbol_name,
        final(b).body.flags == old(b).body.flags,
        final(b).body.trace_inputs_local == old(b).body.trace_inputs_local,
        final(b).current_block == old(b).current_block,
        final(b).body@.blocks.len() == old(b).body@.blocks.len(),
        final(b).value_map@.len() == old(b).value_map@.len(),
        vmap_valid(st_of(*final(b))),
        final(b).body@.local_decls.len() as int - count_mapped(final(b).value_map@)
            == old(b).body@.local_decls.len() as int - count_mapped(old(b).value_map@),
        (match run_call_results(types.crate_hash, *f, st_of(*old(b)), results@, 0) {
            Ok(st1) => r == Ok::<(), EncodeError>(()) && st_of(*final(b)) == st1,
            Err(e) => r == Err::<(), EncodeError>(e),
        }),
{
    let ghost st0 = st_of(*old(b));
    let hash = types.crate_hash;
    let n = results.len();
    let mut k: usize = 0;
    while k < n
        invariant
            k <= n,
            n == results@.len(),
            b.value_map@.len() == f.value_types@.len(),
            vmap_valid(st_of(*b)),
            b.body@.local_decls.len() as int - count_mapped(b.value_map@)
                + f.value_types@.len() + 1 < u32::MAX,
            forall|i: int| 0 <= i < results@.len() ==> results@[i] < f.value_types@.len(),
            b.current_block == old(b).current_block,
            (b.current_block matches Some(c) && c < b.body@.blocks.len()),
            b.body@.blocks.len() == old(b).body@.blocks.len(),
            b.body@.local_decls.len() as int - count_mapped(b.value_map@)
                == old(b).body@.local_decls.len() as int - count_mapped(old(b).value_map@),
            hash == types.crate_hash,
            run_call_results(hash, *f, st_of(*b), results@, k as int) == run_call_results(
                hash,
                *f,
                st0,
                results@,
                0,
            ),
            b.block_map == old(b).block_map,
            b.body.symbol_name == old(b).body.symbol_name,
            b.body.flags == old(b).body.flags,
            b.body.trace_inputs_local == old(b).body.trace_inputs_local,
        decreases n - k,
    {
        let rv = results[k];
        let vt = f.value_types[rv as usize];
        let ghost st_pre = st_of(*b);
        proof {
            lemma_count_mapped_le(b.value_map@);
            lemma_alloc_frame(hash, st_pre, rv as int, vt);
        }
        let l = match b.local_for_value(types, rv, vt) {
            Err(e) => {
                proof {
                    assert(alloc_spec(hash, st_pre, rv as int, vt) == Err::<
                        (EncSt, u32),
                        EncodeError,
                    >(e));
                    assert(run_call_results(hash, *f, st_pre, results@, k as int) == Err::<
                        EncSt,
                        EncodeError,
                    >(e));
                }
                return Err(e);
            },
            Ok(l) => l,
        };
        let ghost st1 = st_of(*b);
        match zero_const_exec(vt) {
            None => {},
            Some(zz) => {
                b.add_stmt(
                    Statement::Assign(
                        Place { local: l },
                        Rvalue::Use(Operand::Constant(Constant::UInt(zz))),
                    ),
                );
                proof {
                    let c = b.current_block->Some_0;
                    assert(st_of(*b) =~~= push_stmt(
                        st1,
                        c,
                        StmtV::Assign(
                            Place { local: l },
                            Rvalue::Use(Operand::Constant(Constant::UInt(zz))),
                        ),
                    ));
                }
            },
        }
        proof {
            assert(run_call_results(hash, *f, st_pre, results@, k as int) == run_call_results(
                hash,
                *f,
                st_of(*b),
                results@,
                k as int + 1,
            ));
        }
        k = k + 1;
    }
    Ok(())
}

/// Emits the block-parameter-eliminating copies of a jump: one assignment
/// (parameter := argument) per passed pair, in parameter order.
#[verifier::loop_isolation(false)]
pub fn encode_jump_copies(
    b: &mut SirBuilder,
    types: &TypeTable,
    f: &IrFunction,
    params: &Vec<u32>,
    args: &Vec<u32>,
) -> (r: Result<(), EncodeError>)
    requires
        old(b).value_map@.len() == f.value_types@.len(),
        vmap_valid(st_of(*old(b))),
        old(b).body@.local_decls.len() as int - count_mapped(old(b).value_map@)
            + f.value_types@.len() + 1 < u32::MAX,
        forall|i: int| 0 <= i < params@.len() ==> params@[i] < f.value_types@.len(),
        forall|i: int| 0 <= i < args@.len() ==> args@[i] < f.value_types@.len(),
        (old(b).current_block matches Some(c) ==> c < old(b).body@.blocks.len()),
    ensures
        final(b).block_map == old(b).block_map,
        final(b).body.symbol_name == old(b).body.symbol_name,
        final(b).body.flags == old(b).body.flags,
        final(b).body.trace_inputs_local == old(b).body.trace_inputs_local,
        final(b).current_block == old(b).current_block,
        final(b).body@.blocks.len() == old(b).body@.blocks.len(),
        final(b).value_map@.len() == old(b).value_map@.len(),
        vmap_valid(st_of(*final(b))),
        final(b).body@.local_decls.len() as int - count_mapped(final(b).value_map@)
            == old(b).body@.local_decls.len() as int - count_mapped(old(b).value_map@),
        (match run_jump_copies(
            types.crate_hash,
            *f,
            st_of(*old(b)),
            params@,
            args@,
            0,
            pair_count(params@.len() as int, args@.len() as int),
        ) {
            Ok(st1) => r == Ok::<(), EncodeError>(()) && st_of(*final(b)) == st1,
            Err(e) => r == Err::<(), EncodeError>(e),
        }),
{
    let ghost st0 = st_of(*old(b));
    let hash = types.crate_hash;
    let np = params.len();
    let na = args.len();
    let n = if np <= na {
        np
    } else {
        na
    };
    let ghost gn = pair_count(params@.len() as int, args@.len() as int);
    let mut k: usize = 0;
    while k < n
        invariant
            k <= n,
            n as int == gn,
            np == params@.len(),
            na == args@.len(),
            gn == pair_count(params@.len() as int, args@.len() as int),
            b.value_map@.len() == f.value_types@.len(),
            vmap_valid(st_of(*b)),
            b.body@.local_decls.len() as int - count_mapped(b.value_map@)
                + f.value_types@.len() + 1 < u32::MAX,
            forall|i: int| 0 <= i < params@.len() ==> params@[i] < f.value_types@.len(),
            forall|i: int| 0 <= i < args@.len() ==> args@[i] < f.value_types@.len(),
            b.current_block == old(b).current_block,
            (b.current_block matches Some(c) ==> c < b.body@.blocks.len()),
            b.body@.blocks.len() == old(b).body@.blocks.len(),
            b.body@.local_decls.len() as int - count_mapped(b.value_map@)
                == old(b).body@.local_decls.len() as int - count_mapped(old(b).value_map@),
            hash == types.crate_hash,
            run_jump_copies(hash, *f, st_of(*b), params@, args@, k as int, gn)
                == run_jump_copies(hash, *f, st0, params@, args@, 0, gn),
            b.block_map == old(b).block_map,
            b.body.symbol_name == old(b).body.symbol_name,
            b.body.flags == old(b).body.flags,
            b.body.trace_inputs_local == old(b).body.trace_inputs_local,
        decreases n - k,
    {
        let pv = params[k];
        let av = args[k];
        let ghost st_pre = st_of(*b);
        proof {
            lemma_count_mapped_le(b.value_map@);
            lemma_alloc_frame(hash, st_pre, pv as int, f.value_types@[pv as int]);
        }
        let p = match b.local_for_value(types, pv, f.value_types[pv as usize]) {
            Err(e) => {
                proof {
                    assert(alloc_spec(hash, st_pre, pv as int, f.value_types@[pv as int])
                        == Err::<(EncSt, u32), EncodeError>(e));
                    assert(run_jump_copies(hash, *f, st_pre, params@, args@, k as int, gn)
                        == Err::<EncSt, EncodeError>(e));
                }
                return Err(e);
            },
            Ok(p) => p,
        };
        let ghost st1 = st_of(*b);
        proof {
            lemma_count_mapped_le(b.value_map@);
            lemma_alloc_frame(hash, st1, av as int, f.value_types@[av as int]);
        }
        let a = match b.local_for_value(types, av, f.value_types[av as usize]) {
            Err(e) => {
                proof {
                    assert(alloc_spec(hash, st1, av as int, f.value_types@[av as int])
                        == Err::<(EncSt, u32), EncodeError>(e));
                    assert(run_jump_copies(hash, *f, st_pre, params@, args@, k as int, gn)
                        == Err::<EncSt, EncodeError>(e));
                }
                return Err(e);
            },
            Ok(a) => a,
        };
        let ghost st2 = st_of(*b);
        if b.current_block.is_none() {
            proof {
                assert(run_jump_copies(hash, *f, st_pre, params@, args@, k as int, gn)
                    == Err::<EncSt, EncodeError>(EncodeError::NoOpenBlock));
            }
            return Err(EncodeError::NoOpenBlock);
        }
        b.add_stmt(
            Statement::Assign(
                Place { local: p },
                Rvalue::Use(Operand::Place(Place { local: a })),
            ),
        );
        proof {
            let c = b.current_block->Some_0;
            assert(st_of(*b) =~~= push_stmt(
                st2,
                c,
                StmtV::Assign(
                    Place { local: p },
                    Rvalue::Use(Operand::Place(Place { local: a })),
                ),
            ));
            assert(run_jump_copies(hash, *f, st_pre, params@, args@, k as int, gn)
                == run_jump_copies(hash, *f, st_of(*b), params@, args@, k as int + 1, gn));
        }
        k = k + 1;
    }
    Ok(())
}


/// Degrades one unsupported construct in the open block.
pub fn encode_degrade(b: &mut SirBuilder, desc: &String, is_term: bool, brk: bool) -> (r: Result<
    bool,
    EncodeError,
>)
    requires
        (old(b).current_block matches Some(c) ==> c < old(b).body@.blocks.len()),
    ensures
        final(b).block_map == old(b).block_map,
        final(b).body.symbol_name == old(b).body.symbol_name,
        final(b).body.flags == old(b).body.flags,
        final(b).body.trace_inputs_local == old(b).body.trace_inputs_local,
        (match step_degrade(st_of(*old(b)), desc@, is_term, brk) {
            Ok(o) => r == Ok::<bool, EncodeError>(o.1) && st_of(*final(b)) == o.0,
            Err(e) => r == Err::<bool, EncodeError>(e),
        }),
{
    let ghost st0 = st_of(*old(b));
    match b.current_block {
        None => Err(EncodeError::NoOpenBlock),
        Some(c) => {
            if is_term {
                b.terminate_block(Terminator::Unimplemented(desc.clone()));
                proof {
                    assert(st_of(*b) =~~= finish_block(st0, c, TermV::Unimplemented(desc@)));
                }
            } else {
                b.add_stmt(Statement::Unimplemented(desc.clone()));
                proof {
                    assert(st_of(*b) =~~= push_stmt(st0, c, StmtV::Unimplemented(desc@)));
                }
            }
            Ok(brk)
        },
    }
}

/// Translates a boolean constant.
pub fn encode_bool_const(
    b: &mut SirBuilder,
    types: &TypeTable,
    result: u32,
    imm: bool,
    ctrl: MachineType,
) -> (r: Result<bool, EncodeError>)
    requires
        result < old(b).value_map@.len(),
        vmap_valid(st_of(*old(b))),
        old(b).body@.local_decls.len() + 1 < u32::MAX,
        (old(b).current_block matches Some(c) ==> c < old(b).body@.blocks.len()),
    ensures
        final(b).block_map == old(b).block_map,
        final(b).body.symbol_name == old(b).body.symbol_name,
        final(b).body.flags == old(b).body.flags,
        final(b).body.trace_inputs_local == old(b).body.trace_inputs_local,
        (match step_bool_const(types.crate_hash, st_of(*old(b)), result, imm, ctrl) {
            Ok(o) => r == Ok::<bool, EncodeError>(o.1) && st_of(*final(b)) == o.0,
            Err(e) => r == Err::<bool, EncodeError>(e),
        }),
{
    let ghost st0 = st_of(*old(b));
    proof {
        lemma_alloc_frame(types.crate_hash, st0, result as int, ctrl);
    }
    let l = match b.local_for_value(types, result, ctrl) {
        Err(e) => {
            return Err(e);
        },
        Ok(l) => l,
    };
    let ghost st1 = st_of(*b);
    match b.current_block {
        None => Err(EncodeError::NoOpenBlock),
        Some(c) => {
            b.add_stmt(
                Statement::Assign(
                    Place { local: l },
                    Rvalue::Use(Operand::Constant(Constant::Bool(imm))),
                ),
            );
            proof {
                assert(st_of(*b) =~~= push_stmt(
                    st1,
                    c,
                    StmtV::Assign(
                        Place { local: l },
                        Rvalue::Use(Operand::Constant(Constant::Bool(imm))),
                    ),
                ));
            }
            Ok(false)
        },
    }
}

/// Translates an integer constant.
pub fn encode_int_const(
    b: &mut SirBuilder,
    types: &TypeTable,
    result: u32,
    imm: i64,
    ctrl: MachineType,
) -> (r: Result<bool, EncodeError>)
    requires
        result < old(b).value_map@.len(),
        vmap_valid(st_of(*old(b))),
        old(b).body@.local_decls.len() + 1 < u32::MAX,
        (old(b).current_block matches Some(c) ==> c < old(b).body@.blocks.len()),
    ensures
        final(b).block_map == old(b).block_map,
        final(b).body.symbol_name == old(b).body.symbol_name,
        final(b).body.flags == old(b).body.flags,
        final(b).body.trace_inputs_local == old(b).body.trace_inputs_local,
        (match step_int_const(types.crate_hash, st_of(*old(b)), result, imm, ctrl) {
            Ok(o) => r == Ok::<bool, EncodeError>(o.1) && st_of(*final(b)) == o.0,
            Err(e) => r == Err::<bool, EncodeError>(e),
        }),
{
    let ghost st0 = st_of(*old(b));
    proof {
        lemma_alloc_frame(types.crate_hash, st0, result as int, ctrl);
    }
    let l = match b.local_for_value(types, result, ctrl) {
        Err(e) => {
            return Err(e);
        },
        Ok(l) => l,
    };
    let ghost st1 = st_of(*b);
    let kk = match const_uint_exec(ctrl, imm) {
        None => {
            return Err(EncodeError::UnsupportedConstantType);
        },
        Some(kk) => kk,
    };
    match b.current_block {
        None => Err(EncodeError::NoOpenBlock),
        Some(c) => {
            b.add_stmt(
                Statement::Assign(
                    Place { local: l },
                    Rvalue::Use(Operand::Constant(Constant::UInt(kk))),
                ),
            );
            proof {
                assert(st_of(*b) =~~= push_stmt(
                    st1,
                    c,
                    StmtV::Assign(
                        Place { local: l },
                        Rvalue::Use(Operand::Constant(Constant::UInt(kk))),
                    ),
                ));
            }
            Ok(false)
        },
    }
}

/// Translates an integer comparison.
pub fn encode_icmp(
    b: &mut SirBuilder,
    types: &TypeTable,
    f: &IrFunction,
    result: u32,
    cond: IntCondition,
    lhs: u32,
    rhs: u32,
    ctrl: MachineType,
) -> (r: Result<bool, EncodeError>)
    requires
        result < f.value_types@.len(),
        lhs < f.value_types@.len(),
        rhs < f.value_types@.len(),
        old(b).value_map@.len() == f.value_types@.len(),
        vmap_valid(st_of(*old(b))),
        old(b).body@.local_decls.len() as int - count_mapped(old(b).value_map@)
            + f.value_types@.len() + 1 < u32::MAX,
        (old(b).current_block matches Some(c) ==> c < old(b).body@.blocks.len()),
    ensures
        final(b).block_map == old(b).block_map,
        final(b).body.symbol_name == old(b).body.symbol_name,
        final(b).body.flags == old(b).body.flags,
        final(b).body.trace_inputs_local == old(b).body.trace_inputs_local,
        (match step_icmp(types.crate_hash, *f, st_of(*old(b)), result, cond, lhs, rhs, ctrl) {
            Ok(o) => r == Ok::<bool, EncodeError>(o.1) && st_of(*final(b)) == o.0,
            Err(e) => r == Err::<bool, EncodeError>(e),
        }),
{
    let ghost hash = types.crate_hash;
    let ghost st0 = st_of(*old(b));
    proof {
        lemma_count_mapped_le(b.value_map@);
        lemma_alloc_frame(hash, st0, result as int, ctrl);
    }
    let l = match b.local_for_value(types, result, ctrl) {
        Err(e) => {
            return Err(e);
        },
        Ok(l) => l,
    };
    let ghost st1 = st_of(*b);
    proof {
        lemma_count_mapped_le(b.value_map@);
        lemma_alloc_frame(hash, st1, lhs as int, f.value_types@[lhs as int]);
    }
    let xa = match b.local_for_value(types, lhs, f.value_types[lhs as usize]) {
        Err(e) => {
            return Err(e);
        },
        Ok(xa) => xa,
    };
    let ghost st2 = st_of(*b);
    proof {
        lemma_count_mapped_le(b.value_map@);
        lemma_alloc_frame(hash, st2, rhs as int, f.value_types@[rhs as int]);
    }
    let ya = match b.local_for_value(types, rhs, f.value_types[rhs as usize]) {
        Err(e) => {
            return Err(e);
        },
        Ok(ya) => ya,
    };
    let ghost st3 = st_of(*b);
    let op = match cond {
        IntCondition::Equal => PackBinOp::CmpEq,
        IntCondition::UnsignedLessThan => PackBinOp::CmpLt,
        _ => PackBinOp::BitXor,
    };
    match b.current_block {
        None => Err(EncodeError::NoOpenBlock),
        Some(c) => {
            b.add_stmt(
                Statement::Assign(
                    Place { local: l },
                    Rvalue::BinaryOp(
                        op,
                        Operand::Place(Place { local: xa }),
                        Operand::Place(Place { local: ya }),
                    ),
                ),
            );
            proof {
                assert(op == map_condition(cond));
                assert(st_of(*b) =~~= push_stmt(
                    st3,
                    c,
                    StmtV::Assign(
                        Place { local: l },
                        Rvalue::BinaryOp(
                            map_condition(cond),
                            Operand::Place(Place { local: xa }),
                            Operand::Place(Place { local: ya }),
                        ),
                    ),
                ));
            }
            Ok(false)
        },
    }
}

/// Translates a direct call.
pub fn encode_call(
    b: &mut SirBuilder,
    types: &TypeTable,
    f: &IrFunction,
    x: &ExtraInfo,
    desc: &String,
    callee: u32,
    args: &Vec<u32>,
    results: &Vec<u32>,
) -> (r: Result<bool, EncodeError>)
    requires
        old(b).value_map@.len() == f.value_types@.len(),
        vmap_valid(st_of(*old(b))),
        old(b).body@.local_decls.len() as int - count_mapped(old(b).value_map@)
            + f.value_types@.len() + 1 < u32::MAX,
        old(b).body@.blocks.len() < u32::MAX,
        (old(b).current_block matches Some(c) ==> c < old(b).body@.blocks.len()),
        forall|i: int| 0 <= i < results@.len() ==> results@[i] < f.value_types@.len(),
    ensures
        final(b).block_map == old(b).block_map,
        final(b).body.symbol_name == old(b).body.symbol_name,
        final(b).body.flags == old(b).body.flags,
        final(b).body.trace_inputs_local == old(b).body.trace_inputs_local,
        (match step_call(
            types.crate_hash,
            *f,
            *x,
            st_of(*old(b)),
            desc@,
            callee,
            args@,
            results@,
        ) {
            Ok(o) => r == Ok::<bool, EncodeError>(o.1) && st_of(*final(b)) == o.0,
            Err(e) => r == Err::<bool, EncodeError>(e),
        }),
{
    let ghost st0 = st_of(*old(b));
    if args.len() != 0 {
        match b.current_block {
            None => Err(EncodeError::NoOpenBlock),
            Some(c) => {
                b.add_stmt(Statement::Unimplemented(desc.clone()));
                proof {
                    assert(st_of(*b) =~~= push_stmt(st0, c, StmtV::Unimplemented(desc@)));
                }
                Ok(false)
            },
        }
    } else {
        let operand = match lookup_name(&x.func_names, callee) {
            Some(sname) => CallOperand::Sym(sname),
            None => CallOperand::Unknown,
        };
        let ghost opv = operand@;
        let nb = b.create_block();
        let ghost stc = st_of(*b);
        proof {
            assert(stc =~~= EncSt { blocks: st0.blocks.push(fresh_block()), ..st0 });
        }
        match b.current_block {
            None => {
                return Err(EncodeError::NoOpenBlock);
            },
            Some(c) => {
                let term = Terminator::Call {
                    operand,
                    args: Vec::new(),
                    destination: Some((Place { local: 1 }, nb)),
                };
                let ghost termv = term@;
                proof {
                    assert(termv =~~= TermV::Call {
                        operand: opv,
                        args: Seq::empty(),
                        destination: Some((Place { local: 1 }, nb)),
                    });
                }
                b.terminate_block(term);
                proof {
                    assert(st_of(*b) =~~= finish_block(stc, c, termv));
                }
                b.switch_to_block(nb);
                proof {
                    assert(st_of(*b) =~~= EncSt {
                        current: Some(nb),
                        ..finish_block(stc, c, termv)
                    });
                }
                match encode_call_results(b, types, f, results) {
                    Err(e) => Err(e),
                    Ok(_u) => Ok(false),
                }
            },
        }
    }
}

/// Translates an unconditional jump.
pub fn encode_jump(
    b: &mut SirBuilder,
    types: &TypeTable,
    f: &IrFunction,
    destination: u32,
    args: &Vec<u32>,
) -> (r: Result<bool, EncodeError>)
    requires
        destination < f.blocks@.len(),
        old(b).value_map@.len() == f.value_types@.len(),
        vmap_valid(st_of(*old(b))),
        old(b).body@.local_decls.len() as int - count_mapped(old(b).value_map@)
            + f.value_types@.len() + 1 < u32::MAX,
        (old(b).current_block matches Some(c) ==> c < old(b).body@.blocks.len()),
        old(b).block_map@.len() == f.blocks@.len(),
        forall|j: int| 0 <= j < f.blocks@.len() ==> old(b).block_map@[j] == j + 1,
        forall|i: int|
            0 <= i < f.blocks@[destination as int].params@.len()
                ==> #[trigger] f.blocks@[destination as int].params@[i]
                < f.value_types@.len(),
        forall|i: int| 0 <= i < args@.len() ==> args@[i] < f.value_types@.len(),
    ensures
        final(b).block_map == old(b).block_map,
        final(b).body.symbol_name == old(b).body.symbol_name,
        final(b).body.flags == old(b).body.flags,
        final(b).body.trace_inputs_local == old(b).body.trace_inputs_local,
        (match step_jump(types.crate_hash, *f, st_of(*old(b)), destination, args@) {
            Ok(o) => r == Ok::<bool, EncodeError>(o.1) && st_of(*final(b)) == o.0,
            Err(e) => r == Err::<bool, EncodeError>(e),
        }),
{
    let dest = destination as usize;
    match encode_jump_copies(b, types, f, &f.blocks[dest].params, args) {
        Err(e) => Err(e),
        Ok(_u) => {
            match b.current_block {
                None => Err(EncodeError::NoOpenBlock),
                Some(c) => {
                    let target = b.bb_for_block(dest);
                    let ghost stj = st_of(*b);
                    b.terminate_block(Terminator::Goto { target });
                    proof {
                        assert(target == destination);
                        assert(st_of(*b) =~~= finish_block(
                            stj,
                            c,
                            TermV::Goto { target: destination },
                        ));
                    }
                    Ok(false)
                },
            }
        },
    }
}

/// Translates a zero-test conditional branch.
pub fn encode_brz(
    b: &mut SirBuilder,
    types: &TypeTable,
    f: &IrFunction,
    arg: u32,
    destination: u32,
    ctrl: MachineType,
) -> (r: Result<bool, EncodeError>)
    requires
        destination < f.blocks@.len(),
        arg < old(b).value_map@.len(),
        vmap_valid(st_of(*old(b))),
        old(b).body@.local_decls.len() + 1 < u32::MAX,
        (old(b).current_block matches Some(c) ==> c < old(b).body@.blocks.len()),
        old(b).block_map@.len() == f.blocks@.len(),
        forall|j: int| 0 <= j < f.blocks@.len() ==> old(b).block_map@[j] == j + 1,
    ensures
        final(b).block_map == old(b).block_map,
        final(b).body.symbol_name == old(b).body.symbol_name,
        final(b).body.flags == old(b).body.flags,
        final(b).body.trace_inputs_local == old(b).body.trace_inputs_local,
        (match step_brz(types.crate_hash, st_of(*old(b)), arg, destination, ctrl) {
            Ok(o) => r == Ok::<bool, EncodeError>(o.1) && st_of(*final(b)) == o.0,
            Err(e) => r == Err::<bool, EncodeError>(e),
        }),
{
    let ghost st0 = st_of(*old(b));
    proof {
        lemma_alloc_frame(types.crate_hash, st0, arg as int, ctrl);
    }
    let a = match b.local_for_value(types, arg, ctrl) {
        Err(e) => {
            return Err(e);
        },
        Ok(a) => a,
    };
    let ghost st1 = st_of(*b);
    match b.current_block {
        None => Err(EncodeError::NoOpenBlock),
        Some(c) => {
            let mut values: Vec<u128> = Vec::new();
            values.push(0);
            let mut targets: Vec<u32> = Vec::new();
            targets.push(b.bb_for_block(destination as usize));
            let term = Terminator::SwitchInt {
                discr: Place { local: a },
                values,
                targets,
                otherwise: 0,
            };
            let ghost termv = term@;
            proof {
                assert(termv =~~= TermV::SwitchInt {
                    discr: Place { local: a },
                    values: seq![0u128],
                    targets: seq![destination],
                    otherwise: 0,
                });
            }
            b.terminate_block(term);
            proof {
                assert(st_of(*b) =~~= finish_block(
                    st1,
                    c,
                    TermV::SwitchInt {
                        discr: Place { local: a },
                        values: seq![0u128],
                        targets: seq![destination],
                        otherwise: 0,
                    },
                ));
            }
            Ok(true)
        },
    }
}

/// Translates a return.
pub fn encode_ret(b: &mut SirBuilder) -> (r: Result<bool, EncodeError>)
    requires
        (old(b).current_block matches Some(c) ==> c < old(b).body@.blocks.len()),
    ensures
        final(b).block_map == old(b).block_map,
        final(b).body.symbol_name == old(b).body.symbol_name,
        final(b).body.flags == old(b).body.flags,
        final(b).body.trace_inputs_local == old(b).body.trace_inputs_local,
        (match step_ret(st_of(*old(b))) {
            Ok(o) => r == Ok::<bool, EncodeError>(o.1) && st_of(*final(b)) == o.0,
            Err(e) => r == Err::<bool, EncodeError>(e),
        }),
{
    let ghost st0 = st_of(*old(b));
    match b.current_block {
        None => Err(EncodeError::NoOpenBlock),
        Some(c) => {
            b.add_stmt(
                Statement::Assign(
                    Place { local: 0 },
                    Rvalue::Use(Operand::Constant(Constant::UInt(UIntConst::U64(0)))),
                ),
            );
            let ghost st1 = st_of(*b);
            proof {
                assert(st1 =~~= push_stmt(
                    st0,
                    c,
                    StmtV::Assign(
                        Place { local: 0 },
                        Rvalue::Use(Operand::Constant(Constant::UInt(UIntConst::U64(0)))),
                    ),
                ));
            }
            b.terminate_block(Terminator::Return);
            proof {
                assert(st_of(*b) =~~= finish_block(st1, c, TermV::Return));
            }
            Ok(false)
        },
    }
}

/// Translates one instruction, mirroring [`step_inst`]: elides a skip-listed
/// instruction, degrades one that touches a floating-point or vector value,
/// and otherwise dispatches by opcode. Returns whether the rest of the block
/// is skipped.
#[verifier::rlimit(50)]
pub fn encode_inst(
    b: &mut SirBuilder,
    types: &TypeTable,
    f: &IrFunction,
    x: &ExtraInfo,
    inst: &IrInst,
) -> (r: Result<bool, EncodeError>)
    requires
        crate::ir::wf_func(*f),
        wf_inst(*f, *inst),
        old(b).value_map@.len() == f.value_types@.len(),
        vmap_valid(st_of(*old(b))),
        old(b).body@.local_decls.len() as int - count_mapped(old(b).value_map@)
            + f.value_types@.len() + 1 < u32::MAX,
        old(b).body@.blocks.len() < u32::MAX,
        (old(b).current_block matches Some(c) ==> c < old(b).body@.blocks.len()),
        old(b).block_map@.len() == f.blocks@.len(),
        forall|j: int| 0 <= j < f.blocks@.len() ==> old(b).block_map@[j] == j + 1,
    ensures
        final(b).block_map == old(b).block_map,
        final(b).body.symbol_name == old(b).body.symbol_name,
        final(b).body.flags == old(b).body.flags,
        final(b).body.trace_inputs_local == old(b).body.trace_inputs_local,
        (match step_inst(types.crate_hash, *f, *x, st_of(*old(b)), *inst) {
            Ok(o) => r == Ok::<bool, EncodeError>(o.1) && st_of(*final(b)) == o.0,
            Err(e) => r == Err::<bool, EncodeError>(e),
        }),
{
    proof {
        lemma_count_mapped_le(old(b).value_map@);
    }
    if ids_contain(&x.sw_trace_insts, inst.ident) {
        return Ok(false);
    }
    if touches_unsupported(f, inst) {
        let is_term = is_terminator_data(&inst.data);
        return encode_degrade(b, &inst.desc, is_term, false);
    }
    match &inst.data {
        InstData::Nop => Ok(false),
        InstData::BoolConst { result, imm } => {
            proof {
                assert(inst_values(inst.data)[0] == *result);
            }
            encode_bool_const(b, types, *result, *imm, inst.ctrl_type)
        },
        InstData::IntConst { result, imm } => {
            proof {
                assert(inst_values(inst.data)[0] == *result);
            }
            encode_int_const(b, types, *result, *imm, inst.ctrl_type)
        },
        InstData::BoolToInt { result, arg } => {
            proof {
                assert(inst_values(inst.data)[0] == *arg && inst_values(inst.data)[1]
                    == *result);
            }
            encode_copy(b, types, f, *result, *arg, inst.ctrl_type)
        },
        InstData::ZeroExtend { result, arg } => {
            proof {
                assert(inst_values(inst.data)[0] == *arg && inst_values(inst.data)[1]
                    == *result);
            }
            encode_copy(b, types, f, *result, *arg, inst.ctrl_type)
        },
        InstData::IntCompare { result, cond, lhs, rhs } => {
            proof {
                assert(inst_values(inst.data)[0] == *lhs && inst_values(inst.data)[1] == *rhs
                    && inst_values(inst.data)[2] == *result);
            }
            encode_icmp(b, types, f, *result, *cond, *lhs, *rhs, inst.ctrl_type)
        },
        InstData::DirectCall { callee, args, results } => {
            proof {
                assert forall|i: int| 0 <= i < results@.len()
                    implies #[trigger] results@[i] < f.value_types@.len() by {
                    assert(inst_values(inst.data)[args@.len() + i] == results@[i]);
                }
            }
            encode_call(b, types, f, x, &inst.desc, *callee, args, results)
        },
        InstData::Jump { destination, args } => {
            proof {
                assert forall|i: int| 0 <= i < args@.len()
                    implies #[trigger] args@[i] < f.value_types@.len() by {
                    assert(inst_values(inst.data)[i] == args@[i]);
                }
            }
            encode_jump(b, types, f, *destination, args)
        },
        InstData::BranchIfZero { arg, destination } => {
            proof {
                assert(inst_values(inst.data)[0] == *arg);
            }
            encode_brz(b, types, f, *arg, *destination, inst.ctrl_type)
        },
        InstData::Ret { .. } => encode_ret(b),
        InstData::OtherTerminator => encode_degrade(b, &inst.desc, true, true),
        InstData::Other => encode_degrade(b, &inst.desc, false, false),
    }
}

/// Translates a widening copy: the result local is assigned the source
/// local's value.
pub fn encode_copy(
    b: &mut SirBuilder,
    types: &TypeTable,
    f: &IrFunction,
    result: u32,
    arg: u32,
    ctrl: MachineType,
) -> (r: Result<bool, EncodeError>)
    requires
        result < f.value_types@.len(),
        arg < f.value_types@.len(),
        old(b).value_map@.len() == f.value_types@.len(),
        vmap_valid(st_of(*old(b))),
        old(b).body@.local_decls.len() as int - count_mapped(old(b).value_map@)
            + f.value_types@.len() + 1 < u32::MAX,
        (old(b).current_block matches Some(c) ==> c < old(b).body@.blocks.len()),
    ensures
        final(b).block_map == old(b).block_map,
        final(b).body.symbol_name == old(b).body.symbol_name,
        final(b).body.flags == old(b).body.flags,
        final(b).body.trace_inputs_local == old(b).body.trace_inputs_local,
        (match step_copy(types.crate_hash, *f, st_of(*old(b)), result, arg, ctrl) {
            Ok(o) => r == Ok::<bool, EncodeError>(o.1) && st_of(*final(b)) == o.0,
            Err(e) => r == Err::<bool, EncodeError>(e),
        }),
{
    let ghost hash = types.crate_hash;
    let ghost st0 = st_of(*old(b));
    proof {
        lemma_count_mapped_le(b.value_map@);
        lemma_alloc_frame(hash, st0, result as int, ctrl);
    }
    let l = match b.local_for_value(types, result, ctrl) {
        Err(e) => {
            return Err(e);
        },
        Ok(l) => l,
    };
    let ghost st1 = st_of(*b);
    proof {
        lemma_count_mapped_le(b.value_map@);
        lemma_alloc_frame(hash, st1, arg as int, f.value_types@[arg as int]);
    }
    let a = match b.local_for_value(types, arg, f.value_types[arg as usize]) {
        Err(e) => {
            return Err(e);
        },
        Ok(a) => a,
    };
    let ghost st2 = st_of(*b);
    match b.current_block {
        None => Err(EncodeError::NoOpenBlock),
        Some(c) => {
            b.add_stmt(
                Statement::Assign(
                    Place { local: l },
                    Rvalue::Use(Operand::Place(Place { local: a })),
                ),
            );
            proof {
                assert(st_of(*b) =~~= push_stmt(
                    st2,
                    c,
                    StmtV::Assign(
                        Place { local: l },
                        Rvalue::Use(Operand::Place(Place { local: a })),
                    ),
                ));
            }
            Ok(false)
        },
    }
}


/// The fold of [`step_inst`] over a block's instructions, from index `j` on,
/// stopping early when a step says the rest of the block is skipped.
pub open spec fn run_insts(
    hash: u64,
    f: IrFunction,
    x: ExtraInfo,
    st: EncSt,
    insts: Seq<IrInst>,
    j: int,
) -> Result<EncSt, EncodeError>
    decreases insts.len() - j,
{
    if j < 0 || j >= insts.len() {
        Ok(st)
    } else {
        match step_inst(hash, f, x, st, insts[j]) {
            Err(e) => Err(e),
            Ok(o) => if o.1 {
                Ok(o.0)
            } else {
                run_insts(hash, f, x, o.0, insts, j + 1)
            },
        }
    }
}

/// Translates the instruction list of function block `bi` into the open pack
/// block, exactly as the fold [`run_insts`] says.
#[verifier::loop_isolation(false)]
#[verifier::rlimit(30)]
pub fn encode_block_insts(
    b: &mut SirBuilder,
    types: &TypeTable,
    f: &IrFunction,
    x: &ExtraInfo,
    bi: usize,
    Ghost(lo): Ghost<int>,
    Ghost(hi): Ghost<int>,
    Ghost(base): Ghost<int>,
) -> (r: Result<(), EncodeError>)
    requires
        crate::ir::wf_func(*f),
        bi < f.blocks@.len(),
        st_wf(st_of(*old(b)), *f, lo, hi, base),
        decl_headroom(*f, base),
        old(b).body@.blocks.len() + f.blocks@[bi as int].insts@.len() + 1 < u32::MAX,
        old(b).block_map@.len() == f.blocks@.len(),
        forall|j: int| 0 <= j < f.blocks@.len() ==> old(b).block_map@[j] == j + 1,
    ensures
        final(b).block_map == old(b).block_map,
        final(b).body.symbol_name == old(b).body.symbol_name,
        final(b).body.flags == old(b).body.flags,
        final(b).body.trace_inputs_local == old(b).body.trace_inputs_local,
        (match run_insts(
            types.crate_hash,
            *f,
            *x,
            st_of(*old(b)),
            f.blocks@[bi as int].insts@,
            0,
        ) {
            Ok(st1) => {
                &&& r == Ok::<(), EncodeError>(())
                &&& st_of(*final(b)) == st1
                &&& st_wf(st1, *f, lo, hi, base)
                &&& st1.blocks.len() <= st_of(*old(b)).blocks.len() + f.blocks@[
                    bi as int
                ].insts@.len()
                &&& st_of(*old(b)).decls.len() <= st1.decls.len()
                &&& st1.decls.subrange(0, st_of(*old(b)).decls.len() as int) == st_of(
                    *old(b),
                ).decls
            },
            Err(e) => r == Err::<(), EncodeError>(e),
        }),
{
    let ghost hash = types.crate_hash;
    let ghost st0 = st_of(*old(b));
    let ghost insts_g = f.blocks@[bi as int].insts@;
    proof {
        assert(st0.decls.subrange(0, st0.decls.len() as int) =~= st0.decls);
    }
    let n = f.blocks[bi].insts.len();
    let mut j: usize = 0;
    let mut stop = false;
    while j < n && !stop
        invariant
            j <= n,
            n == insts_g.len(),
            st_wf(st_of(*b), *f, lo, hi, base),
            b.body@.blocks.len() <= old(b).body@.blocks.len() + j,
            st0.decls.len() <= st_of(*b).decls.len(),
            st_of(*b).decls.subrange(0, st0.decls.len() as int) == st0.decls,
            b.block_map == old(b).block_map,
            b.body.symbol_name == old(b).body.symbol_name,
            b.body.flags == old(b).body.flags,
            b.body.trace_inputs_local == old(b).body.trace_inputs_local,
            !stop ==> run_insts(hash, *f, *x, st_of(*b), insts_g, j as int) == run_insts(
                hash,
                *f,
                *x,
                st0,
                insts_g,
                0,
            ),
            stop ==> Ok::<EncSt, EncodeError>(st_of(*b)) == run_insts(
                hash,
                *f,
                *x,
                st0,
                insts_g,
                0,
            ),
        decreases n - j,
    {
        let inst = &f.blocks[bi].insts[j];
        let ghost st_pre = st_of(*b);
        proof {
            assert(f.blocks@[bi as int].insts@[j as int] == *inst);
            assert(wf_inst(*f, *inst));
            lemma_step_inst_wf(hash, *f, *x, st_pre, *inst, lo, hi, base);
            lemma_count_mapped_le(b.value_map@);
        }
        let brk = match encode_inst(b, types, f, x, inst) {
            Err(e) => {
                proof {
                    assert(run_insts(hash, *f, *x, st_pre, insts_g, j as int) == Err::<
                        EncSt,
                        EncodeError,
                    >(e));
                }
                return Err(e);
            },
            Ok(brk) => brk,
        };
        proof {
            lemma_subrange_chain(st0.decls, st_pre.decls, Ok(st_of(*b)));
            if brk {
                assert(run_insts(hash, *f, *x, st_pre, insts_g, j as int) == Ok::<
                    EncSt,
                    EncodeError,
                >(st_of(*b)));
            } else {
                assert(run_insts(hash, *f, *x, st_pre, insts_g, j as int) == run_insts(
                    hash,
                    *f,
                    *x,
                    st_of(*b),
                    insts_g,
                    j as int + 1,
                ));
            }
        }
        if brk {
            stop = true;
        }
        j = j + 1;
    }
    Ok(())
}


/// The fold of [`run_insts`] over the function's blocks in layout order,
/// from block `i` on: each block must find no block left open, is opened,
/// and has its instructions translated.
pub open spec fn run_blocks(hash: u64, f: IrFunction, x: ExtraInfo, st: EncSt, i: int) -> Result<
    EncSt,
    EncodeError,
>
    decreases f.blocks@.len() - i,
{
    if i < 0 || i >= f.blocks@.len() {
        Ok(st)
    } else if !(st.current is None) {
        Err(EncodeError::BlockLeftOpen)
    } else {
        let st1 = EncSt { current: Some(i as u32), ..st };
        match run_insts(hash, f, x, st1, f.blocks@[i].insts@, 0) {
            Err(e) => Err(e),
            Ok(st2) => run_blocks(hash, f, x, st2, i + 1),
        }
    }
}

/// The flag bits of a body: the trace-entry and trace-exit marks.
pub open spec fn init_flags(x: ExtraInfo) -> u8 {
    if x.trace_head && x.trace_tail {
        3
    } else if x.trace_head {
        1
    } else if x.trace_tail {
        2
    } else {
        0
    }
}

/// The local declarations the prologue lays down: the return slot first,
/// typed as a machine word, then one opaque-struct local per stack slot, in
/// declaration order.
pub open spec fn prologue_decls(hash: u64, entries0_len: int, sizes: Seq<u32>) -> Seq<
    LocalDecl,
> {
    seq![LocalDecl { ty: TyRef { hash, index: WORD_TY_INDEX } }] + Seq::new(
        sizes.len(),
        |k: int| LocalDecl { ty: TyRef { hash, index: (entries0_len + k) as u32 } },
    )
}

/// The encoder state after the prologue: the prologue locals, one fresh pack
/// block per function block, no block open, and no value mapped yet.
pub open spec fn init_state(hash: u64, entries0_len: int, f: IrFunction) -> EncSt {
    EncSt {
        decls: prologue_decls(hash, entries0_len, f.stack_slot_sizes@),
        blocks: Seq::new(f.blocks@.len(), |i: int| fresh_block()),
        current: None,
        vmap: Seq::new(f.value_types@.len(), |i: int| 0u32),
    }
}

/// The whole encoding, at specification level: what the type table holds
/// afterwards, and the body produced — or the fault that aborted encoding.
pub open spec fn encode_spec(
    hash: u64,
    entries0: Seq<PackTy>,
    sym: Seq<char>,
    f: IrFunction,
    x: ExtraInfo,
) -> (Seq<PackTy>, Result<BodyV, EncodeError>) {
    let entries1 = entries0 + f.stack_slot_sizes@.map_values(|z: u32| stack_slot_entry(z));
    let st0 = init_state(hash, entries0.len() as int, f);
    match run_blocks(hash, f, x, st0, 0) {
        Err(e) => (entries1, Err(e)),
        Ok(st) => if !(st.current is None) {
            (entries1, Err(EncodeError::BlockLeftOpen))
        } else {
            (
                entries1,
                Ok(
                    BodyV {
                        symbol_name: sym,
                        flags: init_flags(x),
                        trace_inputs_local: None,
                        local_decls: st.decls,
                        blocks: st.blocks,
                    },
                ),
            )
        },
    }
}

/// A value map with no value mapped.
pub fn zero_map(n: usize) -> (r: Vec<u32>)
    ensures
        r@ == Seq::new(n as nat, |i: int| 0u32),
{
    let mut v: Vec<u32> = Vec::new();
    let mut i: usize = 0;
    while i < n
        invariant
            i <= n,
            v@.len() == i,
            forall|k: int| 0 <= k < i ==> v@[k] == 0u32,
        decreases n - i,
    {
        v.push(0);
        i = i + 1;
    }
    proof {
        assert(v@ =~= Seq::new(n as nat, |k: int| 0u32));
    }
    v
}

/// Encodes one function into a [`Body`], against the shared type table:
/// exactly the result of [`encode_spec`] on the function, the context and the
/// table's prior contents.
///
/// On success the body carries the structural guarantees of the pack model:
/// the symbol name and trace flags as given, local 0 the machine-word return
/// slot, the stack-slot locals right after it in declaration order (so every
/// SSA-value local comes after all of them), at least one pack block per
/// function block, and every block finalized — no block is left open, and
/// none keeps the unfinalized default terminator.
#[verifier::loop_isolation(false)]
#[verifier::rlimit(100)]
pub fn encode_sir(
    types: &mut TypeTable,
    symbol_name: &str,
    func: &IrFunction,
    extra: &ExtraInfo,
) -> (r: Result<Body, EncodeError>)
    requires
        crate::ir::wf_func(*func),
        old(types)@.len() + func.stack_slot_sizes@.len() < 0x8000_0000,
    ensures
        final(types).crate_hash == old(types).crate_hash,
        final(types)@ == encode_spec(
            old(types).crate_hash,
            old(types)@,
            symbol_name@,
            *func,
            *extra,
        ).0,
        (match r {
            Ok(body) => encode_spec(
                old(types).crate_hash,
                old(types)@,
                symbol_name@,
                *func,
                *extra,
            ).1 == Ok::<BodyV, EncodeError>(body@),
            Err(e) => encode_spec(
                old(types).crate_hash,
                old(types)@,
                symbol_name@,
                *func,
                *extra,
            ).1 == Err::<BodyV, EncodeError>(e),
        }),
        (r matches Ok(body) ==> {
            &&& body@.symbol_name == symbol_name@
            &&& body@.flags == init_flags(*extra)
            &&& body@.trace_inputs_local is None
            &&& body@.local_decls.len() >= 1 + func.stack_slot_sizes@.len()
            &&& body@.local_decls[0] == LocalDecl {
                ty: TyRef { hash: old(types).crate_hash, index: WORD_TY_INDEX },
            }
            &&& forall|k: int|
                0 <= k < func.stack_slot_sizes@.len() ==> #[trigger] body@.local_decls[1 + k]
                    == LocalDecl {
                    ty: TyRef {
                        hash: old(types).crate_hash,
                        index: (old(types)@.len() + k) as u32,
                    },
                }
            &&& body@.blocks.len() >= func.blocks@.len()
            &&& forall|j: int|
                0 <= j < body@.blocks.len() ==> crate::pack::block_finalized(
                    #[trigger] body@.blocks[j],
                )
        }),
{
    let ghost hash_g = old(types).crate_hash;
    let ghost entries0 = old(types)@;
    let ghost entries1 = entries0 + func.stack_slot_sizes@.map_values(
        |z: u32| stack_slot_entry(z),
    );
    let flags: u8 = if extra.trace_head && extra.trace_tail {
        3
    } else if extra.trace_head {
        1
    } else if extra.trace_tail {
        2
    } else {
        0
    };
    let ret_ty = match pack_ty_for_clif_ty(types, MachineType::I64) {
        Ok(t) => t,
        Err(_) => {
            proof {
                assert(false);
            }
            TyRef { hash: 0, index: 0 }
        },
    };
    let mut body = Body {
        symbol_name: symbol_name.to_owned(),
        flags,
        trace_inputs_local: None,
        local_decls: Vec::new(),
        blocks: Vec::new(),
    };
    body.local_decls.push(LocalDecl { ty: ret_ty });
    let nslots = func.stack_slot_sizes.len();
    let mut si: usize = 0;
    while si < nslots
        invariant
            si <= nslots,
            nslots == func.stack_slot_sizes@.len(),
            types.crate_hash == hash_g,
            types@ == entries0 + func.stack_slot_sizes@.subrange(0, si as int).map_values(
                |z: u32| stack_slot_entry(z),
            ),
            body.local_decls@ == prologue_decls(hash_g, entries0.len() as int, func.stack_slot_sizes@).subrange(0, 1 + si as int),
            body.symbol_name@ == symbol_name@,
            body.flags == flags,
            body.trace_inputs_local is None,
            body.blocks@.len() == 0,
        decreases nslots - si,
    {
        proof {
            assert(entries0.len() + func.stack_slot_sizes@.subrange(0, si as int).map_values(
                |z: u32| stack_slot_entry(z),
            ).len() == entries0.len() + si);
        }
        let tyref = pack_ty_for_stack_slot(types, func.stack_slot_sizes[si]);
        body.local_decls.push(LocalDecl { ty: tyref });
        proof {
            assert(types@ =~= entries0 + func.stack_slot_sizes@.subrange(
                0,
                si as int + 1,
            ).map_values(|z: u32| stack_slot_entry(z)));
            assert(body.local_decls@ =~= prologue_decls(
                hash_g,
                entries0.len() as int,
                func.stack_slot_sizes@,
            ).subrange(0, 1 + si as int + 1));
        }
        si = si + 1;
    }
    proof {
        assert(types@ =~= entries1);
        assert(func.stack_slot_sizes@.subrange(0, nslots as int) =~= func.stack_slot_sizes@);
        assert(body.local_decls@ =~= prologue_decls(
            hash_g,
            entries0.len() as int,
            func.stack_slot_sizes@,
        ));
    }
    let vmap = zero_map(func.value_types.len());
    let mut b = SirBuilder {
        body,
        current_block: None,
        block_map: Vec::new(),
        value_map: vmap,
    };
    let nb = func.blocks.len();
    proof {
        crate::ir::lemma_insts_before_nonneg(*func, nb as int);
    }
    let mut i: usize = 0;
    while i < nb
        invariant
            i <= nb,
            nb == func.blocks@.len(),
            nb < 0x4000_0000,
            b.block_map@.len() == i,
            forall|j: int| 0 <= j < i ==> b.block_map@[j] == j + 1,
            b.body@.blocks.len() == i,
            forall|j: int| 0 <= j < i ==> b.body@.blocks[j] == fresh_block(),
            b.body@.local_decls == prologue_decls(
                hash_g,
                entries0.len() as int,
                func.stack_slot_sizes@,
            ),
            b.body.symbol_name@ == symbol_name@,
            b.body.flags == flags,
            b.body.trace_inputs_local is None,
            b.current_block is None,
            b.value_map@ == Seq::new(func.value_types@.len(), |k: int| 0u32),
        decreases nb - i,
    {
        let idx = b.create_block();
        b.block_map.push(idx + 1);
        i = i + 1;
    }
    let ghost base = 1 + func.stack_slot_sizes@.len() as int;
    let ghost st_init = init_state(hash_g, entries0.len() as int, *func);
    proof {
        assert(st_of(b) =~~= st_init);
        lemma_count_mapped_zeroes(func.value_types@.len());
        crate::ir::lemma_insts_before_nonneg(*func, nb as int);
        assert(st_wf(st_init, *func, 0, nb as int, base));
    }
    let mut i2: usize = 0;
    while i2 < nb
        invariant
            i2 <= nb,
            nb == func.blocks@.len(),
            types.crate_hash == hash_g,
            types@ == entries1,
            b.block_map@.len() == nb,
            forall|j: int| 0 <= j < nb ==> b.block_map@[j] == j + 1,
            st_wf(st_of(b), *func, i2 as int, nb as int, base),
            b.body@.blocks.len() <= nb + crate::ir::insts_before(*func, i2 as int),
            st_of(b).decls.len() >= base,
            st_of(b).decls.subrange(0, base) == st_init.decls,
            b.body.symbol_name@ == symbol_name@,
            b.body.flags == flags,
            b.body.trace_inputs_local is None,
            run_blocks(hash_g, *func, *extra, st_of(b), i2 as int) == run_blocks(
                hash_g,
                *func,
                *extra,
                st_init,
                0,
            ),
        decreases nb - i2,
    {
        let ghost st_top = st_of(b);
        if b.current_block.is_some() {
            proof {
                assert(run_blocks(hash_g, *func, *extra, st_top, i2 as int) == Err::<
                    EncSt,
                    EncodeError,
                >(EncodeError::BlockLeftOpen));
            }
            return Err(EncodeError::BlockLeftOpen);
        }
        b.switch_to_clif_block(i2);
        let ghost st_sw = st_of(b);
        proof {
            assert(st_sw =~~= EncSt { current: Some(i2 as u32), ..st_top });
            assert forall|j: int|
                0 <= j < st_sw.blocks.len() && !(i2 as int + 1 <= j < nb as int)
                    && st_sw.current != Some(j as u32)
                implies crate::pack::block_finalized(#[trigger] st_sw.blocks[j]) by {
                assert(st_sw.blocks[j] == st_top.blocks[j]);
            }
            assert(blocks_inv(st_sw, i2 as int + 1, nb as int));
            assert(st_wf(st_sw, *func, i2 as int + 1, nb as int, base));
            crate::ir::lemma_insts_before_mono(*func, i2 as int + 1, nb as int);
            crate::ir::lemma_insts_before_nonneg(*func, i2 as int);
        }
        match encode_block_insts(
            &mut b,
            types,
            func,
            extra,
            i2,
            Ghost(i2 as int + 1),
            Ghost(nb as int),
            Ghost(base),
        ) {
            Err(e) => {
                proof {
                    assert(run_insts(
                        hash_g,
                        *func,
                        *extra,
                        st_sw,
                        func.blocks@[i2 as int].insts@,
                        0,
                    ) == Err::<EncSt, EncodeError>(e));
                    assert(run_blocks(hash_g, *func, *extra, st_top, i2 as int) == Err::<
                        EncSt,
                        EncodeError,
                    >(e));
                }
                return Err(e);
            },
            Ok(_u) => {},
        }
        proof {
            assert(run_blocks(hash_g, *func, *extra, st_top, i2 as int) == run_blocks(
                hash_g,
                *func,
                *extra,
                st_of(b),
                i2 as int + 1,
            ));
            lemma_subrange_chain(st_init.decls, st_sw.decls, Ok(st_of(b)));
        }
        i2 = i2 + 1;
    }
    if b.current_block.is_some() {
        return Err(EncodeError::BlockLeftOpen);
    }
    let ghost st_end = st_of(b);
    let out = b.finalize();
    proof {
        assert(out@ =~~= BodyV {
            symbol_name: symbol_name@,
            flags: init_flags(*extra),
            trace_inputs_local: None,
            local_decls: st_end.decls,
            blocks: st_end.blocks,
        });
        assert forall|j: int| 0 <= j < out@.blocks.len()
            implies crate::pack::block_finalized(#[trigger] out@.blocks[j]) by {
            assert(st_end.blocks[j] == out@.blocks[j]);
        }
        assert(out@.local_decls[0] == st_init.decls[0]) by {
            assert(st_end.decls.subrange(0, base)[0] == st_end.decls[0]);
        }
        assert forall|k: int| 0 <= k < func.stack_slot_sizes@.len()
            implies #[trigger] out@.local_decls[1 + k] == LocalDecl {
                ty: TyRef { hash: hash_g, index: (entries0.len() + k) as u32 },
            } by {
            assert(st_end.decls.subrange(0, base)[1 + k] == st_end.decls[1 + k]);
            assert(st_init.decls[1 + k] == LocalDecl {
                ty: TyRef { hash: hash_g, index: (entries0.len() + k) as u32 },
            });
        }
    }
    Ok(out)
}


/// Idempotence of local allocation: referencing the same SSA value twice
/// never allocates two different locals. Once the first reference has given
/// the value its local, a second reference — with whatever type the second
/// use carries — returns the same local and changes nothing.
pub proof fn lemma_local_alloc_idempotent(
    hash: u64,
    st: EncSt,
    val: int,
    ty1: MachineType,
    ty2: MachineType,
)
    requires
        0 <= val < st.vmap.len(),
        st.decls.len() + 1 < u32::MAX,
        alloc_spec(hash, st, val, ty1) is Ok,
    ensures
        ({
            let o = alloc_spec(hash, st, val, ty1)->Ok_0;
            alloc_spec(hash, o.0, val, ty2) == Ok::<(EncSt, u32), EncodeError>(o)
        }),
{
    let o = alloc_spec(hash, st, val, ty1)->Ok_0;
    if st.vmap[val] != 0 {
        assert(o.0 == st);
    } else {
        assert(o.0.vmap[val] == o.0.decls.len() as u32);
        assert(o.0.vmap[val] != 0);
    }
}


/// What the copy fold of a jump builds, pair by pair: each pair appends one
/// assignment to the open block, in order, of the argument's local into the
/// parameter's local (the locals read off the final value map), and touches
/// nothing else.
pub proof fn lemma_run_jump_copies_shape(
    hash: u64,
    f: IrFunction,
    st: EncSt,
    params: Seq<u32>,
    args: Seq<u32>,
    k: int,
    n: int,
    c: u32,
)
    requires
        st.current == Some(c),
        c < st.blocks.len(),
        0 <= k <= n,
        n <= params.len(),
        n <= args.len(),
        forall|i: int| k <= i < n ==> params[i] < st.vmap.len(),
        forall|i: int| k <= i < n ==> args[i] < st.vmap.len(),
        vmap_valid(st),
        st.decls.len() as int + 2 * (n - k) < u32::MAX,
        run_jump_copies(hash, f, st, params, args, k, n) is Ok,
    ensures
        ({
            let st2 = run_jump_copies(hash, f, st, params, args, k, n)->Ok_0;
            &&& st2.current == Some(c)
            &&& st2.vmap.len() == st.vmap.len()
            &&& forall|v: int|
                0 <= v < st.vmap.len() && st.vmap[v] != 0 ==> st2.vmap[v] == #[trigger] st.vmap[v]
            &&& st2.blocks.len() == st.blocks.len()
            &&& forall|j: int|
                0 <= j < st.blocks.len() && j != c as int ==> st2.blocks[j]
                    == #[trigger] st.blocks[j]
            &&& st2.blocks[c as int].term == st.blocks[c as int].term
            &&& st2.blocks[c as int].stmts.len() == st.blocks[c as int].stmts.len() + (n - k)
            &&& st2.blocks[c as int].stmts.subrange(
                0,
                st.blocks[c as int].stmts.len() as int,
            ) == st.blocks[c as int].stmts
            &&& forall|i: int|
                k <= i < n ==> st2.vmap[params[i] as int] != 0 && st2.vmap[args[i] as int]
                    != 0
            &&& forall|i: int|
                k <= i < n ==> #[trigger] st2.blocks[c as int].stmts[st.blocks[
                    c as int
                ].stmts.len() + (i - k)] == StmtV::Assign(
                    Place { local: (st2.vmap[params[i] as int] - 1) as u32 },
                    Rvalue::Use(
                        Operand::Place(
                            Place { local: (st2.vmap[args[i] as int] - 1) as u32 },
                        ),
                    ),
                )
        }),
    decreases n - k,
{
    if k >= n {
        assert(st.blocks[c as int].stmts.subrange(
            0,
            st.blocks[c as int].stmts.len() as int,
        ) =~= st.blocks[c as int].stmts);
    } else {
        lemma_alloc_frame(hash, st, params[k] as int, f.value_types@[params[k] as int]);
        match alloc_spec(hash, st, params[k] as int, f.value_types@[params[k] as int]) {
            Err(_) => {},
            Ok(o1) => {
                let (st1, p) = o1;
                lemma_alloc_frame(hash, st1, args[k] as int, f.value_types@[args[k] as int]);
                match alloc_spec(hash, st1, args[k] as int, f.value_types@[args[k] as int]) {
                    Err(_) => {},
                    Ok(o2) => {
                        let (st2a, a) = o2;
                        let stmt = StmtV::Assign(
                            Place { local: p },
                            Rvalue::Use(Operand::Place(Place { local: a })),
                        );
                        let sta = push_stmt(st2a, c, stmt);
                        let slen = st.blocks[c as int].stmts.len() as int;
                        assert(vmap_valid(sta));
                        lemma_run_jump_copies_shape(hash, f, sta, params, args, k + 1, n, c);
                        let stf = run_jump_copies(hash, f, sta, params, args, k + 1, n)->Ok_0;
                        assert(sta.blocks[c as int].stmts.len() == slen + 1);
                        assert(sta.blocks[c as int].stmts[slen] == stmt);
                        assert(stf.blocks[c as int].stmts.subrange(
                            0,
                            sta.blocks[c as int].stmts.len() as int,
                        ) == sta.blocks[c as int].stmts);
                        assert(stf.blocks[c as int].stmts.subrange(0, slen)
                            =~= stf.blocks[c as int].stmts.subrange(
                            0,
                            sta.blocks[c as int].stmts.len() as int,
                        ).subrange(0, slen));
                        assert(sta.blocks[c as int].stmts.subrange(0, slen)
                            =~= st.blocks[c as int].stmts);
                        assert(stf.blocks[c as int].stmts.subrange(0, slen)
                            == st.blocks[c as int].stmts);
                        assert forall|j: int|
                            0 <= j < st.blocks.len() && j != c as int
                            implies stf.blocks[j] == #[trigger] st.blocks[j] by {
                            assert(sta.blocks[j] == st.blocks[j]);
                            assert(stf.blocks[j] == sta.blocks[j]);
                        }
                        assert forall|v: int|
                            0 <= v < st.vmap.len() && st.vmap[v] != 0
                            implies stf.vmap[v] == #[trigger] st.vmap[v] by {
                            assert(st1.vmap[v] == st.vmap[v]);
                            assert(st2a.vmap[v] == st1.vmap[v]);
                            assert(sta.vmap[v] == st2a.vmap[v]);
                            assert(stf.vmap[v] == sta.vmap[v]);
                        }
                        assert(sta.vmap[params[k] as int] == p + 1);
                        assert(sta.vmap[args[k] as int] == a + 1);
                        assert(stf.vmap[params[k] as int] == p + 1);
                        assert(stf.vmap[args[k] as int] == a + 1);
                        assert forall|i: int|
                            k <= i < n
                            implies stf.vmap[params[i] as int] != 0 && stf.vmap[
                            args[i] as int
                        ] != 0 by {
                            if i > k {
                                assert(stf.vmap[params[i] as int] != 0);
                            }
                        }
                        assert(stf.blocks[c as int].stmts[slen + (k - k)] == stmt) by {
                            assert(stf.blocks[c as int].stmts.subrange(
                                0,
                                sta.blocks[c as int].stmts.len() as int,
                            )[slen] == sta.blocks[c as int].stmts[slen]);
                        }
                        assert forall|i: int|
                            k <= i < n
                            implies #[trigger] stf.blocks[c as int].stmts[slen + (i - k)]
                                == StmtV::Assign(
                                Place { local: (stf.vmap[params[i] as int] - 1) as u32 },
                                Rvalue::Use(
                                    Operand::Place(
                                        Place {
                                            local: (stf.vmap[args[i] as int] - 1) as u32,
                                        },
                                    ),
                                ),
                            ) by {
                            if i == k {
                                assert(stf.blocks[c as int].stmts[slen + (i - k)] == stmt);
                                assert((stf.vmap[params[k] as int] - 1) as u32 == p);
                                assert((stf.vmap[args[k] as int] - 1) as u32 == a);
                            } else {
                                assert(slen + (i - k) == sta.blocks[c as int].stmts.len()
                                    + (i - (k + 1)));
                                assert(stf.blocks[c as int].stmts[sta.blocks[
                                    c as int
                                ].stmts.len() + (i - (k + 1))] == StmtV::Assign(
                                    Place {
                                        local: (stf.vmap[params[i] as int] - 1) as u32,
                                    },
                                    Rvalue::Use(
                                        Operand::Place(
                                            Place {
                                                local: (stf.vmap[args[i] as int]
                                                    - 1) as u32,
                                            },
                                        ),
                                    ),
                                ));
                            }
                        }
                    },
                }
            },
        }
    }
}

/// Block-parameter elimination: for a jump from the open block B to a block
/// with parameters p1..pn, passing arguments a1..an, the encoded pack gains
/// exactly n assignments (pi := ai) — through the locals of those values, in
/// parameter order — immediately before the goto terminator that finalizes
/// B; no other block changes, and the goto names the destination's pack
/// block.
pub proof fn lemma_jump_eliminates_block_params(
    hash: u64,
    f: IrFunction,
    st: EncSt,
    destination: u32,
    args: Seq<u32>,
    c: u32,
)
    requires
        st.current == Some(c),
        c < st.blocks.len(),
        destination < f.blocks@.len(),
        f.blocks@[destination as int].params@.len() == args.len(),
        forall|i: int|
            0 <= i < args.len() ==> #[trigger] f.blocks@[destination as int].params@[i]
                < st.vmap.len(),
        forall|i: int| 0 <= i < args.len() ==> args[i] < st.vmap.len(),
        vmap_valid(st),
        st.decls.len() as int + 2 * args.len() < u32::MAX,
        step_jump(hash, f, st, destination, args) is Ok,
    ensures
        ({
            let params = f.blocks@[destination as int].params@;
            let n = params.len() as int;
            let o = step_jump(hash, f, st, destination, args)->Ok_0;
            let st2 = o.0;
            &&& st2.blocks.len() == st.blocks.len()
            &&& st2.blocks[c as int].stmts.len() == st.blocks[c as int].stmts.len() + n
            &&& st2.blocks[c as int].stmts.subrange(
                0,
                st.blocks[c as int].stmts.len() as int,
            ) == st.blocks[c as int].stmts
            &&& forall|i: int|
                0 <= i < n ==> #[trigger] st2.blocks[c as int].stmts[st.blocks[
                    c as int
                ].stmts.len() + i] == StmtV::Assign(
                    Place { local: (st2.vmap[params[i] as int] - 1) as u32 },
                    Rvalue::Use(
                        Operand::Place(
                            Place { local: (st2.vmap[args[i] as int] - 1) as u32 },
                        ),
                    ),
                )
            &&& forall|i: int|
                0 <= i < n ==> st2.vmap[params[i] as int] != 0 && st2.vmap[args[i] as int]
                    != 0
            &&& st2.blocks[c as int].term == TermV::Goto { target: destination }
            &&& st2.current is None
            &&& forall|j: int|
                0 <= j < st.blocks.len() && j != c as int ==> st2.blocks[j]
                    == #[trigger] st.blocks[j]
            &&& o.1 == false
        }),
{
    let params = f.blocks@[destination as int].params@;
    let n = pair_count(params.len() as int, args.len() as int);
    assert(n == params.len());
    lemma_run_jump_copies_shape(hash, f, st, params, args, 0, n, c);
    let st1 = run_jump_copies(hash, f, st, params, args, 0, n)->Ok_0;
    let st2 = finish_block(st1, c, TermV::Goto { target: destination });
    let slen = st.blocks[c as int].stmts.len() as int;
    assert(st2.blocks[c as int].stmts == st1.blocks[c as int].stmts);
    assert(st2.vmap == st1.vmap);
    assert forall|j: int| 0 <= j < st.blocks.len() && j != c as int
        implies st2.blocks[j] == #[trigger] st.blocks[j] by {
        assert(st2.blocks[j] == st1.blocks[j]);
    }
    assert forall|i: int| 0 <= i < n
        implies #[trigger] st2.blocks[c as int].stmts[slen + i] == StmtV::Assign(
            Place { local: (st2.vmap[params[i] as int] - 1) as u32 },
            Rvalue::Use(
                Operand::Place(Place { local: (st2.vmap[args[i] as int] - 1) as u32 }),
            ),
        ) by {
        assert(st1.blocks[c as int].stmts[slen + (i - 0)] == StmtV::Assign(
            Place { local: (st1.vmap[params[i] as int] - 1) as u32 },
            Rvalue::Use(
                Operand::Place(Place { local: (st1.vmap[args[i] as int] - 1) as u32 }),
            ),
        ));
    }
    assert(st2.blocks[c as int].stmts.subrange(0, slen) == st.blocks[c as int].stmts);
}

} // verus!

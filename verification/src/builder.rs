//! The body builder: pack blocks are created up front, then opened, filled
//! and finalized one at a time.
//!
//! The open/closed discipline is the builder's central invariant: at most one
//! block is open at a time, a block is opened only while no other is open and
//! only while it is still fresh, statements are appended only to the open
//! block, and assigning a terminator finalizes the block exactly once. Each
//! operation states its part of that discipline as a precondition.

use vstd::prelude::*;

use crate::pack::{BasicBlock, Body, Statement, Terminator};

verus! {

/// Builds one [`Body`], block by block.
///
/// `block_map` maps a function block (by layout position) to its pack block
/// index plus one, zero meaning "not registered"; `value_map` maps an SSA
/// value to its local index plus one, zero meaning "no local allocated yet".
pub struct SirBuilder {
    pub body: Body,
    pub current_block: Option<u32>,
    pub block_map: Vec<u32>,
    pub value_map: Vec<u32>,
}

impl SirBuilder {
    /// Appends a fresh block (no statements, not yet finalized) and returns
    /// its index.
    pub fn create_block(&mut self) -> (r: u32)
        requires
            old(self).body.blocks@.len() < u32::MAX as usize,
        ensures
            r == old(self).body@.blocks.len(),
            final(self).body@.blocks == old(self).body@.blocks.push(crate::pack::fresh_block()),
            final(self).body@.local_decls == old(self).body@.local_decls,
            final(self).body.symbol_name == old(self).body.symbol_name,
            final(self).body.flags == old(self).body.flags,
            final(self).body.trace_inputs_local == old(self).body.trace_inputs_local,
            final(self).current_block == old(self).current_block,
            final(self).block_map == old(self).block_map,
            final(self).value_map == old(self).value_map,
    {
        let idx = self.body.blocks.len() as u32;
        self.body.blocks.push(BasicBlock { stmts: Vec::new(), term: Terminator::Unreachable });
        proof {
            assert(self.body@.blocks =~~= old(self).body@.blocks.push(crate::pack::fresh_block()));
        }
        idx
    }

    /// Opens the registered pack block of function block `block`: no block
    /// may be open, and the target must still be fresh.
    pub fn switch_to_clif_block(&mut self, block: usize)
        requires
            old(self).current_block is None,
            block < old(self).block_map@.len(),
            old(self).block_map@[block as int] != 0,
            old(self).block_map@[block as int] - 1 < old(self).body@.blocks.len(),
            old(self).body@.blocks[old(self).block_map@[block as int] - 1].term
                is Unreachable,
            old(self).body@.blocks[old(self).block_map@[block as int] - 1].stmts.len() == 0,
        ensures
            (*final(self) == SirBuilder {
                current_block: Some((old(self).block_map@[block as int] - 1) as u32),
                ..*old(self)
            }),
    {
        let i = self.block_map[block];
        self.current_block = Some(i - 1);
    }

    /// Opens pack block `block` directly: no block may be open, and the
    /// target must still be fresh.
    pub fn switch_to_block(&mut self, block: u32)
        requires
            old(self).current_block is None,
            block < old(self).body@.blocks.len(),
            old(self).body@.blocks[block as int].term is Unreachable,
            old(self).body@.blocks[block as int].stmts.len() == 0,
        ensures
            (*final(self) == SirBuilder { current_block: Some(block), ..*old(self) }),
    {
        self.current_block = Some(block);
    }

    /// The pack block registered for function block `block`.
    pub fn bb_for_block(&self, block: usize) -> (r: u32)
        requires
            block < self.block_map@.len(),
            self.block_map@[block as int] != 0,
        ensures
            r == self.block_map@[block as int] - 1,
    {
        let i = self.block_map[block];
        i - 1
    }

    /// Appends a statement to the open block.
    pub fn add_stmt(&mut self, stmt: Statement)
        requires
            old(self).current_block matches Some(c) && c < old(self).body@.blocks.len(),
        ensures
            ({
                let c = old(self).current_block->Some_0 as int;
                &&& final(self).body@.blocks =~= old(self).body@.blocks.update(
                    c,
                    crate::pack::BlockV {
                        stmts: old(self).body@.blocks[c].stmts.push(stmt@),
                        term: old(self).body@.blocks[c].term,
                    },
                )
                &&& final(self).body@.local_decls == old(self).body@.local_decls
                &&& final(self).body.symbol_name == old(self).body.symbol_name
                &&& final(self).body.flags == old(self).body.flags
                &&& final(self).body.trace_inputs_local == old(self).body.trace_inputs_local
                &&& final(self).current_block == old(self).current_block
                &&& final(self).block_map == old(self).block_map
                &&& final(self).value_map == old(self).value_map
            }),
    {
        let c = self.current_block.unwrap();
        let blk = &mut self.body.blocks[c as usize];
        blk.stmts.push(stmt);
        proof {
            assert(self.body@.blocks =~~= old(self).body@.blocks.update(
                c as int,
                crate::pack::BlockV {
                    stmts: old(self).body@.blocks[c as int].stmts.push(stmt@),
                    term: old(self).body@.blocks[c as int].term,
                },
            ));
        }
    }

    /// Finalizes the open block by assigning its terminator; afterwards no
    /// block is open.
    pub fn terminate_block(&mut self, term: Terminator)
        requires
            old(self).current_block matches Some(c) && c < old(self).body@.blocks.len(),
        ensures
            ({
                let c = old(self).current_block->Some_0 as int;
                &&& final(self).body@.blocks =~= old(self).body@.blocks.update(
                    c,
                    crate::pack::BlockV { stmts: old(self).body@.blocks[c].stmts, term: term@ },
                )
                &&& final(self).body@.local_decls == old(self).body@.local_decls
                &&& final(self).body.symbol_name == old(self).body.symbol_name
                &&& final(self).body.flags == old(self).body.flags
                &&& final(self).body.trace_inputs_local == old(self).body.trace_inputs_local
                &&& final(self).current_block is None
                &&& final(self).block_map == old(self).block_map
                &&& final(self).value_map == old(self).value_map
            }),
    {
        let c = self.current_block.unwrap();
        let blk = &mut self.body.blocks[c as usize];
        blk.term = term;
        self.current_block = None;
        proof {
            assert(self.body@.blocks =~~= old(self).body@.blocks.update(
                c as int,
                crate::pack::BlockV { stmts: old(self).body@.blocks[c as int].stmts, term: term@ },
            ));
        }
    }

    /// Hands the finished body out. Encoding a function must end with no
    /// block open; asking for the body earlier is a fault.
    pub fn finalize(self) -> (r: Body)
        requires
            self.current_block is None,
        ensures
            r == self.body,
    {
        self.body
    }
}

} // verus!

//! A code-generation-time pipeline for a trace-recording runtime.
//!
//! Two decoupled passes operate over one compiled function at a time:
//!
//! - the wide-integer legalizer decides, for each binary operation on a
//!   double-width (128-bit) integer, whether the target backend can lower it
//!   natively or whether it must be rewritten into a call to a fixed-name
//!   runtime routine (see [`legalize`]);
//! - the pack encoder walks the basic blocks of an intermediate-representation
//!   function in layout order and emits an isomorphic, simplified, serializable
//!   "body" built from an ordered table of typed locals and an ordered list of
//!   basic blocks (see [`encode`]).
//!
//! The intermediate representation itself is an external input; [`ir`] holds
//! the plain-value model of exactly those parts of it that the two passes
//! read. [`pack`] holds the output data model and the shared type table, and
//! [`builder`] the block-at-a-time body builder with its open-block state
//! machine.

pub mod builder;
pub mod encode;
pub mod ir;
pub mod legalize;
pub mod pack;

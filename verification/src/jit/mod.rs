//! The block compiler: which guest code it takes, what it makes of it, and when.

pub mod access;
pub mod arith;
pub mod block;
pub mod block_laws;
pub mod carry;
pub mod chain;
pub mod compile;
pub mod cond;
pub mod context;
pub mod dispatch;
pub mod dispatch_laws;
pub mod fast_api;
pub mod flags;
pub mod float_laws;
pub mod imul;
pub mod ir;
pub mod ir_laws;
pub mod keeps;
pub mod laws;
pub mod liveness;
pub mod lower;
pub mod moves;
pub mod pending;
pub mod shift_flags;
pub mod shifts;
pub mod state;
pub mod strings;
pub mod thunk;
pub mod tlb;
pub mod unary;
pub mod vector;
pub mod vector_laws;
pub mod vector_ops;

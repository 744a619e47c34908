//! Portable microkernel layer of a tensor-computation engine.
//!
//! The library defines the architecture-neutral contract for matrix-multiply
//! tile kernels: panel storage descriptors for operand and output tiles, the
//! fused post-processing pipeline that runs on the accumulator before it is
//! written back, the bit-exact quantization rounding it requires, and the
//! capability-based selection of a kernel implementation.

pub mod arith;
pub mod conformance;
pub mod dispatch;
pub mod fuse;
pub mod kernel;
pub mod quant;
pub mod storage;

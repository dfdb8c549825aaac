//! Lowering to three-address code, and instruction selection, allocation and legalization.
pub mod asm_gen;
pub mod tacky_gen;

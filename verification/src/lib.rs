//! A parser and tape virtual machine for a minimal, tape-based esoteric
//! programming language and its Extended Type I variant.
//!
//! The [`instructions`] module turns source text into a validated,
//! jump-resolved instruction sequence; the [`interpreter`] module executes
//! such a sequence against a fixed-size byte tape with a single storage
//! register, wrap-around pointer arithmetic and wrap-around byte arithmetic.

pub mod instructions;
pub mod interpreter;

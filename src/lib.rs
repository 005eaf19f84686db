//! A polynomial commitment toolkit with data availability sampling over the
//! binary field GF(2^128): byte embedding into multilinear extensions,
//! Reed-Solomon encoding by an additive NTT, decoding, erasure reconstruction
//! and evaluation claims.

pub mod field;
pub mod poly;
pub mod lagrange;
pub mod frivail;
pub mod ntt;
pub mod code;
pub mod eval;
pub mod merkle;

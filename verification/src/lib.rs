//! Weight quantization for HipFire: tensor naming and precision rules, block
//! layouts of the quantized formats, and the `.hfq` container.
//!
//! Floating-point values are held by their IEEE-754 bit patterns throughout:
//! an `f32` is a `u32`, an `f16` or `bf16` is a `u16`.
pub mod text;
pub mod decimal;
pub mod names;
pub mod kmap;
pub mod spelling;
pub mod ieee;
pub mod bytes;
pub mod minifloat;
pub mod dequant;
pub mod pack;
pub mod blocks;
pub mod q4;
pub mod hfp4;
pub mod q8hfq;
pub mod q1_0;
pub mod order;
pub mod lloyd;
pub mod fwht;
pub mod hfq;
pub mod formats;
pub mod recipe;
pub mod plan;
pub mod gguf;
pub mod config;
pub mod catalog;
pub mod safetensors;
pub mod resolve;
pub mod imatrix;

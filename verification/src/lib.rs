//! A CHIP-8 machine whose behaviour is specified and proved with Verus.
//!
//! - [`memops`]: the memory layout, addresses, and big-endian reads and
//!   writes of the 4 KiB memory;
//! - [`bytes`]: fixed-width byte encodings of integers and byte arrays;
//! - [`opcode`]: the instructions and their decoding;
//! - [`chip8`]: the machine, its instructions' semantics, timers and keys;
//! - [`instruction_laws`]: what each instruction does to the registers
//!   and memory, stated byte by byte;
//! - [`laws`]: properties that relate several operations of the machine;
//! - [`clargs`], [`options`], [`keys`], [`timing`], [`display`]: the pieces
//!   of the command-line front end that decide or compute.

pub mod bytes;
pub mod chip8;
pub mod clargs;
pub mod display;
pub mod keys;
pub mod instruction_laws;
pub mod laws;
pub mod memops;
pub mod opcode;
pub mod options;
pub mod timing;

//! Support for AyPio's UK2 engine ("SOSAR SYSTEM") as used by the PC-98
//! release of Sorcer Kingdom: resource formats, the MES bytecode, and the
//! deterministic state of the engine.
#![allow(unused_imports)]

pub mod color;
pub mod config;
pub mod disasm;
pub mod dlb;
pub mod engine;
pub mod game;
pub mod vm;
pub mod map;
pub mod mes;
pub mod music;
pub mod opcode;
pub mod pdt;
pub mod probe;
pub mod script;
pub mod sjis;
pub mod value;

pub use mes::{MesProgram, MesReader, MES_CODE_OFFSET};

//! A portable, register-based bytecode tape and incremental graphs of it.
//!
//! The tape has a container format, an assembler, a disassembler, a verifier and an interpreter.
//! A graph runs tapes and native functions as nodes, and runs again only what is affected by a
//! change. Every operation is proved against its contract.

pub mod wire;
pub mod history;
pub mod host;
pub mod pack;
pub mod program;
pub mod sort;
pub mod text;
pub mod container;
pub mod decode;
pub mod roundtrip;
pub mod opcode;
pub mod bytecode;
pub mod value;
pub mod assembler;
pub mod aggregates;
pub mod ieee;
pub mod typing;
pub mod verify;
pub mod faults;
pub mod effects;
pub mod digits;
pub mod builder;
pub mod trap;
pub mod trace;
pub mod tracing;
pub mod eval;
pub mod machine;
pub mod vm;
pub mod limits;
pub mod alike;
pub mod disasm;
pub mod listing;
pub mod names;
pub mod access;
pub mod dirty;
pub mod keys;
pub mod report;
pub mod plan;
pub mod graph_model;
pub mod strict;
pub mod incremental;
pub mod graph;
pub mod dot;
pub mod soundness;
pub mod messages;
pub mod meaning;
pub mod floats;
pub mod strings;
pub mod flow;
pub mod admission;
pub mod signatures;
pub mod naming;
pub mod reading;
pub mod encoding;
pub mod marking;
pub mod wiring;
pub mod rendering;
pub mod rejection;
pub mod building;
pub mod layout;
pub mod telling;

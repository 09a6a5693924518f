//! A verified execution bridge for compiled macro modules.
//!
//! The bridge loads an untrusted binary module, runs its exported entry
//! points inside a sandboxed, non-JIT bytecode interpreter, and marshals
//! position-annotated token streams across the host/guest boundary as flat
//! byte buffers.  Every component — the binary module parser, the linear
//! memory manager, the interpreter, the host function table, the token
//! marshaling codec, the dispatch layer and the per-blob module cache — is
//! verified: its behaviour is pinned by `requires`/`ensures` contracts.

pub mod bytes;
pub mod token;
pub mod codec;
pub mod module;
pub mod parse;
pub mod memory;
pub mod interp;
pub mod dispatch;
pub mod facade;

//! Verified core of the WASI bindings for the fulgur HTML-to-PDF engine.
//!
//! The host (wazero, wasmtime, ...) talks to the module over a small C ABI:
//! it reserves regions of the memory shared with the module (`memory`) and
//! reads the message of the last failed call (`error`). Engines, their
//! handles, their options and the builder calls a render makes are in
//! `engine` and `options`.
use vstd::prelude::*;

pub mod engine;
pub mod error;
pub mod memory;
pub mod options;

verus! {

/// Version of the ABI; it changes with any breaking change to the exports.
pub fn fulgur_wasi_abi_version() -> (v: u32)
    ensures
        v == 1,
{
    1
}

} // verus!

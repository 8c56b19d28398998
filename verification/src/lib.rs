//! A lightweight kernel that orchestrates independent logical modules,
//! mediates inter-module communication through a capability-checked
//! message bus, executes untrusted code in an isolated sandbox, monitors
//! host resource consumption, and appends every security-relevant action
//! to an append-only audit trail.

use vstd::prelude::*;

pub mod analyzer;
pub mod embed;
pub mod ipc;
pub mod kernel;
pub mod permissions;
pub mod resources;
pub mod security;
pub mod text;
pub mod tokenizer;
pub mod wasm_runtime;

verus! {

/// Version of the kernel library.
pub fn version() -> (r: &'static str)
    ensures
        r@ == "0.1.0"@,
{
    "0.1.0"
}

/// Name of the kernel library.
pub fn app_name() -> (r: &'static str)
    ensures
        r@ == "kiacha_kernel"@,
{
    "kiacha_kernel"
}

} // verus!

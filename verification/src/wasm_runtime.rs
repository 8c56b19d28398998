//! Isolated execution of untrusted code units. A code unit is compiled and
//! instantiated in an environment with no ambient host authority: no
//! filesystem, network, or process access is linked in. Faults inside the
//! sandbox are caught and reported as structured errors; they never escape
//! as a process-level fault.

use vstd::prelude::*;
use vstd::string::StringExecFns;
use crate::text::{spec_i32_decimal, i32_to_decimal};

verus! {

/// The wasmtime compilation engine, opaque to the verifier.
#[verifier::external_type_specification]
#[verifier::external_body]
pub struct ExEngine(wasmtime::Engine);

/// A compiled wasmtime module, opaque to the verifier.
#[verifier::external_type_specification]
#[verifier::external_body]
pub struct ExModule(wasmtime::Module);

/// A wasmtime store, the unit of instance state, opaque to the verifier.
#[verifier::external_type_specification]
#[verifier::external_body]
#[verifier::reject_recursive_types(T)]
pub struct ExStore<T: 'static>(wasmtime::Store<T>);

/// A wasmtime linker; one with no definitions grants an instance no host
/// capability at all. Opaque to the verifier.
#[verifier::external_type_specification]
#[verifier::external_body]
#[verifier::reject_recursive_types(T)]
pub struct ExLinker<T>(wasmtime::Linker<T>);

/// An instantiated wasmtime module, opaque to the verifier.
#[verifier::external_type_specification]
#[verifier::external_body]
pub struct ExInstance(wasmtime::Instance);

/// A typed handle to an exported wasm function, opaque to the verifier.
#[verifier::external_type_specification]
#[verifier::external_body]
#[verifier::reject_recursive_types(Params)]
#[verifier::reject_recursive_types(Results)]
pub struct ExTypedFunc<Params, Results>(wasmtime::TypedFunc<Params, Results>);

/// The wasmtime error type, opaque to the verifier.
#[verifier::external_type_specification]
#[verifier::external_body]
pub struct ExWasmtimeError(wasmtime::Error);

/// Relies on wasmtime::Engine::default: a fresh engine with the default
/// configuration.
#[verifier::external_body]
fn engine_new() -> (r: wasmtime::Engine)
{
    wasmtime::Engine::default()
}

/// Relies on wasmtime::Module::new: validates and compiles the given bytes;
/// an error reports rejected input, never a fault of the host.
#[verifier::external_body]
fn module_compile(engine: &wasmtime::Engine, bytes: &[u8]) -> (r: Result<
    wasmtime::Module,
    wasmtime::Error,
>)
{
    wasmtime::Module::new(engine, bytes)
}

/// Relies on wasmtime::Store::new: a fresh store carrying no host data.
#[verifier::external_body]
fn store_new(engine: &wasmtime::Engine) -> (r: wasmtime::Store<()>)
{
    wasmtime::Store::new(engine, ())
}

/// Relies on wasmtime::Linker::new: a linker with no definitions, so the
/// instance is handed no host capability.
#[verifier::external_body]
fn linker_new(engine: &wasmtime::Engine) -> (r: wasmtime::Linker<()>)
{
    wasmtime::Linker::new(engine)
}

/// Relies on wasmtime::Linker::instantiate: instantiates the module inside
/// the store; an error reports unresolved imports or a start-function trap.
#[verifier::external_body]
fn linker_instantiate(
    linker: &wasmtime::Linker<()>,
    store: &mut wasmtime::Store<()>,
    module: &wasmtime::Module,
) -> (r: Result<wasmtime::Instance, wasmtime::Error>)
{
    linker.instantiate(&mut *store, module)
}

/// Relies on wasmtime::Instance::get_typed_func: the export named `run`
/// taking nothing and returning one 32-bit integer, or an error when no
/// export matches that name and type.
#[verifier::external_body]
fn instance_get_run(instance: &wasmtime::Instance, store: &mut wasmtime::Store<()>) -> (r: Result<
    wasmtime::TypedFunc<(), i32>,
    wasmtime::Error,
>)
{
    instance.get_typed_func::<(), i32>(&mut *store, "run")
}

/// Relies on wasmtime::TypedFunc::call: runs the function to completion on
/// the calling task; a trap inside the sandbox is caught and returned as an
/// error, never propagated as a panic.
#[verifier::external_body]
fn func_call_run(f: &wasmtime::TypedFunc<(), i32>, store: &mut wasmtime::Store<()>) -> (r: Result<
    i32,
    wasmtime::Error,
>)
{
    f.call(&mut *store, ())
}

/// Relies on the Display rendering of wasmtime::Error via ToString: the
/// reported reason as text. Nothing is promised of the wording.
#[verifier::external_body]
fn error_text(e: &wasmtime::Error) -> (r: String)
{
    e.to_string()
}

/// A structured sandbox failure: the code unit was rejected by the
/// compiler, or it faulted while running. Either way the kernel carries on.
pub enum SandboxError {
    /// The supplied bytes are not a valid code unit.
    Compile { reason: String },
    /// The code unit faulted while being instantiated or run.
    Trap { reason: String },
}

/// The success text when the code unit's entry point returned `n`.
pub open spec fn run_result_text(n: int) -> Seq<char> {
    "WASM result: "@ + spec_i32_decimal(n)
}

/// The success text when the code unit has no entry point to invoke.
pub open spec fn no_result_text() -> Seq<char> {
    "WASM executed without explicit result"@
}

/// Renders the scalar the sandboxed entry point returned as the success
/// text; exact for every value.
pub fn render_run_result(value: i32) -> (r: String)
    ensures
        r@ == run_result_text(value as int),
{
    let prefix = String::from_str("WASM result: ");
    let digits = i32_to_decimal(value);
    prefix.concat(digits.as_str())
}

/// Compiles and executes isolated code units with no ambient host
/// authority.
pub struct WasmRuntime {
    engine: wasmtime::Engine,
}

impl WasmRuntime {
    /// A runtime with a default-configured engine.
    pub fn new() -> (r: WasmRuntime)
    {
        WasmRuntime { engine: engine_new() }
    }

    /// Compiles `wasm_data` and runs it in isolation. When the unit exports
    /// a `run` entry point taking nothing and returning a 32-bit integer,
    /// the result is that value rendered as the success text; when no such
    /// export exists, a generic success text. Invalid bytes are reported as
    /// a compile error, faults during instantiation or execution as a trap
    /// error; the caller's process is never harmed. The arguments are
    /// accepted for interface compatibility and not handed to the unit.
    pub fn execute(&self, wasm_data: &[u8], args: Vec<String>) -> (r: Result<String, SandboxError>)
        ensures
            r matches Ok(s) ==> s@ == no_result_text() || (exists|n: int|
                s@ == #[trigger] run_result_text(n) && i32::MIN <= n <= i32::MAX),
    {
        let _ = args;
        let module = match module_compile(&self.engine, wasm_data) {
            Ok(m) => m,
            Err(e) => {
                return Err(SandboxError::Compile { reason: error_text(&e) });
            },
        };
        let mut store = store_new(&self.engine);
        let linker = linker_new(&self.engine);
        let instance = match linker_instantiate(&linker, &mut store, &module) {
            Ok(i) => i,
            Err(e) => {
                return Err(SandboxError::Trap { reason: error_text(&e) });
            },
        };
        match instance_get_run(&instance, &mut store) {
            Ok(run) => match func_call_run(&run, &mut store) {
                Ok(value) => {
                    let text = render_run_result(value);
                    proof {
                        assert(text@ == run_result_text(value as int));
                        assert(i32::MIN <= value as int <= i32::MAX);
                    }
                    Ok(text)
                },
                Err(e) => Err(SandboxError::Trap { reason: error_text(&e) }),
            },
            Err(_absent) => Ok(String::from_str("WASM executed without explicit result")),
        }
    }
}

} // verus!

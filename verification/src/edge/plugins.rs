//! WebAssembly policy plugins.
//!
//! # ABI version 1
//!
//! A plugin is a core WebAssembly module that
//! * has **no imports** (no WASI or host functions, hence no file, environment or
//!   network access),
//! * exports `memory`,
//! * exports `sievetube_abi_version() -> i32` returning `1`,
//! * exports `sievetube_alloc(len: i32) -> i32` returning a pointer to `len` writable bytes,
//! * exports `sievetube_evaluate(ptr: i32, len: i32) -> i32`.
//!
//! For each request the Edge writes the request context as UTF-8 JSON
//! `{"tenant_id","hostname","protocol","client_ip","method","path"}` into memory
//! obtained from `sievetube_alloc` and calls `sievetube_evaluate`, which returns
//! `0` (allow) or `1` (deny). The output is this single code, so its size is fixed.
//!
//! Every call runs in a fresh store with a memory limit, a fuel budget and a
//! wall-clock deadline. A trap, exhausted fuel, a timeout, exceeding the memory
//! limit or any other return value fails the request (503) without affecting the
//! Edge, other plugins' state or the built-in rules evaluated before plugins.

use tokio::sync::{Semaphore, SemaphorePermit};
use vstd::prelude::*;
use vstd::string::*;
use vstd::utf8::*;
use wasmtime::{Engine, Instance, Module, Store, StoreLimits};
use crate::addr;
use crate::addr::{format_ip, IpAddr};
use crate::concurrent;
use crate::concurrent::new_semaphore;
use crate::config;
use crate::config::Protocol;
use crate::digest;
use crate::digest::sha256_hex;
use crate::edge::config::PluginConfig;
use crate::hostname;
use crate::hostname::{matches_pattern, normalize_hostname_pattern};
use crate::json;
use crate::json::write_json_string;
use crate::text;
use crate::text::{holds_text, lower, same_text, signed_text, trim};

verus! {

pub const ABI_VERSION: i32 = 1;

/// How many bytes of a request context a plugin is given at most.
pub const MAX_INPUT_BYTES: usize = 16384;

#[verifier::external_type_specification]
#[verifier::external_body]
pub struct ExEngine(Engine);

#[verifier::external_type_specification]
#[verifier::external_body]
pub struct ExModule(Module);

#[verifier::external_type_specification]
#[verifier::external_body]
pub struct ExInstance(Instance);

#[verifier::external_type_specification]
#[verifier::external_body]
pub struct ExStoreLimits(StoreLimits);

#[verifier::external_type_specification]
#[verifier::external_body]
#[verifier::reject_recursive_types(T)]
pub struct ExStore<T: 'static>(Store<T>);

#[verifier::external_type_specification]
#[verifier::external_body]
pub struct ExWasmError(wasmtime::Error);

#[verifier::external_type_specification]
#[verifier::external_body]
pub struct ExSemaphorePermit<'a>(SemaphorePermit<'a>);

/// The bytes that a module was compiled from.
pub uninterp spec fn code(module: Module) -> Seq<u8>;

/// What a module imports: the module and the name of each import, in order.
pub uninterp spec fn imports(module: Module) -> Seq<(Seq<char>, Seq<char>)>;

/// The names that a module exports.
pub uninterp spec fn exports(module: Module) -> Set<Seq<char>>;

/// What an engine was made with: whether it meters fuel, whether it interrupts by
/// epochs, and the size of its stack.
pub uninterp spec fn settings(engine: Engine) -> (bool, bool, usize);

/// The bounds that a store was made with.
pub uninterp spec fn bounds(store: Store<StoreLimits>) -> SandboxLimits;

/// The module that an instance is of.
pub uninterp spec fn module_of(instance: Instance) -> Module;

/// What a sandbox holds in a memory that it exports.
pub uninterp spec fn memory(sandbox: Sandbox, export: Seq<char>) -> Seq<u8>;

/// Whether a call of an exported function can give an answer and leave a sandbox
/// behind.
pub uninterp spec fn answers(
    before: Sandbox,
    export: Seq<char>,
    args: Seq<i32>,
    answer: i32,
    after: Sandbox,
) -> bool;

/// `wasmtime::Module::new`: compiles the bytes, or says what is wrong with them.
#[verifier::external_body]
fn compile(engine: &Engine, bytes: &[u8]) -> (r: Result<Module, String>)
    ensures
        match r {
            Ok(m) => code(m) == bytes@,
            Err(_) => true,
        },
{
    Module::new(engine, bytes).map_err(|e| e.to_string())
}

/// `Module::clone`: another handle of the same module.
#[verifier::external_body]
fn share(module: &Module) -> (r: Module)
    ensures
        r == *module,
{
    module.clone()
}

/// `Module::imports`, its first item: the first import, by module and name.
#[verifier::external_body]
fn first_import(module: &Module) -> (r: Option<(String, String)>)
    ensures
        match r {
            Some(i) => imports(*module).len() > 0 && imports(*module)[0] == (i.0@, i.1@),
            None => imports(*module).len() == 0,
        },
{
    module.imports().next().map(|i| (i.module().to_owned(), i.name().to_owned()))
}

/// `Module::get_export`: whether something is exported under a name.
#[verifier::external_body]
fn has_export(module: &Module, name: &str) -> (r: bool)
    ensures
        r == exports(*module).contains(name@),
{
    module.get_export(name).is_some()
}

/// What an error is, as far as it is a trap.
#[derive(Debug, Clone, Copy, PartialEq, Eq, Structural)]
pub enum TrapKind {
    OutOfFuel,
    Interrupt,
    OtherTrap,
    NoTrap,
}

/// What an error is, as far as it is a trap.
pub uninterp spec fn trap_kind(e: wasmtime::Error) -> TrapKind;

/// The text of an error, with those of its causes.
pub uninterp spec fn error_chain(e: wasmtime::Error) -> Seq<char>;

/// `wasmtime::Error::downcast_ref` to a `Trap`: what an error is, as far as it is
/// one.
#[verifier::external_body]
fn trap_of(e: &wasmtime::Error) -> (r: TrapKind)
    ensures
        r == trap_kind(*e),
{
    match e.downcast_ref::<wasmtime::Trap>() {
        Some(wasmtime::Trap::OutOfFuel) => TrapKind::OutOfFuel,
        Some(wasmtime::Trap::Interrupt) => TrapKind::Interrupt,
        Some(_) => TrapKind::OtherTrap,
        None => TrapKind::NoTrap,
    }
}

/// `wasmtime::Error`, written in its alternate form: the text of an error with
/// those of its causes.
#[verifier::external_body]
fn chain_of(e: &wasmtime::Error) -> (r: String)
    ensures
        r@ == error_chain(*e),
{
    format!("{e:#}")
}

/// `wasmtime::Engine::new`, for a configuration with or without fuel and epochs
/// and with a stack of this size. Nothing is said of when an engine can be had: it
/// depends on the machine.
#[verifier::external_body]
fn build_engine(fuel: bool, epochs: bool, stack: usize) -> (r: Result<Engine, wasmtime::Error>)
    ensures
        r is Ok ==> settings(r->Ok_0) == (fuel, epochs, stack),
{
    let mut config = wasmtime::Config::new();
    config.consume_fuel(fuel).epoch_interruption(epochs).max_wasm_stack(stack);
    Engine::new(&config)
}

/// The bounds of one call.
#[derive(Debug, Clone, Copy)]
pub struct SandboxLimits {
    pub memory_bytes: usize,
    pub instances: usize,
    pub memories: usize,
    pub tables: usize,
    pub table_elements: usize,
    /// Whether memory that cannot be had ends the call
    pub trap_on_grow_failure: bool,
    pub fuel: u64,
    /// How many epochs a call may last
    pub ticks: u64,
}

/// `wasmtime::Store::new` with its limits, fuel and deadline: a store for one
/// call. The deadline is counted from the engine's epoch, so it must leave room
/// for that. Nothing is said of when a store can be had: it depends on the engine.
#[verifier::external_body]
fn open_store(engine: &Engine, limits: SandboxLimits) -> (r: Result<
    Store<StoreLimits>,
    wasmtime::Error,
>)
    requires
        limits.ticks <= u64::MAX / 2,
    ensures
        r is Ok ==> bounds(r->Ok_0) == limits,
{
    let bounds = wasmtime::StoreLimitsBuilder::new().memory_size(limits.memory_bytes).instances(
        limits.instances,
    ).memories(limits.memories).tables(limits.tables).table_elements(
        limits.table_elements,
    ).trap_on_grow_failure(limits.trap_on_grow_failure).build();
    let mut store = Store::new(engine, bounds);
    store.limiter(|bounds| bounds);
    store.set_fuel(limits.fuel)?;
    store.set_epoch_deadline(limits.ticks);
    store.epoch_deadline_trap();
    Ok(store)
}

/// A module at work: an instance and the store that owns it.
pub struct Sandbox {
    store: Store<StoreLimits>,
    instance: Instance,
}

impl Sandbox {
    /// The bounds that hold for the sandbox.
    pub closed spec fn bounds(self) -> SandboxLimits {
        bounds(self.store)
    }

    /// The module that runs in the sandbox.
    pub closed spec fn module(self) -> Module {
        module_of(self.instance)
    }
}

/// `wasmtime::Instance::new` without imports: an instance of the module in the
/// store. Nothing is said of when it can be had: that depends on fuel, time and
/// memory.
#[verifier::external_body]
fn instantiate(mut store: Store<StoreLimits>, module: &Module) -> (r: Result<
    Sandbox,
    wasmtime::Error,
>)
    ensures
        match r {
            Ok(sandbox) => bounds(sandbox.store) == bounds(store) && module_of(sandbox.instance)
                == *module,
            Err(_) => true,
        },
{
    let instance = Instance::new(&mut store, module, &[])?;
    Ok(Sandbox { store, instance })
}

/// `Instance::get_memory`: whether a memory is exported under a name. It stays
/// the same instance, with the same bounds.
#[verifier::external_body]
fn find_memory(sandbox: &mut Sandbox, name: &str) -> (r: bool)
    ensures
        final(sandbox).bounds() == old(sandbox).bounds(),
        final(sandbox).module() == old(sandbox).module(),
{
    sandbox.instance.get_memory(&mut sandbox.store, name).is_some()
}

/// `Instance::get_typed_func`: whether a function with one parameter is exported
/// under a name. It stays the same instance, with the same bounds.
#[verifier::external_body]
fn find_with_one(sandbox: &mut Sandbox, name: &str) -> (r: Result<(), wasmtime::Error>)
    ensures
        final(sandbox).bounds() == old(sandbox).bounds(),
        final(sandbox).module() == old(sandbox).module(),
{
    sandbox.instance.get_typed_func::<i32, i32>(&mut sandbox.store, name).map(|_| ())
}

/// `Instance::get_typed_func`: whether a function with two parameters is exported
/// under a name. It stays the same instance, with the same bounds.
#[verifier::external_body]
fn find_with_two(sandbox: &mut Sandbox, name: &str) -> (r: Result<(), wasmtime::Error>)
    ensures
        final(sandbox).bounds() == old(sandbox).bounds(),
        final(sandbox).module() == old(sandbox).module(),
{
    sandbox.instance.get_typed_func::<(i32, i32), i32>(&mut sandbox.store, name).map(|_| ())
}

/// `Instance::get_typed_func` and `TypedFunc::call`, for a function without
/// parameters. What is answered depends on fuel, time and memory, so nothing is
/// said but that it is an answer to this call.
#[verifier::external_body]
fn call_plain(sandbox: &mut Sandbox, name: &str) -> (r: Result<i32, wasmtime::Error>)
    ensures
        r is Ok ==> answers(*old(sandbox), name@, Seq::empty(), r->Ok_0, *final(sandbox)),
{
    let f = sandbox.instance.get_typed_func::<(), i32>(&mut sandbox.store, name)?;
    f.call(&mut sandbox.store, ())
}

/// `Instance::get_typed_func` and `TypedFunc::call`, for a function with one
/// parameter. What is answered depends on fuel, time and memory, so nothing is
/// said but that it is an answer to this call.
#[verifier::external_body]
fn call_with_one(sandbox: &mut Sandbox, name: &str, a: i32) -> (r: Result<i32, wasmtime::Error>)
    ensures
        r is Ok ==> answers(*old(sandbox), name@, seq![a], r->Ok_0, *final(sandbox)),
{
    let f = sandbox.instance.get_typed_func::<i32, i32>(&mut sandbox.store, name)?;
    f.call(&mut sandbox.store, a)
}

/// `Instance::get_typed_func` and `TypedFunc::call`, for a function with two
/// parameters. What is answered depends on fuel, time and memory, so nothing is
/// said but that it is an answer to this call.
#[verifier::external_body]
fn call_with_two(sandbox: &mut Sandbox, name: &str, a: i32, b: i32) -> (r: Result<
    i32,
    wasmtime::Error,
>)
    ensures
        r is Ok ==> answers(*old(sandbox), name@, seq![a, b], r->Ok_0, *final(sandbox)),
{
    let f = sandbox.instance.get_typed_func::<(i32, i32), i32>(&mut sandbox.store, name)?;
    f.call(&mut sandbox.store, (a, b))
}

/// Whether bytes are in place after they were written over others.
pub open spec fn overwritten(
    before: Seq<u8>,
    at: int,
    bytes: Seq<u8>,
    after: Seq<u8>,
) -> bool {
    &&& at + bytes.len() <= before.len()
    &&& after == before.take(at) + bytes + before.skip(at + bytes.len())
}

/// `Instance::get_memory` and `Memory::write`: copies bytes into an exported
/// memory, where it has room for them at that place; `None` where there is no such
/// memory.
#[verifier::external_body]
fn write_memory(sandbox: &mut Sandbox, name: &str, at: usize, bytes: &[u8]) -> (r: Option<
    Result<(), wasmtime::Error>,
>)
    ensures
        r is Some && r->0 is Ok ==> overwritten(
            memory(*old(sandbox), name@),
            at as int,
            bytes@,
            memory(*final(sandbox), name@),
        ),
{
    let memory = sandbox.instance.get_memory(&mut sandbox.store, name)?;
    Some(memory.write(&mut sandbox.store, at, bytes).map_err(wasmtime::Error::from))
}

/// `tokio::sync::Semaphore::try_acquire`: a permit, if one is free. Nothing is said
/// of what comes back: it depends on the other calls that are running.
#[verifier::external_body]
fn free_permit<'a>(permits: &'a Semaphore) -> (r: Option<SemaphorePermit<'a>>) {
    permits.try_acquire().ok()
}

#[derive(Debug, Clone, Copy, PartialEq, Eq, Structural)]
pub enum PluginFailure {
    Trap,
    OutOfFuel,
    Timeout,
    MemoryLimit,
    InvalidOutput,
    Busy,
    InputTooLarge,
}

impl PluginFailure {
    pub fn as_str(self) -> (r: &'static str)
        ensures
            r@ == failure_name(self),
    {
        match self {
            PluginFailure::Trap => "trap",
            PluginFailure::OutOfFuel => "out_of_fuel",
            PluginFailure::Timeout => "timeout",
            PluginFailure::MemoryLimit => "memory_limit",
            PluginFailure::InvalidOutput => "invalid_output",
            PluginFailure::Busy => "busy",
            PluginFailure::InputTooLarge => "input_too_large",
        }
    }
}

/// The name of a failure.
pub open spec fn failure_name(f: PluginFailure) -> Seq<char> {
    match f {
        PluginFailure::Trap => "trap"@,
        PluginFailure::OutOfFuel => "out_of_fuel"@,
        PluginFailure::Timeout => "timeout"@,
        PluginFailure::MemoryLimit => "memory_limit"@,
        PluginFailure::InvalidOutput => "invalid_output"@,
        PluginFailure::Busy => "busy"@,
        PluginFailure::InputTooLarge => "input_too_large"@,
    }
}

/// Which failure an error is.
pub open spec fn failure_of(kind: TrapKind, chain: Seq<char>) -> PluginFailure {
    let t = text::ascii_lower(chain);
    match kind {
        TrapKind::OutOfFuel => PluginFailure::OutOfFuel,
        TrapKind::Interrupt => PluginFailure::Timeout,
        TrapKind::OtherTrap => PluginFailure::Trap,
        TrapKind::NoTrap => if text::holds(t, "memory"@) && (text::holds(t, "grow"@)
            || text::holds(t, "limit"@) || text::holds(t, "exceed"@)) {
            PluginFailure::MemoryLimit
        } else {
            PluginFailure::Trap
        },
    }
}

/// Which failure an error is, from what it is as a trap and from its text.
pub fn classify_text(kind: TrapKind, chain: &str) -> (r: PluginFailure)
    ensures
        r == failure_of(kind, chain@),
{
    match kind {
        TrapKind::OutOfFuel => PluginFailure::OutOfFuel,
        TrapKind::Interrupt => PluginFailure::Timeout,
        TrapKind::OtherTrap => PluginFailure::Trap,
        TrapKind::NoTrap => {
            let t: String = lower(chain);
            if holds_text(t.as_str(), "memory") && (holds_text(t.as_str(), "grow") || holds_text(
                t.as_str(),
                "limit",
            ) || holds_text(t.as_str(), "exceed")) {
                PluginFailure::MemoryLimit
            } else {
                PluginFailure::Trap
            }
        },
    }
}

/// Which failure an error is.
pub fn classify(error: &wasmtime::Error) -> (r: PluginFailure)
    ensures
        r == failure_of(trap_kind(*error), error_chain(*error)),
{
    let kind: TrapKind = trap_of(error);
    let chain: String = chain_of(error);
    classify_text(kind, chain.as_str())
}

/// Which failure it is that a plugin exports no memory.
fn without_memory() -> (r: PluginFailure)
    ensures
        r == failure_of(TrapKind::NoTrap, "missing memory export"@),
{
    classify_text(TrapKind::NoTrap, "missing memory export")
}

/// An engine with fuel metering and epoch interruption. Its epoch has to be
/// advanced every millisecond to enforce the deadlines of calls.
pub fn engine() -> (r: Result<Engine, String>)
    ensures
        match r {
            Ok(engine) => settings(engine) == (true, true, 262_144usize),
            Err(e) => text::starts_with(e@, "wasmtime engine configuration: "@),
        },
{
    match build_engine(true, true, 262_144) {
        Ok(engine) => Ok(engine),
        Err(e) => {
            let prefix: String = "wasmtime engine configuration: ".to_owned();
            let ghost p = prefix@;
            let r: String = prefix.concat(chain_of(&e).as_str());
            assert(r@.take(p.len() as int) =~= p);
            Err(r)
        },
    }
}

#[derive(Debug, PartialEq, Eq)]
pub enum PluginVerdict {
    Allow,
    Deny { plugin: String },
    Failed { plugin: String, failure: PluginFailure },
}

/// A [`PluginVerdict`] by its values.
pub enum VerdictView {
    Allow,
    Deny { plugin: Seq<char> },
    Failed { plugin: Seq<char>, failure: PluginFailure },
}

impl View for PluginVerdict {
    type V = VerdictView;

    open spec fn view(&self) -> VerdictView {
        match *self {
            PluginVerdict::Allow => VerdictView::Allow,
            PluginVerdict::Deny { plugin } => VerdictView::Deny { plugin: plugin@ },
            PluginVerdict::Failed { plugin, failure } => VerdictView::Failed {
                plugin: plugin@,
                failure,
            },
        }
    }
}

/// What a plugin objects to a request, by what its call gave.
pub open spec fn objection(
    plugin: Seq<char>,
    outcome: Result<i32, PluginFailure>,
) -> Option<VerdictView> {
    match outcome {
        Ok(0) => None,
        Ok(1) => Some(VerdictView::Deny { plugin }),
        Ok(_) => Some(VerdictView::Failed { plugin, failure: PluginFailure::InvalidOutput }),
        Err(failure) => Some(VerdictView::Failed { plugin, failure }),
    }
}

/// What a plugin objects to a request, by what its call gave.
pub fn judge(plugin: &str, outcome: Result<i32, PluginFailure>) -> (r: Option<PluginVerdict>)
    ensures
        (match r {
            Some(v) => Some(v@),
            None => None,
        }) == objection(plugin@, outcome),
{
    match outcome {
        Ok(code) => {
            if code == 0 {
                None
            } else if code == 1 {
                Some(PluginVerdict::Deny { plugin: plugin.to_owned() })
            } else {
                Some(
                    PluginVerdict::Failed {
                        plugin: plugin.to_owned(),
                        failure: PluginFailure::InvalidOutput,
                    },
                )
            }
        },
        Err(failure) => Some(PluginVerdict::Failed { plugin: plugin.to_owned(), failure }),
    }
}

/// A request as plugins see it.
#[derive(Debug)]
pub struct RequestContext<'a> {
    pub tenant_id: &'a str,
    pub hostname: &'a str,
    pub protocol: Protocol,
    pub client_ip: IpAddr,
    pub method: &'a str,
    pub path: &'a str,
}

/// A request context as JSON.
pub open spec fn context_json(ctx: RequestContext) -> Seq<char> {
    "{\"tenant_id\":"@ + json::json_string(ctx.tenant_id@) + ",\"hostname\":"@ + json::json_string(
        ctx.hostname@,
    ) + ",\"protocol\":"@ + json::json_string(config::protocol_name(ctx.protocol))
        + ",\"client_ip\":"@ + json::json_string(addr::ip_text(ctx.client_ip)) + ",\"method\":"@
        + json::json_string(ctx.method@) + ",\"path\":"@ + json::json_string(ctx.path@) + "}"@
}

fn write_context(ctx: &RequestContext) -> (r: String)
    ensures
        r@ == context_json(*ctx),
{
    let mut out: String = "{\"tenant_id\":".to_owned();
    out.append(write_json_string(ctx.tenant_id).as_str());
    out.append(",\"hostname\":");
    out.append(write_json_string(ctx.hostname).as_str());
    out.append(",\"protocol\":");
    out.append(write_json_string(ctx.protocol.as_str()).as_str());
    out.append(",\"client_ip\":");
    out.append(write_json_string(format_ip(ctx.client_ip).as_str()).as_str());
    out.append(",\"method\":");
    out.append(write_json_string(ctx.method).as_str());
    out.append(",\"path\":");
    out.append(write_json_string(ctx.path).as_str());
    out.append("}");
    out
}

/// A request context serialized for the plugins it applies to, so that the
/// modules can be run away from the async runtime.
#[derive(Debug)]
pub struct PluginJob {
    pub hostname: String,
    pub input: Vec<u8>,
}

/// Compiled modules keyed by SHA-256, so that switching back to a previous
/// configuration does not recompile.
pub struct ModuleCache {
    digests: Vec<String>,
    modules: Vec<Module>,
}

impl ModuleCache {
    /// The digests of the modules, in the order in which they were compiled.
    pub closed spec fn digests(self) -> Seq<Seq<char>> {
        text::views(self.digests@)
    }

    pub closed spec fn modules(self) -> Seq<Module> {
        self.modules@
    }

    /// Each module is kept under the digest of its bytes, and none twice.
    pub open spec fn wf(self) -> bool {
        &&& self.digests().len() == self.modules().len()
        &&& forall|i: int|
            0 <= i < self.modules().len() ==> self.digests()[i] == digest::hex(
                digest::sha256(code(#[trigger] self.modules()[i])),
            )
        &&& self.digests().no_duplicates()
    }

    pub fn new() -> (r: Self)
        ensures
            r.wf(),
            r.modules().len() == 0,
    {
        let r: ModuleCache = ModuleCache { digests: Vec::new(), modules: Vec::new() };
        assert(r.digests() =~= Seq::<Seq<char>>::empty());
        r
    }

    /// How many modules are kept.
    pub fn len(&self) -> (r: usize)
        ensures
            r == self.modules().len(),
    {
        self.modules.len()
    }

    /// The module with these bytes; it is compiled only where none with the same
    /// digest was.
    pub fn get_or_compile(&mut self, engine: &Engine, digest: &str, bytes: &[u8]) -> (r: Result<
        Module,
        String,
    >)
        requires
            old(self).wf(),
            digest@ == digest::hex(digest::sha256(bytes@)),
        ensures
            final(self).wf(),
            match r {
                Ok(m) => digest::hex(digest::sha256(code(m))) == digest@,
                Err(e) => text::starts_with(e@, "invalid WebAssembly module: "@),
            },
            old(self).digests().contains(digest@) ==> r is Ok && old(self).modules().contains(
                r->Ok_0,
            ),
            if r is Ok && !old(self).digests().contains(digest@) {
                &&& final(self).digests() == old(self).digests().push(digest@)
                &&& final(self).modules() == old(self).modules().push(r->Ok_0)
            } else {
                &&& final(self).digests() == old(self).digests()
                &&& final(self).modules() == old(self).modules()
            },
    {
        let ghost all = self.digests();
        let mut i: usize = 0;
        while i < self.digests.len()
            invariant
                i <= self.digests.len(),
                all == self.digests(),
                self.wf(),
                *self == *old(self),
                forall|j: int| 0 <= j < i ==> #[trigger] all[j] != digest@,
            decreases self.digests.len() - i,
        {
            if same_text(self.digests[i].as_str(), digest) {
                assert(all[i as int] == digest@);
                let ghost m = self.modules()[i as int];
                assert(self.modules().contains(m));
                return Ok(share(&self.modules[i]));
            }
            i += 1;
        }
        assert(!all.contains(digest@));
        match compile(engine, bytes) {
            Ok(module) => {
                let ghost before = *self;
                self.digests.push(digest.to_owned());
                self.modules.push(share(&module));
                proof {
                    assert(self.digests() =~= all.push(digest@));
                    assert(self.modules() =~= before.modules().push(module));
                    assert forall|k: int| 0 <= k < self.modules().len() implies self.digests()[k]
                        == digest::hex(digest::sha256(code(#[trigger] self.modules()[k]))) by {
                        if k < before.modules().len() {
                            assert(self.modules()[k] == before.modules()[k]);
                            assert(self.digests()[k] == before.digests()[k]);
                        }
                    }
                }
                Ok(module)
            },
            Err(e) => {
                let prefix: String = "invalid WebAssembly module: ".to_owned();
                let ghost p = prefix@;
                let r: String = prefix.concat(e.as_str());
                assert(r@.take(p.len() as int) =~= p);
                Err(r)
            },
        }
    }
}

/// A plugin that can be called.
pub struct LoadedPlugin {
    pub name: String,
    pub module: Module,
    pub applies_to: Vec<String>,
    pub max_memory_bytes: usize,
    pub fuel: u64,
    pub timeout_ticks: u64,
    pub permits: Semaphore,
}

/// The bounds of a call with so much memory and fuel and so many epochs.
pub open spec fn call_limits(memory_bytes: usize, fuel: u64, ticks: u64) -> SandboxLimits {
    SandboxLimits {
        memory_bytes,
        instances: 1,
        memories: 1,
        tables: 4,
        table_elements: 10_000,
        trap_on_grow_failure: true,
        fuel,
        ticks,
    }
}

/// Whether a module, within bounds, can say that it has a version of the ABI.
pub open spec fn reports(module: Module, limits: SandboxLimits, version: i32) -> bool {
    exists|fresh: Sandbox, done: Sandbox|
        fresh.module() == module && fresh.bounds() == limits && #[trigger] answers(
            fresh,
            "sievetube_abi_version"@,
            Seq::empty(),
            version,
            done,
        )
}

/// Whether a plugin applies to a hostname.
pub open spec fn concerns(patterns: Seq<Seq<char>>, hostname: Seq<char>) -> bool {
    patterns.len() == 0 || exists|i: int|
        0 <= i < patterns.len() && hostname::covers(#[trigger] patterns[i], hostname)
}

impl LoadedPlugin {
    /// Whether the plugin applies to a hostname.
    pub open spec fn applicable(self, hostname: Seq<char>) -> bool {
        concerns(text::views(self.applies_to@), hostname)
    }

    pub fn applies(&self, hostname: &str) -> (r: bool)
        ensures
            r == self.applicable(hostname@),
    {
        let ghost patterns = text::views(self.applies_to@);
        if self.applies_to.len() == 0 {
            return true;
        }
        let mut i: usize = 0;
        while i < self.applies_to.len()
            invariant
                i <= self.applies_to.len() == patterns.len(),
                patterns == text::views(self.applies_to@),
                forall|j: int| 0 <= j < i ==> !hostname::covers(#[trigger] patterns[j], hostname@),
            decreases self.applies_to.len() - i,
        {
            if matches_pattern(self.applies_to[i].as_str(), hostname) {
                assert(hostname::covers(patterns[i as int], hostname@));
                return true;
            }
            i += 1;
        }
        false
    }

    /// The bounds of a call of the plugin.
    pub open spec fn limits(self) -> SandboxLimits {
        call_limits(self.max_memory_bytes, self.fuel, self.timeout_ticks)
    }

    /// Whether a sandbox runs the plugin's module within its bounds.
    pub open spec fn runs_in(self, sandbox: Sandbox) -> bool {
        sandbox.module() == self.module && sandbox.bounds() == self.limits()
    }

    /// Whether the plugin can say that it has a version of the ABI.
    pub open spec fn can_report(self, version: i32) -> bool {
        reports(self.module, self.limits(), version)
    }

    /// Whether a call goes through these sandboxes: in a fresh one the plugin is asked
    /// for room for the input, the input is written there, and the plugin is asked to
    /// evaluate what is written there.
    pub open spec fn call_runs(
        self,
        input: Seq<u8>,
        code: i32,
        fresh: Sandbox,
        ptr: i32,
        roomy: Sandbox,
        filled: Sandbox,
        done: Sandbox,
    ) -> bool {
        let len = input.len() as i32;
        &&& self.runs_in(fresh)
        &&& answers(fresh, "sievetube_alloc"@, seq![len], ptr, roomy)
        &&& overwritten(
            memory(roomy, "memory"@),
            (ptr as u32) as int,
            input,
            memory(filled, "memory"@),
        )
        &&& answers(filled, "sievetube_evaluate"@, seq![ptr, len], code, done)
    }

    /// Whether the plugin can answer an input with a code.
    pub open spec fn can_answer(self, input: Seq<u8>, code: i32) -> bool {
        exists|fresh: Sandbox, ptr: i32, roomy: Sandbox, filled: Sandbox, done: Sandbox|
            #[trigger] self.call_runs(input, code, fresh, ptr, roomy, filled, done)
    }

    /// A fresh instance with this plugin's limits.
    fn enter(&self, engine: &Engine) -> (r: Result<Sandbox, PluginFailure>)
        requires
            self.timeout_ticks <= u64::MAX / 2,
        ensures
            r is Ok ==> self.runs_in(r->Ok_0),
            r is Err ==> of_call(r->Err_0),
    {
        let limits: SandboxLimits = SandboxLimits {
            memory_bytes: self.max_memory_bytes,
            instances: 1,
            memories: 1,
            tables: 4,
            table_elements: 10_000,
            trap_on_grow_failure: true,
            fuel: self.fuel,
            ticks: self.timeout_ticks,
        };
        let store: Store<StoreLimits> = match open_store(engine, limits) {
            Ok(store) => store,
            Err(_) => {
                return Err(PluginFailure::Trap);
            },
        };
        match instantiate(store, &self.module) {
            Ok(sandbox) => Ok(sandbox),
            Err(e) => Err(classify(&e)),
        }
    }

    /// The version of the ABI that the plugin says it has.
    fn abi_version(&self, engine: &Engine) -> (r: Result<i32, PluginFailure>)
        requires
            self.timeout_ticks <= u64::MAX / 2,
        ensures
            r is Ok ==> self.can_report(r->Ok_0),
            r is Err ==> r->Err_0 is Busy || of_call(r->Err_0),
    {
        let permit: Option<SemaphorePermit> = free_permit(&self.permits);
        if permit.is_none() {
            return Err(PluginFailure::Busy);
        }
        let mut sandbox: Sandbox = match self.enter(engine) {
            Ok(sandbox) => sandbox,
            Err(failure) => {
                return Err(failure);
            },
        };
        let ghost fresh = sandbox;
        match call_plain(&mut sandbox, "sievetube_abi_version") {
            Ok(version) => {
                assert(answers(
                    fresh,
                    "sievetube_abi_version"@,
                    Seq::empty(),
                    version,
                    sandbox,
                ));
                Ok(version)
            },
            Err(e) => Err(classify(&e)),
        }
    }

    /// What the plugin makes of a serialized request. Whatever comes back of the
    /// call, an input that is too long is not handed to the plugin.
    pub fn evaluate(&self, engine: &Engine, input: &[u8]) -> (r: Result<i32, PluginFailure>)
        requires
            self.timeout_ticks <= u64::MAX / 2,
        ensures
            possible(*self, r, input@),
    {
        if input.len() > MAX_INPUT_BYTES {
            return Err(PluginFailure::InputTooLarge);
        }
        let permit: Option<SemaphorePermit> = free_permit(&self.permits);
        if permit.is_none() {
            return Err(PluginFailure::Busy);
        }
        let mut sandbox: Sandbox = match self.enter(engine) {
            Ok(sandbox) => sandbox,
            Err(failure) => {
                return Err(failure);
            },
        };
        if !find_memory(&mut sandbox, "memory") {
            return Err(without_memory());
        }
        if let Err(e) = find_with_one(&mut sandbox, "sievetube_alloc") {
            return Err(classify(&e));
        }
        if let Err(e) = find_with_two(&mut sandbox, "sievetube_evaluate") {
            return Err(classify(&e));
        }
        let ghost fresh = sandbox;
        let len: i32 = input.len() as i32;
        let ptr: i32 = match call_with_one(&mut sandbox, "sievetube_alloc", len) {
            Ok(ptr) => ptr,
            Err(e) => {
                return Err(classify(&e));
            },
        };
        let ghost roomy = sandbox;
        #[verifier::truncate]
        let at: u32 = ptr as u32;
        match write_memory(&mut sandbox, "memory", at as usize, input) {
            Some(Ok(_)) => {},
            Some(Err(e)) => {
                return Err(classify(&e));
            },
            None => {
                return Err(without_memory());
            },
        }
        let ghost filled = sandbox;
        match call_with_two(&mut sandbox, "sievetube_evaluate", ptr, len) {
            Ok(code) => {
                assert(self.call_runs(input@, code, fresh, ptr, roomy, filled, sandbox));
                Ok(code)
            },
            Err(e) => Err(classify(&e)),
        }
    }
}

/// Whether a failure is one that a call can end in.
pub open spec fn of_call(failure: PluginFailure) -> bool {
    failure is Trap || failure is OutOfFuel || failure is Timeout || failure is MemoryLimit
}

/// What a call of a plugin with an input can give: an answer of the plugin to that
/// input, or a failure. An input that is too long is not handed to it.
pub open spec fn possible(
    plugin: LoadedPlugin,
    outcome: Result<i32, PluginFailure>,
    input: Seq<u8>,
) -> bool {
    match outcome {
        Ok(code) => input.len() <= MAX_INPUT_BYTES && plugin.can_answer(input, code),
        Err(PluginFailure::InputTooLarge) => input.len() > MAX_INPUT_BYTES,
        Err(failure) => input.len() <= MAX_INPUT_BYTES && (failure is Busy || of_call(failure)),
    }
}

/// The verdict of plugins on a request, by what the calls of those that apply to
/// its hostname gave: the first objection decides.
pub open spec fn verdict_of(
    plugins: Seq<LoadedPlugin>,
    hostname: Seq<char>,
    outcomes: Seq<Result<i32, PluginFailure>>,
) -> VerdictView
    decreases plugins.len(),
{
    if plugins.len() == 0 {
        VerdictView::Allow
    } else if plugins[0].applicable(hostname) && objection(plugins[0].name@, outcomes[0]) is Some {
        objection(plugins[0].name@, outcomes[0])->0
    } else {
        verdict_of(plugins.skip(1), hostname, outcomes.skip(1))
    }
}

/// Whether a plugin lets a request pass.
pub open spec fn passes(
    plugin: LoadedPlugin,
    hostname: Seq<char>,
    outcome: Result<i32, PluginFailure>,
) -> bool {
    plugin.applicable(hostname) ==> objection(plugin.name@, outcome) is None
}

/// A request passes only where every plugin that applies to it lets it pass; else
/// the first that does not decides.
pub proof fn law_first_objection_decides(
    plugins: Seq<LoadedPlugin>,
    hostname: Seq<char>,
    outcomes: Seq<Result<i32, PluginFailure>>,
    n: int,
)
    requires
        outcomes.len() == plugins.len(),
        0 <= n <= plugins.len(),
        forall|k: int| 0 <= k < n ==> passes(#[trigger] plugins[k], hostname, outcomes[k]),
        n < plugins.len() ==> !passes(plugins[n], hostname, outcomes[n]),
    ensures
        verdict_of(plugins, hostname, outcomes) == (if n == plugins.len() {
            VerdictView::Allow
        } else {
            objection(plugins[n].name@, outcomes[n])->0
        }),
    decreases plugins.len(),
{
    if plugins.len() > 0 && n > 0 {
        let rest = plugins.skip(1);
        let more = outcomes.skip(1);
        assert(passes(plugins[0], hostname, outcomes[0]));
        assert forall|k: int| 0 <= k < n - 1 implies passes(#[trigger] rest[k], hostname, more[k]) by {
            assert(rest[k] == plugins[k + 1]);
            assert(passes(plugins[k + 1], hostname, outcomes[k + 1]));
        }
        law_first_objection_decides(rest, hostname, more, n - 1);
    }
}

/// Whether a verdict is one that calls with an input can lead to.
pub open spec fn reachable(
    verdict: VerdictView,
    plugins: Seq<LoadedPlugin>,
    hostname: Seq<char>,
    input: Seq<u8>,
) -> bool {
    exists|outcomes: Seq<Result<i32, PluginFailure>>|
        {
            &&& outcomes.len() == plugins.len()
            &&& forall|k: int|
                0 <= k < outcomes.len() ==> possible(plugins[k], #[trigger] outcomes[k], input)
            &&& verdict == #[trigger] verdict_of(plugins, hostname, outcomes)
        }
}

/// The plugins of one policy configuration, evaluated in order.
pub struct PluginSet {
    pub plugins: Vec<LoadedPlugin>,
}

/// Whether any plugin applies to a hostname.
pub open spec fn any_applies(plugins: Seq<LoadedPlugin>, hostname: Seq<char>) -> bool {
    exists|i: int| 0 <= i < plugins.len() && (#[trigger] plugins[i]).applicable(hostname)
}

impl PluginSet {
    /// Whether the deadlines of all plugins can be set.
    pub open spec fn wf(self) -> bool {
        forall|i: int|
            0 <= i < self.plugins@.len() ==> (#[trigger] self.plugins@[i]).timeout_ticks <= u64::MAX
                / 2
    }

    /// Serialize the request for the plugins that apply to it, or `None` when no
    /// plugin does. Cheap, so it can run on the caller's thread.
    pub fn prepare(&self, ctx: &RequestContext) -> (r: Option<PluginJob>)
        ensures
            (r is Some) == any_applies(self.plugins@, ctx.hostname@),
            r is Some ==> r->0.hostname@ == ctx.hostname@ && r->0.input@ == encode_utf8(
                context_json(*ctx),
            ),
    {
        let mut i: usize = 0;
        while i < self.plugins.len()
            invariant
                i <= self.plugins.len(),
                forall|j: int|
                    0 <= j < i ==> !(#[trigger] self.plugins@[j]).applicable(ctx.hostname@),
            decreases self.plugins.len() - i,
        {
            if self.plugins[i].applies(ctx.hostname) {
                let json: String = write_context(ctx);
                let mut input: Vec<u8> = Vec::new();
                input.extend_from_slice(json.as_str().as_bytes());
                assert(input@ =~= encode_utf8(context_json(*ctx)));
                return Some(PluginJob { hostname: ctx.hostname.to_owned(), input });
            }
            i += 1;
        }
        None
    }

    /// Run the applicable plugins. Every call is CPU work with a wall-clock
    /// deadline, so an async caller has to run this on a blocking thread.
    pub fn evaluate_prepared(&self, engine: &Engine, job: &PluginJob) -> (r: PluginVerdict)
        requires
            self.wf(),
        ensures
            reachable(r@, self.plugins@, job.hostname@, job.input@),
    {
        let ghost host = job.hostname@;
        let ghost all = self.plugins@;
        let ghost mut outcomes: Seq<Result<i32, PluginFailure>> = Seq::empty();
        let ghost filler = Err::<i32, PluginFailure>(
            if job.input@.len() > MAX_INPUT_BYTES {
                PluginFailure::InputTooLarge
            } else {
                PluginFailure::Busy
            },
        );
        let mut i: usize = 0;
        while i < self.plugins.len()
            invariant
                i <= self.plugins.len(),
                all == self.plugins@,
                host == job.hostname@,
                self.wf(),
                outcomes.len() == i,
                forall|k: int|
                    0 <= k < i ==> possible(all[k], #[trigger] outcomes[k], job.input@),
                forall|k: int| 0 <= k < i ==> passes(#[trigger] all[k], host, outcomes[k]),
            decreases self.plugins.len() - i,
        {
            let plugin: &LoadedPlugin = &self.plugins[i];
            assert(*plugin == all[i as int]);
            if plugin.applies(job.hostname.as_str()) {
                let outcome: Result<i32, PluginFailure> = plugin.evaluate(
                    engine,
                    job.input.as_slice(),
                );
                let ghost before = outcomes;
                proof {
                    outcomes = outcomes.push(outcome);
                }
                if let Some(verdict) = judge(plugin.name.as_str(), outcome) {
                    proof {
                        let full = outcomes + Seq::new(
                            (all.len() - i - 1) as nat,
                            |k: int| filler,
                        );
                        assert forall|k: int| 0 <= k < full.len() implies possible(
                            all[k],
                            #[trigger] full[k],
                            job.input@,
                        ) by {
                            if k < i {
                                assert(full[k] == before[k]);
                            } else if k == i {
                                assert(full[k] == outcome);
                            } else {
                                assert(full[k] == filler);
                            }
                        }
                        assert forall|k: int| 0 <= k < i implies passes(
                            #[trigger] all[k],
                            host,
                            full[k],
                        ) by {
                            assert(full[k] == before[k]);
                        }
                        assert(full[i as int] == outcome);
                        law_first_objection_decides(all, host, full, i as int);
                        assert(verdict@ == verdict_of(all, host, full));
                    }
                    return verdict;
                }
            } else {
                proof {
                    outcomes = outcomes.push(filler);
                }
            }
            i += 1;
        }
        proof {
            law_first_objection_decides(all, host, outcomes, i as int);
            assert(VerdictView::Allow == verdict_of(all, host, outcomes));
        }
        PluginVerdict::Allow
    }

    /// Prepare and evaluate on the current thread.
    pub fn evaluate(&self, engine: &Engine, ctx: &RequestContext) -> (r: PluginVerdict)
        requires
            self.wf(),
        ensures
            any_applies(self.plugins@, ctx.hostname@) ==> reachable(
                r@,
                self.plugins@,
                ctx.hostname@,
                encode_utf8(context_json(*ctx)),
            ),
            !any_applies(self.plugins@, ctx.hostname@) ==> r is Allow,
    {
        match self.prepare(ctx) {
            Some(job) => self.evaluate_prepared(engine, &job),
            None => PluginVerdict::Allow,
        }
    }
}

/// Why a module cannot be a plugin, by what it imports and exports.
pub open spec fn interface_fault(
    imported: Seq<(Seq<char>, Seq<char>)>,
    exported: Set<Seq<char>>,
) -> Option<Seq<char>> {
    if imported.len() > 0 {
        Some(
            "imports are not allowed (found "@ + imported[0].0 + "::"@ + imported[0].1 + ")"@,
        )
    } else if !exported.contains("memory"@) {
        Some("missing export "@ + "memory"@)
    } else if !exported.contains("sievetube_abi_version"@) {
        Some("missing export "@ + "sievetube_abi_version"@)
    } else if !exported.contains("sievetube_alloc"@) {
        Some("missing export "@ + "sievetube_alloc"@)
    } else if !exported.contains("sievetube_evaluate"@) {
        Some("missing export "@ + "sievetube_evaluate"@)
    } else {
        None
    }
}

/// Whether a module can be a plugin.
pub fn verify_exports(module: &Module) -> (r: Result<(), String>)
    ensures
        match interface_fault(imports(*module), exports(*module)) {
            Some(fault) => r is Err && r->Err_0@ == fault,
            None => r is Ok,
        },
{
    if let Some(import) = first_import(module) {
        let mut e: String = "imports are not allowed (found ".to_owned();
        e.append(import.0.as_str());
        e.append("::");
        e.append(import.1.as_str());
        e.append(")");
        return Err(e);
    }
    let mut missing: String = "missing export ".to_owned();
    if !has_export(module, "memory") {
        missing.append("memory");
        return Err(missing);
    }
    if !has_export(module, "sievetube_abi_version") {
        missing.append("sievetube_abi_version");
        return Err(missing);
    }
    if !has_export(module, "sievetube_alloc") {
        missing.append("sievetube_alloc");
        return Err(missing);
    }
    if !has_export(module, "sievetube_evaluate") {
        missing.append("sievetube_evaluate");
        return Err(missing);
    }
    Ok(())
}

/// A configured plugin, with what was read of its file.
#[derive(Debug)]
pub struct PluginSource {
    pub config: PluginConfig,
    pub content: Result<Vec<u8>, String>,
}

/// What the errors of a plugin start with.
pub open spec fn plugin_prefix(name: Seq<char>) -> Seq<char> {
    "plugin "@ + name + ": "@
}

/// Why the file of a plugin is not loaded: it cannot be read, or is not the one
/// that was configured.
pub open spec fn file_fault(s: PluginSource) -> Option<Seq<char>> {
    match s.content {
        Err(e) => Some(
            plugin_prefix(s.config.name@) + "cannot read "@ + s.config.path@ + ": "@ + e@,
        ),
        Ok(bytes) => {
            let found = digest::hex(digest::sha256(bytes@));
            if text::ascii_lower(found) == text::ascii_lower(text::trimmed(s.config.sha256@)) {
                None
            } else {
                Some(
                    plugin_prefix(s.config.name@) + "SHA-256 mismatch (configured "@
                        + s.config.sha256@ + ", file "@ + found + ")"@,
                )
            }
        },
    }
}

/// Whether a loaded plugin is the one that was configured: its module has the
/// configured digest, no imports and the required exports, and says that it has
/// this version of the ABI.
pub open spec fn loaded_from(p: LoadedPlugin, s: PluginSource) -> bool {
    &&& p.name@ == s.config.name@
    &&& text::ascii_lower(digest::hex(digest::sha256(code(p.module)))) == text::ascii_lower(
        text::trimmed(s.config.sha256@),
    )
    &&& interface_fault(imports(p.module), exports(p.module)) is None
    &&& p.applies_to@.len() == s.config.applies_to@.len()
    &&& forall|i: int|
        0 <= i < p.applies_to@.len() ==> hostname::normalized(
            s.config.applies_to@[i]@,
            true,
            false,
        ) == Ok::<Seq<char>, Seq<char>>((#[trigger] p.applies_to@[i])@)
    &&& p.can_report(ABI_VERSION)
    &&& concurrent::capacity(p.permits) == s.config.max_concurrent
    &&& p.max_memory_bytes == s.config.max_memory_bytes
    &&& p.fuel == s.config.fuel
    &&& p.timeout_ticks == (if s.config.timeout_ms == 0 {
        1
    } else {
        s.config.timeout_ms
    })
}

/// Whether a plugin's bounds can be set: there are not too many permits, and the
/// deadline leaves room for the epoch.
pub open spec fn settable(c: PluginConfig) -> bool {
    c.max_concurrent <= usize::MAX / 8 && c.timeout_ms <= u64::MAX / 2
}

fn plugin_error(name: &str, detail: &str) -> (r: String)
    ensures
        r@ == plugin_prefix(name@) + detail@,
        text::starts_with(r@, plugin_prefix(name@)),
{
    let mut e: String = "plugin ".to_owned();
    e.append(name);
    e.append(": ");
    e.append(detail);
    assert(e@.take(plugin_prefix(name@).len() as int) =~= plugin_prefix(name@));
    e
}

/// What is wrong with the first of some patterns that is no hostname pattern.
pub open spec fn pattern_fault(patterns: Seq<Seq<char>>) -> Option<Seq<char>>
    decreases patterns.len(),
{
    if patterns.len() == 0 {
        None
    } else {
        match hostname::normalized(patterns[0], true, false) {
            Ok(_) => pattern_fault(patterns.skip(1)),
            Err(e) => Some(e),
        }
    }
}

/// The first pattern that is none, with only patterns before it, is the fault.
proof fn lemma_pattern_fault(patterns: Seq<Seq<char>>, n: int)
    requires
        0 <= n <= patterns.len(),
        forall|k: int|
            0 <= k < n ==> hostname::normalized(#[trigger] patterns[k], true, false) is Ok,
        n < patterns.len() ==> hostname::normalized(patterns[n], true, false) is Err,
    ensures
        pattern_fault(patterns) == (if n == patterns.len() {
            None
        } else {
            Some(hostname::normalized(patterns[n], true, false)->Err_0)
        }),
    decreases patterns.len(),
{
    if n > 0 {
        let rest = patterns.skip(1);
        assert(hostname::normalized(patterns[0], true, false) is Ok);
        assert forall|k: int| 0 <= k < n - 1 implies hostname::normalized(
            #[trigger] rest[k],
            true,
            false,
        ) is Ok by {
            assert(rest[k] == patterns[k + 1]);
        }
        lemma_pattern_fault(rest, n - 1);
    }
}

/// The patterns of a plugin, normalized.
fn normalize_patterns(patterns: &Vec<String>) -> (r: Result<Vec<String>, String>)
    ensures
        match r {
            Ok(out) => {
                &&& pattern_fault(text::views(patterns@)) is None
                &&& out@.len() == patterns@.len()
                &&& forall|i: int|
                    0 <= i < out@.len() ==> hostname::normalized(patterns@[i]@, true, false)
                        == Ok::<Seq<char>, Seq<char>>((#[trigger] out@[i])@)
            },
            Err(e) => pattern_fault(text::views(patterns@)) == Some(e@),
        },
{
    let ghost all = text::views(patterns@);
    let mut out: Vec<String> = Vec::new();
    let mut i: usize = 0;
    while i < patterns.len()
        invariant
            i <= patterns.len(),
            all == text::views(patterns@),
            out@.len() == i,
            forall|k: int|
                0 <= k < i ==> hostname::normalized(patterns@[k]@, true, false) == Ok::<
                    Seq<char>,
                    Seq<char>,
                >((#[trigger] out@[k])@),
            forall|k: int|
                0 <= k < i ==> hostname::normalized(#[trigger] all[k], true, false) is Ok,
        decreases patterns.len() - i,
    {
        assert(all[i as int] == patterns@[i as int]@);
        match normalize_hostname_pattern(patterns[i].as_str()) {
            Ok(p) => {
                out.push(p);
            },
            Err(e) => {
                proof {
                    lemma_pattern_fault(all, i as int);
                }
                return Err(e.text);
            },
        }
        i += 1;
    }
    proof {
        lemma_pattern_fault(all, i as int);
    }
    Ok(out)
}

/// Why a file cannot be a plugin, when it is the one that was configured: it is no
/// module, its imports or exports are not those of a plugin, it is to apply to what
/// is no hostname, or it does not say that it has this version of the ABI.
pub open spec fn refusal(e: Seq<char>, s: PluginSource) -> bool {
    let prefix = plugin_prefix(s.config.name@);
    ||| text::starts_with(e, prefix + "invalid WebAssembly module: "@)
    ||| exists|m: Module| #[trigger] module_refused(m, e, s)
}

/// Why a file cannot be a plugin, when it holds this module.
pub open spec fn module_refused(m: Module, e: Seq<char>, s: PluginSource) -> bool {
    let prefix = plugin_prefix(s.config.name@);
    &&& s.content is Ok
    &&& digest::hex(digest::sha256(code(m))) == digest::hex(digest::sha256(s.content->Ok_0@))
    &&& match interface_fault(imports(m), exports(m)) {
        Some(fault) => e == prefix + fault,
        None => match pattern_fault(text::views(s.config.applies_to@)) {
            Some(fault) => e == prefix + ("invalid applies_to: "@ + fault),
            None => exists|outcome: Result<i32, PluginFailure>|
                {
                    &&& reported(m, config_limits(s.config), outcome)
                    &&& #[trigger] abi_fault(outcome) is Some
                    &&& e == prefix + abi_fault(outcome)->0
                },
        },
    }
}

/// The bounds of a call of a configured plugin.
pub open spec fn config_limits(c: PluginConfig) -> SandboxLimits {
    call_limits(
        c.max_memory_bytes,
        c.fuel,
        if c.timeout_ms == 0 {
            1
        } else {
            c.timeout_ms
        },
    )
}

/// What a module, within bounds, can give when it is asked for the version of the ABI
/// that it has: a version that it reports, or a failure.
pub open spec fn reported(
    m: Module,
    limits: SandboxLimits,
    outcome: Result<i32, PluginFailure>,
) -> bool {
    match outcome {
        Ok(version) => reports(m, limits, version),
        Err(failure) => failure is Busy || of_call(failure),
    }
}

/// What is wrong with a plugin, by what it gave when it was asked for the version of
/// the ABI that it has.
pub open spec fn abi_fault(outcome: Result<i32, PluginFailure>) -> Option<Seq<char>> {
    match outcome {
        Ok(version) => if version == ABI_VERSION {
            None
        } else {
            Some(
                "unsupported ABI version "@ + text::signed_decimal(version as int)
                    + " (expected 1)"@,
            )
        },
        Err(failure) => Some("ABI version check failed: "@ + failure_name(failure)),
    }
}

/// Checks what the plugin of a name gave when it was asked for the version of the ABI
/// that it has: only this version will do.
pub fn check_abi(name: &str, outcome: Result<i32, PluginFailure>) -> (r: Result<(), String>)
    ensures
        match abi_fault(outcome) {
            None => r is Ok,
            Some(fault) => r is Err && r->Err_0@ == plugin_prefix(name@) + fault,
        },
        (r is Ok) == (outcome == Ok::<i32, PluginFailure>(ABI_VERSION)),
{
    match outcome {
        Ok(version) => {
            if version == ABI_VERSION {
                return Ok(());
            }
            let mut detail: String = "unsupported ABI version ".to_owned();
            detail.append(signed_text(version as i64).as_str());
            detail.append(" (expected 1)");
            Err(plugin_error(name, detail.as_str()))
        },
        Err(failure) => Err(
            plugin_error(
                name,
                "ABI version check failed: ".to_owned().concat(failure.as_str()).as_str(),
            ),
        ),
    }
}

/// Whether a cache holds all that another held, in the same order, and perhaps more.
pub open spec fn extends(after: ModuleCache, before: ModuleCache) -> bool {
    &&& before.digests().is_prefix_of(after.digests())
    &&& before.modules().is_prefix_of(after.modules())
}

/// Whether a cache holds the module of a file.
pub open spec fn keeps(cache: ModuleCache, s: PluginSource) -> bool {
    s.content is Ok && cache.digests().contains(digest::hex(digest::sha256(s.content->Ok_0@)))
}

/// A cache that holds more still holds the module of a file.
proof fn lemma_kept(after: ModuleCache, before: ModuleCache, s: PluginSource)
    requires
        extends(after, before),
        keeps(before, s),
    ensures
        keeps(after, s),
{
    let d = digest::hex(digest::sha256(s.content->Ok_0@));
    let k = choose|k: int| 0 <= k < before.digests().len() && before.digests()[k] == d;
    assert(after.digests()[k] == d);
}

/// Loads and verifies one plugin.
fn load_one(engine: &Engine, source: &PluginSource, cache: &mut ModuleCache) -> (r: Result<
    LoadedPlugin,
    String,
>)
    requires
        old(cache).wf(),
        settable(source.config),
    ensures
        final(cache).wf(),
        extends(*final(cache), *old(cache)),
        match r {
            Ok(p) => {
                &&& file_fault(*source) is None
                &&& loaded_from(p, *source)
                &&& keeps(*final(cache), *source)
            },
            Err(e) => match file_fault(*source) {
                Some(fault) => e@ == fault && *final(cache) == *old(cache),
                None => refusal(e@, *source),
            },
        },
{
    let name: &str = source.config.name.as_str();
    let bytes: &Vec<u8> = match &source.content {
        Ok(bytes) => bytes,
        Err(e) => {
            let mut detail: String = "cannot read ".to_owned();
            detail.append(source.config.path.as_str());
            detail.append(": ");
            detail.append(e.as_str());
            let r: String = plugin_error(name, detail.as_str());
            assert(r@ =~= file_fault(*source)->0);
            return Err(r);
        },
    };
    let digest: String = sha256_hex(bytes.as_slice());
    let configured: String = trim(source.config.sha256.as_str());
    if !same_text(lower(digest.as_str()).as_str(), lower(configured.as_str()).as_str()) {
        let mut detail: String = "SHA-256 mismatch (configured ".to_owned();
        detail.append(source.config.sha256.as_str());
        detail.append(", file ");
        detail.append(digest.as_str());
        detail.append(")");
        let r: String = plugin_error(name, detail.as_str());
        assert(r@ =~= file_fault(*source)->0);
        return Err(r);
    }
    let module: Module = match cache.get_or_compile(engine, digest.as_str(), bytes.as_slice()) {
        Ok(module) => module,
        Err(e) => {
            let r: String = plugin_error(name, e.as_str());
            assert(text::starts_with(
                r@,
                plugin_prefix(name@) + "invalid WebAssembly module: "@,
            )) by {
                let full = plugin_prefix(name@) + "invalid WebAssembly module: "@;
                assert(e@.take("invalid WebAssembly module: "@.len() as int)
                    == "invalid WebAssembly module: "@);
                assert(r@.take(full.len() as int) =~= plugin_prefix(name@) + e@.take(
                    "invalid WebAssembly module: "@.len() as int,
                ));
            }
            return Err(r);
        },
    };
    assert(keeps(*cache, *source)) by {
        if !old(cache).digests().contains(digest@) {
            assert(cache.digests().last() == digest@);
        }
    }
    if let Err(e) = verify_exports(&module) {
        let r: String = plugin_error(name, e.as_str());
        assert(module_refused(module, r@, *source));
        return Err(r);
    }
    let applies_to: Vec<String> = match normalize_patterns(&source.config.applies_to) {
        Ok(patterns) => patterns,
        Err(e) => {
            let r: String = plugin_error(
                name,
                "invalid applies_to: ".to_owned().concat(e.as_str()).as_str(),
            );
            assert(module_refused(module, r@, *source));
            return Err(r);
        },
    };
    let timeout_ticks: u64 = if source.config.timeout_ms == 0 {
        1
    } else {
        source.config.timeout_ms
    };
    let ghost m = module;
    let plugin: LoadedPlugin = LoadedPlugin {
        name: source.config.name.clone(),
        module,
        applies_to,
        max_memory_bytes: source.config.max_memory_bytes,
        fuel: source.config.fuel,
        timeout_ticks,
        permits: new_semaphore(source.config.max_concurrent),
    };
    let outcome: Result<i32, PluginFailure> = plugin.abi_version(engine);
    match check_abi(name, outcome) {
        Ok(_) => Ok(plugin),
        Err(e) => {
            assert(reported(m, config_limits(source.config), outcome));
            assert(abi_fault(outcome) is Some);
            assert(module_refused(m, e@, *source));
            Err(e)
        },
    }
}

/// Whether an error is that of the plugin at a position: those before it are the
/// files that were configured, and the error is what is wrong with its file, or,
/// where that is not at fault, with the plugin itself.
pub open spec fn error_of(e: Seq<char>, sources: Seq<PluginSource>, i: int) -> bool {
    &&& forall|j: int| 0 <= j < i ==> file_fault(#[trigger] sources[j]) is None
    &&& match file_fault(sources[i]) {
        Some(fault) => e == fault,
        None => refusal(e, sources[i]),
    }
}

/// Whether an error is that of one of the plugins.
pub open spec fn load_error(e: Seq<char>, sources: Seq<PluginSource>) -> bool {
    exists|i: int| 0 <= i < sources.len() && #[trigger] error_of(e, sources, i)
}

impl PluginSet {
    /// Load and verify every plugin. Any error rejects the whole set, so the
    /// caller can keep the previous one.
    pub fn load(engine: &Engine, sources: &Vec<PluginSource>, cache: &mut ModuleCache) -> (r: Result<
        Self,
        String,
    >)
        requires
            old(cache).wf(),
            forall|i: int| 0 <= i < sources@.len() ==> settable((#[trigger] sources@[i]).config),
        ensures
            final(cache).wf(),
            extends(*final(cache), *old(cache)),
            match r {
                Ok(set) => {
                    &&& set.wf()
                    &&& set.plugins@.len() == sources@.len()
                    &&& forall|i: int|
                        0 <= i < sources@.len() ==> file_fault(#[trigger] sources@[i]) is None
                            && loaded_from(set.plugins@[i], sources@[i]) && keeps(
                            *final(cache),
                            sources@[i],
                        )
                },
                Err(e) => load_error(e@, sources@),
            },
    {
        let mut plugins: Vec<LoadedPlugin> = Vec::new();
        let mut i: usize = 0;
        while i < sources.len()
            invariant
                i <= sources.len(),
                plugins@.len() == i,
                cache.wf(),
                extends(*cache, *old(cache)),
                forall|k: int| 0 <= k < i ==> keeps(*cache, #[trigger] sources@[k]),
                forall|k: int| 0 <= k < sources@.len() ==> settable((#[trigger] sources@[k]).config),
                forall|k: int|
                    0 <= k < i ==> file_fault(#[trigger] sources@[k]) is None && loaded_from(
                        plugins@[k],
                        sources@[k],
                    ),
            decreases sources.len() - i,
        {
            let ghost before = *cache;
            match load_one(engine, &sources[i], cache) {
                Ok(plugin) => {
                    proof {
                        assert forall|k: int| 0 <= k < i implies keeps(
                            *cache,
                            #[trigger] sources@[k],
                        ) by {
                            lemma_kept(*cache, before, sources@[k]);
                        }
                    }
                    plugins.push(plugin);
                },
                Err(e) => {
                    assert(error_of(e@, sources@, i as int));
                    assert(load_error(e@, sources@));
                    return Err(e);
                },
            }
            i += 1;
        }
        let set: PluginSet = PluginSet { plugins };
        assert(set.wf()) by {
            assert forall|k: int| 0 <= k < set.plugins@.len() implies (
            #[trigger] set.plugins@[k]).timeout_ticks <= u64::MAX / 2 by {
                assert(loaded_from(set.plugins@[k], sources@[k]));
                assert(settable(sources@[k].config));
            }
        }
        Ok(set)
    }
}

/// A plugin lets a request pass with 0 and stops it with 1; any other answer, and a failure to
/// answer, is a failure of that plugin.
pub proof fn law_plugins_allow_or_object(
    plugin: &str,
    outcome: Result<i32, PluginFailure>,
    r: Option<PluginVerdict>,
)
    requires
        call_ensures(judge, (plugin, outcome), r),
    ensures
        r is None == (outcome == Ok::<i32, PluginFailure>(0)),
        outcome == Ok::<i32, PluginFailure>(1) ==> (r matches Some(PluginVerdict::Deny {
            plugin: p,
        }) && p@ == plugin@),
        outcome matches Ok(n) ==> (n != 0 && n != 1 ==> (r matches Some(PluginVerdict::Failed {
            plugin: p,
            failure,
        }) && p@ == plugin@ && failure is InvalidOutput)),
        outcome matches Err(f) ==> (r matches Some(PluginVerdict::Failed { plugin: p, failure })
            && p@ == plugin@ && failure == f),
{
    if r is Some {
        assert(objection(plugin@, outcome) == Some(r->0@));
    }
}

/// A plugin without patterns concerns every hostname, and one with patterns the hostnames that
/// a pattern of it covers.
pub proof fn law_plugins_concern_their_hostnames(
    plugin: LoadedPlugin,
    hostname: &str,
    i: int,
    pattern: &str,
    covered: bool,
    r: bool,
)
    requires
        call_ensures(LoadedPlugin::applies, (&plugin, hostname), r),
        0 <= i < plugin.applies_to@.len() ==> pattern@ == plugin.applies_to@[i]@,
        call_ensures(matches_pattern, (pattern, hostname), covered),
    ensures
        plugin.applies_to@.len() == 0 ==> r,
        0 <= i < plugin.applies_to@.len() && covered ==> r,
        plugin.applies_to@.len() == 1 && i == 0 ==> r == covered,
{
    let patterns = text::views(plugin.applies_to@);
    assert(patterns.len() == plugin.applies_to@.len());
    if 0 <= i < plugin.applies_to@.len() {
        assert(patterns[i] == pattern@);
    }
    if plugin.applies_to@.len() == 1 && r && i == 0 {
        let k = choose|k: int|
            0 <= k < patterns.len() && hostname::covers(#[trigger] patterns[k], hostname@);
        assert(k == 0);
    }
}

/// A request is handed to the plugins if and only if one of them concerns its hostname.
pub proof fn law_concerned_requests_are_prepared(
    set: PluginSet,
    ctx: RequestContext,
    i: int,
    applies: bool,
    r: Option<PluginJob>,
)
    requires
        call_ensures(PluginSet::prepare, (&set, &ctx), r),
        0 <= i < set.plugins@.len() ==> call_ensures(
            LoadedPlugin::applies,
            (&set.plugins@[i], ctx.hostname),
            applies,
        ),
    ensures
        set.plugins@.len() == 0 ==> r is None,
        0 <= i < set.plugins@.len() && applies ==> r is Some,
        set.plugins@.len() == 1 && i == 0 ==> r is Some == applies,
        r is Some ==> r->0.hostname@ == ctx.hostname@,
{
    if 0 <= i < set.plugins@.len() && applies {
        assert(set.plugins@[i].applicable(ctx.hostname@));
    }
    if set.plugins@.len() == 1 && i == 0 && r is Some {
        let k = choose|k: int|
            0 <= k < set.plugins@.len() && (#[trigger] set.plugins@[k]).applicable(ctx.hostname@);
        assert(k == 0);
    }
}

proof fn lemma_verdict(
    plugins: Seq<LoadedPlugin>,
    hostname: Seq<char>,
    outcomes: Seq<Result<i32, PluginFailure>>,
)
    requires
        outcomes.len() == plugins.len(),
    ensures
        ({
            let v = verdict_of(plugins, hostname, outcomes);
            &&& v is Allow ==> forall|i: int|
                0 <= i < plugins.len() && (#[trigger] plugins[i]).applicable(hostname)
                    ==> objection(plugins[i].name@, outcomes[i]) is None
            &&& !(v is Allow) ==> exists|i: int|
                0 <= i < plugins.len() && (#[trigger] plugins[i]).applicable(hostname) && objection(
                    plugins[i].name@,
                    outcomes[i],
                ) == Some(v)
        }),
    decreases plugins.len(),
{
    if plugins.len() > 0 && !(plugins[0].applicable(hostname) && objection(
        plugins[0].name@,
        outcomes[0],
    ) is Some) {
        let rest = plugins.skip(1);
        let others = outcomes.skip(1);
        lemma_verdict(rest, hostname, others);
        let v = verdict_of(plugins, hostname, outcomes);
        assert(v == verdict_of(rest, hostname, others));
        if v is Allow {
            assert forall|i: int|
                0 <= i < plugins.len() && (#[trigger] plugins[i]).applicable(hostname) implies objection(
                plugins[i].name@,
                outcomes[i],
            ) is None by {
                if i > 0 {
                    assert(rest[i - 1] == plugins[i]);
                    assert(others[i - 1] == outcomes[i]);
                }
            }
        } else {
            let i = choose|i: int|
                0 <= i < rest.len() && (#[trigger] rest[i]).applicable(hostname) && objection(
                    rest[i].name@,
                    others[i],
                ) == Some(v);
            assert(plugins[i + 1] == rest[i]);
            assert(others[i] == outcomes[i + 1]);
        }
    } else if plugins.len() > 0 {
        let v = verdict_of(plugins, hostname, outcomes);
        assert(objection(plugins[0].name@, outcomes[0]) == Some(v));
        assert(!(v is Allow));
    }
}

/// A request passes only where every plugin that concerns it can have answered 0, on an input
/// that is not too large. Whoever is named as having stopped it is a plugin that concerns it
/// and can have answered 1.
pub proof fn law_requests_pass_all_plugins(
    set: PluginSet,
    engine: Engine,
    job: PluginJob,
    i: int,
    r: PluginVerdict,
)
    requires
        set.wf(),
        call_ensures(PluginSet::evaluate_prepared, (&set, &engine, &job), r),
    ensures
        r is Allow && 0 <= i < set.plugins@.len() && set.plugins@[i].applicable(job.hostname@)
            ==> set.plugins@[i].can_answer(job.input@, 0) && job.input@.len() <= 16384,
        r matches PluginVerdict::Deny { plugin } ==> exists|k: int|
            0 <= k < set.plugins@.len() && (#[trigger] set.plugins@[k]).name@ == plugin@
                && set.plugins@[k].applicable(job.hostname@) && set.plugins@[k].can_answer(
                job.input@,
                1,
            ),
        r matches PluginVerdict::Failed { plugin, failure } ==> exists|k: int|
            0 <= k < set.plugins@.len() && (#[trigger] set.plugins@[k]).name@ == plugin@
                && set.plugins@[k].applicable(job.hostname@),
        r matches PluginVerdict::Failed { plugin, failure } ==> (failure is InputTooLarge == (
        job.input@.len() > 16384)),
        set.plugins@.len() == 0 ==> r is Allow,
{
    let plugins = set.plugins@;
    let hostname = job.hostname@;
    let input = job.input@;
    let outcomes = choose|outcomes: Seq<Result<i32, PluginFailure>>|
        {
            &&& outcomes.len() == plugins.len()
            &&& forall|k: int|
                0 <= k < outcomes.len() ==> possible(plugins[k], #[trigger] outcomes[k], input)
            &&& r@ == #[trigger] verdict_of(plugins, hostname, outcomes)
        };
    lemma_verdict(plugins, hostname, outcomes);
    if r is Allow {
        assert(r@ is Allow);
        if 0 <= i < plugins.len() && plugins[i].applicable(hostname) {
            assert(possible(plugins[i], outcomes[i], input));
            assert(objection(plugins[i].name@, outcomes[i]) is None);
            assert(outcomes[i] == Ok::<i32, PluginFailure>(0));
        }
    } else {
        assert(!(r@ is Allow));
        let k = choose|k: int|
            0 <= k < plugins.len() && (#[trigger] plugins[k]).applicable(hostname) && objection(
                plugins[k].name@,
                outcomes[k],
            ) == Some(r@);
        assert(possible(plugins[k], outcomes[k], input));
        if r is Deny {
            assert(outcomes[k] == Ok::<i32, PluginFailure>(1));
        }
    }
}

/// A request that concerns no plugin passes; any other gets the verdict of its job.
pub proof fn law_unconcerned_requests_pass(
    set: PluginSet,
    engine: Engine,
    ctx: RequestContext,
    job: Option<PluginJob>,
    r: PluginVerdict,
)
    requires
        set.wf(),
        call_ensures(PluginSet::prepare, (&set, &ctx), job),
        call_ensures(PluginSet::evaluate, (&set, &engine, &ctx), r),
    ensures
        job is None ==> r is Allow,
        job is Some ==> reachable(r@, set.plugins@, job->0.hostname@, job->0.input@),
{
}

/// Only an input that is too large is refused for that, and then always.
pub proof fn law_large_inputs_are_refused(
    plugin: LoadedPlugin,
    engine: Engine,
    input: &[u8],
    r: Result<i32, PluginFailure>,
)
    requires
        plugin.timeout_ticks <= u64::MAX / 2,
        call_ensures(LoadedPlugin::evaluate, (&plugin, &engine, input), r),
    ensures
        (r == Err::<i32, PluginFailure>(PluginFailure::InputTooLarge)) == (input@.len() > 16384),
        r matches Ok(code) ==> plugin.can_answer(input@, code),
        r matches Err(f) ==> !(f is InvalidOutput),
{
}

/// A module is accepted if and only if it imports nothing and exports what a plugin has to.
pub proof fn law_plugins_have_the_interface(module: Module, r: Result<(), String>)
    requires
        call_ensures(verify_exports, (&module,), r),
    ensures
        r is Ok == (imports(module).len() == 0 && exports(module).contains("memory"@) && exports(
            module,
        ).contains("sievetube_abi_version"@) && exports(module).contains("sievetube_alloc"@)
            && exports(module).contains("sievetube_evaluate"@)),
{
}

/// What stopped a call is told by its trap; without one, trouble with growing memory is a memory
/// limit. Every failure has a name of its own.
pub proof fn law_failures_are_told_apart(
    kind: TrapKind,
    chain: &str,
    r: PluginFailure,
    a: PluginFailure,
    b: PluginFailure,
    x: &'static str,
    y: &'static str,
)
    requires
        call_ensures(classify_text, (kind, chain), r),
        call_ensures(PluginFailure::as_str, (a,), x),
        call_ensures(PluginFailure::as_str, (b,), y),
    ensures
        kind is OutOfFuel == (r is OutOfFuel),
        kind is Interrupt == (r is Timeout),
        kind is OtherTrap ==> r is Trap,
        kind is NoTrap ==> r is Trap || r is MemoryLimit,
        r is MemoryLimit ==> kind is NoTrap,
        kind is NoTrap ==> (r is MemoryLimit) == (text::holds(text::ascii_lower(chain@), "memory"@)
            && (text::holds(text::ascii_lower(chain@), "grow"@) || text::holds(
            text::ascii_lower(chain@),
            "limit"@,
        ) || text::holds(text::ascii_lower(chain@), "exceed"@))),
        x@ == y@ ==> a == b,
{
    reveal_strlit("trap");
    reveal_strlit("out_of_fuel");
    reveal_strlit("timeout");
    reveal_strlit("memory_limit");
    reveal_strlit("invalid_output");
    reveal_strlit("busy");
    reveal_strlit("input_too_large");
    assert("trap"@.len() == 4 && "trap"@[0] == 't');
    assert("out_of_fuel"@.len() == 11);
    assert("timeout"@.len() == 7);
    assert("memory_limit"@.len() == 12);
    assert("invalid_output"@.len() == 14);
    assert("busy"@.len() == 4 && "busy"@[0] == 'b');
    assert("input_too_large"@.len() == 15);
}

/// A plugin is loaded only from a file that could be read and has the configured digest, is of
/// version 1, and has the name, the limits and the hostnames that are configured for it.
pub proof fn law_plugins_are_loaded_as_configured(
    engine: Engine,
    sources: Vec<PluginSource>,
    cache: &mut ModuleCache,
    i: int,
    j: int,
    pattern: &str,
    normal: Result<String, hostname::HostnameError>,
    r: Result<PluginSet, String>,
)
    requires
        old(cache).wf(),
        forall|k: int| 0 <= k < sources@.len() ==> settable((#[trigger] sources@[k]).config),
        call_ensures(PluginSet::load, (&engine, &sources, cache), r),
        0 <= i < sources@.len(),
        0 <= j < sources@[i].config.applies_to@.len() ==> pattern@
            == sources@[i].config.applies_to@[j]@,
        call_ensures(hostname::normalize_hostname_pattern, (pattern,), normal),
    ensures
        sources@[i].content is Err ==> r is Err,
        r matches Ok(set) ==> {
            let p = set.plugins@[i];
            let c = sources@[i].config;
            &&& set.plugins@.len() == sources@.len()
            &&& p.name@ == c.name@
            &&& p.max_memory_bytes == c.max_memory_bytes
            &&& p.fuel == c.fuel
            &&& c.timeout_ms > 0 ==> p.timeout_ticks == c.timeout_ms
            &&& c.timeout_ms == 0 ==> p.timeout_ticks == 1
            &&& p.applies_to@.len() == c.applies_to@.len()
            &&& 0 <= j < c.applies_to@.len() ==> normal is Ok && p.applies_to@[j]@ == normal->Ok_0@
            &&& text::same_letters(
                digest::hex(digest::sha256(code(p.module))),
                text::trimmed(c.sha256@),
            )
            &&& imports(p.module).len() == 0
            &&& p.can_report(1)
            &&& concurrent::capacity(p.permits) == c.max_concurrent
        },
{
    assert(settable(sources@[i].config));
    if r is Ok {
        let set = r->Ok_0;
        let p = set.plugins@[i];
        let c = sources@[i].config;
        assert(file_fault(sources@[i]) is None && loaded_from(p, sources@[i]));
        text::lemma_same_letters(
            digest::hex(digest::sha256(code(p.module))),
            text::trimmed(c.sha256@),
        );
        if 0 <= j < c.applies_to@.len() {
            assert(hostname::normalized(c.applies_to@[j]@, true, false) == Ok::<
                Seq<char>,
                Seq<char>,
            >(p.applies_to@[j]@));
        }
    }
}

/// Only the version of the interface that is known is accepted.
pub proof fn law_only_the_known_version_is_accepted(
    name: &str,
    outcome: Result<i32, PluginFailure>,
    r: Result<(), String>,
)
    requires
        call_ensures(check_abi, (name, outcome), r),
    ensures
        r is Ok == (outcome == Ok::<i32, PluginFailure>(1)),
{
}

} // verus!

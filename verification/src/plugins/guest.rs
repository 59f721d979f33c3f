//! WebAssembly guests: one compiled module, one instance, one call at a time.

use crate::plugins::wasm;
use crate::proxy;
use crate::text;
use vstd::prelude::*;
use vstd::string::*;
use wasmtime::{Store, StoreLimitsBuilder};

verus! {

/// The engine modules are compiled with.
#[verifier::external_type_specification]
#[verifier::external_body]
pub struct ExEngine(wasmtime::Engine);

/// A compiled module.
#[verifier::external_type_specification]
#[verifier::external_body]
pub struct ExModule(wasmtime::Module);

/// A module linked to its imports.
#[verifier::external_type_specification]
#[verifier::external_body]
#[verifier::reject_recursive_types(T)]
pub struct ExInstancePre<T>(wasmtime::InstancePre<T>);

/// What an instance lives in.
#[verifier::external_type_specification]
#[verifier::external_body]
#[verifier::reject_recursive_types(T)]
pub struct ExStore<T: 'static>(wasmtime::Store<T>);

/// An instance of a module.
#[verifier::external_type_specification]
#[verifier::external_body]
pub struct ExInstance(wasmtime::Instance);

/// A linear memory.
#[verifier::external_type_specification]
#[verifier::external_body]
pub struct ExMemory(wasmtime::Memory);

/// The limits of a store.
#[verifier::external_type_specification]
#[verifier::external_body]
pub struct ExStoreLimits(wasmtime::StoreLimits);

/// The instance that calls a host function.
#[verifier::external_type_specification]
#[verifier::external_body]
#[verifier::reject_recursive_types(T)]
pub struct ExCaller<'a, T: 'static>(wasmtime::Caller<'a, T>);

/// What the host keeps for one instance: the plugin's name, the limits on its memory
/// and what the guest logged.
pub struct HostState {
    pub plugin: String,
    pub limits: wasmtime::StoreLimits,
    pub lines: Vec<String>,
}

/// How much of a message a guest may log, in bytes.
pub const MAX_LOG_BYTES: usize = 4096;

/// The memory that the instance which calls exports under a name, where it does.
pub uninterp spec fn caller_bytes(
    caller: wasmtime::Caller<'_, HostState>,
    export: Seq<char>,
) -> Option<Seq<u8>>;

/// What the host keeps for the instance which calls.
pub uninterp spec fn caller_state(caller: wasmtime::Caller<'_, HostState>) -> HostState;

/// Copies bytes out of the caller's memory: `Caller::get_export`, `Extern::into_memory`
/// and `Memory::data`. A range that does not lie in the memory gives nothing.
#[verifier::external_body]
fn caller_read(
    caller: &mut wasmtime::Caller<'_, HostState>,
    export: &str,
    offset: usize,
    length: usize,
) -> (r: Option<Vec<u8>>)
    ensures
        match r {
            Some(v) => caller_bytes(*old(caller), export@) matches Some(b) && offset + length
                <= b.len() && v@ == b.subrange(offset as int, offset + length),
            None => caller_bytes(*old(caller), export@) matches Some(b) ==> offset + length
                > b.len(),
        },
        caller_state(*final(caller)) == caller_state(*old(caller)),
{
    let memory = caller.get_export(export)?.into_memory()?;
    let range = memory.data(&*caller).get(offset..)?.get(..length)?;
    Some(range.to_vec())
}

/// `Caller::data_mut`: what the host keeps for the instance which calls.
#[verifier::external_body]
fn caller_data<'a>(caller: &'a mut wasmtime::Caller<'_, HostState>) -> (r: &'a mut HostState)
    ensures
        *r == caller_state(*old(caller)),
        caller_state(*final(caller)) == *final(r),
{
    caller.data_mut()
}

/// The text that bytes are, where they are valid UTF-8.
pub open spec fn text_of(bytes: Seq<u8>) -> Option<Seq<char>> {
    if vstd::utf8::valid_utf8(bytes) {
        Some(vstd::utf8::decode_utf8(bytes))
    } else {
        None
    }
}

/// `String::from_utf8`: the text of UTF-8 bytes, and nothing for any others.
#[verifier::external_body]
pub(crate) fn utf8_text(bytes: Vec<u8>) -> (r: Option<String>)
    ensures
        text::opt_of(r) == text_of(bytes@),
{
    String::from_utf8(bytes).ok()
}

/// The part of memory a log call names: where it starts and how long it is, at most
/// [`MAX_LOG_BYTES`].
pub open spec fn log_range(ptr: i32, len: i32) -> Option<(int, int)> {
    if ptr < 0 || len < 0 {
        None
    } else if len > MAX_LOG_BYTES {
        Some((ptr as int, MAX_LOG_BYTES as int))
    } else {
        Some((ptr as int, len as int))
    }
}

/// The text of the longest front of some bytes that is whole characters, where no more
/// than `spare` bytes are cut off for it.
pub open spec fn whole_front(bytes: Seq<u8>, spare: nat) -> Option<Seq<char>>
    decreases spare,
{
    match text_of(bytes) {
        Some(s) => Some(s),
        None => if spare == 0 || bytes.len() == 0 {
            None
        } else {
            whole_front(bytes.drop_last(), (spare - 1) as nat)
        },
    }
}

/// How many bytes of a character a cut can leave behind at most.
pub const CUT: usize = 3;

/// The message that some bytes hold. One that is longer than what is kept of it may have
/// been cut inside a character, which then goes too.
pub open spec fn message_of(bytes: Seq<u8>, cut: bool) -> Option<Seq<char>> {
    whole_front(
        bytes,
        if cut {
            CUT as nat
        } else {
            0
        },
    )
}

/// What a log call adds to the lines: nothing for a range outside memory or for bytes
/// that are not UTF-8.
pub open spec fn logged(plugin: Seq<char>, memory: Option<Seq<u8>>, ptr: i32, len: i32) -> Seq<
    Seq<char>,
> {
    match (memory, log_range(ptr, len)) {
        (Some(b), Some((start, length))) => {
            if start + length <= b.len() {
                match message_of(b.subrange(start, start + length), len > MAX_LOG_BYTES) {
                    Some(message) => seq!["wasm plugin '"@ + plugin + "': "@ + message],
                    None => Seq::empty(),
                }
            } else {
                Seq::empty()
            }
        },
        _ => Seq::empty(),
    }
}

/// Valid text that is cut anywhere is whole characters again with three bytes less at
/// most.
proof fn lemma_cut(bytes: Seq<u8>, n: int) -> (lost: int)
    requires
        vstd::utf8::valid_utf8(bytes),
        0 <= n <= bytes.len(),
    ensures
        0 <= lost <= CUT,
        lost <= n,
        vstd::utf8::valid_utf8(bytes.take(n - lost)),
    decreases bytes.len(),
{
    if bytes.len() == 0 {
        assert(bytes.take(0) =~= bytes);
        0
    } else {
        let first = vstd::utf8::length_of_first_scalar(bytes);
        if n < first {
            assert(bytes.take(0) =~= Seq::empty());
            n
        } else {
            let rest = vstd::utf8::pop_first_scalar(bytes);
            let lost = lemma_cut(rest, n - first);
            let front = bytes.take(n - lost);
            assert(vstd::utf8::pop_first_scalar(front) =~= rest.take(n - first - lost));
            lost
        }
    }
}

/// Some front of bytes that is whole characters is found where there is one.
proof fn lemma_whole_front(bytes: Seq<u8>, lost: int, spare: nat)
    requires
        0 <= lost <= spare,
        lost <= bytes.len(),
        vstd::utf8::valid_utf8(bytes.take(bytes.len() - lost)),
    ensures
        whole_front(bytes, spare) is Some,
    decreases spare,
{
    if lost == 0 {
        assert(bytes.take(bytes.len() as int) =~= bytes);
    } else if !vstd::utf8::valid_utf8(bytes) {
        let front = bytes.drop_last();
        assert(front.take(front.len() - (lost - 1)) =~= bytes.take(bytes.len() - lost));
        lemma_whole_front(front, lost - 1, (spare - 1) as nat);
    }
}

/// A message of valid text that is too long is cut, and never dropped.
pub proof fn law_a_long_message_is_cut(plugin: Seq<char>, memory: Seq<u8>, ptr: i32, len: i32)
    requires
        0 <= ptr,
        0 <= len,
        ptr + len <= memory.len(),
        vstd::utf8::valid_utf8(memory.subrange(ptr as int, ptr + len)),
    ensures
        logged(plugin, Some(memory), ptr, len).len() == 1,
{
    if len > MAX_LOG_BYTES {
        let whole = memory.subrange(ptr as int, ptr + len);
        let kept = memory.subrange(ptr as int, ptr + MAX_LOG_BYTES);
        let lost = lemma_cut(whole, MAX_LOG_BYTES as int);
        assert(kept.take(kept.len() - lost) =~= whole.take(MAX_LOG_BYTES - lost));
        lemma_whole_front(kept, lost, CUT as nat);
    }
}

/// Reads the message that some bytes hold.
fn read_message(bytes: Vec<u8>, cut: bool) -> (r: Option<String>)
    ensures
        text::opt_of(r) == message_of(bytes@, cut),
{
    let mut left = bytes;
    let mut spare: usize = if cut {
        CUT
    } else {
        0
    };
    let ghost said = message_of(bytes@, cut);
    loop
        invariant
            said == whole_front(left@, spare as nat),
            said == message_of(bytes@, cut),
        ensures
            said is None,
        decreases spare,
    {
        if let Some(message) = utf8_text(proxy::copy_bytes(&left)) {
            return Some(message);
        }
        if spare == 0 || left.len() == 0 {
            break;
        }
        let ghost before = left@;
        let _ = left.pop();
        proof {
            assert(left@ =~= before.drop_last());
        }
        spare = spare - 1;
    }
    None
}

/// The host function a guest imports to log a message.
pub fn host_log(caller: &mut wasmtime::Caller<'_, HostState>, ptr: i32, len: i32)
    ensures
        text::texts(caller_state(*final(caller)).lines@) == text::texts(
            caller_state(*old(caller)).lines@,
        ) + logged(
            caller_state(*old(caller)).plugin@,
            caller_bytes(*old(caller), wasm::EXPORT_MEMORY@),
            ptr,
            len,
        ),
        caller_state(*final(caller)).plugin@ == caller_state(*old(caller)).plugin@,
        caller_state(*final(caller)).limits == caller_state(*old(caller)).limits,
{
    let ghost said = text::texts(caller_state(*caller).lines@);
    proof {
        assert(said + Seq::<Seq<char>>::empty() =~= said);
    }
    if ptr < 0 || len < 0 {
        return;
    }
    let length: usize = if len as usize > MAX_LOG_BYTES {
        MAX_LOG_BYTES
    } else {
        len as usize
    };
    let bytes = match caller_read(caller, wasm::EXPORT_MEMORY, ptr as usize, length) {
        Some(bytes) => bytes,
        None => return,
    };
    let message = match read_message(bytes, len as usize > MAX_LOG_BYTES) {
        Some(message) => message,
        None => return,
    };
    let state = caller_data(caller);
    let line = text::cat2(
        text::cat3("wasm plugin '", state.plugin.as_str(), "': ").as_str(),
        message.as_str(),
    );
    state.lines.push(line);
    proof {
        assert(text::texts(state.lines@) =~= said + seq![line@]);
    }
}

/// The names a module exports, as its bytes or its text declare them.
pub uninterp spec fn exports_of(source: Seq<u8>) -> Seq<Seq<char>>;

/// Whether starting an engine that meters fuel, with that much address space set aside
/// for a memory and for its growth, may give that engine, or that error.
pub uninterp spec fn engine_starts(
    reserved: u64,
    growth: u64,
    outcome: Result<wasmtime::Engine, Seq<char>>,
) -> bool;

/// Whether compiling a source may give that module, or that error.
pub uninterp spec fn compiles(
    engine: wasmtime::Engine,
    source: Seq<u8>,
    outcome: Result<wasmtime::Module, Seq<char>>,
) -> bool;

/// Whether linking a module to the host, which offers [`host_log`] under these names, may
/// give that linked module, or that fault.
pub uninterp spec fn links(
    module: wasmtime::Module,
    host: Seq<char>,
    function: Seq<char>,
    outcome: Result<wasmtime::InstancePre<HostState>, LinkFault>,
) -> bool;

/// `Engine::new`, with fuel metered (`Config::consume_fuel`), without debug details in
/// backtraces (`Config::wasm_backtrace_details`) and with so much address space set aside
/// for a memory and for its growth (`Config::memory_reservation` and
/// `Config::memory_reservation_for_growth`), which is none. Whether an engine starts
/// depends on the machine.
#[verifier::external_body]
pub(crate) fn new_engine(reserved: u64, growth: u64) -> (r: Result<wasmtime::Engine, String>)
    requires
        reserved == wasm::RESERVED,
        growth == wasm::RESERVED,
    ensures
        match r {
            Ok(engine) => engine_starts(reserved, growth, Ok(engine)),
            Err(why) => engine_starts(reserved, growth, Err(why@)),
        },
{
    let mut config = wasmtime::Config::new();
    config.consume_fuel(true);
    config.wasm_backtrace_details(wasmtime::WasmBacktraceDetails::Disable);
    config.memory_reservation(reserved);
    config.memory_reservation_for_growth(growth);
    wasmtime::Engine::new(&config).map_err(|error| error.to_string())
}

/// `Module::new`, and `Module::exports` for the names the module exports. Whether a
/// module compiles depends on the machine too; what a compiled module exports is what
/// its source declares.
#[verifier::external_body]
pub(crate) fn compile(engine: &wasmtime::Engine, source: &Vec<u8>) -> (r: Result<
    (wasmtime::Module, Vec<String>),
    String,
>)
    ensures
        match r {
            Ok((module, names)) => compiles(*engine, source@, Ok(module)) && text::texts(names@)
                == exports_of(source@),
            Err(why) => compiles(*engine, source@, Err(why@)),
        },
{
    let module = wasmtime::Module::new(engine, source).map_err(|error| error.to_string())?;
    let names = module.exports().map(|export| export.name().to_owned()).collect();
    Ok((module, names))
}

/// Why a module could not be linked.
pub enum LinkFault {
    /// The host function could not be defined.
    Host(String),
    /// The module asks for something the host does not offer.
    Import(String),
}

/// `Linker::func_wrap` for [`host_log`], the one thing a guest may import, and
/// `Linker::instantiate_pre`. What is linked, or cannot be, is the module that was given.
#[verifier::external_body]
pub(crate) fn link(module: &wasmtime::Module, host: &str, function: &str) -> (r: Result<
    wasmtime::InstancePre<HostState>,
    LinkFault,
>)
    ensures
        links(*module, host@, function@, r),
{
    let mut linker: wasmtime::Linker<HostState> = wasmtime::Linker::new(module.engine());
    linker.func_wrap(
        host,
        function,
        |mut caller: wasmtime::Caller<'_, HostState>, ptr: i32, len: i32| host_log(&mut caller, ptr, len),
    ).map_err(|error| LinkFault::Host(error.to_string()))?;
    linker.instantiate_pre(module).map_err(|error| LinkFault::Import(error.to_string()))
}

/// One instance, its memory, and the store both live in. Only [`start`] makes one, so
/// the three belong together.
pub struct Guest {
    store: Store<HostState>,
    instance: wasmtime::Instance,
    memory: wasmtime::Memory,
}

/// The bytes in a guest's memory.
pub uninterp spec fn guest_bytes(guest: Guest) -> Seq<u8>;

/// What a guest has logged, line by line.
pub uninterp spec fn guest_lines(guest: Guest) -> Seq<Seq<char>>;

/// Whether starting a module with that much fuel and memory, which it exports under a
/// name, may give that guest, or that fault.
pub uninterp spec fn starts(
    module: wasmtime::InstancePre<HostState>,
    plugin: Seq<char>,
    memory: Seq<char>,
    memory_max: usize,
    fuel: u64,
    outcome: Result<Guest, StartFault>,
) -> bool;

/// Why an instance did not start.
pub enum StartFault {
    Fuel(String),
    /// The error, and what the module logged on the way.
    Instantiate(String, Vec<String>),
    /// There is no memory; what the module logged on the way.
    NoMemory(Vec<String>),
}

/// `InstancePre::instantiate` in a `Store` of its own, with `StoreLimitsBuilder` for the
/// memory it may use, `Store::set_fuel` for the work it may do and
/// `Instance::get_memory` for the memory it exports. The store belongs to the engine
/// the module was compiled with. Whether an instance starts depends on the machine.
#[verifier::external_body]
pub(crate) fn start(
    module: &wasmtime::InstancePre<HostState>,
    plugin: &str,
    memory: &str,
    memory_max: usize,
    fuel: u64,
) -> (r: Result<Guest, StartFault>)
    ensures
        starts(*module, plugin@, memory@, memory_max, fuel, r),
{
    let limits = StoreLimitsBuilder::new().memory_size(memory_max).build();
    let state = HostState { plugin: plugin.to_owned(), limits, lines: Vec::new() };
    let mut store = Store::new(module.module().engine(), state);
    store.limiter(|state| &mut state.limits);
    store.set_fuel(fuel).map_err(|error| StartFault::Fuel(error.to_string()))?;
    let instance = match module.instantiate(&mut store) {
        Ok(instance) => instance,
        Err(error) => return Err(StartFault::Instantiate(error.to_string(), store.into_data().lines)),
    };
    match instance.get_memory(&mut store, memory) {
        Some(memory) => Ok(Guest { store, instance, memory }),
        None => Err(StartFault::NoMemory(store.into_data().lines)),
    }
}

/// Why a call of a guest's function gave no result.
pub enum CallFault {
    /// The function does not take and give what it is called with.
    Signature(String),
    OutOfFuel,
    Trapped(String),
}

/// Whether calling a function of a guest may leave the guest so and give that.
pub uninterp spec fn runs(
    before: Guest,
    export: Seq<char>,
    arguments: Seq<i32>,
    after: Guest,
    result: Result<i64, CallFault>,
) -> bool;

/// Whether writing bytes into a guest's memory may leave the guest so.
pub uninterp spec fn writes(before: Guest, offset: usize, bytes: Seq<u8>, after: Guest) -> bool;

/// The result of a call as a wider number.
pub open spec fn widened(r: Result<i32, CallFault>) -> Result<i64, CallFault> {
    match r {
        Ok(n) => Ok(n as i64),
        Err(e) => Err(e),
    }
}

impl Guest {
    /// `Instance::get_typed_func` and `TypedFunc::call` for a function from one number
    /// to one. What a guest does is its own.
    #[verifier::external_body]
    pub(crate) fn call_unary(&mut self, export: &str, argument: i32) -> (r: Result<i32, CallFault>)
        ensures
            runs(*old(self), export@, seq![argument], *final(self), widened(r)),
    {
        let function = self.instance.get_typed_func::<i32, i32>(&mut self.store, export).map_err(
            |error| CallFault::Signature(error.to_string()),
        )?;
        function.call(&mut self.store, argument).map_err(
            |error| match error.downcast_ref::<wasmtime::Trap>() {
                Some(wasmtime::Trap::OutOfFuel) => CallFault::OutOfFuel,
                _ => CallFault::Trapped(error.to_string()),
            },
        )
    }

    /// `Instance::get_typed_func` and `TypedFunc::call` for a function from two numbers
    /// to a wide one. What a guest does is its own.
    #[verifier::external_body]
    pub(crate) fn call_binary(&mut self, export: &str, first: i32, second: i32) -> (r: Result<
        i64,
        CallFault,
    >)
        ensures
            runs(*old(self), export@, seq![first, second], *final(self), r),
    {
        let function = self.instance.get_typed_func::<(i32, i32), i64>(
            &mut self.store,
            export,
        ).map_err(|error| CallFault::Signature(error.to_string()))?;
        function.call(&mut self.store, (first, second)).map_err(
            |error| match error.downcast_ref::<wasmtime::Trap>() {
                Some(wasmtime::Trap::OutOfFuel) => CallFault::OutOfFuel,
                _ => CallFault::Trapped(error.to_string()),
            },
        )
    }

    /// `Memory::write`: puts the bytes into the guest's memory where they all fit, and
    /// leaves it as it is where they do not; the error always reads the same. What was
    /// logged stays. The memory is a slice, so its length fits `isize`.
    #[verifier::external_body]
    pub(crate) fn write(&mut self, offset: usize, bytes: &Vec<u8>) -> (r: Result<(), String>)
        ensures
            match r {
                Ok(()) => offset + bytes@.len() <= guest_bytes(*old(self)).len() <= isize::MAX
                    && guest_bytes(*final(self)) == overwritten(guest_bytes(*old(self)), offset as int, bytes@),
                Err(why) => offset + bytes@.len() > guest_bytes(*old(self)).len() && guest_bytes(
                    *final(self),
                ) == guest_bytes(*old(self)) && why@ == "out of bounds memory access"@,
            },
            guest_lines(*final(self)) == guest_lines(*old(self)),
            writes(*old(self), offset, bytes@, *final(self)),
    {
        self.memory.write(&mut self.store, offset, bytes).map_err(|error| error.to_string())
    }

    /// `Memory::data`: a copy of a range of the guest's memory, where it lies in it.
    #[verifier::external_body]
    pub(crate) fn read(&self, offset: usize, length: usize) -> (r: Option<Vec<u8>>)
        ensures
            match r {
                Some(v) => offset + length <= guest_bytes(*self).len() && v@ == guest_bytes(
                    *self,
                ).subrange(offset as int, offset + length),
                None => offset + length > guest_bytes(*self).len(),
            },
    {
        let range = self.memory.data(&self.store).get(offset..)?.get(..length)?;
        Some(range.to_vec())
    }

    /// `Store::into_data`: what the guest logged.
    #[verifier::external_body]
    pub(crate) fn into_lines(self) -> (r: Vec<String>)
        ensures
            text::texts(r@) == guest_lines(self),
    {
        self.store.into_data().lines
    }
}

/// Bytes with some of them replaced.
pub open spec fn overwritten(bytes: Seq<u8>, offset: int, with: Seq<u8>) -> Seq<u8> {
    bytes.take(offset) + with + bytes.skip(offset + with.len())
}

} // verus!

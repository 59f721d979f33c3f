//! `wasm-plugin`: a WebAssembly module filters the request.
//!
//! The one plugin type that is not an auth plugin. It runs after the guards of a route
//! have passed, so a module never sees a request that is going to be refused, and it
//! answers with header edits or a response of its own rather than with claims.
//!
//! A declaration compiles one module and gives it base settings. Routes reference it by
//! name and may lay their own settings over that base. Each call gets an instance of
//! its own, so a module cannot carry state from one request into the next. Fuel bounds
//! the work of an instance and a limit its memory.

use crate::config::{PluginConfig, PluginReference};
use crate::headers;
use crate::headers::HeaderList;
use crate::json;
use crate::json::{Json, JsonView, Numeric};
use crate::plugins;
use crate::plugins::guest;
use crate::plugins::guest::{CallFault, Guest, HostState, LinkFault, StartFault};
use crate::proxy;
use crate::sorting;
use crate::strmap;
use crate::strmap::StrMap;
use crate::text;
use crate::tree;
use crate::yaml;
use crate::yaml::YamlView;
use std::sync::Arc;
use vstd::prelude::*;
use vstd::string::*;

verus! {

/// The `type:` a config declares one of these with.
pub const KIND: &'static str = "wasm-plugin";

/// The function a module allocates with.
pub const EXPORT_ALLOC: &'static str = "gillnet_alloc";

/// The function that decides about a request.
pub const EXPORT_ON_REQUEST: &'static str = "gillnet_on_request";

/// The function that edits a response; a module may leave it out.
pub const EXPORT_ON_RESPONSE: &'static str = "gillnet_on_response";

/// The memory a module shares with the host.
pub const EXPORT_MEMORY: &'static str = "memory";

/// The one host function that a module may import, and what it imports it from.
pub const HOST_MODULE: &'static str = "gillnet";

pub const HOST_LOG: &'static str = "log";

/// The address space set aside for the memory of a guest and for its growth, in bytes:
/// none, for a guest is small and lives for one call.
pub const RESERVED: u64 = 0;

/// Enough for a few milliseconds of work in a small module.
pub const DEFAULT_FUEL: u64 = 10_000_000;

/// How much memory a module may use where its declaration does not say.
pub const DEFAULT_MEMORY_MAX_BYTES: u64 = 16_777_216;

/// The longest verdict that is read out of a guest.
pub const MAX_VERDICT_BYTES: usize = 1_048_576;

/// One compiled module with the settings and budgets of its declaration, shared by
/// every route that references it.
pub struct WasmPlugin {
    pub name: String,
    pub module_file: String,
    pub instance_pre: wasmtime::InstancePre<HostState>,
    pub settings: Json,
    pub fuel: u64,
    pub memory_max_bytes: usize,
    pub fail_open: bool,
    pub has_response_phase: bool,
}

/// A route's binding to a plugin: the shared module, and the settings that route sees.
pub struct WasmFilter {
    pub plugin: Arc<WasmPlugin>,
    pub settings: Json,
}

/// What a guest decided about a request.
pub enum FilterOutcome {
    /// Forward upstream, applying these header changes first.
    Continue(HeaderEdits),
    /// Answer the client here; the upstream is never contacted.
    Stop(Box<StopResponse>),
    /// The module itself failed and the plugin does not fail open.
    Failed(String),
}

/// Changes to the headers of a message.
pub struct HeaderEdits {
    /// Headers the gateway sets; a copy the client supplied is dropped.
    pub set: Vec<(String, String)>,
    pub remove: Vec<String>,
}

/// A response a guest answers with.
pub struct StopResponse {
    pub status: u16,
    pub headers: Vec<(String, String)>,
    pub body: String,
}

/// What a guest wants done with a request.
#[derive(Clone, Copy, Debug, PartialEq, Eq, Structural)]
pub enum Action {
    Continue,
    Stop,
}

/// What a guest answers.
pub struct Verdict {
    pub action: Action,
    pub set_headers: StrMap<String>,
    pub remove_headers: Vec<String>,
    pub status: Option<u16>,
    pub headers: StrMap<String>,
    pub body: String,
}

/// Changes to headers, as lists of texts.
#[verifier::ext_equal]
pub struct EditsView {
    pub set: Seq<(Seq<char>, Seq<char>)>,
    pub remove: Seq<Seq<char>>,
}

impl View for HeaderEdits {
    type V = EditsView;

    open spec fn view(&self) -> EditsView {
        EditsView { set: text::pairs_view(self.set@), remove: text::texts(self.remove@) }
    }
}

/// No changes.
pub open spec fn no_edits() -> EditsView {
    EditsView { set: Seq::empty(), remove: Seq::empty() }
}

impl Default for HeaderEdits {
    fn default() -> (r: HeaderEdits)
        ensures
            r@ == no_edits(),
    {
        let r = HeaderEdits { set: Vec::new(), remove: Vec::new() };
        proof {
            assert(r@ =~= no_edits());
        }
        r
    }
}

/// What a guest decided, as texts.
pub enum FilteredView {
    Continue(EditsView),
    Stop { status: u16, headers: Seq<(Seq<char>, Seq<char>)>, body: Seq<char> },
    Failed(Seq<char>),
}

impl View for FilterOutcome {
    type V = FilteredView;

    open spec fn view(&self) -> FilteredView {
        match self {
            FilterOutcome::Continue(edits) => FilteredView::Continue(edits@),
            FilterOutcome::Stop(stop) => FilteredView::Stop {
                status: stop.status,
                headers: text::pairs_view(stop.headers@),
                body: stop.body@,
            },
            FilterOutcome::Failed(message) => FilteredView::Failed(message@),
        }
    }
}

/// The range a packed result names: where it starts, and how long it is.
pub open spec fn packed_range(packed: i64) -> (int, int) {
    (((packed as u64) >> 32) as int, ((packed as u64) & 0xffff_ffff) as int)
}

/// The verdict a packed result names in a guest's memory, or why there is none.
pub open spec fn packed_spec(memory: Seq<u8>, packed: i64) -> Result<Seq<u8>, Seq<char>> {
    let (offset, length) = packed_range(packed);
    if length == 0 {
        Err("the guest returned an empty verdict"@)
    } else if length > MAX_VERDICT_BYTES {
        Err(
            "the guest returned "@ + text::decimal(length as nat) + " bytes, over the "@
                + text::decimal(MAX_VERDICT_BYTES as nat) + " byte limit"@,
        )
    } else if offset + length > memory.len() {
        Err("the guest returned a pointer outside its own memory"@)
    } else {
        Ok(memory.subrange(offset, offset + length))
    }
}

/// What a result of bytes says.
pub open spec fn bytes_result_of(r: Result<Vec<u8>, String>) -> Result<Seq<u8>, Seq<char>> {
    match r {
        Ok(v) => Ok(v@),
        Err(e) => Err(e@),
    }
}

/// Reads a verdict out of a guest. One wide number names it: the pointer in the high
/// half and the length in the low half.
pub fn read_packed(guest: &Guest, packed: i64) -> (r: Result<Vec<u8>, String>)
    ensures
        bytes_result_of(r) == packed_spec(guest::guest_bytes(*guest), packed),
{
    let wide: u64 = #[verifier::truncate]
    (packed as u64);
    let offset: u64 = wide >> 32;
    let length: u64 = wide & 0xffff_ffff;
    assert(offset <= 0xffff_ffff && length <= 0xffff_ffff) by (bit_vector)
        requires
            offset == wide >> 32,
            length == wide & 0xffff_ffff,
    ;
    if length == 0 {
        return Err("the guest returned an empty verdict".to_owned());
    }
    if length > MAX_VERDICT_BYTES as u64 {
        let head = text::cat3(
            "the guest returned ",
            text::u64_text(length).as_str(),
            " bytes, over the ",
        );
        return Err(
            text::cat3(
                head.as_str(),
                text::u64_text(MAX_VERDICT_BYTES as u64).as_str(),
                " byte limit",
            ),
        );
    }
    match guest.read(offset as usize, length as usize) {
        Some(verdict) => Ok(verdict),
        None => Err("the guest returned a pointer outside its own memory".to_owned()),
    }
}

/// A pointer and a length as one wide number.
pub open spec fn packed(pointer: u32, length: u32) -> i64 {
    (((pointer as u64) << 32) | (length as u64)) as i64
}

/// Packs a pointer and a length into one wide number, as a guest returns them.
pub fn pack(pointer: u32, length: u32) -> (r: i64)
    ensures
        r == packed(pointer, length),
{
    #[verifier::truncate]
    ((((pointer as u64) << 32) | (length as u64)) as i64)
}

/// Packing a pointer and a length into one wide number and reading the range back gives
/// them back.
pub proof fn law_a_packed_range_reads_back(pointer: u32, length: u32)
    ensures
        packed_range(packed(pointer, length)) == (pointer as int, length as int),
{
    let wide = ((pointer as u64) << 32) | (length as u64);
    assert((wide as i64) as u64 == wide) by (bit_vector);
    assert(wide >> 32 == pointer as u64 && wide & 0xffff_ffff == length as u64) by (bit_vector)
        requires
            wide == ((pointer as u64) << 32) | (length as u64),
    ;
}

/// What a result of a JSON value says.
pub open spec fn json_result_of(r: Result<Json, String>) -> Result<JsonView, Seq<char>> {
    match r {
        Ok(j) => Ok(j@),
        Err(e) => Err(e@),
    }
}

/// The settings in a block of parameters, as JSON: an empty object where none are
/// given, an error where they are not a mapping.
pub open spec fn settings_spec(params: Map<Seq<char>, YamlView>, context: Seq<char>) -> Result<
    JsonView,
    Seq<char>,
> {
    if !params.contains_key("settings"@) {
        Ok(JsonView::Object(Map::empty()))
    } else {
        match yaml::yaml_json(params["settings"@]) {
            Ok(j) => if j is Object {
                Ok(j)
            } else {
                Err(context + " 'settings' must be a mapping"@)
            },
            Err(e) => Err(context + " 'settings' is not representable as JSON: "@ + e),
        }
    }
}

/// Reads the settings in a block of parameters.
pub fn settings_of(params: &StrMap<yaml_serde::Value>, context: &str) -> (r: Result<Json, String>)
    ensures
        json_result_of(r) == settings_spec(yaml::block_view(*params), context@),
{
    let settings = match params.get("settings") {
        Some(settings) => settings,
        None => return Ok(Json::Object(json::empty_object())),
    };
    match yaml::yaml_to_json(settings) {
        Ok(value) => {
            let value = tree::read_value(value);
            match value {
                Json::Object(_) => Ok(value),
                _ => Err(text::cat2(context, " 'settings' must be a mapping")),
            }
        },
        Err(error) => Err(
            text::cat3(context, " 'settings' is not representable as JSON: ", error.as_str()),
        ),
    }
}

/// Where the module of a declaration lies, or why that cannot be told.
pub open spec fn path_spec(params: Map<Seq<char>, YamlView>, env: Map<Seq<char>, String>) -> Result<
    Seq<char>,
    Seq<char>,
> {
    if !params.contains_key("path"@) {
        Err(KIND@ + " requires 'path' to a .wasm module"@)
    } else {
        match params["path"@] {
            YamlView::Text(s) => plugins::expand_spec(s, s, env),
            _ => Err(KIND@ + " 'path' must be a string"@),
        }
    }
}

/// Reads where the module of a declaration lies.
pub fn module_file(config: &PluginConfig, env: &StrMap<String>) -> (r: Result<String, String>)
    ensures
        text::result_of(r) == path_spec(yaml::block_view(config.params), env@),
{
    match config.params.get("path") {
        Some(value) => match yaml::open_yaml(value) {
            yaml::YamlLevel::Text(path) => plugins::expand_env(path, env),
            _ => Err(text::cat2(KIND, " 'path' must be a string")),
        },
        None => Err(text::cat2(KIND, " requires 'path' to a .wasm module")),
    }
}

/// Why a module without one of the exports is refused.
pub open spec fn lacks(path: Seq<char>, export: Seq<char>) -> Seq<char> {
    "module '"@ + path + "' does not export '"@ + export + "' (see the wasm-plugin ABI)"@
}

/// Whether a module has a response phase, or the first required export it lacks.
pub open spec fn abi_spec(path: Seq<char>, exports: Seq<Seq<char>>) -> Result<bool, Seq<char>> {
    if !exports.contains(EXPORT_ALLOC@) {
        Err(lacks(path, EXPORT_ALLOC@))
    } else if !exports.contains(EXPORT_ON_REQUEST@) {
        Err(lacks(path, EXPORT_ON_REQUEST@))
    } else if !exports.contains(EXPORT_MEMORY@) {
        Err(lacks(path, EXPORT_MEMORY@))
    } else {
        Ok(exports.contains(EXPORT_ON_RESPONSE@))
    }
}

/// Checks the exports of a module, so that a missing one is found when the gateway
/// starts rather than on the first request.
pub fn check_exports(path: &str, exports: &Vec<String>) -> (r: Result<bool, String>)
    ensures
        text::value_result_of(r) == abi_spec(path@, text::texts(exports@)),
{
    let required: [&'static str; 3] = [EXPORT_ALLOC, EXPORT_ON_REQUEST, EXPORT_MEMORY];
    let mut i: usize = 0;
    while i < 3
        invariant
            i <= 3,
            required@ == seq![EXPORT_ALLOC, EXPORT_ON_REQUEST, EXPORT_MEMORY],
            forall|k: int| 0 <= k < i ==> text::texts(exports@).contains(#[trigger] required@[k]@),
        decreases 3 - i,
    {
        let export: &'static str = required[i];
        if !text::contains_text(exports, export) {
            let head = text::cat3("module '", path, "' does not export '");
            proof {
                assert(i == 0 || i == 1 || i == 2);
                assert(required@[0]@ == EXPORT_ALLOC@);
                assert(required@[1]@ == EXPORT_ON_REQUEST@);
                assert(required@[2]@ == EXPORT_MEMORY@);
            }
            return Err(text::cat3(head.as_str(), export, "' (see the wasm-plugin ABI)"));
        }
        i = i + 1;
    }
    proof {
        assert(required@[0]@ == EXPORT_ALLOC@);
        assert(required@[1]@ == EXPORT_ON_REQUEST@);
        assert(required@[2]@ == EXPORT_MEMORY@);
    }
    Ok(text::contains_text(exports, EXPORT_ON_RESPONSE))
}

/// What a declaration sets: the base settings, the budgets, and whether requests pass
/// where the module fails.
pub struct Setup {
    pub settings: Json,
    pub fuel: u64,
    pub memory_max_bytes: usize,
    pub fail_open: bool,
}

/// What a declaration sets, with its settings as they read.
pub struct SetupView {
    pub settings: JsonView,
    pub fuel: u64,
    pub memory_max_bytes: usize,
    pub fail_open: bool,
}

impl View for Setup {
    type V = SetupView;

    open spec fn view(&self) -> SetupView {
        SetupView {
            settings: self.settings@,
            fuel: self.fuel,
            memory_max_bytes: self.memory_max_bytes,
            fail_open: self.fail_open,
        }
    }
}

/// What a declaration sets, or the first of its parameters that is no good.
pub open spec fn setup_spec(params: Map<Seq<char>, YamlView>) -> Result<SetupView, Seq<char>> {
    match settings_spec(params, KIND@) {
        Err(e) => Err(e),
        Ok(settings) => match plugins::number_spec(params, "fuel"@, DEFAULT_FUEL) {
            Err(e) => Err(e),
            Ok(fuel) => match plugins::number_spec(
                params,
                "memory-max-bytes"@,
                DEFAULT_MEMORY_MAX_BYTES,
            ) {
                Err(e) => Err(e),
                Ok(memory) => match plugins::flag_spec(params, "fail-open"@, false) {
                    Err(e) => Err(e),
                    Ok(fail_open) => Ok(
                        SetupView {
                            settings,
                            fuel,
                            memory_max_bytes: memory as usize,
                            fail_open,
                        },
                    ),
                },
            },
        },
    }
}

/// Reads what a declaration sets.
pub fn setup(params: &StrMap<yaml_serde::Value>) -> (r: Result<Setup, String>)
    ensures
        match r {
            Ok(s) => setup_spec(yaml::block_view(*params)) == Ok::<SetupView, Seq<char>>(s@),
            Err(e) => setup_spec(yaml::block_view(*params)) == Err::<SetupView, Seq<char>>(e@),
        },
{
    let settings = match settings_of(params, KIND) {
        Ok(settings) => settings,
        Err(e) => return Err(e),
    };
    let fuel: u64 = match plugins::number(params, "fuel", DEFAULT_FUEL) {
        Ok(fuel) => fuel,
        Err(e) => return Err(e),
    };
    let memory: u64 = match plugins::number(params, "memory-max-bytes", DEFAULT_MEMORY_MAX_BYTES) {
        Ok(memory) => memory,
        Err(e) => return Err(e),
    };
    let fail_open = match plugins::flag(params, "fail-open") {
        Ok(fail_open) => fail_open,
        Err(e) => return Err(e),
    };
    Ok(
        Setup {
            settings,
            fuel,
            memory_max_bytes: #[verifier::truncate]
            (memory as usize),
            fail_open,
        },
    )
}

/// What an entry of `plugins:` declares of a module: where it lies, and what is set for
/// it.
pub struct Declaration {
    pub file: String,
    pub setup: Setup,
}

/// What a declaration of a module says.
pub struct DeclarationView {
    pub file: Seq<char>,
    pub setup: SetupView,
}

impl View for Declaration {
    type V = DeclarationView;

    open spec fn view(&self) -> DeclarationView {
        DeclarationView { file: self.file@, setup: self.setup@ }
    }
}

/// What an entry of `plugins:` declares of a module, or the first thing wrong with it.
pub open spec fn declaration_spec(
    params: Map<Seq<char>, YamlView>,
    env: Map<Seq<char>, String>,
) -> Result<DeclarationView, Seq<char>> {
    match path_spec(params, env) {
        Err(e) => Err(e),
        Ok(file) => match setup_spec(params) {
            Err(e) => Err(e),
            Ok(setup) => Ok(DeclarationView { file, setup }),
        },
    }
}

/// Reads what an entry of `plugins:` declares of a module. The module itself is loaded
/// apart, by [`WasmRuntime::load`].
pub fn declare(config: &PluginConfig, env: &StrMap<String>) -> (r: Result<Declaration, String>)
    ensures
        (match r {
            Ok(d) => Ok(d@),
            Err(e) => Err(e@),
        }) == declaration_spec(yaml::block_view(config.params), env@),
{
    match module_file(config, env) {
        Err(e) => Err(e),
        Ok(file) => match setup(&config.params) {
            Err(e) => Err(e),
            Ok(setup) => Ok(Declaration { file, setup }),
        },
    }
}

/// A route's binding to a module by its name, with the settings that the route sees.
pub struct FilterBinding {
    pub name: String,
    pub settings: Json,
}

/// What a binding to a module says.
pub struct BindingView {
    pub name: Seq<char>,
    pub settings: JsonView,
}

impl View for FilterBinding {
    type V = BindingView;

    open spec fn view(&self) -> BindingView {
        BindingView { name: self.name@, settings: self.settings@ }
    }
}

/// What some bindings say.
pub open spec fn bindings_view(v: Seq<FilterBinding>) -> Seq<BindingView> {
    v.map_values(|b: FilterBinding| b@)
}

/// The binding that a route's reference declares.
pub open spec fn binding_spec(base: JsonView, reference: PluginReference) -> Result<
    BindingView,
    Seq<char>,
> {
    match bound_spec(base, reference) {
        Ok(settings) => Ok(BindingView { name: reference.name@, settings }),
        Err(e) => Err(e),
    }
}

/// The binding that a service which registers itself asks for: it may give settings, and
/// nothing that only a guard does.
pub open spec fn asked_spec(
    base: JsonView,
    name: Seq<char>,
    roles: Seq<Seq<char>>,
    insert_headers: Seq<(Seq<char>, Seq<char>)>,
    settings: Option<JsonView>,
) -> Result<BindingView, Seq<char>> {
    if roles.len() > 0 || insert_headers.len() > 0 {
        Err(misplaced(name))
    } else {
        match settings {
            None => Ok(BindingView { name, settings: base }),
            Some(JsonView::Object(o)) => Ok(
                BindingView { name, settings: json::merged(base, JsonView::Object(o)) },
            ),
            Some(_) => Err("a wasm-plugin route reference 'settings' must be a mapping"@),
        }
    }
}

/// What a binding says, or the text of an error.
pub open spec fn binding_result_of(r: Result<FilterBinding, String>) -> Result<
    BindingView,
    Seq<char>,
> {
    match r {
        Ok(b) => Ok(b@),
        Err(e) => Err(e@),
    }
}

impl FilterBinding {
    /// Binds a route to a module by a reference, laying the settings of the reference
    /// over those of the module.
    pub fn from_reference(base: &Json, reference: &PluginReference) -> (r: Result<Self, String>)
        ensures
            binding_result_of(r) == binding_spec(base@, *reference),
    {
        match bind_settings(base, reference) {
            Ok(settings) => Ok(FilterBinding { name: reference.name.clone(), settings }),
            Err(e) => Err(e),
        }
    }

    /// Binds a route to a module as a service which registers itself asks for it.
    pub fn from_request(
        base: &Json,
        name: &str,
        roles: &Vec<String>,
        insert_headers: &StrMap<String>,
        settings: &Option<Json>,
    ) -> (r: Result<Self, String>)
        ensures
            binding_result_of(r) == asked_spec(
                base@,
                name@,
                text::texts(roles@),
                strmap::pairs_of(*insert_headers),
                json::opt_view(*settings),
            ),
    {
        if roles.len() > 0 || insert_headers.len() > 0 {
            return Err(tell_misplaced(name));
        }
        match settings {
            None => Ok(FilterBinding { name: name.to_owned(), settings: base.copy() }),
            Some(Json::Object(o)) => {
                let overlay = Json::Object(json::copy_object(o));
                let settings = json::merge(base.copy(), overlay);
                Ok(FilterBinding { name: name.to_owned(), settings })
            },
            Some(_) => Err(
                "a wasm-plugin route reference 'settings' must be a mapping".to_owned(),
            ),
        }
    }

    /// Copies a binding.
    pub fn copy(&self) -> (r: Self)
        ensures
            r@ == self@,
    {
        FilterBinding { name: self.name.clone(), settings: self.settings.copy() }
    }

    /// The filter that the binding makes of the module it names, once that is loaded.
    pub fn filter(&self, plugin: Arc<WasmPlugin>) -> (r: WasmFilter)
        ensures
            r.plugin == plugin,
            r.settings@ == self@.settings,
    {
        WasmFilter { plugin, settings: self.settings.copy() }
    }
}

/// Holds the one engine every module is compiled with.
pub struct WasmRuntime {
    pub engine: wasmtime::Engine,
}

impl WasmRuntime {
    /// Starts the engine. Whether it starts depends on the machine; where it does not,
    /// the error says so and why.
    pub fn new() -> (r: Result<Self, String>)
        ensures
            match r {
                Ok(runtime) => guest::engine_starts(RESERVED, RESERVED, Ok(runtime.engine)),
                Err(e) => exists|why: Seq<char>| #[trigger]
                    guest::engine_starts(RESERVED, RESERVED, Err(why)) && e@
                        == "could not start the WebAssembly engine: "@ + why,
            },
    {
        match guest::new_engine(RESERVED, RESERVED) {
            Ok(engine) => Ok(WasmRuntime { engine }),
            Err(error) => Err(
                text::cat2("could not start the WebAssembly engine: ", error.as_str()),
            ),
        }
    }

    /// Compiles the module of a declaration and checks what it exports. `source` is what
    /// reading the file that [`module_file`] names gave. Whether a module compiles and
    /// links is up to the engine.
    pub fn load(
        &self,
        config: &PluginConfig,
        source: Result<Vec<u8>, String>,
        env: &StrMap<String>,
    ) -> (r: Result<WasmPlugin, String>)
        ensures
            match path_spec(yaml::block_view(config.params), env@) {
                Err(e) => r matches Err(said) && said@ == e,
                Ok(path) => match source {
                    Err(why) => r matches Err(said) && said@ == not_loaded(path) + why@,
                    Ok(bytes) => loaded(self.engine, *config, path, bytes@, r),
                },
            },
    {
        let path = match module_file(config, env) {
            Ok(path) => path,
            Err(e) => return Err(e),
        };
        let bytes = match source {
            Ok(bytes) => bytes,
            Err(why) => return Err(
                text::cat2(
                    text::cat3("could not load module '", path.as_str(), "': ").as_str(),
                    why.as_str(),
                ),
            ),
        };
        let (module, exports) = match guest::compile(&self.engine, &bytes) {
            Ok(compiled) => compiled,
            Err(why) => return Err(
                text::cat2(
                    text::cat3("could not load module '", path.as_str(), "': ").as_str(),
                    why.as_str(),
                ),
            ),
        };
        let has_response_phase = match check_exports(path.as_str(), &exports) {
            Ok(has) => has,
            Err(e) => return Err(e),
        };
        let instance_pre = match guest::link(&module, HOST_MODULE, HOST_LOG) {
            Ok(instance_pre) => instance_pre,
            Err(fault) => {
                proof {
                    assert(made_of(self.engine, bytes@, Err(fault)));
                }
                return Err(unlinked(path.as_str(), fault));
            },
        };
        proof {
            assert(made_of(self.engine, bytes@, Ok(instance_pre)));
        }
        let setup = match setup(&config.params) {
            Ok(setup) => setup,
            Err(e) => return Err(e),
        };
        Ok(
            WasmPlugin {
                name: config.name.clone(),
                module_file: path,
                instance_pre,
                settings: setup.settings,
                fuel: setup.fuel,
                memory_max_bytes: setup.memory_max_bytes,
                fail_open: setup.fail_open,
                has_response_phase,
            },
        )
    }
}

/// How the error of a module that could not be read or compiled begins.
pub open spec fn not_loaded(path: Seq<char>) -> Seq<char> {
    "could not load module '"@ + path + "': "@
}

/// Whether linking what was compiled of a source may give that.
pub open spec fn made_of(
    engine: wasmtime::Engine,
    source: Seq<u8>,
    outcome: Result<wasmtime::InstancePre<HostState>, LinkFault>,
) -> bool {
    exists|module: wasmtime::Module| #[trigger]
        guest::links(module, HOST_MODULE@, HOST_LOG@, outcome) && guest::compiles(engine, source, Ok(module))
}

/// Why a module could not be linked.
pub open spec fn unlinked_text(path: Seq<char>, fault: LinkFault) -> Seq<char> {
    match fault {
        LinkFault::Host(why) => "could not define the host 'gillnet.log' function: "@ + why@,
        LinkFault::Import(why) => "module '"@ + path + "' could not be linked: "@ + why@,
    }
}

/// Tells why a module could not be linked.
fn unlinked(path: &str, fault: LinkFault) -> (r: String)
    ensures
        r@ == unlinked_text(path@, fault),
{
    match fault {
        LinkFault::Host(why) => text::cat2(
            "could not define the host 'gillnet.log' function: ",
            why.as_str(),
        ),
        LinkFault::Import(why) => text::cat2(
            text::cat3("module '", path, "' could not be linked: ").as_str(),
            why.as_str(),
        ),
    }
}

/// Whether loading a module may give that: the plugin its declaration describes, or the
/// error of the first step that fails. The module is compiled, it must export what the
/// host calls, it is linked, and the parameters are read.
pub open spec fn loaded(
    engine: wasmtime::Engine,
    config: PluginConfig,
    path: Seq<char>,
    source: Seq<u8>,
    r: Result<WasmPlugin, String>,
) -> bool {
    let abi = abi_spec(path, guest::exports_of(source));
    let setup = setup_spec(yaml::block_view(config.params));
    match r {
        Ok(plugin) => {
            &&& abi == Ok::<bool, Seq<char>>(plugin.has_response_phase)
            &&& setup == Ok::<SetupView, Seq<char>>(plugin.setup_view())
            &&& plugin.name@ == config.name@
            &&& plugin.module_file@ == path
            &&& made_of(engine, source, Ok(plugin.instance_pre))
        },
        Err(e) => {
            ||| exists|why: Seq<char>| #[trigger]
                guest::compiles(engine, source, Err(why)) && e@ == not_loaded(path) + why
            ||| abi == Err::<bool, Seq<char>>(e@) && exists|module: wasmtime::Module| #[trigger]
                guest::compiles(engine, source, Ok(module))
            ||| abi is Ok && exists|fault: LinkFault| #[trigger]
                made_of(engine, source, Err(fault)) && e@ == unlinked_text(path, fault)
            ||| abi is Ok && setup == Err::<SetupView, Seq<char>>(e@) && exists|
                linked: wasmtime::InstancePre<HostState>,
            | #[trigger]
                made_of(engine, source, Ok(linked))
        },
    }
}

impl WasmPlugin {
    /// What the declaration of the plugin set.
    pub open spec fn setup_view(self) -> SetupView {
        SetupView {
            settings: self.settings@,
            fuel: self.fuel,
            memory_max_bytes: self.memory_max_bytes,
            fail_open: self.fail_open,
        }
    }

    /// The `type:` of the plugin.
    pub fn kind(&self) -> (r: &'static str)
        ensures
            r@ == KIND@,
    {
        KIND
    }

    /// Where the module was read from.
    pub fn module_file(&self) -> (r: &str)
        ensures
            r@ == self.module_file@,
    {
        self.module_file.as_str()
    }

    /// The base settings.
    pub fn settings(&self) -> (r: &Json)
        ensures
            *r == self.settings,
    {
        &self.settings
    }
}

/// The parameters of a reference, none where it gives none.
pub open spec fn reference_params(reference: PluginReference) -> Map<Seq<char>, YamlView> {
    match reference.params {
        Some(params) => yaml::block_view(params),
        None => Map::empty(),
    }
}

/// Why a reference that asks a filter for what only a guard does is refused.
pub open spec fn misplaced(name: Seq<char>) -> Seq<char> {
    "plugin '"@ + name + "' is a "@ + KIND@
        + "; 'roles' and 'insert-headers' belong to auth plugins, put per-route values under 'settings'"@
}

/// The settings a route sees: its own laid over those of the plugin.
pub open spec fn bound_spec(base: JsonView, reference: PluginReference) -> Result<
    JsonView,
    Seq<char>,
> {
    let params = reference_params(reference);
    if params.contains_key("roles"@) || params.contains_key("insert-headers"@) {
        Err(misplaced(reference.name@))
    } else {
        match settings_spec(params, "a wasm-plugin route reference"@) {
            Ok(settings) => Ok(json::merged(base, settings)),
            Err(e) => Err(e),
        }
    }
}

/// Tells why a reference that asks a filter for what only a guard does is refused.
fn tell_misplaced(name: &str) -> (r: String)
    ensures
        r@ == misplaced(name@),
{
    let head = text::cat3("plugin '", name, "' is a ");
    text::cat3(
        head.as_str(),
        KIND,
        "; 'roles' and 'insert-headers' belong to auth plugins, put per-route values under 'settings'",
    )
}

/// The settings a route sees: its own laid over those of the plugin.
fn bind_settings(base: &Json, reference: &PluginReference) -> (r: Result<Json, String>)
    ensures
        json_result_of(r) == bound_spec(base@, *reference),
{
    let none: StrMap<yaml_serde::Value> = StrMap::new();
    proof {
        assert(yaml::block_view(none) =~= Map::empty());
    }
    let params = match &reference.params {
        Some(params) => params,
        None => &none,
    };
    if params.contains_key("roles") || params.contains_key("insert-headers") {
        return Err(tell_misplaced(reference.name.as_str()));
    }
    match settings_of(params, "a wasm-plugin route reference") {
        Ok(settings) => Ok(json::merge(base.copy(), settings)),
        Err(e) => Err(e),
    }
}

impl WasmFilter {
    /// Binds a route to a plugin, laying the route's settings over those of the plugin
    /// here rather than on every request.
    pub fn from_reference(plugin: Arc<WasmPlugin>, reference: &PluginReference) -> (r: Result<
        Self,
        String,
    >)
        ensures
            match r {
                Ok(filter) => bound_spec(plugin.settings@, *reference) == Ok::<JsonView, Seq<char>>(
                    filter.settings@,
                ) && filter.plugin == plugin,
                Err(e) => bound_spec(plugin.settings@, *reference) == Err::<JsonView, Seq<char>>(
                    e@,
                ),
            },
    {
        match bind_settings(&plugin.settings, reference) {
            Ok(settings) => Ok(WasmFilter { plugin, settings }),
            Err(e) => Err(e),
        }
    }

    /// Binds to a plugin with settings that are given directly, as a service that
    /// registers itself does.
    pub fn build(plugin: Arc<WasmPlugin>, overrides: Json) -> (r: Result<Self, String>)
        ensures
            r matches Ok(filter) && filter.plugin == plugin && filter.settings@ == json::merged(
                plugin.settings@,
                overrides@,
            ),
    {
        let settings = json::merge(plugin.settings.copy(), overrides);
        Ok(WasmFilter { plugin, settings })
    }

    /// The name of the plugin.
    pub fn name(&self) -> (r: &str)
        ensures
            r@ == self.plugin.name@,
    {
        self.plugin.name.as_str()
    }

    /// The `type:` of the plugin.
    pub fn kind(&self) -> (r: &'static str)
        ensures
            r@ == KIND@,
    {
        self.plugin.kind()
    }

    /// The settings the route sees.
    pub fn settings(&self) -> (r: &Json)
        ensures
            *r == self.settings,
    {
        &self.settings
    }

    /// Whether the module has a response phase.
    pub fn has_response_phase(&self) -> (r: bool)
        ensures
            r == self.plugin.has_response_phase,
    {
        self.plugin.has_response_phase
    }
}

/// The pairs that are legal header fields, their names in small letters.
pub open spec fn legal(pairs: Seq<(Seq<char>, Seq<char>)>) -> Seq<(Seq<char>, Seq<char>)>
    decreases pairs.len(),
{
    if pairs.len() == 0 {
        Seq::empty()
    } else {
        let (name, value) = pairs.last();
        if headers::valid_name(name) && headers::valid_value(value) {
            legal(pairs.drop_last()).push((text::lower_spec(name), value))
        } else {
            legal(pairs.drop_last())
        }
    }
}

/// What is said of the pairs that are not.
pub open spec fn dropped(plugin: Seq<char>, pairs: Seq<(Seq<char>, Seq<char>)>) -> Seq<Seq<char>>
    decreases pairs.len(),
{
    if pairs.len() == 0 {
        Seq::empty()
    } else {
        let (name, value) = pairs.last();
        if headers::valid_name(name) && headers::valid_value(value) {
            dropped(plugin, pairs.drop_last())
        } else {
            dropped(plugin, pairs.drop_last()).push(
                "wasm plugin '"@ + plugin + "' returned an invalid header '"@ + name
                    + "'; dropping it"@,
            )
        }
    }
}

/// The name a header field goes by.
pub open spec fn pair_key() -> spec_fn((Seq<char>, Seq<char>)) -> Seq<char> {
    |p: (Seq<char>, Seq<char>)| p.0
}

/// The header fields a guest asks for: the legal ones, in the order of their names.
pub open spec fn valid_spec(pairs: Seq<(Seq<char>, Seq<char>)>) -> Seq<(Seq<char>, Seq<char>)> {
    sorting::sorted(legal(pairs), pair_key())
}

/// Puts a header field into a list that is in the order of names.
fn place_pair(v: &mut Vec<(String, String)>, x: (String, String))
    ensures
        text::pairs_view(final(v)@) == sorting::placed(
            text::pairs_view(old(v)@),
            (x.0@, x.1@),
            pair_key(),
        ),
{
    let ghost before = text::pairs_view(v@);
    let ghost pair = (x.0@, x.1@);
    let mut at: usize = v.len();
    while at > 0 && text::comes_before(x.0.as_str(), v[at - 1].0.as_str())
        invariant
            at <= v@.len(),
            v@ == old(v)@,
            before == text::pairs_view(v@),
            pair == (x.0@, x.1@),
            forall|k: int|
                at <= k < before.len() ==> text::precedes(
                    pair_key()(pair),
                    pair_key()(#[trigger] before[k]),
                ),
        decreases at,
    {
        proof {
            assert(before[at - 1] == (v@[at - 1].0@, v@[at - 1].1@));
        }
        at = at - 1;
    }
    proof {
        if at > 0 {
            assert(before[at - 1] == (v@[at - 1].0@, v@[at - 1].1@));
        }
        sorting::lemma_placed(before, pair, pair_key(), at as int);
    }
    v.insert(at, x);
    proof {
        assert(text::pairs_view(v@) =~= before.insert(at as int, pair));
    }
}

/// Keeps the legal header fields of a verdict. A value with a line break in it would
/// splice headers downstream, so a pair that is not legal is dropped, and said so.
pub fn valid_headers(filter: &WasmFilter, pairs: &StrMap<String>, log: &mut Vec<String>) -> (r: Vec<
    (String, String),
>)
    ensures
        text::pairs_view(r@) == valid_spec(strmap::pairs_of(*pairs)),
        text::texts(final(log)@) == text::texts(old(log)@) + dropped(
            filter.plugin.name@,
            strmap::pairs_of(*pairs),
        ),
{
    let mut out: Vec<(String, String)> = Vec::new();
    let n = pairs.len();
    let mut i: usize = 0;
    let ghost all = strmap::pairs_of(*pairs);
    let ghost said = text::texts(log@);
    proof {
        assert(all.take(0) =~= Seq::empty());
        assert(text::pairs_view(out@) =~= Seq::empty());
        assert(said + Seq::<Seq<char>>::empty() =~= said);
    }
    while i < n
        invariant
            i <= n,
            n == pairs.entries().len(),
            all == strmap::pairs_of(*pairs),
            text::pairs_view(out@) == valid_spec(all.take(i as int)),
            text::texts(log@) == said + dropped(filter.plugin.name@, all.take(i as int)),
        decreases n - i,
    {
        let (name, value) = pairs.at(i);
        proof {
            assert(all.take(i + 1).drop_last() =~= all.take(i as int));
            assert(all.take(i + 1).last() == (name@, value@));
        }
        if headers::is_name(name) && headers::is_value(value.as_str()) {
            proof {
                let longer = legal(all.take(i + 1));
                assert(longer.drop_last() =~= legal(all.take(i as int)));
            }
            place_pair(&mut out, (text::lower(name), value.clone()));
        } else {
            let head = text::cat3(
                "wasm plugin '",
                filter.name(),
                "' returned an invalid header '",
            );
            let line = text::cat3(head.as_str(), name, "'; dropping it");
            let ghost sofar = text::texts(log@);
            log.push(line);
            proof {
                assert(text::texts(log@) =~= sofar.push(line@));
                assert(text::texts(log@) =~= said + dropped(
                    filter.plugin.name@,
                    all.take(i + 1),
                ));
            }
        }
        i = i + 1;
    }
    proof {
        assert(all.take(i as int) =~= all);
    }
    out
}

/// What a guest answers, as texts.
pub struct VerdictView {
    pub action: Action,
    pub set_headers: Seq<(Seq<char>, Seq<char>)>,
    pub remove_headers: Seq<Seq<char>>,
    pub status: Option<u16>,
    pub headers: Seq<(Seq<char>, Seq<char>)>,
    pub body: Seq<char>,
}

impl View for Verdict {
    type V = VerdictView;

    open spec fn view(&self) -> VerdictView {
        VerdictView {
            action: self.action,
            set_headers: strmap::pairs_of(self.set_headers),
            remove_headers: text::texts(self.remove_headers@),
            status: self.status,
            headers: strmap::pairs_of(self.headers),
            body: self.body@,
        }
    }
}

/// Names in small letters.
pub open spec fn lowered(names: Seq<Seq<char>>) -> Seq<Seq<char>> {
    names.map_values(|n: Seq<char>| text::lower_spec(n))
}

/// The changes a verdict makes.
pub open spec fn edits_spec(v: VerdictView) -> EditsView {
    EditsView { set: valid_spec(v.set_headers), remove: lowered(v.remove_headers) }
}

/// Reads the changes a verdict makes.
pub fn header_edits(filter: &WasmFilter, verdict: &Verdict, log: &mut Vec<String>) -> (r:
    HeaderEdits)
    ensures
        r@ == edits_spec(verdict@),
        text::texts(final(log)@) == text::texts(old(log)@) + dropped(
            filter.plugin.name@,
            verdict@.set_headers,
        ),
{
    let mut remove: Vec<String> = Vec::new();
    let names = &verdict.remove_headers;
    let mut i: usize = 0;
    while i < names.len()
        invariant
            i <= names@.len(),
            remove@.len() == i,
            forall|k: int|
                0 <= k < i ==> (#[trigger] remove@[k])@ == text::lower_spec(names@[k]@),
        decreases names@.len() - i,
    {
        remove.push(text::lower(names[i].as_str()));
        i = i + 1;
    }
    let set = valid_headers(filter, &verdict.set_headers, log);
    let r = HeaderEdits { set, remove };
    proof {
        assert(text::texts(remove@) =~= lowered(text::texts(names@)));
    }
    r
}

/// What a filter that could not run does to a request: nothing where its plugin fails
/// open, and refuse it where it does not.
pub open spec fn failure_spec(plugin: WasmPlugin) -> FilteredView {
    if plugin.fail_open {
        FilteredView::Continue(no_edits())
    } else {
        FilteredView::Failed("plugin '"@ + plugin.name@ + "' could not run"@)
    }
}

/// What is said of a filter that could not run.
pub open spec fn failed_line(plugin: Seq<char>, phase: Seq<char>, error: Seq<char>) -> Seq<char> {
    "wasm plugin '"@ + plugin + "' failed in the "@ + phase + " phase: "@ + error
}

/// Fails closed unless the plugin fails open. A filter that could not run has not made
/// its decision, and forwarding anyway would skip whatever it was there to enforce.
pub fn fail(filter: &WasmFilter, phase: &str, error: &str, log: &mut Vec<String>) -> (r:
    FilterOutcome)
    ensures
        r@ == failure_spec(*filter.plugin),
        text::texts(final(log)@) == text::texts(old(log)@).push(
            failed_line(filter.plugin.name@, phase@, error@),
        ),
{
    let head = text::cat3("wasm plugin '", filter.name(), "' failed in the ");
    let line = text::cat2(text::cat3(head.as_str(), phase, " phase: ").as_str(), error);
    log.push(line);
    proof {
        assert(text::texts(log@) =~= text::texts(old(log)@).push(line@));
    }
    if filter.plugin.fail_open {
        FilterOutcome::Continue(HeaderEdits::default())
    } else {
        FilterOutcome::Failed(text::cat3("plugin '", filter.name(), "' could not run"))
    }
}

/// The status of a response a guest answers with.
pub open spec fn stop_status(v: VerdictView) -> u16 {
    match v.status {
        Some(status) => status,
        None => 403,
    }
}

/// What a verdict does to a request. A stop with a status that is none is a failure.
pub open spec fn outcome_spec(plugin: WasmPlugin, v: VerdictView) -> FilteredView {
    if v.action == Action::Stop {
        if 100 <= stop_status(v) <= 599 {
            FilteredView::Stop {
                status: stop_status(v),
                headers: valid_spec(v.headers),
                body: v.body,
            }
        } else {
            failure_spec(plugin)
        }
    } else {
        FilteredView::Continue(edits_spec(v))
    }
}

/// What is said of a verdict.
pub open spec fn outcome_lines(plugin: WasmPlugin, v: VerdictView) -> Seq<Seq<char>> {
    if v.action == Action::Stop {
        if 100 <= stop_status(v) <= 599 {
            dropped(plugin.name@, v.headers)
        } else {
            seq![
                failed_line(
                    plugin.name@,
                    "request"@,
                    "returned invalid status "@ + text::decimal(stop_status(v) as nat),
                ),
            ]
        }
    } else {
        dropped(plugin.name@, v.set_headers)
    }
}

/// Turns a verdict into what happens to the request.
pub fn into_outcome(filter: &WasmFilter, verdict: Verdict, log: &mut Vec<String>) -> (r:
    FilterOutcome)
    ensures
        r@ == outcome_spec(*filter.plugin, verdict@),
        text::texts(final(log)@) == text::texts(old(log)@) + outcome_lines(
            *filter.plugin,
            verdict@,
        ),
{
    if verdict.action == Action::Stop {
        let status: u16 = match verdict.status {
            Some(status) => status,
            None => 403,
        };
        if status < 100 || status > 599 {
            let error = text::cat2(
                "returned invalid status ",
                text::u64_text(status as u64).as_str(),
            );
            let failure = fail(filter, "request", error.as_str(), log);
            proof {
                assert(text::texts(log@) =~= text::texts(old(log)@) + outcome_lines(
                    *filter.plugin,
                    verdict@,
                ));
            }
            return failure;
        }
        let headers = valid_headers(filter, &verdict.headers, log);
        return FilterOutcome::Stop(
            Box::new(StopResponse { status, headers, body: verdict.body }),
        );
    }
    FilterOutcome::Continue(header_edits(filter, &verdict, log))
}

/// The headers of a message as a guest sees them: one text to a name, those sent more
/// than once joined, and those that are not valid UTF-8 left out.
pub open spec fn collected(h: Seq<(Seq<char>, Seq<u8>)>) -> Map<Seq<char>, JsonView>
    decreases h.len(),
{
    if h.len() == 0 {
        Map::empty()
    } else {
        let sofar = collected(h.drop_last());
        let name = h.last().0;
        match guest::text_of(h.last().1) {
            Some(value) => if sofar.contains_key(name) && sofar[name] is Text {
                sofar.insert(name, JsonView::Text(sofar[name]->Text_0 + ", "@ + value))
            } else {
                sofar.insert(name, JsonView::Text(value))
            },
            None => sofar,
        }
    }
}

/// Collects the headers of a message for a guest. The proxy still forwards the ones a
/// guest does not see.
pub fn collect_headers(fields: &HeaderList) -> (r: StrMap<Json>)
    ensures
        json::fields(r) == collected(fields@),
{
    let mut out = json::empty_object();
    let mut i: usize = 0;
    proof {
        assert(fields@.take(0) =~= Seq::empty());
    }
    while i < fields.fields.len()
        invariant
            i <= fields.fields@.len(),
            json::fields(out) == collected(fields@.take(i as int)),
        decreases fields.fields@.len() - i,
    {
        let field = &fields.fields[i];
        proof {
            assert(fields@.take(i + 1).drop_last() =~= fields@.take(i as int));
            assert(fields@.take(i + 1).last() == headers::field_view(*field));
        }
        if let Some(value) = guest::utf8_text(proxy::copy_bytes(&field.value)) {
            let value = match json::get_field(&out, field.name.as_str()) {
                Some(Json::Text(existing)) => text::cat3(existing.as_str(), ", ", value.as_str()),
                _ => value,
            };
            json::put_field(&mut out, field.name.clone(), Json::Text(value));
        }
        i = i + 1;
    }
    proof {
        assert(fields@.take(i as int) =~= fields@);
    }
    out
}

/// Headers without the named ones.
pub open spec fn removed(m: Map<Seq<char>, JsonView>, names: Seq<Seq<char>>) -> Map<
    Seq<char>,
    JsonView,
>
    decreases names.len(),
{
    if names.len() == 0 {
        m
    } else {
        removed(m, names.drop_last()).remove(names.last())
    }
}

/// Headers with some set; of two with one name the later counts.
pub open spec fn put(m: Map<Seq<char>, JsonView>, pairs: Seq<(Seq<char>, Seq<char>)>) -> Map<
    Seq<char>,
    JsonView,
>
    decreases pairs.len(),
{
    if pairs.len() == 0 {
        m
    } else {
        put(m, pairs.drop_last()).insert(pairs.last().0, JsonView::Text(pairs.last().1))
    }
}

/// Headers with the changes made: first what is removed, and then what is set.
pub open spec fn edited(m: Map<Seq<char>, JsonView>, e: EditsView) -> Map<Seq<char>, JsonView> {
    put(removed(m, e.remove), e.set)
}

/// Makes the changes to headers a guest will see.
pub fn apply_to_json(fields: &mut StrMap<Json>, edits: &HeaderEdits)
    ensures
        json::fields(*final(fields)) == edited(json::fields(*old(fields)), edits@),
{
    let ghost start = json::fields(*fields);
    let ghost names = edits@.remove;
    let mut i: usize = 0;
    proof {
        assert(names.take(0) =~= Seq::empty());
    }
    while i < edits.remove.len()
        invariant
            i <= edits.remove@.len(),
            names == text::texts(edits.remove@),
            json::fields(*fields) == removed(start, names.take(i as int)),
        decreases edits.remove@.len() - i,
    {
        proof {
            assert(names.take(i + 1).drop_last() =~= names.take(i as int));
            assert(names.take(i + 1).last() == edits.remove@[i as int]@);
        }
        let _ = json::drop_field(fields, edits.remove[i].as_str());
        i = i + 1;
    }
    proof {
        assert(names.take(i as int) =~= names);
    }
    let ghost bare = json::fields(*fields);
    let ghost pairs = edits@.set;
    let mut j: usize = 0;
    proof {
        assert(pairs.take(0) =~= Seq::empty());
    }
    while j < edits.set.len()
        invariant
            j <= edits.set@.len(),
            pairs == text::pairs_view(edits.set@),
            json::fields(*fields) == put(bare, pairs.take(j as int)),
        decreases edits.set@.len() - j,
    {
        proof {
            assert(pairs.take(j + 1).drop_last() =~= pairs.take(j as int));
            assert(pairs.take(j + 1).last() == (
                edits.set@[j as int].0@,
                edits.set@[j as int].1@,
            ));
        }
        json::put_field(fields, edits.set[j].0.clone(), Json::Text(edits.set[j].1.clone()));
        j = j + 1;
    }
    proof {
        assert(pairs.take(j as int) =~= pairs);
    }
}

/// The line a request begins with, and the route it took.
pub struct RequestLine<'a> {
    pub route: &'a str,
    pub method: &'a str,
    pub path: &'a str,
    pub query: &'a str,
}

/// What a guest is asked about a request.
pub open spec fn request_input_spec(
    line: RequestLine,
    fields: Map<Seq<char>, JsonView>,
    settings: JsonView,
) -> JsonView {
    JsonView::Object(
        Map::<Seq<char>, JsonView>::empty().insert("phase"@, JsonView::Text("request"@)).insert(
            "route"@,
            JsonView::Text(line.route@),
        ).insert("method"@, JsonView::Text(line.method@)).insert(
            "path"@,
            JsonView::Text(line.path@),
        ).insert("query"@, JsonView::Text(line.query@)).insert(
            "headers"@,
            JsonView::Object(fields),
        ).insert("settings"@, settings),
    )
}

/// Writes what a guest is asked about a request.
pub fn request_input(line: &RequestLine<'_>, fields: StrMap<Json>, settings: &Json) -> (r: Json)
    ensures
        r@ == request_input_spec(*line, json::fields(fields), settings@),
{
    let mut input = json::empty_object();
    json::put_field(&mut input, "phase".to_owned(), Json::Text("request".to_owned()));
    json::put_field(&mut input, "route".to_owned(), Json::Text(line.route.to_owned()));
    json::put_field(&mut input, "method".to_owned(), Json::Text(line.method.to_owned()));
    json::put_field(&mut input, "path".to_owned(), Json::Text(line.path.to_owned()));
    json::put_field(&mut input, "query".to_owned(), Json::Text(line.query.to_owned()));
    json::put_field(&mut input, "headers".to_owned(), Json::Object(fields));
    json::put_field(&mut input, "settings".to_owned(), settings.copy());
    Json::Object(input)
}

/// What a guest is asked about a response.
pub open spec fn response_input_spec(
    route: Seq<char>,
    status: u16,
    fields: Map<Seq<char>, JsonView>,
    settings: JsonView,
) -> JsonView {
    JsonView::Object(
        Map::<Seq<char>, JsonView>::empty().insert("phase"@, JsonView::Text("response"@)).insert(
            "route"@,
            JsonView::Text(route),
        ).insert("status"@, JsonView::Int(status as int)).insert(
            "headers"@,
            JsonView::Object(fields),
        ).insert("settings"@, settings),
    )
}

/// Writes what a guest is asked about a response.
pub fn response_input(route: &str, status: u16, fields: StrMap<Json>, settings: &Json) -> (r: Json)
    ensures
        r@ == response_input_spec(route@, status, json::fields(fields), settings@),
{
    let mut input = json::empty_object();
    json::put_field(&mut input, "phase".to_owned(), Json::Text("response".to_owned()));
    json::put_field(&mut input, "route".to_owned(), Json::Text(route.to_owned()));
    json::put_field(&mut input, "status".to_owned(), Json::Numeric(Numeric::Pos(status as u64)));
    json::put_field(&mut input, "headers".to_owned(), Json::Object(fields));
    json::put_field(&mut input, "settings".to_owned(), settings.copy());
    Json::Object(input)
}

/// Why a call of a guest's function gave nothing.
pub open spec fn fault_text(fuel: u64, export: Seq<char>, fault: CallFault) -> Seq<char> {
    match fault {
        CallFault::Signature(why) => "'"@ + export + "' has the wrong signature: "@ + why@,
        CallFault::OutOfFuel => "'"@ + export + "' exhausted its fuel budget of "@ + text::decimal(
            fuel as nat,
        ) + " (raise 'fuel' if the module legitimately needs more)"@,
        CallFault::Trapped(why) => "'"@ + export + "' trapped: "@ + why@,
    }
}

/// Tells why a call of a guest's function gave nothing.
pub fn trap(plugin: &WasmPlugin, export: &str, fault: CallFault) -> (r: String)
    ensures
        r@ == fault_text(plugin.fuel, export@, fault),
{
    match fault {
        CallFault::Signature(why) => text::cat2(
            text::cat3("'", export, "' has the wrong signature: ").as_str(),
            why.as_str(),
        ),
        CallFault::OutOfFuel => {
            let head = text::cat3("'", export, "' exhausted its fuel budget of ");
            text::cat3(
                head.as_str(),
                text::u64_text(plugin.fuel).as_str(),
                " (raise 'fuel' if the module legitimately needs more)",
            )
        },
        CallFault::Trapped(why) => text::cat2(
            text::cat3("'", export, "' trapped: ").as_str(),
            why.as_str(),
        ),
    }
}

/// Why an instance did not start.
pub open spec fn start_text(fault: StartFault) -> Seq<char> {
    match fault {
        StartFault::Fuel(why) => "could not set the fuel budget: "@ + why@,
        StartFault::Instantiate(why, _) => "instantiation failed: "@ + why@,
        StartFault::NoMemory(_) => "module does not export 'memory'"@,
    }
}

/// What an instance logged that did not start.
pub open spec fn start_lines(fault: StartFault) -> Seq<Seq<char>> {
    match fault {
        StartFault::Fuel(_) => Seq::empty(),
        StartFault::Instantiate(_, lines) => text::texts(lines@),
        StartFault::NoMemory(lines) => text::texts(lines@),
    }
}

/// What a guest that holds the payload says when it is run: the bytes where it points,
/// or why there are none.
pub open spec fn concludes(
    plugin: WasmPlugin,
    export: Seq<char>,
    done: Guest,
    result: Result<i64, CallFault>,
) -> Result<Seq<u8>, Seq<char>> {
    match result {
        Ok(packed) => packed_spec(guest::guest_bytes(done), packed),
        Err(fault) => Err(fault_text(plugin.fuel, export, fault)),
    }
}

/// A guest that has allocated room is handed the payload there and is run. `asked` is
/// the guest with the payload in its memory, `done` the guest after it ran.
pub open spec fn runs_on(
    export: Seq<char>,
    payload: Seq<u8>,
    ready: Guest,
    offset: i32,
    asked: Guest,
    done: Guest,
    result: Result<i64, CallFault>,
) -> bool {
    &&& guest::guest_bytes(asked) == guest::overwritten(
        guest::guest_bytes(ready),
        offset as int,
        payload,
    )
    &&& guest::guest_lines(asked) == guest::guest_lines(ready)
    &&& guest::writes(ready, offset as usize, payload, asked)
    &&& guest::runs(asked, export, seq![offset, payload.len() as i32], done, result)
}

/// Whether a guest that was asked for room and gave an offset may come to that, logging
/// some lines. Room that does not lie in its memory is not written to.
pub open spec fn comes_to(
    plugin: WasmPlugin,
    export: Seq<char>,
    payload: Seq<u8>,
    ready: Guest,
    offset: i32,
    heard: Seq<Seq<char>>,
    said: Result<Seq<u8>, Seq<char>>,
) -> bool {
    if offset < 0 || offset + payload.len() > guest::guest_bytes(ready).len() {
        &&& said == Err::<Seq<u8>, Seq<char>>(
            "'"@ + EXPORT_ALLOC@ + "' returned unusable memory: "@ + "out of bounds memory access"@,
        )
        &&& heard == guest::guest_lines(ready)
    } else {
        exists|asked: Guest, done: Guest, result: Result<i64, CallFault>| #[trigger]
            runs_on(export, payload, ready, offset, asked, done, result) && said
                == concludes(plugin, export, done, result) && heard == guest::guest_lines(done)
    }
}

/// Whether a started guest may answer a payload so, logging some lines: it allocates
/// room in its own memory, the payload is written there, the guest runs, and what it
/// answers is read where it says.
pub open spec fn replies(
    plugin: WasmPlugin,
    export: Seq<char>,
    payload: Seq<u8>,
    fresh: Guest,
    heard: Seq<Seq<char>>,
    said: Result<Seq<u8>, Seq<char>>,
) -> bool {
    if payload.len() > i32::MAX {
        &&& said == Err::<Seq<u8>, Seq<char>>("the request is too large to pass to a guest"@)
        &&& heard == guest::guest_lines(fresh)
    } else {
        exists|ready: Guest, result: Result<i32, CallFault>| #[trigger]
            guest::runs(
                fresh,
                EXPORT_ALLOC@,
                seq![payload.len() as i32],
                ready,
                guest::widened(result),
            ) && match result {
                Ok(offset) => comes_to(plugin, export, payload, ready, offset, heard, said),
                Err(fault) => said == Err::<Seq<u8>, Seq<char>>(
                    fault_text(plugin.fuel, EXPORT_ALLOC@, fault),
                ) && heard == guest::guest_lines(ready),
            }
    }
}

/// Whether starting an instance of a plugin may give that.
pub open spec fn begun(plugin: WasmPlugin, outcome: Result<Guest, StartFault>) -> bool {
    guest::starts(
        plugin.instance_pre,
        plugin.name@,
        EXPORT_MEMORY@,
        plugin.memory_max_bytes,
        plugin.fuel,
        outcome,
    )
}

/// Whether asking an instance of its own something may come to that, logging some
/// lines.
pub open spec fn called(
    plugin: WasmPlugin,
    export: Seq<char>,
    input: JsonView,
    heard: Seq<Seq<char>>,
    said: Result<Seq<u8>, Seq<char>>,
) -> bool {
    exists|outcome: Result<Guest, StartFault>| #[trigger]
        begun(plugin, outcome) && match outcome {
            Ok(fresh) => match tree::json_bytes(input) {
                Ok(payload) => replies(plugin, export, payload, fresh, heard, said),
                Err(why) => said == Err::<Seq<u8>, Seq<char>>(
                    "could not encode the request for the guest: "@ + why,
                ) && heard == guest::guest_lines(fresh),
            },
            Err(fault) => said == Err::<Seq<u8>, Seq<char>>(start_text(fault)) && heard
                == start_lines(fault),
        }
}

/// The lines a log has gained.
pub open spec fn added(before: Seq<String>, after: Seq<String>) -> Seq<Seq<char>> {
    text::texts(after).skip(before.len() as int)
}

/// Appends lines.
fn append_lines(log: &mut Vec<String>, lines: Vec<String>)
    ensures
        text::texts(final(log)@) == text::texts(old(log)@) + text::texts(lines@),
{
    let mut lines = lines;
    let ghost added = text::texts(lines@);
    log.append(&mut lines);
    proof {
        assert(text::texts(log@) =~= text::texts(old(log)@) + added);
    }
}

/// Runs a started guest on a payload.
fn converse(plugin: &WasmPlugin, guest: &mut Guest, export: &str, payload: &Vec<u8>) -> (r: Result<
    Vec<u8>,
    String,
>)
    ensures
        replies(
            *plugin,
            export@,
            payload@,
            *old(guest),
            guest::guest_lines(*final(guest)),
            bytes_result_of(r),
        ),
{
    if payload.len() > i32::MAX as usize {
        return Err("the request is too large to pass to a guest".to_owned());
    }
    let length: i32 = payload.len() as i32;
    // The guest allocates in its own memory; the host writes only into the region it is
    // handed back.
    let offset: i32 = match guest.call_unary(EXPORT_ALLOC, length) {
        Ok(offset) => offset,
        Err(fault) => return Err(trap(plugin, EXPORT_ALLOC, fault)),
    };
    let ghost ready = *guest;
    let at: usize = if offset < 0 {
        usize::MAX
    } else {
        offset as usize
    };
    if let Err(why) = guest.write(at, payload) {
        return Err(
            text::cat2(
                text::cat3("'", EXPORT_ALLOC, "' returned unusable memory: ").as_str(),
                why.as_str(),
            ),
        );
    }
    let ghost asked = *guest;
    let run = guest.call_binary(export, offset, length);
    proof {
        assert(runs_on(export@, payload@, ready, offset, asked, *guest, run));
    }
    match run {
        Ok(packed) => read_packed(guest, packed),
        Err(fault) => Err(trap(plugin, export, fault)),
    }
}

/// Starts an instance, asks it, and reads its verdict. The instance ends with the call,
/// and what it logged is added to the lines.
pub fn call(filter: &WasmFilter, export: &str, input: &Json, log: &mut Vec<String>) -> (r: Result<
    Vec<u8>,
    String,
>)
    ensures
        called(
            *filter.plugin,
            export@,
            input@,
            added(old(log)@, final(log)@),
            bytes_result_of(r),
        ),
        text::texts(old(log)@).is_prefix_of(text::texts(final(log)@)),
{
    let plugin = &filter.plugin;
    let started = guest::start(
        &plugin.instance_pre,
        plugin.name.as_str(),
        EXPORT_MEMORY,
        plugin.memory_max_bytes,
        plugin.fuel,
    );
    proof {
        assert(begun(**plugin, started));
    }
    let mut guest = match started {
        Ok(guest) => guest,
        Err(fault) => return Err(did_not_start(fault, log)),
    };
    let verdict = match tree::to_bytes(input) {
        Ok(payload) => converse(plugin, &mut guest, export, &payload),
        Err(why) => Err(
            text::cat2("could not encode the request for the guest: ", why.as_str()),
        ),
    };
    append_lines(log, guest.into_lines());
    proof {
        assert(added(old(log)@, log@) =~= guest::guest_lines(guest));
    }
    verdict
}

/// Tells why an instance did not start, and adds what it logged to the lines.
fn did_not_start(fault: StartFault, log: &mut Vec<String>) -> (r: String)
    ensures
        r@ == start_text(fault),
        text::texts(final(log)@) == text::texts(old(log)@) + start_lines(fault),
        added(old(log)@, final(log)@) == start_lines(fault),
{
    let ghost said = text::texts(log@);
    proof {
        assert(said + start_lines(fault) =~= text::texts(log@) + start_lines(fault));
        assert((said + start_lines(fault)).skip(log@.len() as int) =~= start_lines(fault));
        assert(said + Seq::<Seq<char>>::empty() =~= said);
    }
    match fault {
        StartFault::Fuel(why) => text::cat2("could not set the fuel budget: ", why.as_str()),
        StartFault::Instantiate(why, lines) => {
            append_lines(log, lines);
            text::cat2("instantiation failed: ", why.as_str())
        },
        StartFault::NoMemory(lines) => {
            append_lines(log, lines);
            "module does not export 'memory'".to_owned()
        },
    }
}

/// Why the bytes a guest answered with are no verdict.
pub open spec fn unreadable(export: Seq<char>, why: Seq<char>) -> Seq<char> {
    "'"@ + export + "' returned invalid JSON: "@ + why
}

/// What the bytes a guest answered with come to once they are parsed.
pub open spec fn understood(
    export: Seq<char>,
    parsed: Result<Verdict, String>,
    answer: Result<Verdict, String>,
) -> bool {
    match parsed {
        Ok(verdict) => answer == Ok::<Verdict, String>(verdict),
        Err(why) => answer matches Err(e) && e@ == unreadable(export, why@),
    }
}

/// Whether an answer may have come of asking a guest something: what its bytes come to,
/// or why there are none.
#[verifier::opaque]
pub open spec fn exchanged<F: Fn(Vec<u8>) -> Result<Verdict, String>>(
    plugin: WasmPlugin,
    export: Seq<char>,
    input: JsonView,
    parse: F,
    heard: Seq<Seq<char>>,
    answer: Result<Verdict, String>,
) -> bool {
    ||| answer matches Err(e) && called(
        plugin,
        export,
        input,
        heard,
        Err::<Seq<u8>, Seq<char>>(e@),
    )
    ||| exists|bytes: Vec<u8>, parsed: Result<Verdict, String>| #[trigger]
        call_ensures(parse, (bytes,), parsed) && called(
            plugin,
            export,
            input,
            heard,
            Ok::<Seq<u8>, Seq<char>>(bytes@),
        ) && understood(export, parsed, answer)
}

/// Asks a guest something and parses its verdict.
fn ask<F: Fn(Vec<u8>) -> Result<Verdict, String>>(
    filter: &WasmFilter,
    export: &str,
    input: &Json,
    parse: &F,
    log: &mut Vec<String>,
) -> (r: Result<Verdict, String>)
    requires
        forall|bytes: Vec<u8>| #[trigger] call_requires(*parse, (bytes,)),
    ensures
        exchanged(*filter.plugin, export@, input@, *parse, added(old(log)@, final(log)@), r),
        text::texts(old(log)@).is_prefix_of(text::texts(final(log)@)),
{
    proof {
        reveal(exchanged);
    }
    let bytes = match call(filter, export, input, log) {
        Ok(bytes) => bytes,
        Err(e) => return Err(e),
    };
    let ghost given = bytes;
    let parsed = parse(bytes);
    proof {
        assert(call_ensures(*parse, (given,), parsed));
    }
    match parsed {
        Ok(verdict) => Ok(verdict),
        Err(why) => Err(
            text::cat2(
                text::cat3("'", export, "' returned invalid JSON: ").as_str(),
                why.as_str(),
            ),
        ),
    }
}

/// The pairs that are not called by any of some names.
pub open spec fn spared(pairs: Seq<(Seq<char>, Seq<char>)>, names: Seq<Seq<char>>) -> Seq<
    (Seq<char>, Seq<char>),
>
    decreases pairs.len(),
{
    if pairs.len() == 0 {
        Seq::empty()
    } else if names.contains(pairs.last().0) {
        spared(pairs.drop_last(), names)
    } else {
        spared(pairs.drop_last(), names).push(pairs.last())
    }
}

/// Changes, and then more changes. What the later ones remove is no longer set by the
/// earlier ones.
pub open spec fn accumulated(a: EditsView, b: EditsView) -> EditsView {
    EditsView { set: spared(a.set, b.remove) + b.set, remove: a.remove + b.remove }
}

/// What one filter does to a request, from what its guest answered.
pub open spec fn decided(plugin: WasmPlugin, answer: Result<Verdict, String>) -> FilteredView {
    match answer {
        Ok(verdict) => outcome_spec(plugin, verdict@),
        Err(_) => failure_spec(plugin),
    }
}

/// What is said of one filter's answer about a request.
pub open spec fn decided_lines(plugin: WasmPlugin, answer: Result<Verdict, String>) -> Seq<
    Seq<char>,
> {
    match answer {
        Ok(verdict) => outcome_lines(plugin, verdict@),
        Err(e) => seq![failed_line(plugin.name@, "request"@, e@)],
    }
}

/// What a chain of filters does to a request: their changes add up, until one stops it.
pub open spec fn ran(filters: Seq<WasmFilter>, answers: Seq<Result<Verdict, String>>) -> FilteredView
    decreases filters.len(),
{
    if filters.len() == 0 {
        FilteredView::Continue(no_edits())
    } else {
        match ran(filters.drop_last(), answers.drop_last()) {
            FilteredView::Continue(sofar) => match decided(*filters.last().plugin, answers.last()) {
                FilteredView::Continue(more) => FilteredView::Continue(accumulated(sofar, more)),
                stopped => stopped,
            },
            stopped => stopped,
        }
    }
}

/// What is said while a chain of filters runs.
pub open spec fn ran_lines(
    filters: Seq<WasmFilter>,
    answers: Seq<Result<Verdict, String>>,
    heard: Seq<Seq<Seq<char>>>,
) -> Seq<Seq<char>>
    decreases filters.len(),
{
    if filters.len() == 0 {
        Seq::empty()
    } else {
        ran_lines(filters.drop_last(), answers.drop_last(), heard.drop_last()) + heard.last()
            + decided_lines(*filters.last().plugin, answers.last())
    }
}

/// What the filter at a place is asked about a request: it sees the changes made before
/// it.
pub open spec fn asked_about(
    filters: Seq<WasmFilter>,
    line: RequestLine,
    fields: Map<Seq<char>, JsonView>,
    answers: Seq<Result<Verdict, String>>,
    at: int,
) -> JsonView {
    let sofar = ran(filters.take(at), answers.take(at))->Continue_0;
    request_input_spec(line, edited(fields, sofar), filters[at].settings@)
}

/// Whether the filter at a place had its turn: the filters before it let the request
/// pass, it was asked about the request, and that was its answer.
#[verifier::opaque]
pub open spec fn turn<F: Fn(Vec<u8>) -> Result<Verdict, String>>(
    filters: Seq<WasmFilter>,
    line: RequestLine,
    fields: Map<Seq<char>, JsonView>,
    parse: F,
    answers: Seq<Result<Verdict, String>>,
    heard: Seq<Seq<Seq<char>>>,
    at: int,
) -> bool {
    ran(filters.take(at), answers.take(at)) is Continue && exchanged(
        *filters[at].plugin,
        EXPORT_ON_REQUEST@,
        asked_about(filters, line, fields, answers, at),
        parse,
        heard[at],
        answers[at],
    )
}

/// Whether a request may have been filtered so: each filter in turn was asked about the
/// request and its answer taken, and no filter behind one that stopped it was asked.
pub open spec fn filtered<F: Fn(Vec<u8>) -> Result<Verdict, String>>(
    filters: Seq<WasmFilter>,
    line: RequestLine,
    fields: Map<Seq<char>, JsonView>,
    parse: F,
    answers: Seq<Result<Verdict, String>>,
    heard: Seq<Seq<Seq<char>>>,
    outcome: FilteredView,
    said: Seq<Seq<char>>,
) -> bool {
    let n = answers.len() as int;
    &&& heard.len() == n
    &&& n <= filters.len()
    &&& outcome == ran(filters.take(n), answers)
    &&& n < filters.len() ==> !(outcome is Continue)
    &&& said == ran_lines(filters.take(n), answers, heard)
    &&& forall|i: int|
        0 <= i < n ==> #[trigger] turn(filters, line, fields, parse, answers, heard, i)
}

/// A filter's turn does not depend on what stands behind it.
proof fn lemma_turn<F: Fn(Vec<u8>) -> Result<Verdict, String>>(
    filters: Seq<WasmFilter>,
    more: Seq<WasmFilter>,
    line: RequestLine,
    fields: Map<Seq<char>, JsonView>,
    parse: F,
    answers: Seq<Result<Verdict, String>>,
    others: Seq<Result<Verdict, String>>,
    heard: Seq<Seq<Seq<char>>>,
    listened: Seq<Seq<Seq<char>>>,
    at: int,
)
    requires
        turn(filters, line, fields, parse, answers, heard, at),
        filters.take(at) == more.take(at),
        filters[at] == more[at],
        answers.take(at) == others.take(at),
        answers[at] == others[at],
        heard[at] == listened[at],
    ensures
        turn(more, line, fields, parse, others, listened, at),
{
    reveal(turn);
}

/// What is said of the filters that ran holds of any longer chain too, where they
/// stopped the request.
proof fn lemma_filtered_stopped<F: Fn(Vec<u8>) -> Result<Verdict, String>>(
    filters: Seq<WasmFilter>,
    n: int,
    line: RequestLine,
    fields: Map<Seq<char>, JsonView>,
    parse: F,
    answers: Seq<Result<Verdict, String>>,
    heard: Seq<Seq<Seq<char>>>,
    outcome: FilteredView,
    said: Seq<Seq<char>>,
)
    requires
        0 <= n <= filters.len(),
        answers.len() == n,
        filtered(filters.take(n), line, fields, parse, answers, heard, outcome, said),
        !(outcome is Continue),
    ensures
        filtered(filters, line, fields, parse, answers, heard, outcome, said),
{
    let front = filters.take(n);
    assert(front.take(n) =~= front);
    assert forall|k: int| 0 <= k < n implies #[trigger] turn(
        filters,
        line,
        fields,
        parse,
        answers,
        heard,
        k,
    ) by {
        assert(turn(front, line, fields, parse, answers, heard, k));
        assert(front.take(k) =~= filters.take(k));
        lemma_turn(front, filters, line, fields, parse, answers, answers, heard, heard, k);
    }
}

/// One more filter is asked, and its answer taken.
proof fn lemma_filtered_step<F: Fn(Vec<u8>) -> Result<Verdict, String>>(
    filters: Seq<WasmFilter>,
    i: int,
    line: RequestLine,
    fields: Map<Seq<char>, JsonView>,
    parse: F,
    answers: Seq<Result<Verdict, String>>,
    heard: Seq<Seq<Seq<char>>>,
    edits: EditsView,
    said: Seq<Seq<char>>,
    answer: Result<Verdict, String>,
    lines: Seq<Seq<char>>,
)
    requires
        0 <= i < filters.len(),
        answers.len() == i,
        filtered(
            filters.take(i),
            line,
            fields,
            parse,
            answers,
            heard,
            FilteredView::Continue(edits),
            said,
        ),
        exchanged(
            *filters[i].plugin,
            EXPORT_ON_REQUEST@,
            request_input_spec(line, edited(fields, edits), filters[i].settings@),
            parse,
            lines,
            answer,
        ),
    ensures
        filtered(
            filters.take(i + 1),
            line,
            fields,
            parse,
            answers.push(answer),
            heard.push(lines),
            ran(filters.take(i + 1), answers.push(answer)),
            said + lines + decided_lines(*filters[i].plugin, answer),
        ),
        match decided(*filters[i].plugin, answer) {
            FilteredView::Continue(more) => ran(filters.take(i + 1), answers.push(answer))
                == FilteredView::Continue(accumulated(edits, more)),
            stopped => ran(filters.take(i + 1), answers.push(answer)) == stopped,
        },
{
    let front = filters.take(i);
    let longer = filters.take(i + 1);
    let all = answers.push(answer);
    let every = heard.push(lines);
    assert(front.take(i) =~= front);
    assert(longer.drop_last() =~= front);
    assert(longer.last() == filters[i]);
    assert(all.drop_last() =~= answers);
    assert(every.drop_last() =~= heard);
    assert(longer.take(i + 1) =~= longer);
    assert forall|k: int| 0 <= k < all.len() implies #[trigger] turn(
        longer,
        line,
        fields,
        parse,
        all,
        every,
        k,
    ) by {
        if k < i {
            assert(turn(front, line, fields, parse, answers, heard, k));
            assert(longer.take(k) =~= front.take(k));
            assert(all.take(k) =~= answers.take(k));
            lemma_turn(front, longer, line, fields, parse, answers, all, heard, every, k);
        } else {
            assert(longer.take(k) =~= front);
            assert(all.take(k) =~= answers);
            reveal(turn);
        }
    }
}

/// The pairs that are not called by any of some names.
fn spare(pairs: Vec<(String, String)>, names: &Vec<String>) -> (r: Vec<(String, String)>)
    ensures
        text::pairs_view(r@) == spared(text::pairs_view(pairs@), text::texts(names@)),
{
    let ghost all = text::pairs_view(pairs@);
    let mut out: Vec<(String, String)> = Vec::new();
    let mut i: usize = 0;
    proof {
        assert(all.take(0) =~= Seq::empty());
        assert(text::pairs_view(out@) =~= Seq::empty());
    }
    while i < pairs.len()
        invariant
            i <= pairs@.len(),
            all == text::pairs_view(pairs@),
            text::pairs_view(out@) == spared(all.take(i as int), text::texts(names@)),
        decreases pairs@.len() - i,
    {
        let (name, value) = &pairs[i];
        proof {
            assert(all.take(i + 1).drop_last() =~= all.take(i as int));
            assert(all.take(i + 1).last() == (name@, value@));
        }
        if !text::contains_text(names, name.as_str()) {
            let ghost front = text::pairs_view(out@);
            out.push((name.clone(), value.clone()));
            proof {
                assert(text::pairs_view(out@) =~= front.push((name@, value@)));
            }
        }
        i = i + 1;
    }
    proof {
        assert(all.take(i as int) =~= all);
    }
    out
}

/// Adds changes to changes.
fn accumulate(edits: HeaderEdits, more: HeaderEdits) -> (r: HeaderEdits)
    ensures
        r@ == accumulated(edits@, more@),
{
    let mut more = more;
    let ghost first = edits@;
    let ghost second = more@;
    let mut set = spare(edits.set, &more.remove);
    let mut remove = edits.remove;
    let ghost kept = text::pairs_view(set@);
    set.append(&mut more.set);
    remove.append(&mut more.remove);
    let r = HeaderEdits { set, remove };
    proof {
        assert(r@.set =~= kept + second.set);
        assert(r@.remove =~= first.remove + second.remove);
    }
    r
}

/// Runs each filter in the order they were declared. The first one to stop wins: the
/// filters behind it do not run, because a request that has been answered is no longer
/// theirs to inspect. The changes of the filters that did run add up. `parse` reads a
/// verdict.
pub fn on_request<F: Fn(Vec<u8>) -> Result<Verdict, String>>(
    filters: &Vec<WasmFilter>,
    line: &RequestLine<'_>,
    fields: &HeaderList,
    parse: &F,
    log: &mut Vec<String>,
) -> (r: FilterOutcome)
    requires
        forall|bytes: Vec<u8>| #[trigger] call_requires(*parse, (bytes,)),
    ensures
        exists|answers: Seq<Result<Verdict, String>>, heard: Seq<Seq<Seq<char>>>| #[trigger]
            filtered(
                filters@,
                *line,
                collected(fields@),
                *parse,
                answers,
                heard,
                r@,
                added(old(log)@, final(log)@),
            ),
        text::texts(old(log)@).is_prefix_of(text::texts(final(log)@)),
{
    let base = collect_headers(fields);
    let mut edits = HeaderEdits::default();
    let ghost mut answers: Seq<Result<Verdict, String>> = Seq::empty();
    let ghost mut heard: Seq<Seq<Seq<char>>> = Seq::empty();
    let ghost start = log@;
    let mut i: usize = 0;
    proof {
        assert(filters@.take(0) =~= Seq::empty());
        assert(added(start, log@) =~= Seq::empty());
    }
    while i < filters.len()
        invariant
            i <= filters@.len(),
            start == old(log)@,
            json::fields(base) == collected(fields@),
            forall|bytes: Vec<u8>| #[trigger] call_requires(*parse, (bytes,)),
            text::texts(start).is_prefix_of(text::texts(log@)),
            answers.len() == i,
            filtered(
                filters@.take(i as int),
                *line,
                collected(fields@),
                *parse,
                answers,
                heard,
                FilteredView::Continue(edits@),
                added(start, log@),
            ),
        decreases filters@.len() - i,
    {
        let filter = &filters[i];
        // Each filter sees the changes made before it, so a chain composes the way a
        // reader of the config expects.
        let mut visible = json::copy_object(&base);
        apply_to_json(&mut visible, &edits);
        let input = request_input(line, visible, &filter.settings);
        let ghost before = log@;
        let answer = ask(filter, EXPORT_ON_REQUEST, &input, parse, log);
        let ghost middle = log@;
        let ghost said = answer;
        let ghost edits_before = edits@;
        let theirs = match answer {
            Ok(verdict) => into_outcome(filter, verdict, log),
            Err(error) => {
                let failure = fail(filter, "request", error.as_str(), log);
                proof {
                    assert(text::texts(log@) =~= text::texts(middle) + decided_lines(
                        *filter.plugin,
                        said,
                    ));
                }
                failure
            },
        };
        proof {
            lemma_filtered_step(
                filters@,
                i as int,
                *line,
                collected(fields@),
                *parse,
                answers,
                heard,
                edits_before,
                added(start, before),
                said,
                added(before, middle),
            );
            assert(added(start, log@) =~= added(start, before) + added(before, middle)
                + decided_lines(*filter.plugin, said));
            answers = answers.push(said);
            heard = heard.push(added(before, middle));
        }
        match theirs {
            FilterOutcome::Continue(more) => {
                edits = accumulate(edits, more);
            },
            stopped => {
                proof {
                    lemma_filtered_stopped(
                        filters@,
                        i + 1,
                        *line,
                        collected(fields@),
                        *parse,
                        answers,
                        heard,
                        stopped@,
                        added(start, log@),
                    );
                }
                return stopped;
            },
        }
        i = i + 1;
    }
    proof {
        assert(filters@.take(i as int) =~= filters@);
    }
    let r = FilterOutcome::Continue(edits);
    proof {
        assert(filtered(
            filters@,
            *line,
            collected(fields@),
            *parse,
            answers,
            heard,
            r@,
            added(start, log@),
        ));
    }
    r
}

/// The changes a chain of filters makes to a response. A filter without a response
/// phase has no answer, and one whose guest failed changes nothing.
pub open spec fn responded(answers: Seq<Option<Result<Verdict, String>>>) -> EditsView
    decreases answers.len(),
{
    if answers.len() == 0 {
        no_edits()
    } else {
        match answers.last() {
            Some(Ok(verdict)) => accumulated(
                responded(answers.drop_last()),
                edits_spec(verdict@),
            ),
            _ => responded(answers.drop_last()),
        }
    }
}

/// What is said of one filter's answer about a response.
pub open spec fn responded_lines(
    plugin: Seq<char>,
    route: Seq<char>,
    answer: Option<Result<Verdict, String>>,
) -> Seq<Seq<char>> {
    match answer {
        None => Seq::empty(),
        Some(Ok(verdict)) => dropped(plugin, verdict@.set_headers),
        Some(Err(e)) => seq![
            "wasm plugin '"@ + plugin + "' failed in the response phase for route '"@ + route
                + "': "@ + e@,
        ],
    }
}

/// What is said while a chain of filters edits a response.
pub open spec fn response_lines(
    filters: Seq<WasmFilter>,
    route: Seq<char>,
    answers: Seq<Option<Result<Verdict, String>>>,
    heard: Seq<Seq<Seq<char>>>,
) -> Seq<Seq<char>>
    decreases filters.len(),
{
    if filters.len() == 0 {
        Seq::empty()
    } else {
        response_lines(filters.drop_last(), route, answers.drop_last(), heard.drop_last())
            + heard.last() + responded_lines(
            filters.last().plugin.name@,
            route,
            answers.last(),
        )
    }
}

/// What a response is to a guest: the route it came by, its status and its headers.
pub struct ResponseHead {
    pub route: Seq<char>,
    pub status: u16,
    pub fields: Map<Seq<char>, JsonView>,
}

/// Whether the filter at a place was asked about a response exactly where its module
/// has a response phase, and that was its answer. It sees the changes made before it.
#[verifier::opaque]
pub open spec fn response_turn<F: Fn(Vec<u8>) -> Result<Verdict, String>>(
    filters: Seq<WasmFilter>,
    head: ResponseHead,
    parse: F,
    answers: Seq<Option<Result<Verdict, String>>>,
    heard: Seq<Seq<Seq<char>>>,
    at: int,
) -> bool {
    &&& answers[at] is Some == filters[at].plugin.has_response_phase
    &&& answers[at] is None ==> heard[at] == Seq::<Seq<char>>::empty()
    &&& answers[at] matches Some(answer) ==> exchanged(
        *filters[at].plugin,
        EXPORT_ON_RESPONSE@,
        response_input_spec(
            head.route,
            head.status,
            edited(head.fields, responded(answers.take(at))),
            filters[at].settings@,
        ),
        parse,
        heard[at],
        answer,
    )
}

/// Whether a response may have been edited so, filter by filter.
pub open spec fn responses<F: Fn(Vec<u8>) -> Result<Verdict, String>>(
    filters: Seq<WasmFilter>,
    head: ResponseHead,
    parse: F,
    answers: Seq<Option<Result<Verdict, String>>>,
    heard: Seq<Seq<Seq<char>>>,
    edits: EditsView,
    said: Seq<Seq<char>>,
) -> bool {
    &&& answers.len() == filters.len()
    &&& heard.len() == filters.len()
    &&& edits == responded(answers)
    &&& said == response_lines(filters, head.route, answers, heard)
    &&& forall|i: int|
        0 <= i < filters.len() ==> #[trigger] response_turn(
            filters,
            head,
            parse,
            answers,
            heard,
            i,
        )
}

/// One more filter has its turn at a response.
proof fn lemma_responses_step<F: Fn(Vec<u8>) -> Result<Verdict, String>>(
    filters: Seq<WasmFilter>,
    i: int,
    head: ResponseHead,
    parse: F,
    answers: Seq<Option<Result<Verdict, String>>>,
    heard: Seq<Seq<Seq<char>>>,
    edits: EditsView,
    said: Seq<Seq<char>>,
    answer: Option<Result<Verdict, String>>,
    lines: Seq<Seq<char>>,
)
    requires
        0 <= i < filters.len(),
        responses(filters.take(i), head, parse, answers, heard, edits, said),
        answer is Some == filters[i].plugin.has_response_phase,
        answer is None ==> lines == Seq::<Seq<char>>::empty(),
        answer matches Some(a) ==> exchanged(
            *filters[i].plugin,
            EXPORT_ON_RESPONSE@,
            response_input_spec(
                head.route,
                head.status,
                edited(head.fields, edits),
                filters[i].settings@,
            ),
            parse,
            lines,
            a,
        ),
    ensures
        responses(
            filters.take(i + 1),
            head,
            parse,
            answers.push(answer),
            heard.push(lines),
            responded(answers.push(answer)),
            said + lines + responded_lines(filters[i].plugin.name@, head.route, answer),
        ),
        responded(answers.push(answer)) == match answer {
            Some(Ok(verdict)) => accumulated(edits, edits_spec(verdict@)),
            _ => edits,
        },
{
    let front = filters.take(i);
    let longer = filters.take(i + 1);
    let all = answers.push(answer);
    let every = heard.push(lines);
    assert(longer.drop_last() =~= front);
    assert(longer.last() == filters[i]);
    assert(all.drop_last() =~= answers);
    assert(every.drop_last() =~= heard);
    assert forall|k: int| 0 <= k < longer.len() implies #[trigger] response_turn(
        longer,
        head,
        parse,
        all,
        every,
        k,
    ) by {
        reveal(response_turn);
        if k < i {
            assert(response_turn(front, head, parse, answers, heard, k));
            assert(all.take(k) =~= answers.take(k));
            assert(front[k] == longer[k]);
        } else {
            assert(all.take(k) =~= answers);
        }
    }
}

/// Lets each filter whose module has a response phase edit the headers of a response.
/// The body is on its way to the client by then, so there is nothing left to stop: what
/// a guest asks for beyond headers is ignored, and where a guest fails the headers
/// stand.
pub fn on_response<F: Fn(Vec<u8>) -> Result<Verdict, String>>(
    filters: &Vec<WasmFilter>,
    route: &str,
    status: u16,
    fields: &HeaderList,
    parse: &F,
    log: &mut Vec<String>,
) -> (r: HeaderEdits)
    requires
        forall|bytes: Vec<u8>| #[trigger] call_requires(*parse, (bytes,)),
    ensures
        exists|answers: Seq<Option<Result<Verdict, String>>>, heard: Seq<Seq<Seq<char>>>|
         #[trigger]
            responses(
                filters@,
                (ResponseHead { route: route@, status, fields: collected(fields@) }),
                *parse,
                answers,
                heard,
                r@,
                added(old(log)@, final(log)@),
            ),
        text::texts(old(log)@).is_prefix_of(text::texts(final(log)@)),
{
    let base = collect_headers(fields);
    let mut edits = HeaderEdits::default();
    let ghost head = ResponseHead { route: route@, status, fields: collected(fields@) };
    let ghost mut answers: Seq<Option<Result<Verdict, String>>> = Seq::empty();
    let ghost mut heard: Seq<Seq<Seq<char>>> = Seq::empty();
    let ghost start = log@;
    let mut i: usize = 0;
    proof {
        assert(filters@.take(0) =~= Seq::empty());
        assert(added(start, log@) =~= Seq::empty());
    }
    while i < filters.len()
        invariant
            i <= filters@.len(),
            start == old(log)@,
            head == (ResponseHead { route: route@, status, fields: collected(fields@) }),
            json::fields(base) == collected(fields@),
            forall|bytes: Vec<u8>| #[trigger] call_requires(*parse, (bytes,)),
            text::texts(start).is_prefix_of(text::texts(log@)),
            responses(
                filters@.take(i as int),
                head,
                *parse,
                answers,
                heard,
                edits@,
                added(start, log@),
            ),
        decreases filters@.len() - i,
    {
        let filter = &filters[i];
        let ghost before = log@;
        let ghost mut middle = log@;
        let ghost mut answer: Option<Result<Verdict, String>> = None;
        let ghost edits_before = edits@;
        if filter.has_response_phase() {
            let mut visible = json::copy_object(&base);
            apply_to_json(&mut visible, &edits);
            let input = response_input(route, status, visible, &filter.settings);
            let said = ask(filter, EXPORT_ON_RESPONSE, &input, parse, log);
            proof {
                middle = log@;
                answer = Some(said);
            }
            match said {
                Ok(verdict) => {
                    let more = header_edits(filter, &verdict, log);
                    edits = accumulate(edits, more);
                },
                Err(error) => {
                    let line = response_failure(filter, route, error.as_str());
                    log.push(line);
                    proof {
                        assert(text::texts(log@) =~= text::texts(middle) + seq![line@]);
                    }
                },
            }
        }
        proof {
            assert(added(before, before) =~= Seq::empty());
            lemma_responses_step(
                filters@,
                i as int,
                head,
                *parse,
                answers,
                heard,
                edits_before,
                added(start, before),
                answer,
                added(before, middle),
            );
            assert(added(start, log@) =~= added(start, before) + added(before, middle)
                + responded_lines(filter.plugin.name@, route@, answer));
            answers = answers.push(answer);
            heard = heard.push(added(before, middle));
        }
        i = i + 1;
    }
    proof {
        assert(filters@.take(i as int) =~= filters@);
    }
    edits
}

/// Tells of a filter that failed at a response.
fn response_failure(filter: &WasmFilter, route: &str, error: &str) -> (r: String)
    ensures
        r@ == "wasm plugin '"@ + filter.plugin.name@
            + "' failed in the response phase for route '"@ + route@ + "': "@ + error@,
{
    let head = text::cat3(
        "wasm plugin '",
        filter.name(),
        "' failed in the response phase for route '",
    );
    text::cat2(text::cat3(head.as_str(), route, "': ").as_str(), error)
}

/// The first filter to stop a request wins: whatever the filters behind it would have
/// answered, the outcome is its own.
pub proof fn law_the_first_filter_to_stop_wins(
    filters: Seq<WasmFilter>,
    answers: Seq<Result<Verdict, String>>,
    n: int,
)
    requires
        answers.len() == filters.len(),
        0 <= n <= filters.len(),
        !(ran(filters.take(n), answers.take(n)) is Continue),
    ensures
        ran(filters, answers) == ran(filters.take(n), answers.take(n)),
    decreases filters.len(),
{
    if n == filters.len() {
        assert(filters.take(n) =~= filters);
        assert(answers.take(n) =~= answers);
    } else {
        assert(filters.drop_last().take(n) =~= filters.take(n));
        assert(answers.drop_last().take(n) =~= answers.take(n));
        law_the_first_filter_to_stop_wins(filters.drop_last(), answers.drop_last(), n);
    }
}

/// A chain lets a request pass exactly where every filter in it does, and then the
/// changes are those of the filters, in order.
pub proof fn law_the_changes_of_a_chain_add_up(
    filters: Seq<WasmFilter>,
    answers: Seq<Result<Verdict, String>>,
)
    requires
        answers.len() == filters.len(),
    ensures
        (ran(filters, answers) is Continue) <==> forall|i: int|
            0 <= i < filters.len() ==> decided(
                *(#[trigger] filters[i]).plugin,
                answers[i],
            ) is Continue,
        filters.len() > 0 && ran(filters, answers) is Continue ==> ran(
            filters.drop_last(),
            answers.drop_last(),
        ) is Continue && ran(filters, answers)->Continue_0 == accumulated(
            ran(filters.drop_last(), answers.drop_last())->Continue_0,
            decided(*filters.last().plugin, answers.last())->Continue_0,
        ),
    decreases filters.len(),
{
    if filters.len() > 0 {
        let front = filters.drop_last();
        let said = answers.drop_last();
        law_the_changes_of_a_chain_add_up(front, said);
        assert(filters[filters.len() - 1] == filters.last());
        if ran(front, said) is Continue {
            assert forall|i: int| 0 <= i < front.len() implies decided(
                *(#[trigger] filters[i]).plugin,
                answers[i],
            ) is Continue by {
                assert(front[i] == filters[i]);
                assert(said[i] == answers[i]);
            }
        } else {
            let i = choose|i: int|
                0 <= i < front.len() && !(decided(
                    *(#[trigger] front[i]).plugin,
                    said[i],
                ) is Continue);
            assert(front[i] == filters[i]);
            assert(said[i] == answers[i]);
        }
    }
}

/// A later removal does not reach a name that is not among those removed.
proof fn lemma_removed(m: Map<Seq<char>, JsonView>, names: Seq<Seq<char>>, k: Seq<char>)
    ensures
        removed(m, names).contains_key(k) <==> m.contains_key(k) && !names.contains(k),
        removed(m, names).contains_key(k) ==> removed(m, names)[k] == m[k],
    decreases names.len(),
{
    if names.len() > 0 {
        let front = names.drop_last();
        lemma_removed(m, front, k);
        assert(names[names.len() - 1] == names.last());
        if front.contains(k) {
            let i = choose|i: int| 0 <= i < front.len() && front[i] == k;
            assert(names[i] == k);
        }
        if names.contains(k) && k != names.last() {
            let i = choose|i: int| 0 <= i < names.len() && names[i] == k;
            assert(front[i] == k);
        }
    }
}

/// Taking names out after some were set is setting the others after taking them out.
proof fn lemma_removed_put(
    m: Map<Seq<char>, JsonView>,
    pairs: Seq<(Seq<char>, Seq<char>)>,
    names: Seq<Seq<char>>,
)
    ensures
        removed(put(m, pairs), names) == put(removed(m, names), spared(pairs, names)),
    decreases pairs.len(),
{
    if pairs.len() > 0 {
        let front = pairs.drop_last();
        let (name, value) = pairs.last();
        lemma_removed_put(m, front, names);
        let left = removed(put(m, pairs), names);
        let right = put(removed(m, names), spared(pairs, names));
        let kept = spared(front, names);
        assert(kept.push(pairs.last()).drop_last() =~= kept);
        assert forall|k: Seq<char>| #[trigger] left.contains_key(k) == right.contains_key(k) && (
        left.contains_key(k) ==> left[k] == right[k]) by {
            lemma_removed(put(m, pairs), names, k);
            lemma_removed(put(m, front), names, k);
        }
        assert(left =~= right);
    }
}

/// Taking out some names and then more is taking out all of them.
proof fn lemma_removed_parts(m: Map<Seq<char>, JsonView>, a: Seq<Seq<char>>, b: Seq<Seq<char>>)
    ensures
        removed(m, a + b) == removed(removed(m, a), b),
    decreases b.len(),
{
    if b.len() == 0 {
        assert(a + b =~= a);
    } else {
        lemma_removed_parts(m, a, b.drop_last());
        assert((a + b).drop_last() =~= a + b.drop_last());
    }
}

/// Setting some headers and then more is setting all of them.
proof fn lemma_put_parts(
    m: Map<Seq<char>, JsonView>,
    a: Seq<(Seq<char>, Seq<char>)>,
    b: Seq<(Seq<char>, Seq<char>)>,
)
    ensures
        put(m, a + b) == put(put(m, a), b),
    decreases b.len(),
{
    if b.len() == 0 {
        assert(a + b =~= a);
    } else {
        lemma_put_parts(m, a, b.drop_last());
        assert((a + b).drop_last() =~= a + b.drop_last());
    }
}

/// Each filter sees the changes of those before it, the later winning: headers with the
/// changes of two filters added up are headers with the changes of the first made, and
/// then those of the second.
pub proof fn law_changes_are_made_in_order(
    m: Map<Seq<char>, JsonView>,
    a: EditsView,
    b: EditsView,
)
    ensures
        edited(m, accumulated(a, b)) == edited(edited(m, a), b),
{
    lemma_removed_parts(m, a.remove, b.remove);
    lemma_removed_put(removed(m, a.remove), a.set, b.remove);
    lemma_put_parts(removed(removed(m, a.remove), b.remove), spared(a.set, b.remove), b.set);
}

/// A filter whose guest could not run refuses the request, unless its plugin fails open;
/// then it changes nothing. The same holds of a guest that stops with a status that is
/// none.
pub proof fn law_filters_fail_closed(plugin: WasmPlugin, error: String, verdict: Verdict)
    ensures
        !plugin.fail_open ==> decided(plugin, Err(error)) is Failed,
        plugin.fail_open ==> decided(plugin, Err(error)) == FilteredView::Continue(no_edits()),
        verdict.action == Action::Stop && !(100 <= stop_status(verdict@) <= 599) ==> decided(
            plugin,
            Ok(verdict),
        ) == decided(plugin, Err(error)),
{
}

/// Where a filter fails and its plugin does not fail open, the request is refused with
/// the name of that plugin, and no filter behind it is asked.
pub proof fn law_a_filter_that_fails_ends_the_chain<F: Fn(Vec<u8>) -> Result<Verdict, String>>(
    filters: Seq<WasmFilter>,
    line: RequestLine,
    fields: Map<Seq<char>, JsonView>,
    parse: F,
    answers: Seq<Result<Verdict, String>>,
    heard: Seq<Seq<Seq<char>>>,
    outcome: FilteredView,
    said: Seq<Seq<char>>,
    at: int,
)
    requires
        filtered(filters, line, fields, parse, answers, heard, outcome, said),
        0 <= at < answers.len(),
        answers[at] is Err,
        !filters[at].plugin.fail_open,
    ensures
        outcome == FilteredView::Failed("plugin '"@ + filters[at].plugin.name@ + "' could not run"@),
        answers.len() == at + 1,
{
    let n = answers.len() as int;
    assert(turn(filters, line, fields, parse, answers, heard, at));
    let front = filters.take(at + 1);
    let some = answers.take(at + 1);
    assert(front.drop_last() =~= filters.take(at));
    assert(some.drop_last() =~= answers.take(at));
    assert(ran(filters.take(at), answers.take(at)) is Continue) by {
        reveal(turn);
    }
    if at + 1 < n {
        assert(turn(filters, line, fields, parse, answers, heard, at + 1));
        assert(ran(front, some) is Continue) by {
            reveal(turn);
        }
    }
    assert(some =~= answers);
}

/// Whether starting an instance of a plugin, writing into the memory of a guest and
/// running one each come to one thing only.
pub open spec fn steady(plugin: WasmPlugin) -> bool {
    &&& forall|a: Result<Guest, StartFault>, b: Result<Guest, StartFault>| #[trigger]
        begun(plugin, a) && #[trigger] begun(plugin, b) ==> a == b
    &&& forall|before: Guest, offset: usize, bytes: Seq<u8>, a: Guest, b: Guest| #[trigger]
        guest::writes(before, offset, bytes, a) && #[trigger] guest::writes(
            before,
            offset,
            bytes,
            b,
        ) ==> a == b
    &&& forall|
        before: Guest,
        export: Seq<char>,
        arguments: Seq<i32>,
        a: Guest,
        x: Result<i64, CallFault>,
        b: Guest,
        y: Result<i64, CallFault>,
    | #[trigger]
        guest::runs(before, export, arguments, a, x) && #[trigger] guest::runs(
            before,
            export,
            arguments,
            b,
            y,
        ) ==> a == b && x == y
}

/// A result that was widened is known by what it was widened to.
proof fn lemma_widened(a: Result<i32, CallFault>, b: Result<i32, CallFault>)
    requires
        guest::widened(a) == guest::widened(b),
    ensures
        a == b,
{
}

/// A started guest answers a payload in one way only, where running it is steady.
proof fn lemma_replies_once(
    plugin: WasmPlugin,
    export: Seq<char>,
    payload: Seq<u8>,
    fresh: Guest,
    heard: Seq<Seq<char>>,
    said: Result<Seq<u8>, Seq<char>>,
    listened: Seq<Seq<char>>,
    told: Result<Seq<u8>, Seq<char>>,
)
    requires
        steady(plugin),
        replies(plugin, export, payload, fresh, heard, said),
        replies(plugin, export, payload, fresh, listened, told),
    ensures
        heard == listened,
        said == told,
{
    if payload.len() <= i32::MAX {
        let room = seq![payload.len() as i32];
        let (ready, a) = choose|ready: Guest, a: Result<i32, CallFault>| #[trigger]
            guest::runs(fresh, EXPORT_ALLOC@, room, ready, guest::widened(a)) && match a {
                Ok(offset) => comes_to(plugin, export, payload, ready, offset, heard, said),
                Err(fault) => said == Err::<Seq<u8>, Seq<char>>(
                    fault_text(plugin.fuel, EXPORT_ALLOC@, fault),
                ) && heard == guest::guest_lines(ready),
            };
        let (again, b) = choose|again: Guest, b: Result<i32, CallFault>| #[trigger]
            guest::runs(fresh, EXPORT_ALLOC@, room, again, guest::widened(b)) && match b {
                Ok(offset) => comes_to(plugin, export, payload, again, offset, listened, told),
                Err(fault) => told == Err::<Seq<u8>, Seq<char>>(
                    fault_text(plugin.fuel, EXPORT_ALLOC@, fault),
                ) && listened == guest::guest_lines(again),
            };
        assert(ready == again && guest::widened(a) == guest::widened(b));
        lemma_widened(a, b);
        if let Ok(offset) = a {
            if 0 <= offset && offset + payload.len() <= guest::guest_bytes(ready).len() {
                let (asked, done, x) = choose|asked: Guest, done: Guest, x: Result<i64, CallFault>|
                    #[trigger]
                    runs_on(export, payload, ready, offset, asked, done, x) && said == concludes(
                        plugin,
                        export,
                        done,
                        x,
                    ) && heard == guest::guest_lines(done);
                let (put, left, y) = choose|put: Guest, left: Guest, y: Result<i64, CallFault>|
                    #[trigger]
                    runs_on(export, payload, ready, offset, put, left, y) && told == concludes(
                        plugin,
                        export,
                        left,
                        y,
                    ) && listened == guest::guest_lines(left);
                assert(asked == put);
                assert(done == left && x == y);
            }
        }
    }
}

/// Two calls of a filter with equal arguments agree, in what they give and in what is
/// logged, wherever starting an instance, writing to it and running it do: nothing of
/// one call is left for the next.
pub proof fn law_equal_calls_agree(
    plugin: WasmPlugin,
    export: Seq<char>,
    input: JsonView,
    heard: Seq<Seq<char>>,
    said: Result<Seq<u8>, Seq<char>>,
    listened: Seq<Seq<char>>,
    told: Result<Seq<u8>, Seq<char>>,
)
    requires
        steady(plugin),
        called(plugin, export, input, heard, said),
        called(plugin, export, input, listened, told),
    ensures
        heard == listened,
        said == told,
{
    let a = choose|a: Result<Guest, StartFault>| #[trigger]
        begun(plugin, a) && match a {
            Ok(fresh) => match tree::json_bytes(input) {
                Ok(payload) => replies(plugin, export, payload, fresh, heard, said),
                Err(why) => said == Err::<Seq<u8>, Seq<char>>(
                    "could not encode the request for the guest: "@ + why,
                ) && heard == guest::guest_lines(fresh),
            },
            Err(fault) => said == Err::<Seq<u8>, Seq<char>>(start_text(fault)) && heard
                == start_lines(fault),
        };
    let b = choose|b: Result<Guest, StartFault>| #[trigger]
        begun(plugin, b) && match b {
            Ok(fresh) => match tree::json_bytes(input) {
                Ok(payload) => replies(plugin, export, payload, fresh, listened, told),
                Err(why) => told == Err::<Seq<u8>, Seq<char>>(
                    "could not encode the request for the guest: "@ + why,
                ) && listened == guest::guest_lines(fresh),
            },
            Err(fault) => told == Err::<Seq<u8>, Seq<char>>(start_text(fault)) && listened
                == start_lines(fault),
        };
    assert(a == b);
    if let Ok(fresh) = a {
        if let Ok(payload) = tree::json_bytes(input) {
            lemma_replies_once(plugin, export, payload, fresh, heard, said, listened, told);
        }
    }
}

/// Changes with none behind them are what they were.
proof fn lemma_accumulated_none(a: EditsView)
    ensures
        accumulated(a, no_edits()) == a,
{
    lemma_spared_none(a.set);
    assert(a.set + Seq::empty() =~= a.set);
    assert(a.remove + Seq::empty() =~= a.remove);
}

/// Every pair is spared where no name is given.
pub(crate) proof fn lemma_spared_none(pairs: Seq<(Seq<char>, Seq<char>)>)
    ensures
        spared(pairs, Seq::empty()) == pairs,
    decreases pairs.len(),
{
    if pairs.len() > 0 {
        lemma_spared_none(pairs.drop_last());
        assert(pairs.drop_last().push(pairs.last()) =~= pairs);
    } else {
        assert(spared(pairs, Seq::empty()) =~= pairs);
    }
}

/// A filter that fails open, because its guest could not run or stops with a status that
/// is none, is as one left out: the outcome of the chain is that of the chain without it,
/// and so is what any filter behind it is asked.
pub proof fn law_a_filter_that_fails_open_is_as_one_left_out(
    filters: Seq<WasmFilter>,
    answers: Seq<Result<Verdict, String>>,
    line: RequestLine,
    fields: Map<Seq<char>, JsonView>,
    at: int,
    later: int,
)
    requires
        answers.len() == filters.len(),
        0 <= at < filters.len(),
        filters[at].plugin.fail_open,
        match answers[at] {
            Ok(verdict) => verdict.action == Action::Stop && !(100 <= stop_status(verdict@) <= 599),
            Err(_) => true,
        },
    ensures
        ran(filters, answers) == ran(filters.remove(at), answers.remove(at)),
        at < later < filters.len() ==> asked_about(filters, line, fields, answers, later)
            == asked_about(filters.remove(at), line, fields, answers.remove(at), later - 1),
{
    lemma_left_out(filters, answers, at);
    if at < later < filters.len() {
        let some = filters.take(later);
        let said = answers.take(later);
        lemma_left_out(some, said, at);
        assert(some.remove(at) =~= filters.remove(at).take(later - 1));
        assert(said.remove(at) =~= answers.remove(at).take(later - 1));
    }
}

/// The outcome of a chain is that without a filter that lets the request pass as it is.
proof fn lemma_left_out(
    filters: Seq<WasmFilter>,
    answers: Seq<Result<Verdict, String>>,
    at: int,
)
    requires
        answers.len() == filters.len(),
        0 <= at < filters.len(),
        decided(*filters[at].plugin, answers[at]) == FilteredView::Continue(no_edits()),
    ensures
        ran(filters, answers) == ran(filters.remove(at), answers.remove(at)),
    decreases filters.len(),
{
    let front = filters.drop_last();
    let said = answers.drop_last();
    if at == filters.len() - 1 {
        assert(filters.remove(at) =~= front);
        assert(answers.remove(at) =~= said);
        if let FilteredView::Continue(sofar) = ran(front, said) {
            lemma_accumulated_none(sofar);
        }
    } else {
        lemma_left_out(front, said, at);
        assert(filters.remove(at).drop_last() =~= front.remove(at));
        assert(answers.remove(at).drop_last() =~= said.remove(at));
    }
}

/// A legal pair stays legal with its name in small letters.
proof fn lemma_lower_name(name: Seq<char>)
    requires
        headers::valid_name(name),
    ensures
        headers::valid_name(text::lower_spec(name)),
{
    let low = text::lower_spec(name);
    assert forall|i: int| 0 <= i < low.len() implies headers::token_char(#[trigger] low[i]) by {
        assert(headers::token_char(name[i]));
        assert(low[i] == text::lower_char(name[i]));
    }
}

/// Every pair that was kept is legal.
proof fn lemma_legal(pairs: Seq<(Seq<char>, Seq<char>)>)
    ensures
        forall|i: int|
            0 <= i < legal(pairs).len() ==> headers::valid_name((#[trigger] legal(pairs)[i]).0)
                && headers::valid_value(legal(pairs)[i].1),
    decreases pairs.len(),
{
    if pairs.len() > 0 {
        lemma_legal(pairs.drop_last());
        let (name, value) = pairs.last();
        if headers::valid_name(name) && headers::valid_value(value) {
            lemma_lower_name(name);
        }
        let front = legal(pairs.drop_last());
        let all = legal(pairs);
        assert forall|i: int| 0 <= i < all.len() implies headers::valid_name((#[trigger] all[i]).0)
            && headers::valid_value(all[i].1) by {
            if i < front.len() {
                assert(all[i] == front[i]);
            }
        }
    }
}

/// Whatever a guest answers, a header it sets, and a header of a response it gives, is
/// legal: no line break in it can splice another header in.
pub proof fn law_a_guest_cannot_splice_headers(pairs: Seq<(Seq<char>, Seq<char>)>)
    ensures
        forall|i: int|
            0 <= i < valid_spec(pairs).len() ==> headers::valid_name(
                (#[trigger] valid_spec(pairs)[i]).0,
            ) && headers::valid_value(valid_spec(pairs)[i].1),
{
    broadcast use vstd::seq_lib::group_to_multiset_ensures;

    lemma_legal(pairs);
    sorting::law_sorting_keeps_everything(legal(pairs), pair_key());
    let kept = legal(pairs);
    let out = valid_spec(pairs);
    assert forall|i: int| 0 <= i < out.len() implies headers::valid_name((#[trigger] out[i]).0)
        && headers::valid_value(out[i].1) by {
        assert(out.contains(out[i]));
        assert(out.to_multiset().count(out[i]) > 0);
        assert(kept.to_multiset().count(out[i]) > 0);
        assert(kept.contains(out[i]));
        let k = choose|k: int| 0 <= k < kept.len() && kept[k] == out[i];
        assert(headers::valid_name(kept[k].0));
    }
}

/// A response can only be edited: where every guest fails, or has no response phase, the
/// headers stand as they are.
pub proof fn law_a_failing_response_filter_changes_nothing(
    answers: Seq<Option<Result<Verdict, String>>>,
)
    requires
        forall|i: int|
            0 <= i < answers.len() ==> !(#[trigger] answers[i] matches Some(Ok(_))),
    ensures
        responded(answers) == no_edits(),
    decreases answers.len(),
{
    if answers.len() > 0 {
        assert(!(answers[answers.len() - 1] matches Some(Ok(_))));
        law_a_failing_response_filter_changes_nothing(answers.drop_last());
    }
}

} // verus!

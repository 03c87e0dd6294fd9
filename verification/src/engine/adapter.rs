//! The choice of an engine for a model.
use super::path::{extension, lemma_no_extension, path_extension, PathStyle};
use super::{ModelBackend, ModelSpec, UniversalModelSpec};
use crate::text;
use vstd::prelude::*;
use vstd::string::*;

pub mod laws;

verus! {

/// Why a `.gguf` file cannot be served.
pub const GGUF_UNSUPPORTED: &'static str =
    "GGUF models require a GPU engine. \
     Build with --features candle (CUDA) or --features airframe (WebGPU). \
     See https://github.com/Michael-A-Kuykendall/shimmy for setup.";

/// Why an Ollama blob cannot be served.
pub const BLOB_UNSUPPORTED: &'static str =
    "Ollama blob models require a GPU engine or the HuggingFace backend. \
     Build with --features candle (CUDA) or --features airframe (WebGPU).";

/// Why a model with the name of a GGUF family cannot be served.
pub const NAMED_UNSUPPORTED: &'static str =
    "GGUF-named models require a GPU engine or the HuggingFace backend. \
     Build with --features candle (CUDA) or --features airframe (WebGPU).";

/// Why any other model cannot be served.
pub const NO_BACKEND: &'static str =
    "No inference backend enabled. Build with --features airframe or --features huggingface.";

/// The optional engines that a server is built with. The SafeTensors engine is always there.
#[derive(Debug, Clone, Copy)]
pub struct Backends {
    pub huggingface: bool,
    pub mlx: bool,
    pub candle: bool,
}

/// Universal adapter over the engines of a server.
#[derive(Debug, Clone)]
pub struct InferenceEngineAdapter {
    pub backends: Backends,
    /// Whether the machine can run MLX.
    pub mlx_hardware: bool,
    /// How the machine writes its paths.
    pub paths: PathStyle,
}

/// The engine that serves a model, or why none does.
#[derive(Debug, Clone, PartialEq)]
pub enum BackendChoice {
    HuggingFace,
    MLX,
    Candle,
    SafeTensors,
    Unsupported(String),
}

/// A `BackendChoice` with its reason as a sequence of characters.
pub enum Choice {
    HuggingFace,
    MLX,
    Candle,
    SafeTensors,
    Unsupported(Seq<char>),
}

impl View for BackendChoice {
    type V = Choice;

    open spec fn view(&self) -> Choice {
        match *self {
            BackendChoice::HuggingFace => Choice::HuggingFace,
            BackendChoice::MLX => Choice::MLX,
            BackendChoice::Candle => Choice::Candle,
            BackendChoice::SafeTensors => Choice::SafeTensors,
            BackendChoice::Unsupported(reason) => Choice::Unsupported(reason@),
        }
    }
}

/// What an adapter does to load a model.
#[derive(Debug, Clone)]
pub enum LoadPlan {
    /// Fail with this message.
    Refuse(String),
    SafeTensors,
    MLX,
    Candle,
    /// Load this through the universal interface, and wrap what comes back.
    HuggingFace(UniversalModelSpec),
}

/// `str::to_lowercase`, as Unicode defines it.
pub uninterp spec fn lowercase(s: Seq<char>) -> Seq<char>;

/// `str::to_lowercase`: the result is a function of the text alone, whatever the locale.
pub assume_specification[ str::to_lowercase ](s: &str) -> (r: String)
    ensures
        r@ == lowercase(s@),
;

// ---------------------------------------------------------------------------------------
// Which engine serves a model
// ---------------------------------------------------------------------------------------

/// What the extension of a file decides.
pub open spec fn by_extension(adapter: InferenceEngineAdapter, path: Seq<char>) -> Option<Choice> {
    match extension(path, adapter.paths) {
        Some(ext) => if ext == "safetensors"@ {
            Some(Choice::SafeTensors)
        } else if ext == "gguf"@ {
            Some(
                if adapter.backends.candle {
                    Choice::Candle
                } else {
                    Choice::Unsupported(GGUF_UNSUPPORTED@)
                },
            )
        } else if adapter.backends.mlx && (ext == "npz"@ || ext == "mlx"@) {
            Some(Choice::MLX)
        } else {
            None
        },
        None => None,
    }
}

/// Whether a path looks like a HuggingFace model ID, `org/model-name`.
pub open spec fn is_model_id(path: Seq<char>) -> bool {
    path.contains('/') && !path.contains('\\') && !path.contains('.')
}

/// Whether a lower-case name is that of a family that MLX runs.
pub open spec fn is_mlx_family(lower_name: Seq<char>) -> bool {
    ||| text::occurs(lower_name, "llama"@)
    ||| text::occurs(lower_name, "mistral"@)
    ||| text::occurs(lower_name, "phi"@)
    ||| text::occurs(lower_name, "qwen"@)
}

/// Whether a path is that of an Ollama blob, a GGUF file without the extension.
pub open spec fn is_ollama_blob(path: Seq<char>) -> bool {
    &&& text::occurs(path, "ollama"@)
    &&& text::occurs(path, "blobs"@)
    &&& text::occurs(path, "sha256-"@)
}

/// Whether a path or a name hints at a GGUF file.
pub open spec fn is_named_like_gguf(name: Seq<char>, path: Seq<char>) -> bool {
    ||| text::occurs(path, ".gguf"@)
    ||| text::occurs(name, "llama"@)
    ||| text::occurs(name, "phi"@)
    ||| text::occurs(name, "qwen"@)
    ||| text::occurs(name, "gemma"@)
    ||| text::occurs(name, "mistral"@)
}

/// The engine for what is taken to be GGUF without the extension.
pub open spec fn gguf_engine(backends: Backends, reason: Seq<char>) -> Choice {
    if backends.candle {
        Choice::Candle
    } else if backends.huggingface {
        Choice::HuggingFace
    } else {
        Choice::Unsupported(reason)
    }
}

/// What name and path decide where the extension does not. The path of an Ollama blob can have
/// the form of a model ID, and is none.
pub open spec fn by_pattern(
    adapter: InferenceEngineAdapter,
    name: Seq<char>,
    lower_name: Seq<char>,
    path: Seq<char>,
) -> Choice {
    if is_model_id(path) && !is_ollama_blob(path) {
        if adapter.backends.huggingface {
            Choice::HuggingFace
        } else {
            Choice::SafeTensors
        }
    } else if adapter.backends.mlx && adapter.mlx_hardware && is_mlx_family(lower_name) {
        Choice::MLX
    } else if is_ollama_blob(path) {
        gguf_engine(adapter.backends, BLOB_UNSUPPORTED@)
    } else if is_named_like_gguf(name, path) {
        gguf_engine(adapter.backends, NAMED_UNSUPPORTED@)
    } else if adapter.backends.huggingface {
        Choice::HuggingFace
    } else {
        Choice::Unsupported(NO_BACKEND@)
    }
}

/// The engine that serves a model: the extension decides before name and path do.
pub open spec fn backend_for(
    adapter: InferenceEngineAdapter,
    name: Seq<char>,
    lower_name: Seq<char>,
    path: Seq<char>,
) -> Choice {
    match by_extension(adapter, path) {
        Some(choice) => choice,
        None => by_pattern(adapter, name, lower_name, path),
    }
}

fn has_char(s: &str, c: char) -> (r: bool)
    ensures
        r == s@.contains(c),
{
    let cs = text::chars(s);
    proof {
        text::lemma_rfind(s@, c);
    }
    text::rfind_char(&cs, c).is_some()
}

fn looks_like_model_id(path: &str) -> (r: bool)
    ensures
        r == is_model_id(path@),
{
    has_char(path, '/') && !has_char(path, '\\') && !has_char(path, '.')
}

fn gguf_backend(backends: &Backends, reason: &str) -> (r: BackendChoice)
    ensures
        r@ == gguf_engine(*backends, reason@),
{
    if backends.candle {
        BackendChoice::Candle
    } else if backends.huggingface {
        BackendChoice::HuggingFace
    } else {
        BackendChoice::Unsupported(reason.to_owned())
    }
}

impl InferenceEngineAdapter {
    /// An adapter over the engines that a server is built with, on a given machine.
    pub fn new(backends: Backends, mlx_hardware: bool, paths: PathStyle) -> (r: Self)
        ensures
            r.backends == backends,
            r.mlx_hardware == mlx_hardware,
            r.paths == paths,
    {
        InferenceEngineAdapter { backends, mlx_hardware, paths }
    }

    /// As `new`: the engines find their device by themselves, whatever backend is asked for.
    pub fn new_with_backend(
        _gpu_backend: Option<&str>,
        backends: Backends,
        mlx_hardware: bool,
        paths: PathStyle,
    ) -> (r: Self)
        ensures
            r.backends == backends,
            r.mlx_hardware == mlx_hardware,
            r.paths == paths,
    {
        Self::new(backends, mlx_hardware, paths)
    }

    fn select_by_extension(&self, path: &str) -> (r: Option<BackendChoice>)
        ensures
            r is Some <==> by_extension(*self, path@) is Some,
            r matches Some(choice) ==> by_extension(*self, path@) == Some(choice@),
    {
        match path_extension(path, self.paths) {
            Some(ext) => {
                let ext = ext.as_str();
                if text::same(ext, "safetensors") {
                    Some(BackendChoice::SafeTensors)
                } else if text::same(ext, "gguf") {
                    if self.backends.candle {
                        Some(BackendChoice::Candle)
                    } else {
                        Some(BackendChoice::Unsupported(GGUF_UNSUPPORTED.to_owned()))
                    }
                } else if self.backends.mlx && (text::same(ext, "npz") || text::same(ext, "mlx")) {
                    Some(BackendChoice::MLX)
                } else {
                    None
                }
            },
            None => None,
        }
    }

    /// The best backend for a model whose name in lower case is given.
    pub fn select_backend_as(&self, spec: &ModelSpec, lower_name: &str) -> (r: BackendChoice)
        ensures
            r@ == backend_for(*self, spec.name@, lower_name@, spec.base_path@),
    {
        let path = spec.base_path.as_str();
        let name = spec.name.as_str();
        if let Some(choice) = self.select_by_extension(path) {
            return choice;
        }
        let blob = text::contains(path, "ollama") && text::contains(path, "blobs")
            && text::contains(path, "sha256-");
        if looks_like_model_id(path) && !blob {
            return if self.backends.huggingface {
                BackendChoice::HuggingFace
            } else {
                // The closest stateless fallback.
                BackendChoice::SafeTensors
            };
        }
        if self.backends.mlx && self.mlx_hardware && (text::contains(lower_name, "llama")
            || text::contains(lower_name, "mistral") || text::contains(lower_name, "phi")
            || text::contains(lower_name, "qwen")) {
            return BackendChoice::MLX;
        }
        if blob {
            return gguf_backend(&self.backends, BLOB_UNSUPPORTED);
        }
        if text::contains(path, ".gguf") || text::contains(name, "llama") || text::contains(
            name,
            "phi",
        ) || text::contains(name, "qwen") || text::contains(name, "gemma") || text::contains(
            name,
            "mistral",
        ) {
            return gguf_backend(&self.backends, NAMED_UNSUPPORTED);
        }
        if self.backends.huggingface {
            BackendChoice::HuggingFace
        } else {
            BackendChoice::Unsupported(NO_BACKEND.to_owned())
        }
    }

    /// Auto-detect the best backend for a model.
    pub fn select_backend(&self, spec: &ModelSpec) -> (r: BackendChoice)
        ensures
            r@ == backend_for(*self, spec.name@, lowercase(spec.name@), spec.base_path@),
    {
        self.select_backend_as(spec, spec.name.as_str().to_lowercase().as_str())
    }
}

// ---------------------------------------------------------------------------------------
// What is done to load a model
// ---------------------------------------------------------------------------------------

/// Whether two optional texts hold the same characters.
pub open spec fn same_text(a: Option<String>, b: Option<String>) -> bool {
    match (a, b) {
        (Some(a), Some(b)) => a@ == b@,
        (None, None) => true,
        _ => false,
    }
}

/// Whether `universal` asks for the model of `spec` from HuggingFace, locally and on the CPU.
pub open spec fn is_universal_form(universal: UniversalModelSpec, spec: ModelSpec) -> bool {
    &&& universal.name@ == spec.name@
    &&& universal.backend matches ModelBackend::HuggingFace { base_model_id, peft_path, use_local }
    &&& base_model_id@ == spec.base_path@
    &&& same_text(peft_path, spec.lora_path)
    &&& use_local
    &&& same_text(universal.template, spec.template)
    &&& universal.ctx_len == spec.ctx_len
    &&& universal.device@ == "cpu"@
    &&& universal.n_threads == spec.n_threads
}

/// Whether `plan` is what a choice of engine asks for.
pub open spec fn is_plan_for(plan: LoadPlan, choice: Choice, spec: ModelSpec) -> bool {
    match choice {
        Choice::Unsupported(reason) => plan matches LoadPlan::Refuse(message) && message@
            == reason,
        Choice::SafeTensors => plan is SafeTensors,
        Choice::MLX => plan is MLX,
        Choice::Candle => plan is Candle,
        Choice::HuggingFace => plan matches LoadPlan::HuggingFace(universal)
            && is_universal_form(universal, spec),
    }
}

fn copy_text(text: &Option<String>) -> (r: Option<String>)
    ensures
        same_text(r, *text),
{
    match text {
        Some(text) => Some(text.clone()),
        None => None,
    }
}

/// What a choice of engine asks for.
pub fn plan_for(choice: BackendChoice, spec: &ModelSpec) -> (r: LoadPlan)
    ensures
        is_plan_for(r, choice@, *spec),
{
    match choice {
        BackendChoice::Unsupported(reason) => LoadPlan::Refuse(reason),
        BackendChoice::SafeTensors => LoadPlan::SafeTensors,
        BackendChoice::MLX => LoadPlan::MLX,
        BackendChoice::Candle => LoadPlan::Candle,
        BackendChoice::HuggingFace => LoadPlan::HuggingFace(
            UniversalModelSpec {
                name: spec.name.clone(),
                backend: ModelBackend::HuggingFace {
                    base_model_id: spec.base_path.clone(),
                    peft_path: copy_text(&spec.lora_path),
                    use_local: true,
                },
                template: copy_text(&spec.template),
                ctx_len: spec.ctx_len,
                device: "cpu".to_owned(),
                n_threads: spec.n_threads,
            },
        ),
    }
}

impl InferenceEngineAdapter {
    /// What is done to load a model: select its backend, and load it there.
    pub fn plan_load(&self, spec: &ModelSpec) -> (r: LoadPlan)
        ensures
            is_plan_for(
                r,
                backend_for(*self, spec.name@, lowercase(spec.name@), spec.base_path@),
                *spec,
            ),
    {
        plan_for(self.select_backend(spec), spec)
    }
}

// ---------------------------------------------------------------------------------------
// Laws
// ---------------------------------------------------------------------------------------

/// Whether an engine is there to serve a choice.
pub open spec fn is_built_in(backends: Backends, choice: Choice) -> bool {
    match choice {
        Choice::HuggingFace => backends.huggingface,
        Choice::MLX => backends.mlx,
        Choice::Candle => backends.candle,
        Choice::SafeTensors => true,
        Choice::Unsupported(_) => true,
    }
}

/// No engine is chosen that the server was not built with.
pub proof fn law_chosen_engine_is_built_in(
    adapter: InferenceEngineAdapter,
    name: Seq<char>,
    lower_name: Seq<char>,
    path: Seq<char>,
)
    ensures
        is_built_in(adapter.backends, backend_for(adapter, name, lower_name, path)),
{
}

/// A SafeTensors file always goes to the SafeTensors engine, whatever its name, its
/// directories and the other engines are.
pub proof fn law_safetensors_files_go_to_safetensors(
    adapter: InferenceEngineAdapter,
    name: Seq<char>,
    lower_name: Seq<char>,
    path: Seq<char>,
)
    requires
        extension(path, adapter.paths) == Some("safetensors"@),
    ensures
        backend_for(adapter, name, lower_name, path) == Choice::SafeTensors,
{
}

/// Where the candle engine is built in, a GGUF file always goes to it, and so does an Ollama
/// blob that neither an extension nor MLX claims, also where its path has the form of a model
/// ID.
pub proof fn law_gguf_goes_to_candle(
    adapter: InferenceEngineAdapter,
    name: Seq<char>,
    lower_name: Seq<char>,
    path: Seq<char>,
)
    requires
        adapter.backends.candle,
    ensures
        extension(path, adapter.paths) == Some("gguf"@) ==> backend_for(adapter, name, lower_name, path)
            == Choice::Candle,
        is_ollama_blob(path) && by_extension(adapter, path) is None && !(
        adapter.backends.mlx && adapter.mlx_hardware && is_mlx_family(lower_name))
            ==> backend_for(adapter, name, lower_name, path) == Choice::Candle,
{
    reveal_strlit("safetensors");
    reveal_strlit("gguf");
    assert("safetensors"@.len() != "gguf"@.len());
}

/// The extension takes priority over everything else: with an extension that decides, two
/// models of any names on any machines go to the same engine.
pub proof fn law_extension_takes_priority(
    a: InferenceEngineAdapter,
    b: InferenceEngineAdapter,
    name_a: Seq<char>,
    name_b: Seq<char>,
    lower_a: Seq<char>,
    lower_b: Seq<char>,
    path_a: Seq<char>,
    path_b: Seq<char>,
)
    requires
        a.backends == b.backends,
        extension(path_a, a.paths) == extension(path_b, b.paths),
        by_extension(a, path_a) is Some,
    ensures
        backend_for(a, name_a, lower_a, path_a) == backend_for(b, name_b, lower_b, path_b),
{
}

/// A path with a backslash or a dot, such as a Windows path to a file, is not taken for a
/// model ID.
pub proof fn law_files_are_not_model_ids(path: Seq<char>)
    requires
        path.contains('\\') || path.contains('.'),
    ensures
        !is_model_id(path),
{
}

/// A model ID that is no Ollama blob goes to HuggingFace, or to SafeTensors without that
/// engine, also where its name is that of a GGUF family.
pub proof fn law_model_ids_are_not_taken_for_gguf(
    adapter: InferenceEngineAdapter,
    name: Seq<char>,
    lower_name: Seq<char>,
    path: Seq<char>,
)
    requires
        is_model_id(path),
        !is_ollama_blob(path),
    ensures
        backend_for(adapter, name, lower_name, path) == if adapter.backends.huggingface {
            Choice::HuggingFace
        } else {
            Choice::SafeTensors
        },
{
    lemma_no_extension(path, adapter.paths);
}

/// With the HuggingFace engine built in, only a GGUF file can be refused, and only for want
/// of the candle engine. With the candle engine built in, nothing that looks like GGUF is
/// refused.
pub proof fn law_refusals(
    adapter: InferenceEngineAdapter,
    name: Seq<char>,
    lower_name: Seq<char>,
    path: Seq<char>,
)
    requires
        backend_for(adapter, name, lower_name, path) is Unsupported,
    ensures
        !adapter.backends.huggingface || (!adapter.backends.candle && extension(path, adapter.paths) == Some(
            "gguf"@,
        )),
        adapter.backends.candle ==> !is_named_like_gguf(name, path) && !is_ollama_blob(path),
{
}

} // verus!

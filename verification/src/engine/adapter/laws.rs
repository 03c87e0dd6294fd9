//! Which engine serves a model, told by the extension, the texts in its path and its name, the
//! engines that are built in and the machine.
use super::{
    backend_for, is_plan_for, BackendChoice, Choice, InferenceEngineAdapter, LoadPlan,
};
use crate::engine::path::{extension, lemma_no_extension};
use crate::engine::{ModelBackend, ModelSpec};
use crate::text::occurs;
use vstd::prelude::*;

verus! {

/// The extensions decide before anything else does: `safetensors` and `gguf` always, and `npz`
/// and `mlx` where MLX is built in.
pub proof fn law_extensions_decide(
    adapter: InferenceEngineAdapter,
    name: Seq<char>,
    lower_name: Seq<char>,
    path: Seq<char>,
)
    ensures
        ({
            let ext = extension(path, adapter.paths);
            let choice = backend_for(adapter, name, lower_name, path);
            &&& ext == Some("safetensors"@) ==> choice == Choice::SafeTensors
            &&& ext == Some("gguf"@) && adapter.backends.candle ==> choice == Choice::Candle
            &&& ext == Some("gguf"@) && !adapter.backends.candle ==> choice
                == Choice::Unsupported(
                "GGUF models require a GPU engine. Build with --features candle (CUDA) or --features airframe (WebGPU). See https://github.com/Michael-A-Kuykendall/shimmy for setup."@,
            )
            &&& ext == Some("npz"@) && adapter.backends.mlx ==> choice == Choice::MLX
            &&& ext == Some("mlx"@) && adapter.backends.mlx ==> choice == Choice::MLX
        }),
{
    lemma_extensions_differ();
}

proof fn lemma_extensions_differ()
    ensures
        "safetensors"@ != "gguf"@,
        "safetensors"@ != "npz"@,
        "safetensors"@ != "mlx"@,
        "gguf"@ != "npz"@,
        "gguf"@ != "mlx"@,
{
    reveal_strlit("safetensors");
    reveal_strlit("gguf");
    reveal_strlit("npz");
    reveal_strlit("mlx");
    assert("safetensors"@.len() == 11);
    assert("gguf"@.len() == 4);
    assert("npz"@.len() == 3);
    assert("mlx"@.len() == 3);
}

/// A path with a slash, without a backslash and without a dot is a model ID, unless it has the
/// three marks of an Ollama blob. It goes to HuggingFace, or to SafeTensors without that
/// engine, whatever the name.
pub proof fn law_model_ids(
    adapter: InferenceEngineAdapter,
    name: Seq<char>,
    lower_name: Seq<char>,
    path: Seq<char>,
)
    requires
        path.contains('/'),
        !path.contains('\\'),
        !path.contains('.'),
        !occurs(path, "ollama"@) || !occurs(path, "blobs"@) || !occurs(path, "sha256-"@),
    ensures
        adapter.backends.huggingface ==> backend_for(adapter, name, lower_name, path)
            == Choice::HuggingFace,
        !adapter.backends.huggingface ==> backend_for(adapter, name, lower_name, path)
            == Choice::SafeTensors,
{
    lemma_no_extension(path, adapter.paths);
}

/// On its hardware MLX takes the families that it knows by name, in any case of letters,
/// where the extension does not decide and the path is no model ID. Ollama blobs are among
/// them.
pub proof fn law_mlx_takes_its_families(
    adapter: InferenceEngineAdapter,
    name: Seq<char>,
    lower_name: Seq<char>,
    path: Seq<char>,
)
    requires
        adapter.backends.mlx,
        adapter.mlx_hardware,
        extension(path, adapter.paths) != Some("safetensors"@),
        extension(path, adapter.paths) != Some("gguf"@),
        !path.contains('/') || path.contains('\\') || path.contains('.') || (occurs(
            path,
            "ollama"@,
        ) && occurs(path, "blobs"@) && occurs(path, "sha256-"@)),
        occurs(lower_name, "llama"@) || occurs(lower_name, "mistral"@) || occurs(
            lower_name,
            "phi"@,
        ) || occurs(lower_name, "qwen"@),
    ensures
        backend_for(adapter, name, lower_name, path) == Choice::MLX,
{
}

/// MLX takes nothing else: it is built in, and either the extension is its own, or the machine
/// can run it and the name in lower case is of one of its families.
pub proof fn law_mlx_takes_nothing_else(
    adapter: InferenceEngineAdapter,
    name: Seq<char>,
    lower_name: Seq<char>,
    path: Seq<char>,
)
    requires
        backend_for(adapter, name, lower_name, path) == Choice::MLX,
    ensures
        adapter.backends.mlx,
        extension(path, adapter.paths) == Some("npz"@) || extension(path, adapter.paths) == Some(
            "mlx"@,
        ) || (adapter.mlx_hardware && (occurs(lower_name, "llama"@) || occurs(
            lower_name,
            "mistral"@,
        ) || occurs(lower_name, "phi"@) || occurs(lower_name, "qwen"@))),
{
}

/// A path with the three marks of an Ollama blob, which no extension decides and MLX does not
/// take, goes to the candle engine, or else to HuggingFace, or else nowhere.
pub proof fn law_ollama_blobs(
    adapter: InferenceEngineAdapter,
    name: Seq<char>,
    lower_name: Seq<char>,
    path: Seq<char>,
)
    requires
        occurs(path, "ollama"@),
        occurs(path, "blobs"@),
        occurs(path, "sha256-"@),
        extension(path, adapter.paths) != Some("safetensors"@),
        extension(path, adapter.paths) != Some("gguf"@),
        !adapter.backends.mlx || (!adapter.mlx_hardware && extension(path, adapter.paths) != Some(
            "npz"@,
        ) && extension(path, adapter.paths) != Some("mlx"@)),
    ensures
        ({
            let choice = backend_for(adapter, name, lower_name, path);
            &&& adapter.backends.candle ==> choice == Choice::Candle
            &&& !adapter.backends.candle && adapter.backends.huggingface ==> choice
                == Choice::HuggingFace
            &&& !adapter.backends.candle && !adapter.backends.huggingface ==> choice
                == Choice::Unsupported(
                "Ollama blob models require a GPU engine or the HuggingFace backend. Build with --features candle (CUDA) or --features airframe (WebGPU)."@,
            )
        }),
{
}

/// A path with `.gguf` in it, or a name with that of a GGUF family, goes to the candle engine,
/// or else to HuggingFace, or else nowhere, where no extension decides, the path is neither a
/// model ID nor a blob, and MLX does not take it.
pub proof fn law_names_of_gguf_families(
    adapter: InferenceEngineAdapter,
    name: Seq<char>,
    lower_name: Seq<char>,
    path: Seq<char>,
)
    requires
        occurs(path, ".gguf"@) || occurs(name, "llama"@) || occurs(name, "phi"@) || occurs(
            name,
            "qwen"@,
        ) || occurs(name, "gemma"@) || occurs(name, "mistral"@),
        extension(path, adapter.paths) != Some("safetensors"@),
        extension(path, adapter.paths) != Some("gguf"@),
        !adapter.backends.mlx || (!adapter.mlx_hardware && extension(path, adapter.paths) != Some(
            "npz"@,
        ) && extension(path, adapter.paths) != Some("mlx"@)),
        !path.contains('/') || path.contains('\\') || path.contains('.'),
        !occurs(path, "ollama"@) || !occurs(path, "blobs"@) || !occurs(path, "sha256-"@),
    ensures
        ({
            let choice = backend_for(adapter, name, lower_name, path);
            &&& adapter.backends.candle ==> choice == Choice::Candle
            &&& !adapter.backends.candle && adapter.backends.huggingface ==> choice
                == Choice::HuggingFace
            &&& !adapter.backends.candle && !adapter.backends.huggingface ==> choice
                == Choice::Unsupported(
                "GGUF-named models require a GPU engine or the HuggingFace backend. Build with --features candle (CUDA) or --features airframe (WebGPU)."@,
            )
        }),
{
}

/// On MLX's hardware, a model that is of none of its families in lower case and that only
/// MLX's name test could have claimed goes where it would go without the hardware.
pub proof fn law_hardware_matters_to_families_alone(
    a: InferenceEngineAdapter,
    b: InferenceEngineAdapter,
    name: Seq<char>,
    lower_name: Seq<char>,
    path: Seq<char>,
)
    requires
        a.backends == b.backends,
        a.paths == b.paths,
        a.mlx_hardware == b.mlx_hardware || !a.backends.mlx || !(occurs(lower_name, "llama"@)
            || occurs(lower_name, "mistral"@) || occurs(lower_name, "phi"@) || occurs(
            lower_name,
            "qwen"@,
        )),
    ensures
        backend_for(a, name, lower_name, path) == backend_for(b, name, lower_name, path),
{
}

/// Any other model goes to HuggingFace, or nowhere without that engine.
pub proof fn law_any_other_model(
    adapter: InferenceEngineAdapter,
    name: Seq<char>,
    lower_name: Seq<char>,
    path: Seq<char>,
)
    requires
        !occurs(path, ".gguf"@),
        !occurs(name, "llama"@),
        !occurs(name, "phi"@),
        !occurs(name, "qwen"@),
        !occurs(name, "gemma"@),
        !occurs(name, "mistral"@),
        extension(path, adapter.paths) != Some("safetensors"@),
        extension(path, adapter.paths) != Some("gguf"@),
        !adapter.backends.mlx || (extension(path, adapter.paths) != Some("npz"@) && extension(
            path,
            adapter.paths,
        ) != Some("mlx"@) && (!adapter.mlx_hardware || (!occurs(lower_name, "llama"@) && !occurs(
            lower_name,
            "mistral"@,
        ) && !occurs(lower_name, "phi"@) && !occurs(lower_name, "qwen"@)))),
        !path.contains('/') || path.contains('\\') || path.contains('.'),
        !occurs(path, "ollama"@) || !occurs(path, "blobs"@) || !occurs(path, "sha256-"@),
    ensures
        adapter.backends.huggingface ==> backend_for(adapter, name, lower_name, path)
            == Choice::HuggingFace,
        !adapter.backends.huggingface ==> backend_for(adapter, name, lower_name, path)
            == Choice::Unsupported(
            "No inference backend enabled. Build with --features airframe or --features huggingface."@,
        ),
{
}

/// The texts of a choice are those of the engine that it names.
pub proof fn law_views_of_choices(reason: String)
    ensures
        BackendChoice::HuggingFace@ == Choice::HuggingFace,
        BackendChoice::MLX@ == Choice::MLX,
        BackendChoice::Candle@ == Choice::Candle,
        BackendChoice::SafeTensors@ == Choice::SafeTensors,
        BackendChoice::Unsupported(reason)@ == Choice::Unsupported(reason@),
{
}

/// A model that is served by HuggingFace is asked for by its name, its path as the model, its
/// adapter, template, context and threads, locally and on the CPU.
pub proof fn law_plans_for_huggingface(plan: LoadPlan, spec: ModelSpec)
    requires
        is_plan_for(plan, Choice::HuggingFace, spec),
    ensures
        plan matches LoadPlan::HuggingFace(universal) && {
            &&& universal.name@ == spec.name@
            &&& universal.ctx_len == spec.ctx_len
            &&& universal.n_threads == spec.n_threads
            &&& universal.device@ == "cpu"@
            &&& universal.template is Some <==> spec.template is Some
            &&& universal.template is Some ==> universal.template.unwrap()@
                == spec.template.unwrap()@
            &&& universal.backend matches ModelBackend::HuggingFace {
                base_model_id,
                peft_path,
                use_local,
            }
            &&& base_model_id@ == spec.base_path@
            &&& use_local
            &&& peft_path is Some <==> spec.lora_path is Some
            &&& peft_path is Some ==> peft_path.unwrap()@ == spec.lora_path.unwrap()@
        },
{
}

/// A model goes to the engine that is chosen for it, and one that cannot be served is refused
/// with the reason.
pub proof fn law_plans_follow_choices(plan: LoadPlan, choice: Choice, spec: ModelSpec)
    requires
        is_plan_for(plan, choice, spec),
    ensures
        plan is SafeTensors <==> choice is SafeTensors,
        plan is MLX <==> choice is MLX,
        plan is Candle <==> choice is Candle,
        plan is HuggingFace <==> choice is HuggingFace,
        choice matches Choice::Unsupported(reason) ==> plan is Refuse && plan->Refuse_0@ == reason,
{
}

} // verus!

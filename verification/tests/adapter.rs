use shimmy::engine::adapter::{
    plan_for, BackendChoice, Backends, InferenceEngineAdapter, LoadPlan, BLOB_UNSUPPORTED,
    GGUF_UNSUPPORTED, NAMED_UNSUPPORTED, NO_BACKEND,
};
use shimmy::engine::path::{path_extension, path_file_name, PathStyle};
use shimmy::engine::{ModelBackend, ModelSpec};

fn create_test_spec(name: &str, path: &str) -> ModelSpec {
    ModelSpec {
        name: name.to_string(),
        base_path: path.to_string(),
        lora_path: None,
        template: None,
        ctx_len: 2048,
        n_threads: None,
    }
}

fn adapter(huggingface: bool, mlx: bool, candle: bool, mlx_hardware: bool) -> InferenceEngineAdapter {
    InferenceEngineAdapter::new(
        Backends { huggingface, mlx, candle },
        mlx_hardware,
        PathStyle::Unix,
    )
}

/// A server with every engine.
const EVERY_ENGINE: Backends = Backends { huggingface: true, mlx: true, candle: true };

fn on_windows() -> InferenceEngineAdapter {
    InferenceEngineAdapter::new(EVERY_ENGINE, false, PathStyle::Windows)
}

fn unsupported(reason: &str) -> BackendChoice {
    BackendChoice::Unsupported(reason.to_string())
}

#[test]
fn gguf_routes_to_candle() {
    let adapter = InferenceEngineAdapter::new(EVERY_ENGINE, false, PathStyle::Unix);

    let explicit = create_test_spec("qwen3-8b", "/workspace/models/qwen3-8b.gguf");
    assert_eq!(adapter.select_backend(&explicit), BackendChoice::Candle);

    // Ollama stores GGUF as extensionless blobs; same engine, different naming.
    let blob = create_test_spec(
        "qwen3",
        "/root/.ollama/models/blobs/sha256-af63361d2ac3ba2cb454f440842e345b926a50fe89",
    );
    assert_eq!(adapter.select_backend(&blob), BackendChoice::Candle);
}

#[test]
fn test_huggingface_model_id_detection() {
    let adapter = InferenceEngineAdapter::new(EVERY_ENGINE, false, PathStyle::Unix);

    // Test HuggingFace model IDs
    let hf_spec = create_test_spec("qwen", "Qwen/Qwen3-Next-80B-A3B-Instruct");
    let backend = adapter.select_backend(&hf_spec);
    assert_eq!(backend, BackendChoice::HuggingFace);

    let hf_spec2 = create_test_spec("llama", "meta-llama/Llama-2-7b-chat-hf");
    let backend2 = adapter.select_backend(&hf_spec2);
    assert_eq!(backend2, BackendChoice::HuggingFace);
}

#[test]
fn test_local_file_detection() {
    let adapter = InferenceEngineAdapter::new(EVERY_ENGINE, false, PathStyle::Unix);

    // Test local files still work
    let safetensors_spec = create_test_spec("local", "model.safetensors");
    let backend = adapter.select_backend(&safetensors_spec);
    assert_eq!(backend, BackendChoice::SafeTensors);

    // Test Windows paths (should not be treated as HF model IDs)
    let windows_spec = create_test_spec("local", "C:\\path\\to\\model.safetensors");
    let backend2 = adapter.select_backend(&windows_spec);
    assert_eq!(backend2, BackendChoice::SafeTensors);
}

#[test]
fn test_safetensors_priority_over_huggingface() {
    let adapter = InferenceEngineAdapter::new(EVERY_ENGINE, false, PathStyle::Unix);

    // SafeTensors files should ALWAYS use SafeTensors engine, even if from HuggingFace
    let safetensors_from_hf = create_test_spec("model", "/path/to/model.safetensors");
    let backend = adapter.select_backend(&safetensors_from_hf);
    assert_eq!(backend, BackendChoice::SafeTensors);

    // Even with complex paths containing slashes
    let safetensors_complex = create_test_spec(
        "model",
        "/models/huggingface/org/model/pytorch_model.safetensors",
    );
    let backend2 = adapter.select_backend(&safetensors_complex);
    assert_eq!(backend2, BackendChoice::SafeTensors);

    // Windows paths with safetensors
    let safetensors_windows =
        create_test_spec("model", "C:\\models\\org\\model\\model.safetensors");
    let backend3 = adapter.select_backend(&safetensors_windows);
    assert_eq!(backend3, BackendChoice::SafeTensors);
}

#[test]
fn test_file_extension_priority() {
    let adapter = InferenceEngineAdapter::new(EVERY_ENGINE, false, PathStyle::Unix);

    // File extensions should take priority over everything else
    let safetensors_spec = create_test_spec("llama-model", "path/to/llama.safetensors");
    let backend = adapter.select_backend(&safetensors_spec);
    assert_eq!(backend, BackendChoice::SafeTensors);

    let mlx_spec = create_test_spec("qwen-model", "path/to/qwen.mlx");
    let backend2 = adapter.select_backend(&mlx_spec);
    assert_eq!(backend2, BackendChoice::MLX);
}

#[test]
fn constructors_agree() {
    for bits in 0..16u8 {
        let backends =
            Backends { huggingface: bits & 1 != 0, mlx: bits & 2 != 0, candle: bits & 4 != 0 };
        for paths in [PathStyle::Unix, PathStyle::Windows] {
            let plain = InferenceEngineAdapter::new(backends, bits & 8 != 0, paths);
            let other =
                InferenceEngineAdapter::new_with_backend(Some("cuda"), backends, bits & 8 != 0, paths);
            for made in [&plain, &other] {
                assert_eq!(made.backends.huggingface, bits & 1 != 0);
                assert_eq!(made.backends.mlx, bits & 2 != 0);
                assert_eq!(made.backends.candle, bits & 4 != 0);
                assert_eq!(made.mlx_hardware, bits & 8 != 0);
                assert_eq!(made.paths, paths);
            }
        }
    }
}

#[test]
fn a_dot_file_behind_backslashes() {
    let hidden = create_test_spec("x", "C:\\models\\.safetensors");
    // On Windows the file name is `.safetensors`, which has no extension.
    assert_eq!(on_windows().select_backend(&hidden), BackendChoice::HuggingFace);
    // Elsewhere the whole path is a name.
    let elsewhere = InferenceEngineAdapter::new(EVERY_ENGINE, false, PathStyle::Unix);
    assert_eq!(elsewhere.select_backend(&hidden), BackendChoice::SafeTensors);
    let named = create_test_spec("llama-2", "C:\\models\\.safetensors");
    assert_eq!(on_windows().select_backend(&named), BackendChoice::Candle);
    for path in ["C:\\path\\to\\model.safetensors", "C:/m.safetensors", "m.safetensors"] {
        let spec = create_test_spec("local", path);
        assert_eq!(on_windows().select_backend(&spec), BackendChoice::SafeTensors);
    }
}

#[test]
fn mlx_hardware_is_asked_for() {
    let spec = create_test_spec("llama-2", "model.bin");
    for paths in [PathStyle::Unix, PathStyle::Windows] {
        let with = InferenceEngineAdapter::new(EVERY_ENGINE, true, paths);
        let without = InferenceEngineAdapter::new(EVERY_ENGINE, false, paths);
        assert_eq!(with.select_backend(&spec), BackendChoice::MLX);
        assert_eq!(without.select_backend(&spec), BackendChoice::Candle);
    }
}

#[test]
fn gguf_without_candle_is_refused() {
    let spec = create_test_spec("qwen3-8b", "/models/qwen3-8b.gguf");
    assert_eq!(adapter(true, true, false, true).select_backend(&spec), unsupported(GGUF_UNSUPPORTED));
    assert_eq!(
        GGUF_UNSUPPORTED,
        "GGUF models require a GPU engine. Build with --features candle (CUDA) or --features \
         airframe (WebGPU). See https://github.com/Michael-A-Kuykendall/shimmy for setup."
    );
}

/// A blob belongs to the GGUF engine before its path can be taken for a model ID.
#[test]
fn a_blob_whose_path_has_no_dot_is_no_model_id() {
    let blob = create_test_spec("m", "/usr/share/ollama/models/blobs/sha256-abc");
    for huggingface in [false, true] {
        let built = adapter(huggingface, false, true, false);
        assert_eq!(built.select_backend(&blob), BackendChoice::Candle);
    }
    assert_eq!(InferenceEngineAdapter::new(EVERY_ENGINE, false, PathStyle::Unix).select_backend(&blob), BackendChoice::Candle);
    assert_eq!(adapter(true, false, false, false).select_backend(&blob), BackendChoice::HuggingFace);
    assert_eq!(
        adapter(false, false, false, false).select_backend(&blob),
        unsupported(BLOB_UNSUPPORTED)
    );
    // Two of the three marks do not make a blob.
    let id = create_test_spec("m", "ollama/blobs-model");
    assert_eq!(adapter(true, false, true, false).select_backend(&id), BackendChoice::HuggingFace);
}

#[test]
fn blobs_and_names_fall_back() {
    let blob = create_test_spec("x", "/root/.ollama/models/blobs/sha256-af63");
    assert_eq!(adapter(true, false, true, false).select_backend(&blob), BackendChoice::Candle);
    assert_eq!(adapter(true, false, false, false).select_backend(&blob), BackendChoice::HuggingFace);
    assert_eq!(adapter(false, false, false, false).select_backend(&blob), unsupported(BLOB_UNSUPPORTED));

    for name in ["llama-2", "phi-3", "qwen3", "gemma-2", "mistral-7b"] {
        let named = create_test_spec(name, "model.bin");
        assert_eq!(adapter(true, false, true, false).select_backend(&named), BackendChoice::Candle);
        assert_eq!(adapter(true, false, false, false).select_backend(&named), BackendChoice::HuggingFace);
        assert_eq!(adapter(false, false, false, false).select_backend(&named), unsupported(NAMED_UNSUPPORTED));
    }
    let by_path = create_test_spec("x", "weights.gguf.part");
    assert_eq!(adapter(false, false, true, false).select_backend(&by_path), BackendChoice::Candle);
    // The hint in a name is told in lower case only.
    let upper = create_test_spec("LLAMA", "model.bin");
    assert_eq!(adapter(true, false, true, false).select_backend(&upper), BackendChoice::HuggingFace);
}

#[test]
fn everything_else_goes_to_huggingface_or_nowhere() {
    let spec = create_test_spec("unknown", "model.bin");
    assert_eq!(adapter(true, true, true, true).select_backend(&spec), BackendChoice::HuggingFace);
    assert_eq!(adapter(false, true, true, true).select_backend(&spec), unsupported(NO_BACKEND));
    assert_eq!(
        NO_BACKEND,
        "No inference backend enabled. Build with --features airframe or --features huggingface."
    );
    // A model ID without the HuggingFace engine.
    let id = create_test_spec("llama", "org/model-name");
    assert_eq!(adapter(false, true, true, true).select_backend(&id), BackendChoice::SafeTensors);
}

#[test]
fn mlx_takes_known_families_on_its_hardware() {
    let spec = create_test_spec("Meta-LLAMA-3", "model.bin");
    assert_eq!(adapter(true, true, true, true).select_backend(&spec), BackendChoice::MLX);
    assert_eq!(adapter(true, true, true, false).select_backend(&spec), BackendChoice::HuggingFace);
    assert_eq!(adapter(true, false, true, true).select_backend(&spec), BackendChoice::HuggingFace);
    // The name in lower case decides, whatever it was made from.
    let other = create_test_spec("other", "model.bin");
    let adapter = adapter(true, true, true, true);
    assert_eq!(adapter.select_backend_as(&other, "a-qwen"), BackendChoice::MLX);
    assert_eq!(adapter.select_backend_as(&spec, "other"), BackendChoice::HuggingFace);
    // Gemma is no family of MLX.
    let gemma = create_test_spec("gemma", "model.bin");
    assert_eq!(adapter.select_backend(&gemma), BackendChoice::Candle);
}

#[test]
fn mlx_files_need_the_mlx_engine() {
    let npz = create_test_spec("x", "weights.npz");
    assert_eq!(adapter(true, true, false, false).select_backend(&npz), BackendChoice::MLX);
    assert_eq!(adapter(true, false, false, false).select_backend(&npz), BackendChoice::HuggingFace);
}

#[test]
fn extensions() {
    let cases = [
        ("model.safetensors", Some("safetensors")),
        ("a/b.tar.gz", Some("gz")),
        ("a/b.gguf/", Some("gguf")),
        ("a/b.gguf/.", Some("gguf")),
        ("a/b.gguf//./", Some("gguf")),
        ("name.", Some("")),
        (".hidden", None),
        (".hidden.gguf", Some("gguf")),
        ("a.b/c", None),
        ("a/..", None),
        ("a.gguf/..", None),
        ("/", None),
        (".", None),
        ("./", None),
        ("", None),
        ("...", Some("")),
        ("C:\\models\\m.gguf", Some("gguf")),
    ];
    for (path, expected) in cases {
        assert_eq!(path_extension(path, PathStyle::Unix).as_deref(), expected, "{path}");
        assert_eq!(
            std::path::Path::new(path).extension().and_then(|e| e.to_str()),
            expected,
            "{path}"
        );
        assert_eq!(
            path_file_name(path, PathStyle::Unix),
            std::path::Path::new(path).file_name().map(|n| n.to_str().unwrap().to_string()),
            "{path}"
        );
    }
}

#[test]
fn windows_file_names() {
    let cases = [
        ("m.gguf", Some("m.gguf")),
        ("a/b\\m.gguf", Some("m.gguf")),
        ("a\\b/m.gguf\\", Some("m.gguf")),
        ("a\\.\\", Some("a")),
        ("a\\..", None),
        ("\\", None),
        ("", None),
        // Drives.
        ("C:\\m.gguf", Some("m.gguf")),
        ("C:m.gguf", Some("m.gguf")),
        ("c:.gguf", Some(".gguf")),
        ("C:", None),
        ("C:\\", None),
        ("1:m", Some("1:m")),
        ("CC:m", Some("CC:m")),
        // Shares.
        ("\\\\server\\share.gguf", None),
        ("//server/share.gguf", None),
        ("\\\\server\\share.gguf\\", None),
        ("\\\\server\\share\\m.gguf", Some("m.gguf")),
        ("\\\\server", Some("server")),
        ("\\\\server\\", Some("server")),
        ("\\\\server\\\\share", Some("share")),
        // Devices.
        ("\\\\.\\COM42.gguf", None),
        ("\\\\.\\COM42\\m.gguf", Some("m.gguf")),
        // Verbatim paths.
        ("\\\\?\\C:\\a/m.gguf", Some("a/m.gguf")),
        ("\\\\?\\C:\\a\\m.gguf", Some("m.gguf")),
        ("\\\\?\\C:\\a\\.", None),
        ("\\\\?\\C:", None),
        ("\\\\?\\C:m.gguf", None),
        ("\\\\?\\pics.gguf", None),
        ("\\\\?\\pics\\m.gguf", Some("m.gguf")),
        ("\\\\?\\UNC\\server\\share.gguf", None),
        ("\\\\?\\UNC\\server\\share\\m.gguf", Some("m.gguf")),
    ];
    for (path, expected) in cases {
        assert_eq!(path_file_name(path, PathStyle::Windows).as_deref(), expected, "{path}");
    }
    assert_eq!(path_extension("C:\\models\\m.gguf", PathStyle::Windows).as_deref(), Some("gguf"));
    assert_eq!(path_extension("C:\\models\\.gguf", PathStyle::Windows), None);
    assert_eq!(path_extension("C:.gguf", PathStyle::Windows), None);
    assert_eq!(path_extension("C:\\m.gguf\\x", PathStyle::Windows), None);
}

#[test]
fn loading_through_huggingface_keeps_the_model() {
    let mut spec = create_test_spec("qwen", "Qwen/Qwen3");
    spec.lora_path = Some("adapters/one".to_string());
    spec.template = Some("chatml".to_string());
    spec.n_threads = Some(4);
    match InferenceEngineAdapter::new(EVERY_ENGINE, false, PathStyle::Unix).plan_load(&spec) {
        LoadPlan::HuggingFace(universal) => {
            assert_eq!(universal.name, "qwen");
            assert_eq!(universal.template.as_deref(), Some("chatml"));
            assert_eq!(universal.ctx_len, 2048);
            assert_eq!(universal.device, "cpu");
            assert_eq!(universal.n_threads, Some(4));
            match universal.backend {
                ModelBackend::HuggingFace { base_model_id, peft_path, use_local } => {
                    assert_eq!(base_model_id, "Qwen/Qwen3");
                    assert_eq!(peft_path.as_deref(), Some("adapters/one"));
                    assert!(use_local);
                }
            }
        }
        other => panic!("{other:?}"),
    }
}

#[test]
fn plans_follow_the_choice() {
    let spec = create_test_spec("m", "m.bin");
    assert!(matches!(plan_for(BackendChoice::SafeTensors, &spec), LoadPlan::SafeTensors));
    assert!(matches!(plan_for(BackendChoice::MLX, &spec), LoadPlan::MLX));
    assert!(matches!(plan_for(BackendChoice::Candle, &spec), LoadPlan::Candle));
    match adapter(false, false, false, false).plan_load(&spec) {
        LoadPlan::Refuse(message) => assert_eq!(message, NO_BACKEND),
        other => panic!("{other:?}"),
    }
}

/// Whatever the build, no engine is chosen that is not there, and a file of a decided
/// extension goes the same way under any name.
#[test]
fn choices_over_all_builds() {
    let paths = ["m.gguf", "m.safetensors", "m.mlx", "org/model", "ollama/blobs/sha256-1", "m.bin"];
    let names = ["llama", "Qwen", "x"];
    for bits in 0..16u8 {
        let a = adapter(bits & 1 != 0, bits & 2 != 0, bits & 4 != 0, bits & 8 != 0);
        for path in paths {
            for name in names {
                let choice = a.select_backend(&create_test_spec(name, path));
                match &choice {
                    BackendChoice::HuggingFace => assert!(a.backends.huggingface),
                    BackendChoice::MLX => assert!(a.backends.mlx),
                    BackendChoice::Candle => assert!(a.backends.candle),
                    BackendChoice::SafeTensors => {}
                    BackendChoice::Unsupported(_) => {
                        assert!(!a.backends.huggingface || (!a.backends.candle && path == "m.gguf"))
                    }
                }
                if path == "m.safetensors" {
                    assert_eq!(choice, BackendChoice::SafeTensors);
                }
                if path == "m.gguf" && a.backends.candle {
                    assert_eq!(choice, BackendChoice::Candle);
                }
            }
        }
    }
}

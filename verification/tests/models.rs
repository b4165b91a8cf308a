use handy::models::{
    catalog, delete_endpoint, delete_post_process_model, get_post_process_model_catalog,
    get_system_capability, ollama_base_url, pull_endpoint, tags_endpoint, total_ram_mb,
    DeleteAnswer,
};
use handy::settings::{AppSettings, OverlayStyle, PostProcessProvider, ProviderMap};

fn settings(providers: &[(&str, &str)]) -> AppSettings {
    AppSettings {
        context_aware_enabled: false,
        context_tone_rules: Vec::new(),
        tone_presets: Vec::new(),
        post_process_providers: providers
            .iter()
            .map(|(id, base_url)| PostProcessProvider {
                id: id.to_string(),
                base_url: base_url.to_string(),
                supports_structured_output: false,
            })
            .collect(),
        post_process_provider_id: String::new(),
        post_process_models: ProviderMap::new(),
        post_process_api_keys: ProviderMap::new(),
        post_process_prompts: Vec::new(),
        post_process_selected_prompt_id: None,
        always_post_process: false,
        always_on_microphone: false,
        vad_enabled: false,
        preview_model_enabled: false,
        overlay_style: OverlayStyle::Off,
        selected_model: String::new(),
        selected_language: String::new(),
    }
}

#[test]
fn the_catalog_runs_from_fast_to_slow() {
    let models = catalog();
    let ids: Vec<&str> = models.iter().map(|m| m.id.as_str()).collect();
    assert_eq!(
        ids,
        [
            "gemma2:2b",
            "qwen2.5:3b",
            "llama3.2:3b",
            "qwen2.5:7b",
            "llama3.1:8b",
            "qwen2.5:14b",
            "qwen2.5:32b"
        ]
    );
    for pair in models.windows(2) {
        assert!(pair[0].speed_score > pair[1].speed_score);
    }
    assert!(models.iter().all(|m| !m.is_installed && m.accuracy_score <= 100));
    let first = &models[0];
    assert_eq!(first.name, "Gemma 2 2B");
    assert_eq!(first.params, "2B");
    assert_eq!(first.description, "Tiny and near-instant. Great when speed matters most.");
    assert_eq!((first.size_mb, first.vram_need_mb), (1600, 3000));
    assert_eq!((first.speed_score, first.accuracy_score), (98, 70));
    let last = &models[6];
    assert_eq!(last.name, "Qwen 2.5 32B");
    assert_eq!(last.params, "32B");
    assert_eq!(last.description, "Most accurate; needs a large GPU.");
    assert_eq!((last.size_mb, last.vram_need_mb), (20000, 24000));
    assert_eq!((last.speed_score, last.accuracy_score), (35, 97));
}

#[test]
fn installed_models_are_marked_by_tag_or_latest_alias() {
    let tags = vec!["qwen2.5:7b".to_string(), "llama3.1:latest".to_string(), "gemma2".to_string()];
    let marked: Vec<String> = get_post_process_model_catalog(Some(&tags))
        .into_iter()
        .filter(|m| m.is_installed)
        .map(|m| m.id)
        .collect();
    assert_eq!(marked, ["qwen2.5:7b", "llama3.1:8b"]);
    let family = vec!["qwen2.5:latest".to_string()];
    let count = get_post_process_model_catalog(Some(&family)).iter().filter(|m| m.is_installed).count();
    assert_eq!(count, 4);
}

#[test]
fn without_a_server_nothing_is_marked() {
    assert!(get_post_process_model_catalog(None).iter().all(|m| !m.is_installed));
    assert_eq!(get_post_process_model_catalog(None).len(), 7);
    assert!(get_post_process_model_catalog(Some(&Vec::new())).iter().all(|m| !m.is_installed));
}

#[test]
fn memory_is_counted_in_megabytes() {
    assert_eq!(total_ram_mb(Some(16 * 1024 * 1024 * 1024)), 16384);
    assert_eq!(total_ram_mb(Some(1024 * 1024 - 1)), 0);
    assert_eq!(total_ram_mb(None), 0);
}

#[test]
fn capability_tells_whether_there_is_a_gpu() {
    let found = get_system_capability(Ok(8192), Some(2 * 1024 * 1024)).unwrap();
    assert_eq!((found.vram_mb, found.ram_mb, found.has_gpu), (8192, 2, true));
    let found = get_system_capability(Ok(0), None).unwrap();
    assert_eq!((found.vram_mb, found.ram_mb, found.has_gpu), (0, 0, false));
    let error = get_system_capability(Err("task panicked".to_string()), None).unwrap_err();
    assert_eq!(error, "VRAM query failed: task panicked");
}

#[test]
fn the_server_root_is_behind_the_custom_provider() {
    for (base_url, root) in [
        ("http://localhost:11434/v1", "http://localhost:11434"),
        ("http://localhost:11434/v1//", "http://localhost:11434"),
        ("http://localhost:11434/", "http://localhost:11434"),
        ("http://localhost:11434", "http://localhost:11434"),
        ("http://localhost/v1/v1", "http://localhost/v1"),
        ("http://localhost//v1", "http://localhost/"),
        ("http://LocalHost:1/v1", "http://LocalHost:1"),
        ("http://127.0.0.1:11434/v1", "http://127.0.0.1:11434"),
        ("http://127.1.22.254", "http://127.1.22.254"),
        ("http://[::1]:11434/v1", "http://[::1]:11434"),
        ("http://[::1]/v1/", "http://[::1]"),
        ("http://me@localhost/v1", "http://me@localhost"),
        ("localhost:11434", "localhost:11434"),
    ] {
        let s = settings(&[("openai", "https://api.openai.com/v1"), ("custom", base_url)]);
        assert_eq!(ollama_base_url(&s).as_deref(), Some(root));
    }
    assert_eq!(ollama_base_url(&settings(&[("openai", "http://localhost:11434/v1")])), None);
}

#[test]
fn servers_elsewhere_are_not_local() {
    for base_url in [
        "https://api.openai.com/v1",
        "http://h",
        "",
        "http://localhost.evil.org/v1",
        "http://evil.org/localhost",
        "http://evil.org/?u=http://localhost",
        "http://localhost@evil.org/v1",
        "http://127.0.0.1.evil.org",
        "http://127.0.0",
        "http://127.0..1",
        "http://127.0.0.1.",
        "http://128.0.0.1",
        "http://192.168.0.7:11434/v1",
        "http://[::1",
        "http://[::1]x",
        "http://[::2]:11434",
    ] {
        let s = settings(&[("custom", base_url)]);
        assert_eq!(ollama_base_url(&s), None, "{base_url}");
        assert!(tags_endpoint(&s).is_none());
        assert!(pull_endpoint(&s).is_err());
        assert!(delete_endpoint(&s).is_err());
    }
}

#[test]
fn models_are_managed_on_the_local_server() {
    let s = settings(&[("custom", "http://localhost:11434/v1")]);
    let tags = tags_endpoint(&s).unwrap();
    assert_eq!(tags.base, "http://localhost:11434");
    assert_eq!(tags.url, "http://localhost:11434/api/tags");
    assert_eq!(pull_endpoint(&s).unwrap().url, "http://localhost:11434/api/pull");
    assert_eq!(delete_endpoint(&s).unwrap().url, "http://localhost:11434/api/delete");
    let none = settings(&[]);
    assert!(tags_endpoint(&none).is_none());
    let expected = "Post-processing provider is not a local Ollama server";
    assert_eq!(pull_endpoint(&none).unwrap_err(), expected);
    assert_eq!(delete_endpoint(&none).unwrap_err(), expected);
}

#[test]
fn deleting_fails_with_the_reason() {
    let gone = DeleteAnswer::Answered { success: true, status: "200 OK".to_string() };
    assert_eq!(delete_post_process_model(&gone), Ok(()));
    let missing = DeleteAnswer::Answered { success: false, status: "404 Not Found".to_string() };
    assert_eq!(
        delete_post_process_model(&missing),
        Err("Ollama returned 404 Not Found".to_string())
    );
    let down = DeleteAnswer::Unreachable { detail: "connection refused".to_string() };
    assert_eq!(
        delete_post_process_model(&down),
        Err("Failed to reach Ollama: connection refused".to_string())
    );
}

use handy::app_context::AppContext;
use handy::chinese::{maybe_convert_chinese_variant, variant_conversion, Conversion};
use handy::cleanup::{
    after_apple, after_plain, build_system_prompt, frame_prompt, is_blank_transcription,
    parse_token_limit, select_cleanup, AfterStructured, AppleReply, ChatReply, CleanupRequest, CleanupSetup,
};
use handy::output::{
    active_model, converted_text, output_context, process_transcription_output,
    resolve_effective_language, text_in_script,
};
use handy::preview::{submit_preview_edit, PreviewEdit};
use handy::settings::{
    AppSettings, OverlayStyle, PostProcessPrompt, PostProcessProvider, ProviderMap, TonePreset,
};

fn map(entries: &[(&str, &str)]) -> ProviderMap {
    let mut map = ProviderMap::new();
    for (provider_id, value) in entries {
        map.insert(provider_id.to_string(), value.to_string());
    }
    map
}

fn settings(provider_id: &str, structured: bool) -> AppSettings {
    AppSettings {
        context_aware_enabled: true,
        context_tone_rules: Vec::new(),
        tone_presets: Vec::new(),
        post_process_providers: vec![PostProcessProvider {
            id: provider_id.to_string(),
            base_url: "http://localhost:11434/v1".to_string(),
            supports_structured_output: structured,
        }],
        post_process_provider_id: provider_id.to_string(),
        post_process_models: map(&[("other", "m0"), (provider_id, "qwen2.5:3b")]),
        post_process_api_keys: map(&[(provider_id, "key")]),
        post_process_prompts: vec![
            PostProcessPrompt { id: "p0".to_string(), prompt: "unused".to_string() },
            PostProcessPrompt { id: "p1".to_string(), prompt: "Clean: ${output}".to_string() },
        ],
        post_process_selected_prompt_id: Some("p1".to_string()),
        always_post_process: false,
        always_on_microphone: false,
        vad_enabled: true,
        preview_model_enabled: false,
        overlay_style: OverlayStyle::Live,
        selected_model: "whisper".to_string(),
        selected_language: "auto".to_string(),
    }
}

fn destination() -> AppContext {
    AppContext { app_name: "Discord".to_string(), process_name: "discord".to_string(), ..AppContext::default() }
}

fn setup(s: &AppSettings) -> CleanupSetup {
    select_cleanup(s, "hello").unwrap()
}

fn no_presets() -> Vec<TonePreset> {
    Vec::new()
}

#[test]
fn blank_transcription_is_detected() {
    assert!(is_blank_transcription(""));
    assert!(is_blank_transcription("   "));
    assert!(is_blank_transcription("\t\n  \r\n"));
}

#[test]
fn non_blank_transcription_is_kept() {
    assert!(!is_blank_transcription("hello"));
    assert!(!is_blank_transcription("  hello  "));
}

#[test]
fn system_prompts_drop_the_placeholder() {
    assert_eq!(build_system_prompt("Clean this: ${output}\n"), "Clean this:");
    assert_eq!(build_system_prompt("a ${output} b ${output} c"), "a  b  c");
    assert_eq!(build_system_prompt("${output}"), "");
    assert_eq!(build_system_prompt("$output"), "$output");
}

#[test]
fn cleanup_needs_a_text_a_provider_a_model_and_a_prompt() {
    assert!(select_cleanup(&settings("custom", false), "hello").is_some());
    assert!(select_cleanup(&settings("custom", false), " \n").is_none());

    let mut s = settings("custom", false);
    s.post_process_provider_id = "gone".to_string();
    assert!(select_cleanup(&s, "hello").is_none());

    let mut s = settings("custom", false);
    s.post_process_models = map(&[("other", "m0")]);
    assert!(select_cleanup(&s, "hello").is_none());
    s.post_process_models = map(&[("custom", "  ")]);
    assert!(select_cleanup(&s, "hello").is_none());

    let mut s = settings("custom", false);
    s.post_process_selected_prompt_id = None;
    assert!(select_cleanup(&s, "hello").is_none());
    s.post_process_selected_prompt_id = Some("gone".to_string());
    assert!(select_cleanup(&s, "hello").is_none());

    let mut s = settings("custom", false);
    s.post_process_prompts[1].prompt = "\n ".to_string();
    assert!(select_cleanup(&s, "hello").is_none());
}

#[test]
fn the_custom_provider_is_greedy_and_does_not_reason() {
    let s = setup(&settings("custom", false));
    assert_eq!(s.provider.id, "custom");
    assert_eq!(s.model, "qwen2.5:3b");
    assert_eq!(s.api_key, "key");
    assert_eq!(s.prompt, "Clean: ${output}");
    assert!(s.greedy);
    assert_eq!(s.reasoning_effort.as_deref(), Some("none"));
    assert!(s.reasoning.is_none());
}

#[test]
fn openrouter_leaves_reasoning_out() {
    let s = setup(&settings("openrouter", false));
    assert!(!s.greedy);
    assert_eq!(s.reasoning_effort, None);
    let reasoning = s.reasoning.unwrap();
    assert_eq!(reasoning.effort.as_deref(), Some("none"));
    assert_eq!(reasoning.exclude, Some(true));
}

#[test]
fn other_providers_keep_their_defaults() {
    let mut with_no_key = settings("openai", false);
    with_no_key.post_process_api_keys = ProviderMap::new();
    let s = setup(&with_no_key);
    assert!(!s.greedy);
    assert_eq!(s.reasoning_effort, None);
    assert!(s.reasoning.is_none());
    assert_eq!(s.api_key, "");
}

#[test]
fn plain_requests_carry_the_transcription_in_the_prompt() {
    let s = settings("custom", false);
    let request = setup(&s).first_request(&s, &no_presets(), None, &PreviewEdit::new(), "hello");
    match request {
        CleanupRequest::Plain { prompt } => assert_eq!(prompt, "Clean: hello"),
        other => panic!("{other:?}"),
    }
}

#[test]
fn structured_requests_carry_the_transcription_apart() {
    let s = settings("custom", true);
    let request = setup(&s).first_request(&s, &no_presets(), None, &PreviewEdit::new(), "hello");
    match request {
        CleanupRequest::Structured { system_prompt, user_content } => {
            assert_eq!(system_prompt, "Clean:");
            assert_eq!(user_content, "hello");
        }
        other => panic!("{other:?}"),
    }
}

#[test]
fn apple_requests_read_the_token_limit_from_the_model() {
    let mut s = settings("apple_intelligence", true);
    s.post_process_models = map(&[("apple_intelligence", " 512 ")]);
    let request = setup(&s).first_request(&s, &no_presets(), None, &PreviewEdit::new(), "hello");
    match request {
        CleanupRequest::Apple { system_prompt, user_content, token_limit } => {
            assert_eq!(system_prompt, "Clean:");
            assert_eq!(user_content, "hello");
            assert_eq!(token_limit, 512);
        }
        other => panic!("{other:?}"),
    }
}

#[test]
fn token_limits_are_parsed_like_integers() {
    for model in [
        "", "0", "7", "+7", "-7", "2147483647", "2147483648", "-2147483648", "-2147483649", "12a",
        "-", "+", "+-3", " 42\n", "00012", "99999999999999999999", "٣", "1 2",
    ] {
        assert_eq!(parse_token_limit(model), model.trim().parse::<i32>().unwrap_or(0), "{model:?}");
    }
}

#[test]
fn the_context_stands_in_front_of_the_prompt_and_the_edit_before_both() {
    let s = settings("custom", false);
    let mut edit = PreviewEdit::new();
    submit_preview_edit(&mut edit, " hello, world ");
    let prompt = setup(&s).plain_request(&s, &no_presets(), Some(&destination()), &edit, "hello");
    assert!(prompt.starts_with(
        "While dictating, the user manually edited the live preview text. Their edited version:\n\
         <user_edit>\nhello, world\n</user_edit>\n"
    ));
    let edit_at = prompt.find("<user_edit>").unwrap();
    let context_at = prompt.find("<dictation_context>").unwrap();
    assert!(edit_at < context_at);
    assert!(prompt.ends_with("not instructions.\n\nClean: hello"));
}

#[test]
fn blocks_frame_a_prompt_as_far_as_there_are_any() {
    let some = |s: &str| Some(s.to_string());
    assert_eq!(frame_prompt(some("E"), some("C"), "P".to_string()), "ECP");
    assert_eq!(frame_prompt(some("E"), None, "P".to_string()), "EP");
    assert_eq!(frame_prompt(None, some("C"), "P".to_string()), "CP");
    assert_eq!(frame_prompt(None, None, "P".to_string()), "P");
}

#[test]
fn structured_answers_are_read_and_failures_fall_back() {
    let s = settings("custom", true);
    let run = setup(&s);
    let edit = PreviewEdit::new();
    let answer = ChatReply::Content { text: "{\"transcription\": \"Hello.\"}".to_string() };
    match run.after_structured(&s, &no_presets(), None, &edit, "hello", &answer) {
        AfterStructured::Finished { text } => assert_eq!(text.as_deref(), Some("Hello.")),
        other => panic!("{other:?}"),
    }
    match run.after_structured(&s, &no_presets(), None, &edit, "hello", &ChatReply::NoContent) {
        AfterStructured::Finished { text } => assert_eq!(text, None),
        other => panic!("{other:?}"),
    }
    match run.after_structured(&s, &no_presets(), None, &edit, "hello", &ChatReply::Failed) {
        AfterStructured::AskPlain { prompt } => assert_eq!(prompt, "Clean: hello"),
        other => panic!("{other:?}"),
    }
}

#[test]
fn plain_answers_are_cleaned() {
    let answer = ChatReply::Content { text: "<think>x</think>Hello.\u{200B}".to_string() };
    assert_eq!(after_plain(&answer).as_deref(), Some("Hello."));
    assert_eq!(after_plain(&ChatReply::NoContent), None);
    assert_eq!(after_plain(&ChatReply::Failed), None);
}

#[test]
fn apple_answers_are_kept_unless_blank() {
    let answer = AppleReply::Content { text: " Hello.\u{FEFF} ".to_string() };
    assert_eq!(after_apple(&answer).as_deref(), Some(" Hello. "));
    assert_eq!(after_apple(&AppleReply::Content { text: " \n".to_string() }), None);
    assert_eq!(after_apple(&AppleReply::Unavailable), None);
    assert_eq!(after_apple(&AppleReply::Failed), None);
}

#[test]
fn only_chinese_text_is_converted() {
    assert_eq!(variant_conversion("zh-Hans"), Some(Conversion::Tw2sp));
    assert_eq!(variant_conversion("zh-Hant"), Some(Conversion::S2tw));
    for language in ["zh", "ja", "en", "", "ZH-HANS"] {
        assert_eq!(variant_conversion(language), None);
        assert_eq!(maybe_convert_chinese_variant(language, "漢字"), None);
    }
}

#[test]
fn chinese_text_is_converted_by_its_language() {
    assert_eq!(maybe_convert_chinese_variant("zh-Hans", "漢語").as_deref(), Some("汉语"));
    assert_eq!(maybe_convert_chinese_variant("zh-Hant", "汉语").as_deref(), Some("漢語"));
    assert_eq!(text_in_script("zh-Hans", "漢語"), "汉语");
    assert_eq!(text_in_script("ja", "漢語"), "漢語");
    assert_eq!(converted_text("漢語", &Some("汉语".to_string())), "汉语");
    assert_eq!(converted_text("漢語", &None), "漢語");
}

#[test]
fn the_loaded_model_decides_on_the_language() {
    let s = settings("custom", false);
    assert_eq!(active_model(Some("parakeet".to_string()), &s), "parakeet");
    assert_eq!(active_model(None, &s), "whisper");
    assert_eq!(resolve_effective_language(Some("en".to_string()), &s), "en");
    assert_eq!(resolve_effective_language(None, &s), "auto");
}

#[test]
fn retries_do_not_adapt_to_a_destination() {
    assert!(output_context(false, Some(destination())).is_none());
    assert_eq!(output_context(true, Some(destination())).unwrap().app_name, "Discord");
    assert!(output_context(true, None).is_none());
}

#[test]
fn cleaned_up_output_is_recorded_with_its_prompt() {
    let s = settings("custom", false);
    let out = process_transcription_output(
        &s,
        "hello",
        "hello".to_string(),
        true,
        Some("Hello.".to_string()),
    );
    assert_eq!(out.final_text, "Hello.");
    assert_eq!(out.post_processed_text.as_deref(), Some("Hello."));
    assert_eq!(out.post_process_prompt.as_deref(), Some("Clean: ${output}"));
}

#[test]
fn output_that_was_not_cleaned_up_is_the_converted_text() {
    let s = settings("custom", false);
    let out = process_transcription_output(&s, "漢語", "汉语".to_string(), true, None);
    assert_eq!(out.final_text, "汉语");
    assert_eq!(out.post_processed_text, None);
    assert_eq!(out.post_process_prompt, None);

    let out = process_transcription_output(&s, "漢語", "汉语".to_string(), false, None);
    assert_eq!(out.final_text, "汉语");
    assert_eq!(out.post_processed_text.as_deref(), Some("汉语"));
    assert_eq!(out.post_process_prompt, None);

    let out = process_transcription_output(&s, "hi", "hi".to_string(), false, Some("x".to_string()));
    assert_eq!(out.final_text, "hi");
    assert_eq!(out.post_processed_text, None);
}

#[test]
fn the_selected_prompt_may_be_gone_when_the_text_comes_back() {
    let mut s = settings("custom", false);
    s.post_process_selected_prompt_id = Some("gone".to_string());
    let out = process_transcription_output(&s, "a", "a".to_string(), true, Some("b".to_string()));
    assert_eq!(out.final_text, "b");
    assert_eq!(out.post_process_prompt, None);
}

#[test]
fn stored_values_are_read_back() {
    let mut values = map(&[("a", "1"), ("b", "2")]);
    assert_eq!(values.value("a"), "1");
    assert_eq!(values.value("b"), "2");
    assert_eq!(values.value("c"), "");
    values.insert("a".to_string(), "3".to_string());
    assert_eq!(values.value("a"), "3");
    assert_eq!(values.value("b"), "2");
    assert_eq!(values.entries.len(), 2);
    let other = map(&[("b", "2"), ("a", "3")]);
    for id in ["a", "b", "c"] {
        assert_eq!(values.value(id), other.value(id));
    }
}

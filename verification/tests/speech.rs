use ai_shepherd::json::JsonValue;
use ai_shepherd::speech::{
    compact_error_text, extract_pipe_transcript, pipe_result, model_path_names, ms_to_samples,
    normalize_language, normalize_provider, normalize_transcriptions_url,
    parse_device_preference, pipe_args, pipe_timeout_secs, provider_uses_whisper,
    recommend_threads, resolve_whisper_transcribe_backend, server_path_setting,
    should_start_whisper_server, transcription_settings, transcription_text, AsrState,
    DevicePreference, ReadyCheck, ServerDevice, StartDecision, WhisperServerState,
    WhisperTranscribeBackend,
};
use ai_shepherd::speech::{
    asr_route, language_override, manual_server_url, pipe_model_names, plain_transcript,
    server_args, server_transcript, server_url, whisper_outcome, AsrRoute,
};
use ai_shepherd::translate::OpenAiConfig;

#[test]
fn asr_names_are_normalized() {
    assert_eq!(normalize_provider(" OpenAI "), "openai");
    assert_eq!(normalize_provider("whisper.cpp"), "whisperserver");
    assert_eq!(normalize_provider("other"), "whisperserver");
    assert_eq!(normalize_language("zh-CN"), "zh");
    assert_eq!(normalize_language("English"), "en");
    assert_eq!(normalize_language("  "), "ja");
    assert_eq!(normalize_language(" FR "), "fr");
}

#[test]
fn asr_state_keeps_normalized_settings() {
    let mut state = AsrState::new(None, None, Some(" ".to_string()));
    assert_eq!(state.provider(), "whisperserver");
    assert!(state.fallback_to_openai());
    assert_eq!(state.language(), "ja");
    assert_eq!(state.set_provider("OPENAI".to_string()), "openai");
    assert_eq!(state.provider(), "openai");
    assert!(!state.set_fallback_to_openai(false));
    assert!(!state.fallback_to_openai());
    assert_eq!(state.set_language("Japanese".to_string()), "ja");
    assert_eq!(state.language(), "ja");
}

#[test]
fn whisper_backend_and_server() {
    assert!(resolve_whisper_transcribe_backend(Some(" STDIO ")) == WhisperTranscribeBackend::Pipe);
    assert!(resolve_whisper_transcribe_backend(None) == WhisperTranscribeBackend::Server);
    assert_eq!(WhisperTranscribeBackend::Pipe.as_label(), "pipe");
    assert_eq!(WhisperTranscribeBackend::Server.as_label(), "server");
    assert!(provider_uses_whisper(None));
    assert!(provider_uses_whisper(Some("Whisper.cpp")));
    assert!(!provider_uses_whisper(Some("openai")));
    assert!(should_start_whisper_server(None, None));
    assert!(!should_start_whisper_server(Some("whisper"), Some("pipe")));
    assert!(!should_start_whisper_server(Some("openai"), None));
}

#[test]
fn transcription_urls() {
    assert_eq!(normalize_transcriptions_url("https://x/v1/audio/transcriptions/"), "https://x/v1/audio/transcriptions");
    assert_eq!(normalize_transcriptions_url("https://x/v1/responses"), "https://x/v1/audio/transcriptions");
    assert_eq!(normalize_transcriptions_url(" https://x/v1 "), "https://x/v1/audio/transcriptions");
    assert_eq!(normalize_transcriptions_url("https://x/v1/other"), "https://x/v1/other");
    assert_eq!(normalize_transcriptions_url("https://x"), "https://x/v1/audio/transcriptions");
}

#[test]
fn error_snippets_and_transcripts() {
    assert_eq!(compact_error_text("  "), "<empty>");
    assert_eq!(compact_error_text(" a\n\nb "), "a b");
    let long = "x".repeat(400);
    let snippet = compact_error_text(&long);
    assert_eq!(snippet.chars().count(), 323);
    assert!(snippet.ends_with("..."));

    assert_eq!(extract_pipe_transcript("  ", None), None);
    assert_eq!(extract_pipe_transcript(" plain text ", None), Some("plain text".to_string()));
    let parsed = JsonValue::Object(vec![("text".to_string(), JsonValue::Str(" hello ".to_string()))]);
    assert_eq!(extract_pipe_transcript("{\"text\":\" hello \"}", Some(parsed)), Some("hello".to_string()));
    let other = JsonValue::Object(vec![("transcript".to_string(), JsonValue::Str("t".to_string()))]);
    assert_eq!(extract_pipe_transcript("{}", Some(other)), Some("t".to_string()));

    assert_eq!(pipe_args(&Some(vec![" -a ".to_string(), " ".to_string(), "b".to_string()])), vec!["-a".to_string(), "b".to_string()]);
    assert!(pipe_args(&None).is_empty());
    assert_eq!(pipe_timeout_secs(None), 120);
    assert_eq!(pipe_timeout_secs(Some(0)), 1);

    let answer = JsonValue::Object(vec![("text".to_string(), JsonValue::Str(" words ".to_string()))]);
    assert_eq!(transcription_text(&answer).unwrap(), "words");
    assert_eq!(transcription_text(&JsonValue::Null).unwrap_err(), "transcription returned empty text");
}

#[test]
fn transcription_request_settings() {
    let cfg = OpenAiConfig {
        api_key: "k".to_string(),
        model: None,
        base_url: Some("https://api.example.com/v1".to_string()),
        timeout_secs: None,
        language: Some(" ".to_string()),
        response_format: None,
        chat_model: None,
        chat_base_url: None,
        chat_timeout_secs: None,
    };
    let s = transcription_settings(&cfg).unwrap();
    assert_eq!(s.model, "whisper-1");
    assert_eq!(s.url, "https://api.example.com/v1/audio/transcriptions");
    assert_eq!(s.timeout_secs, 300);
    assert_eq!(s.response_format, "json");
    assert_eq!(s.language, None);
    let no_key = OpenAiConfig { api_key: String::new(), ..cfg };
    assert_eq!(transcription_settings(&no_key).err().unwrap(), "OpenAI apiKey is required");
}

#[test]
fn server_devices_and_threads() {
    assert!(parse_device_preference(Some("GPU")) == DevicePreference::Gpu);
    assert!(parse_device_preference(Some("cpu")) == DevicePreference::Cpu);
    assert!(parse_device_preference(None) == DevicePreference::Auto);
    assert_eq!(recommend_threads(ServerDevice::Gpu, 1), 2);
    assert_eq!(recommend_threads(ServerDevice::Gpu, 12), 8);
    assert_eq!(recommend_threads(ServerDevice::Gpu, 64), 12);
    assert_eq!(recommend_threads(ServerDevice::Cpu, 6), 5);
    assert_eq!(recommend_threads(ServerDevice::Cpu, 16), 14);
    assert_eq!(recommend_threads(ServerDevice::Cpu, 17), 20);
    assert_eq!(ms_to_samples(1500, 16000), 24000);
    assert_eq!(ms_to_samples(10, 0), 0);
    assert_eq!(ms_to_samples(u64::MAX, 2), (u64::MAX / 1000) as usize);
}

#[test]
fn server_paths_and_models() {
    let gpu = Some(" ".to_string());
    let shared = Some("C:\\w\\server.exe".to_string());
    assert_eq!(server_path_setting(ServerDevice::Gpu, &gpu, &None, &shared), shared);
    assert_eq!(server_path_setting(ServerDevice::Cpu, &None, &Some("cpu.exe".to_string()), &shared), Some("cpu.exe".to_string()));
    assert_eq!(server_path_setting(ServerDevice::Cpu, &None, &None, &None), None);
    assert_eq!(
        model_path_names(&None),
        vec!["resources/models/ggml-base.bin".to_string(), "models/ggml-small-q5_1.bin".to_string()]
    );
    assert_eq!(model_path_names(&Some(" my.bin ".to_string())).len(), 3);
}

#[test]
fn server_start_is_shared() {
    let mut state = WhisperServerState::new();
    assert!(matches!(state.begin(false), StartDecision::Start));
    assert!(matches!(state.begin(false), StartDecision::Wait));
    assert!(matches!(state.check_ready(), ReadyCheck::Pending));
    let url = state.finish(Ok(("http://127.0.0.1:1/inference".to_string(), ServerDevice::Cpu))).unwrap();
    assert_eq!(url, "http://127.0.0.1:1/inference");
    match state.begin(false) {
        StartDecision::Ready(u) => assert_eq!(u, url),
        _ => panic!("expected the running server"),
    }
    assert!(matches!(state.begin(true), StartDecision::Start));
    assert_eq!(state.finish(Err("failed".to_string())).unwrap_err(), "failed");
    assert!(matches!(state.check_ready(), ReadyCheck::Failed));
    state.stop();
    assert!(matches!(state.begin(false), StartDecision::Start));
}

#[test]
fn asr_route_follows_provider_and_fallback() {
    assert_eq!(asr_route("whisperserver", false), Ok(AsrRoute::Whisper));
    assert_eq!(asr_route("openai", false), Ok(AsrRoute::OpenAi));
    assert_eq!(asr_route("azure", true), Ok(AsrRoute::OpenAi));
    assert_eq!(asr_route("azure", false), Err("unsupported ASR provider: azure".to_string()));
}

#[test]
fn whisper_failure_falls_back_only_when_allowed() {
    assert_eq!(whisper_outcome(Ok("hi".to_string()), true), Some(Ok("hi".to_string())));
    assert_eq!(whisper_outcome(Err("down".to_string()), false), Some(Err("down".to_string())));
    assert_eq!(whisper_outcome(Err("down".to_string()), true), None);
}

#[test]
fn chosen_language_overrides_configured_one() {
    assert_eq!(language_override(Some("ja".to_string()), "en"), Some("en".to_string()));
    assert_eq!(language_override(Some("ja".to_string()), "  "), Some("ja".to_string()));
    assert_eq!(language_override(None, ""), None);
}

#[test]
fn manual_whisper_url_excludes_default() {
    assert_eq!(manual_server_url(&Some("http://10.0.0.2:9000/inference".to_string())), Some("http://10.0.0.2:9000/inference".to_string()));
    assert_eq!(manual_server_url(&Some(" http://127.0.0.1:8080/inference ".to_string())), None);
    assert_eq!(manual_server_url(&Some("   ".to_string())), None);
    assert_eq!(manual_server_url(&None), None);
}

#[test]
fn server_and_plain_transcripts() {
    assert_eq!(server_transcript(true, "  hello \n"), Ok("hello".to_string()));
    assert_eq!(server_transcript(true, " \n "), Err("whisper-server returned empty text".to_string()));
    assert_eq!(server_transcript(false, "bad"), Err("bad".to_string()));
    assert_eq!(plain_transcript(true, " hi "), Ok("hi".to_string()));
    assert_eq!(plain_transcript(true, "  "), Ok(String::new()));
    assert_eq!(plain_transcript(false, "oops"), Err("oops".to_string()));
}

#[test]
fn pipe_models_put_configured_first() {
    assert_eq!(
        pipe_model_names(&Some(" my.bin ".to_string())),
        vec!["my.bin", "resources/models/ggml-base.bin", "models/ggml-small-q5_1.bin"]
    );
    assert_eq!(
        pipe_model_names(&None),
        vec!["resources/models/ggml-base.bin", "models/ggml-small-q5_1.bin"]
    );
}

#[test]
fn whisper_server_command_line() {
    assert_eq!(server_url(8123), "http://127.0.0.1:8123/inference");
    assert_eq!(
        server_args(8123, "m.bin", 7, ServerDevice::Cpu),
        vec!["--host", "127.0.0.1", "--port", "8123", "--inference-path", "/inference", "-m", "m.bin", "-t", "7", "--no-gpu"]
    );
    assert_eq!(
        server_args(80, "g.bin", 12, ServerDevice::Gpu),
        vec!["--host", "127.0.0.1", "--port", "80", "--inference-path", "/inference", "-m", "g.bin", "-t", "12"]
    );
}

#[test]
fn pipe_result_cases() {
    assert_eq!(
        pipe_result(false, "exit status: 2", "out", "  bad\n news ", None),
        Err("whisper pipe exited with exit status: 2 (stderr: bad news, stdout: out)".to_string())
    );
    assert_eq!(pipe_result(true, "exit status: 0", " words ", "", None), Ok("words".to_string()));
    assert_eq!(
        pipe_result(true, "exit status: 0", "  ", "", None),
        Err("whisper pipe returned empty transcript (stderr: <empty>)".to_string())
    );
}

#[test]
fn setting_the_language_in_use_changes_nothing() {
    let mut state = AsrState::new(None, None, None);
    for raw in [" English ", "ZH-CN", "  Fr-CA  ", "", "japanese"] {
        let first = state.set_language(raw.to_string());
        let again = state.set_language(state.language());
        assert_eq!(first, again);
        assert_eq!(state.language(), first);
    }
}

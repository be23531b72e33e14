use ai_shepherd::file_filter::{is_allowed_ext_name, is_disallowed_ext_name, is_ignored_dir_name, script_minified};
use ai_shepherd::live::{is_whisper_server_name, llm_provider_from_named, translate_provider_from_named};
use ai_shepherd::speech::{device_from_named, language_from_named, provider_named, DevicePreference};
use ai_shepherd::sync::sync_root;

#[test]
fn named_speech_settings() {
    assert_eq!(provider_named("openai"), "openai");
    assert_eq!(provider_named("OpenAI"), "whisperserver");
    assert_eq!(language_from_named("zh-hans".to_string()), "zh");
    assert_eq!(language_from_named("english".to_string()), "en");
    assert_eq!(language_from_named(String::new()), "ja");
    assert_eq!(language_from_named("fr".to_string()), "fr");
    assert!(matches!(device_from_named("gpu"), DevicePreference::Gpu));
    assert!(matches!(device_from_named("cpu"), DevicePreference::Cpu));
    assert!(matches!(device_from_named("GPU"), DevicePreference::Auto));
}

#[test]
fn named_providers() {
    assert_eq!(translate_provider_from_named("chatgpt"), "openai");
    assert_eq!(translate_provider_from_named("localgpt"), "local-gpt");
    assert_eq!(translate_provider_from_named("anything"), "ollama");
    assert!(is_whisper_server_name("whisper_server"));
    assert!(!is_whisper_server_name("Server"));
    assert_eq!(llm_provider_from_named("ollama".to_string()), Ok("ollama".to_string()));
    assert_eq!(llm_provider_from_named("x".to_string()), Err("unknown provider: x".to_string()));
}

#[test]
fn named_file_checks() {
    assert!(is_ignored_dir_name("node_modules"));
    assert!(!is_ignored_dir_name("Node_Modules"));
    assert!(is_allowed_ext_name("md"));
    assert!(!is_allowed_ext_name("MD"));
    assert!(is_disallowed_ext_name("png"));
    assert!(script_minified("js", "app.min.js", "var a = 1;\n"));
    assert!(!script_minified("md", "app.min.md", "var a = 1;\n"));
    assert!(!script_minified("js", "app.js", "var a = 1;\n"));
}

#[test]
fn sync_root_choice() {
    assert_eq!(sync_root(Some("C:\\a".to_string()), Some("C:\\b".to_string())), Ok(("C:\\a".to_string(), true)));
    assert_eq!(sync_root(None, Some("C:\\b".to_string())), Ok(("C:\\b".to_string(), false)));
    assert_eq!(sync_root(None, None), Err("project root not set".to_string()));
}

use ai_shepherd::json::JsonValue;
use ai_shepherd::translate::{
    batch_json_candidates, build_batch_payload, extract_response_text, ollama_settings,
    openai_chat_settings, parse_batch_translation_json, parse_batch_translation_value,
    resolve_translate_settings, strip_code_fence, translation_prompt, BatchTranslationItem,
    OllamaConfig, OpenAiConfig, TranslateConfig, TranslateSource,
};

fn s(t: &str) -> JsonValue {
    JsonValue::Str(t.to_string())
}

fn obj(fields: Vec<(&str, JsonValue)>) -> JsonValue {
    JsonValue::Object(fields.into_iter().map(|(k, v)| (k.to_string(), v)).collect())
}

fn translate_config(enabled: Option<bool>, provider: Option<&str>, target: Option<&str>) -> TranslateConfig {
    TranslateConfig {
        enabled,
        provider: provider.map(|p| p.to_string()),
        target_language: target.map(|t| t.to_string()),
        segment_batch_size: None,
        segment_single_prompt: None,
        segment_batch_prompt: None,
        live_prompt: None,
    }
}

#[test]
fn settings_follow_config_and_override() {
    assert_eq!(resolve_translate_settings(None, None).unwrap(), ("ollama".to_string(), "zh".to_string()));
    let cfg = translate_config(Some(true), Some("OpenAI"), Some("en"));
    assert_eq!(resolve_translate_settings(Some(cfg), None).unwrap(), ("openai".to_string(), "en".to_string()));
    let cfg = translate_config(None, Some("openai"), None);
    assert_eq!(
        resolve_translate_settings(Some(cfg), Some("ChatGPT".to_string())).unwrap(),
        ("chatgpt".to_string(), "zh".to_string())
    );
    let cfg = translate_config(Some(false), None, None);
    assert_eq!(resolve_translate_settings(Some(cfg), None).unwrap_err(), "translation disabled");
}

#[test]
fn provider_settings() {
    let openai = OpenAiConfig {
        api_key: " key ".to_string(),
        model: None,
        base_url: None,
        timeout_secs: None,
        language: None,
        response_format: None,
        chat_model: Some(" ".to_string()),
        chat_base_url: Some("https://example.com/v1/responses//".to_string()),
        chat_timeout_secs: None,
    };
    let chat = openai_chat_settings(&openai).unwrap();
    assert_eq!(chat.api_key, "key");
    assert_eq!(chat.model, "gpt-4.1-mini");
    assert_eq!(chat.endpoint, "https://example.com/v1/responses");
    assert_eq!(chat.timeout_secs, 120);
    let no_key = OpenAiConfig { api_key: "  ".to_string(), ..openai };
    assert_eq!(openai_chat_settings(&no_key).err().unwrap(), "OpenAI apiKey is required");

    let defaults = ollama_settings(&None).unwrap();
    assert_eq!(defaults.url, "http://localhost:11434/api/generate");
    assert_eq!(defaults.model, "gpt-oss:20b");
    assert_eq!(defaults.timeout_secs, 600);
    let off = OllamaConfig { enabled: Some(false), model: None, base_url: None, timeout_secs: None };
    assert_eq!(ollama_settings(&Some(off)).err().unwrap(), "ollama disabled");
    let custom = OllamaConfig { enabled: None, model: Some("m".to_string()), base_url: Some("http://h:1/".to_string()), timeout_secs: Some(5) };
    let c = ollama_settings(&Some(custom)).unwrap();
    assert_eq!(c.url, "http://h:1/api/generate");
    assert_eq!(c.model, "m");
    assert_eq!(c.timeout_secs, 5);
}

#[test]
fn prompt_and_source_labels() {
    assert_eq!(translation_prompt("ja"), "Translate the following text to ja. Output only the translated text.");
    assert_eq!(TranslateSource::Segment.as_str(), "segment");
    assert_eq!(TranslateSource::Live.as_str(), "live");
}

#[test]
fn code_fences_are_stripped() {
    assert_eq!(strip_code_fence("```json\n[1]\n```"), "[1]");
    assert_eq!(strip_code_fence("  plain  "), "plain");
    assert_eq!(strip_code_fence("```x```"), "```x```");
}

#[test]
fn candidates_of_a_batch_answer() {
    let c = batch_json_candidates("Here: [{\"id\":\"a\"}] done");
    assert_eq!(c, vec!["Here: [{\"id\":\"a\"}] done".to_string(), "[{\"id\":\"a\"}]".to_string(), "{\"id\":\"a\"}".to_string()]);
    assert!(batch_json_candidates("   ").is_empty());
}

#[test]
fn batch_values_are_read() {
    let item = obj(vec![("id", s(" seg1 ")), ("translation", s(" hello ")), ("cleaned_source", s("  "))]);
    let other = obj(vec![("name", s("seg2")), ("text", s("world")), ("source", s("src"))]);
    let bad = obj(vec![("id", s("x"))]);
    let value = JsonValue::Array(vec![item, other, bad]);
    let parsed = parse_batch_translation_value(&value);
    assert_eq!(parsed.len(), 2);
    assert_eq!(parsed[0].0, "seg1");
    assert_eq!(parsed[0].1.translation, "hello");
    assert_eq!(parsed[0].1.cleaned_source, None);
    assert_eq!(parsed[1].0, "seg2");
    assert_eq!(parsed[1].1.cleaned_source, Some("src".to_string()));

    let wrapped = obj(vec![("items", JsonValue::Array(vec![obj(vec![("id", s("a")), ("text", s("b"))])]))]);
    assert_eq!(parse_batch_translation_value(&wrapped).len(), 1);
    let single = obj(vec![("id", s("a")), ("translation", s("b"))]);
    assert_eq!(parse_batch_translation_value(&single).len(), 1);
    assert!(parse_batch_translation_value(&s("x")).is_empty());

    let first = parse_batch_translation_json(&vec![None, Some(s("no")), Some(single)]).unwrap();
    assert_eq!(first[0].1.translation, "b");
    assert_eq!(parse_batch_translation_json(&vec![None]).unwrap_err(), "failed to parse batch translation JSON");
}

#[test]
fn response_text_is_found() {
    let direct = obj(vec![("output_text", s("  hi  "))]);
    assert_eq!(extract_response_text(&direct), Some("hi".to_string()));
    let nested = obj(vec![
        ("output_text", s(" ")),
        (
            "output",
            JsonValue::Array(vec![obj(vec![(
                "content",
                JsonValue::Array(vec![
                    obj(vec![("type", s("other")), ("text", s("no"))]),
                    obj(vec![("type", s("output_text")), ("text", s(" yes "))]),
                ]),
            )])]),
        ),
    ]);
    assert_eq!(extract_response_text(&nested), Some("yes".to_string()));
    assert_eq!(extract_response_text(&JsonValue::Null), None);
}

#[test]
fn batch_payload_is_compact_json() {
    let items = vec![BatchTranslationItem { id: "s1".to_string(), text: "he said \"hi\"".to_string() }];
    let context = vec![BatchTranslationItem { id: "s0".to_string(), text: "a".to_string() }];
    let payload = build_batch_payload(&items, &context).unwrap();
    assert_eq!(payload, "{\"context\":[{\"id\":\"s0\",\"text\":\"a\"}],\"items\":[{\"id\":\"s1\",\"text\":\"he said \\\"hi\\\"\"}]}");
    assert_eq!(build_batch_payload(&Vec::new(), &Vec::new()).unwrap(), "{\"context\":[],\"items\":[]}");
}

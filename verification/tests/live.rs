use ai_shepherd::json::JsonValue;
use ai_shepherd::live::{
    chat_completion_content, check_rag_ask, compact_text, live_translation_prompt, llm_provider,
    local_gpt_outcome, local_gpt_settings, normalize_translate_provider, ollama_response_text,
    ollama_stream_event, openai_stream_event, rag_prompt, render_prompt_template,
    resolve_live_prompt_template, resolve_live_translate_settings, should_start_whisper_server,
    sse_payload, LineBuffer, LocalGptConfig, DEFAULT_LIVE_PROMPT,
};
use ai_shepherd::live::{finish_stream_text, join_pieces, recovery_lines, stream_tail, StreamText};
use ai_shepherd::live::{direct_ollama_url, direct_openai_target, prompt_uses_text, sse_done};
use ai_shepherd::translate::TranslateConfig;

fn s(t: &str) -> JsonValue {
    JsonValue::Str(t.to_string())
}

fn obj(fields: Vec<(&str, JsonValue)>) -> JsonValue {
    JsonValue::Object(fields.into_iter().map(|(k, v)| (k.to_string(), v)).collect())
}

#[test]
fn provider_names_are_normalized() {
    assert_eq!(normalize_translate_provider(" ChatGPT "), "openai");
    assert_eq!(normalize_translate_provider("local_gpt"), "local-gpt");
    assert_eq!(normalize_translate_provider("anything"), "ollama");
    assert!(should_start_whisper_server(None));
    assert!(should_start_whisper_server(Some("Whisper-Server")));
    assert!(!should_start_whisper_server(Some("openai")));
    assert_eq!(llm_provider("OpenAI").unwrap(), "openai");
    assert_eq!(llm_provider("Foo").unwrap_err(), "unknown provider: foo");
}

#[test]
fn live_settings_normalize_the_provider() {
    let cfg = TranslateConfig {
        enabled: None,
        provider: Some("chatgpt".to_string()),
        target_language: Some("en".to_string()),
        segment_batch_size: None,
        segment_single_prompt: None,
        segment_batch_prompt: None,
        live_prompt: None,
    };
    assert_eq!(resolve_live_translate_settings(Some(cfg), Some("  ".to_string())).unwrap(), ("openai".to_string(), "en".to_string()));
    assert_eq!(resolve_live_translate_settings(None, Some("localgpt".to_string())).unwrap(), ("local-gpt".to_string(), "zh".to_string()));
}

#[test]
fn prompt_templates_are_filled_in() {
    assert_eq!(resolve_live_prompt_template(Some("  ".to_string())), DEFAULT_LIVE_PROMPT);
    assert_eq!(resolve_live_prompt_template(Some("T {text}".to_string())), "T {text}");
    assert_eq!(
        render_prompt_template("To {target_language}: {text}", "ja", Some("hi")),
        "To ja: hi"
    );
    assert_eq!(render_prompt_template("{text}", "ja", None), "{text}");
    assert_eq!(live_translation_prompt("To {target_language}.", "en", "abc"), "To en.\n\nabc");
    assert_eq!(live_translation_prompt("[{text}]", "en", "abc"), "[abc]");
}

#[test]
fn compact_text_collapses_and_cuts() {
    assert_eq!(compact_text("  a \n b\t c  ", 240), "a b c");
    assert_eq!(compact_text("abcdef", 3), "abc...");
    assert_eq!(compact_text("", 3), "");
}

#[test]
fn stream_lines_are_cut_at_line_breaks() {
    let mut buf = LineBuffer::new();
    buf.push_text("{\"a\":1}\n  second  \npart");
    assert_eq!(buf.next_line(), Some("{\"a\":1}".to_string()));
    assert_eq!(buf.next_line(), Some("second".to_string()));
    assert_eq!(buf.next_line(), None);
    buf.push_text("ial\n");
    assert_eq!(buf.next_line(), Some("partial".to_string()));
    assert_eq!(buf.rest(), "");
}

#[test]
fn stream_events_are_read() {
    let line = obj(vec![("response", s("he")), ("done", JsonValue::Bool(false))]);
    assert_eq!(ollama_stream_event(&line), (Some("he".to_string()), false));
    let end = obj(vec![("response", s("")), ("done", JsonValue::Bool(true))]);
    assert_eq!(ollama_stream_event(&end), (None, true));

    assert_eq!(sse_payload("data: {\"x\":1} "), Some("{\"x\":1}".to_string()));
    assert_eq!(sse_payload("data:data: [DONE]"), Some("[DONE]".to_string()));
    assert_eq!(sse_payload("event: x"), None);

    let delta = obj(vec![("type", s("response.output_text.delta")), ("delta", s("abc"))]);
    assert_eq!(openai_stream_event(&delta), (Some("abc".to_string()), false));
    let choice = obj(vec![(
        "choices",
        JsonValue::Array(vec![obj(vec![("delta", obj(vec![("content", s("x"))]))])]),
    )]);
    assert_eq!(openai_stream_event(&choice), (Some("x".to_string()), false));
    let done = obj(vec![("type", s("response.completed"))]);
    assert_eq!(openai_stream_event(&done), (None, true));
}

#[test]
fn rag_questions_are_checked() {
    let ids = vec!["p".to_string()];
    assert_eq!(check_rag_ask("  ", &ids, None, None).err().unwrap(), "query is empty");
    assert_eq!(check_rag_ask("q", &Vec::new(), None, None).err().unwrap(), "project_ids is empty");
    let plan = check_rag_ask(" what? ", &ids, Some(50), Some(true)).unwrap();
    assert_eq!(plan.query, "what?");
    assert_eq!(plan.top_k, 20);
    assert!(plan.allow_out_of_context);
    assert_eq!(check_rag_ask("q", &ids, None, None).unwrap().top_k, 8);
    assert_eq!(check_rag_ask("q", &ids, Some(0), None).unwrap().top_k, 1);
    let prompt = rag_prompt("Q", "CTX", false);
    assert!(prompt.starts_with("你是项目代码/文档问答助手。请仅基于给定上下文回答问题。"));
    assert!(prompt.ends_with("问题:\nQ\n\n上下文:\nCTX"));
}

#[test]
fn local_gpt_answers() {
    let ok = obj(vec![("result", s(" done "))]);
    assert_eq!(local_gpt_outcome(true, &ok, "{}").unwrap(), "done");
    let missing = obj(vec![]);
    assert_eq!(local_gpt_outcome(true, &missing, "{}").unwrap_err(), "local-gpt response missing result");
    let partial = obj(vec![("ok", JsonValue::Bool(false)), ("timed_out", JsonValue::Bool(true)), ("result", s("part"))]);
    assert_eq!(local_gpt_outcome(true, &partial, "{}").unwrap(), "part");
    let failed = obj(vec![("message", s(" boom "))]);
    assert_eq!(local_gpt_outcome(false, &failed, "{...}").unwrap_err(), "boom");
    assert_eq!(local_gpt_outcome(false, &missing, "{}").unwrap_err(), "{}");

    let defaults = local_gpt_settings(&None);
    assert_eq!(defaults.url, "http://127.0.0.1:8787/local-gpt-sse/direct");
    assert_eq!(defaults.timeout_secs, 240);
    let cfg = LocalGptConfig { enabled: None, base_url: Some("http://h/".to_string()), timeout_secs: Some(9), project_id: Some(" p1 ".to_string()) };
    let custom = local_gpt_settings(&Some(cfg));
    assert_eq!(custom.url, "http://h/local-gpt-sse/direct");
    assert_eq!(custom.project_id, "p1");
}

#[test]
fn answers_of_direct_requests() {
    let completion = obj(vec![(
        "choices",
        JsonValue::Array(vec![obj(vec![("message", obj(vec![("content", s(" hi "))]))])]),
    )]);
    assert_eq!(chat_completion_content(&completion), Some(" hi ".to_string()));
    assert_eq!(chat_completion_content(&obj(vec![])), None);
    assert_eq!(ollama_response_text(&obj(vec![("response", s(" r "))])), Some("r".to_string()));
    assert_eq!(ollama_response_text(&obj(vec![("response", s(" "))])), None);
}

#[test]
fn direct_request_targets() {
    assert_eq!(
        direct_openai_target(&None, &Some("sk".to_string())),
        Ok(("https://api.openai.com/v1/chat/completions".to_string(), "sk".to_string()))
    );
    assert_eq!(
        direct_openai_target(&Some("http://proxy//".to_string()), &Some(" k ".to_string())),
        Ok(("http://proxy/v1/chat/completions".to_string(), " k ".to_string()))
    );
    assert_eq!(direct_openai_target(&None, &Some("  ".to_string())), Err("OpenAI api_key is required".to_string()));
    assert_eq!(direct_openai_target(&None, &None), Err("OpenAI api_key is required".to_string()));
    assert_eq!(direct_ollama_url(&None), "http://localhost:11434/api/generate");
    assert_eq!(direct_ollama_url(&Some("http://gpu:1/".to_string())), "http://gpu:1/api/generate");
}

#[test]
fn live_template_and_stream_end() {
    assert!(prompt_uses_text("Say {text} in {target_language}"));
    assert!(!prompt_uses_text(DEFAULT_LIVE_PROMPT));
    assert!(sse_done("[DONE]"));
    assert!(!sse_done("{}"));
}

#[test]
fn stream_finishing_steps() {
    let mut lines = LineBuffer::new();
    lines.push_text("  {\"response\":\"x\"}  ");
    assert_eq!(stream_tail(false, &lines), Some("{\"response\":\"x\"}".to_string()));
    assert_eq!(stream_tail(true, &lines), None);
    assert_eq!(stream_tail(false, &LineBuffer::new()), None);
    assert!(recovery_lines("got it", "a\nb").is_empty());
    assert_eq!(recovery_lines("  ", " a \r\nb\n"), vec!["a".to_string(), "b".to_string()]);
    assert_eq!(join_pieces(&vec![Some("ab".to_string()), None, Some("c".to_string())]), "abc");
    assert_eq!(finish_stream_text("  ", " found "), "found");
    assert_eq!(finish_stream_text(" kept ", "other"), "kept");
    assert_eq!(finish_stream_text(" ", " "), "");
}

fn ollama_obj(response: &str, done: bool) -> JsonValue {
    JsonValue::Object(vec![
        ("response".to_string(), JsonValue::Str(response.to_string())),
        ("done".to_string(), JsonValue::Bool(done)),
    ])
}

#[test]
fn ollama_stream_text_stops_at_done() {
    let mut st = StreamText::new();
    assert_eq!(st.ollama_line("", None), None);
    assert_eq!(st.ollama_line("x", Some(ollama_obj("Hel", false))), Some("Hel".to_string()));
    assert_eq!(st.ollama_line("not json", None), None);
    assert_eq!(st.ollama_line("x", Some(ollama_obj("lo", true))), Some("lo".to_string()));
    assert!(st.done());
    assert_eq!(st.ollama_line("x", Some(ollama_obj("after", false))), None);
    assert_eq!(st.text(), "Hello");
}

#[test]
fn openai_stream_text_stops_at_done_marker() {
    let delta = |t: &str| {
        JsonValue::Object(vec![
            ("type".to_string(), JsonValue::Str("response.output_text.delta".to_string())),
            ("delta".to_string(), JsonValue::Str(t.to_string())),
        ])
    };
    let mut st = StreamText::new();
    assert_eq!(st.openai_line("event: x", None), None);
    assert_eq!(st.openai_line("data: {..}", Some(delta("Bon"))), Some("Bon".to_string()));
    assert_eq!(st.openai_line("data: {..}", Some(delta("jour"))), Some("jour".to_string()));
    assert_eq!(st.openai_line("data: [DONE]", None), None);
    assert!(st.done());
    assert_eq!(st.openai_line("data: {..}", Some(delta("!"))), None);
    assert_eq!(st.text(), "Bonjour");
}

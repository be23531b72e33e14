use ai_shepherd::queue::{
    group_by_provider, load_segment_translation_batch_config, next_batch_step, segment_file_name,
    segment_order, BatchStep, PendingTranslations, SpeakerState, TranslationQueue,
    TranslationRequest,
};
use ai_shepherd::segments::{
    apply_group_result, plan_provider_group, SegmentText, SegmentTranslationHistory,
};
use ai_shepherd::translate::BatchTranslationResult;

fn req(name: &str, provider: Option<&str>, order: usize, generation: u64) -> TranslationRequest {
    TranslationRequest { name: name.to_string(), provider: provider.map(|p| p.to_string()), order, generation }
}

fn names(q: &mut TranslationQueue) -> Vec<String> {
    let mut out = Vec::new();
    while let Some(r) = q.try_pop() {
        out.push(r.name);
    }
    out
}

#[test]
fn queue_orders_by_segment_and_keeps_one_per_segment() {
    let mut q = TranslationQueue::new();
    q.push(req("c", None, 3, 0));
    q.push(req("a", None, 1, 0));
    q.push(req("b1", None, 2, 0));
    q.push(req("b2", None, 2, 0));
    q.push(req("a", Some("openai"), 0, 0));
    assert_eq!(q.len(), 4);
    assert_eq!(names(&mut q), vec!["a", "b1", "b2", "c"]);
    assert_eq!(q.len(), 0);
    assert!(q.try_pop().is_none());
    q.push(req("x", None, 1, 0));
    q.clear();
    assert_eq!(q.len(), 0);
}

#[test]
fn requests_are_grouped_by_provider() {
    let groups = group_by_provider(vec![
        req("1", Some("a"), 1, 0),
        req("2", Some("a"), 2, 0),
        req("3", None, 3, 0),
        req("4", Some("a"), 4, 0),
    ]);
    let shapes: Vec<Vec<String>> = groups.iter().map(|g| g.iter().map(|r| r.name.clone()).collect()).collect();
    assert_eq!(shapes, vec![vec!["1".to_string(), "2".to_string()], vec!["3".to_string()], vec!["4".to_string()]]);
    assert!(group_by_provider(Vec::new()).is_empty());
}

#[test]
fn pending_translations_keep_the_first_request() {
    let mut p = PendingTranslations::new();
    assert!(p.is_empty());
    p.request("s1".to_string(), Some("openai".to_string()));
    p.request("s1".to_string(), None);
    p.request("s2".to_string(), None);
    assert!(!p.is_empty());
    assert_eq!(p.take("s1"), Some(Some("openai".to_string())));
    assert_eq!(p.take("s1"), None);
    assert_eq!(p.take("s2"), Some(None));
    p.request("s3".to_string(), None);
    p.clear();
    assert!(p.is_empty());
}

#[test]
fn segment_bookkeeping() {
    let list = vec!["a.wav".to_string(), "b.wav".to_string()];
    assert_eq!(segment_order(&list, "b.wav"), 1);
    assert_eq!(segment_order(&list, "z.wav"), usize::MAX);
    assert_eq!(load_segment_translation_batch_config(None), 1);
    assert_eq!(load_segment_translation_batch_config(Some(0)), 1);
    assert_eq!(load_segment_translation_batch_config(Some(4)), 4);
    assert_eq!(segment_file_name("seg_1.wav").unwrap(), "seg_1.wav");
    assert_eq!(segment_file_name("..\\x.wav").unwrap_err(), "invalid segment name");
    assert_eq!(segment_file_name("").unwrap_err(), "invalid segment name");
    assert!(matches!(next_batch_step(2, 2, 1, 1), BatchStep::Finish));
    assert!(matches!(next_batch_step(1, 2, 1, 2), BatchStep::Abandon));
    assert!(matches!(next_batch_step(1, 2, 1, 1), BatchStep::Poll));
}

#[test]
fn speaker_decisions() {
    let mut s = SpeakerState::new();
    s.apply_decision(Some(1), Some(7), false);
    assert_eq!((s.current_id, s.current_similarity, s.last_changed), (Some(1), Some(7), Some(true)));
    s.apply_decision(Some(1), Some(8), false);
    assert_eq!(s.last_changed, Some(false));
    s.apply_decision(Some(2), None, false);
    assert_eq!(s.last_changed, Some(true));
    s.apply_decision(Some(2), None, true);
    assert_eq!((s.current_id, s.current_similarity, s.last_changed), (None, None, None));
}

fn seg(name: &str, transcript: Option<&str>) -> SegmentText {
    SegmentText { name: name.to_string(), transcript: transcript.map(|t| t.to_string()) }
}

#[test]
fn batches_carry_context_between_groups() {
    let mut history = SegmentTranslationHistory { generation: 0, provider: None, previous_batch: Vec::new() };
    let segments = vec![seg("s1", Some("hello")), seg("s2", None), seg("s3", Some("bye"))];
    let requests = vec![req("s1", None, 0, 5), req("s2", None, 1, 5), req("s3", None, 2, 4)];
    let plan = plan_provider_group(&mut history, &requests, 5, &segments).unwrap();
    assert_eq!(history.generation, 5);
    assert_eq!(plan.items.len(), 1);
    assert_eq!(plan.items[0].id, "s1");
    assert_eq!(plan.all_items.len(), 1);

    let answer = vec![(
        "s1".to_string(),
        BatchTranslationResult { translation: "你好".to_string(), cleaned_source: Some("Hello.".to_string()) },
    )];
    let applied = apply_group_result(&mut history, plan, 5, true, &Ok(answer));
    assert_eq!(applied, vec![("s1".to_string(), "你好".to_string())]);
    assert_eq!(history.previous_batch.len(), 1);
    assert_eq!(history.previous_batch[0].cleaned_text, "Hello.");

    let next = plan_provider_group(&mut history, &vec![req("s3", None, 2, 5)], 5, &segments).unwrap();
    assert_eq!(next.context_items.len(), 1);
    assert_eq!(next.all_items.len(), 2);
    let failed = apply_group_result(&mut history, next, 5, true, &Err("down".to_string()));
    assert_eq!(failed, vec![("s1".to_string(), String::new()), ("s3".to_string(), String::new())]);
    assert!(history.previous_batch.is_empty());

    assert!(plan_provider_group(&mut history, &vec![req("s2", None, 1, 5)], 5, &segments).is_none());
}

#[test]
fn cancelled_batches_change_nothing() {
    let mut history = SegmentTranslationHistory { generation: 1, provider: None, previous_batch: Vec::new() };
    let segments = vec![seg("a", Some("x"))];
    let plan = plan_provider_group(&mut history, &vec![req("a", None, 0, 1)], 1, &segments).unwrap();
    let applied = apply_group_result(&mut history, plan, 1, false, &Err("late".to_string()));
    assert!(applied.is_empty());
    assert!(history.previous_batch.is_empty());
}

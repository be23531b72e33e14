use ai_shepherd::config::{config_candidates, config_not_found, join_file, push_candidate, same_path};
use ai_shepherd::path::{common_prefix, resolve_project_root};
use ai_shepherd::projects::{list_projects, ProjectEntry, ProjectsIndex};
use ai_shepherd::queue::{plan_segment_translation, SegmentTranslation};
use ai_shepherd::live::{answer_route, AnswerRoute};
use ai_shepherd::translate::{check_batch_answer, translate_route, TranslateRoute};

#[test]
fn common_prefixes_of_paths() {
    assert_eq!(common_prefix("C:\\a\\b\\c", "C:\\a\\b\\d"), Some("C:\\a\\b".to_string()));
    assert_eq!(common_prefix("C:\\a", "D:\\a"), None);
    assert_eq!(
        resolve_project_root(None, &vec!["C:\\p\\src\\a.rs".to_string(), "C:\\p\\docs\\b.md".to_string()]),
        Some("C:\\p".to_string())
    );
    assert_eq!(
        resolve_project_root(None, &vec!["C:\\p\\a.rs".to_string(), "D:\\q\\b.md".to_string()]),
        Some("C:\\p".to_string())
    );
    assert_eq!(resolve_project_root(Some("R".to_string()), &Vec::new()), Some("R".to_string()));
    assert_eq!(resolve_project_root(None, &Vec::new()), None);
}

#[test]
fn config_locations() {
    assert!(same_path("C:\\a\\b", "C:/a/./b/"));
    assert!(!same_path("\\a", "a"));
    assert_eq!(join_file("C:\\dir", "x.cfg"), "C:\\dir\\x.cfg");
    assert_eq!(join_file("C:\\dir\\", "x.cfg"), "C:\\dir\\x.cfg");
    let mut c = vec!["C:\\a\\f".to_string()];
    push_candidate(&mut c, "C:/a/f".to_string());
    push_candidate(&mut c, "C:/b/f".to_string());
    assert_eq!(c, vec!["C:\\a\\f".to_string(), "C:/b/f".to_string()]);
    let list = config_candidates(
        Some("E:\\env.config".to_string()),
        Some("C:\\work".to_string()),
        Some("C:\\".to_string()),
        Some("C:\\work".to_string()),
        None,
    );
    assert_eq!(
        list,
        vec![
            "E:\\env.config".to_string(),
            "C:\\work\\ai-interview.config".to_string(),
            "C:\\ai-interview.config".to_string(),
        ]
    );
    assert_eq!(
        config_not_found(&vec!["a".to_string(), "b".to_string()]),
        "ai-interview.config not found. Tried: a, b"
    );
}

#[test]
fn projects_are_listed_by_name() {
    let e = |id: &str, name: &str| ProjectEntry {
        project_id: id.to_string(),
        project_name: Some(name.to_string()),
        root_dir: format!("C:\\{id}"),
        updated_at: "t".to_string(),
    };
    let index = ProjectsIndex { projects: vec![e("1", "beta"), e("2", "Alpha"), e("3", "gamma"), e("4", "alpha")] };
    let listed = list_projects(&index);
    let ids: Vec<&str> = listed.iter().map(|p| p.project_id.as_str()).collect();
    assert_eq!(ids, vec!["2", "4", "1", "3"]);
}

#[test]
fn routes_and_segment_requests() {
    assert!(translate_route("chatgpt").unwrap() == TranslateRoute::OpenAi);
    assert!(translate_route("ollama").unwrap() == TranslateRoute::Ollama);
    assert_eq!(translate_route("x").unwrap_err(), "unsupported translate provider: x");
    assert!(check_batch_answer(Vec::new()).is_err());
    assert!(answer_route("local-gpt") == AnswerRoute::LocalGpt);
    assert!(answer_route("whatever") == AnswerRoute::Ollama);
    assert_eq!(plan_segment_translation("a\\b.wav", None, false, true).unwrap_err(), "invalid segment name");
    assert!(matches!(plan_segment_translation("b.wav", Some(" ".to_string()), true, true), Ok(SegmentTranslation::Ignore)));
    match plan_segment_translation("b.wav", Some("openai".to_string()), false, true) {
        Ok(SegmentTranslation::Enqueue(p)) => assert_eq!(p, Some("openai".to_string())),
        other => panic!("unexpected {other:?}"),
    }
    assert!(matches!(plan_segment_translation("b.wav", Some(" ".to_string()), false, false), Ok(SegmentTranslation::Defer(None))));
}

use ai_shepherd::projects::{
    create_project, get_project_root, list_projects, normalize_projects, normalize_root_dir, remove_project,
    resolve_project_name, to_project_dto, upsert_project_root, ProjectEntry, ProjectsIndex,
};
use ai_shepherd::hashing::hash_project_id;

fn entry(id: &str, name: Option<&str>, root: &str) -> ProjectEntry {
    ProjectEntry {
        project_id: id.to_string(),
        project_name: name.map(|n| n.to_string()),
        root_dir: root.to_string(),
        updated_at: "t0".to_string(),
    }
}

#[test]
fn project_names_are_resolved() {
    assert_eq!(resolve_project_name("  My App  ", "C:\\x\\y", "id"), "My App");
    assert_eq!(resolve_project_name("", "C:\\work\\demo\\", "id"), "demo");
    assert_eq!(resolve_project_name(" ", "", "fallback"), "fallback");
}

#[test]
fn root_dirs_compare_normalized() {
    assert_eq!(normalize_root_dir(" C:\\Work\\Proj\\\\ "), "c:/work/proj");
    assert_eq!(normalize_root_dir("/a/b/"), "/a/b");
}

#[test]
fn create_then_find_then_remove() {
    let mut index = ProjectsIndex { projects: Vec::new() };
    let created = create_project(&mut index, "", "C:\\Work\\Demo".to_string(), "now".to_string()).unwrap();
    assert_eq!(created.project_id, hash_project_id("c:/work/demo"));
    assert_eq!(created.project_name, "Demo");
    assert_eq!(created.root_dir, "C:\\Work\\Demo");
    assert_eq!(get_project_root(&index, &created.project_id), Some("C:\\Work\\Demo".to_string()));

    let again = create_project(&mut index, "other", "c:/work/demo/".to_string(), "later".to_string());
    assert_eq!(again.unwrap_err(), "project root already exists");
    assert_eq!(index.projects.len(), 1);

    assert!(remove_project(&mut index, &created.project_id));
    assert_eq!(get_project_root(&index, &created.project_id), None);
    assert!(!remove_project(&mut index, &created.project_id));
}

#[test]
fn upsert_points_a_project_at_a_root() {
    let mut index = ProjectsIndex { projects: vec![entry("p1", Some(" "), "C:\\old")] };
    upsert_project_root(&mut index, "p1", "C:\\new\\place".to_string(), "t1".to_string());
    assert_eq!(index.projects.len(), 1);
    assert_eq!(index.projects[0].root_dir, "C:\\new\\place");
    assert_eq!(index.projects[0].project_name, Some("place".to_string()));
    assert_eq!(index.projects[0].updated_at, "t1");
    upsert_project_root(&mut index, "p2", "D:\\two".to_string(), "t2".to_string());
    assert_eq!(index.projects.len(), 2);
    assert_eq!(get_project_root(&index, "p2"), Some("D:\\two".to_string()));
}

#[test]
fn blank_names_are_filled_in() {
    let mut index = ProjectsIndex {
        projects: vec![entry("p1", None, "C:\\alpha"), entry("p2", Some("Kept"), "C:\\beta")],
    };
    normalize_projects(&mut index);
    assert_eq!(index.projects[0].project_name, Some("alpha".to_string()));
    assert_eq!(index.projects[1].project_name, Some("Kept".to_string()));
    normalize_projects(&mut index);
    assert_eq!(index.projects[0].project_name, Some("alpha".to_string()));
    let dto = to_project_dto(&entry("p3", None, "C:\\gamma"));
    assert_eq!(dto.project_name, "gamma");
    assert_eq!(dto.project_id, "p3");
}

#[test]
fn projects_listed_by_name_keeping_registration_order() {
    let index = ProjectsIndex {
        projects: vec![
            entry("p_beta", Some("Beta"), "C:\\b"),
            entry("p_second", Some("alpha"), "C:\\a2"),
            entry("p_first", Some("Alpha"), "C:\\a1"),
            entry("p_zed", Some("zed"), "C:\\z"),
        ],
    };
    let ids: Vec<String> = list_projects(&index).into_iter().map(|p| p.project_id).collect();
    assert_eq!(ids, vec!["p_second", "p_first", "p_beta", "p_zed"]);
}

use ai_shepherd::chunker::chunk_text;
use ai_shepherd::file_filter::{extension_allowed, is_minified_code, should_skip_path};
use ai_shepherd::hashing::{hash_project_id, hash_str};
use ai_shepherd::service::{
    normalize_filename_only, normalize_relative_path, prepare_file_candidate, query_text, Embedder,
    FileInput, MockEmbedder, RagService,
};
use ai_shepherd::store::{build_project_filter, escape_literal, MemoryStore, RagManifestStore};

/// An embedder for tests: each text gets a vector from the library's mock
/// generator, as `f32` bit patterns scaled to unit length.
const NOW: &str = "2024-05-01T12:00:00+00:00";

struct TestEmbedder {
    inner: MockEmbedder,
}

impl TestEmbedder {
    fn new(dimension: usize) -> Self {
        TestEmbedder { inner: MockEmbedder::new(dimension) }
    }

    fn vector(&self, text: &str) -> Vec<u32> {
        let raw = self.inner.raw_components(text);
        let mut out: Vec<f32> = raw.iter().map(|v| (*v as f32) / (u64::MAX as f32)).collect();
        let norm = out.iter().map(|v| v * v).sum::<f32>().sqrt();
        if norm != 0.0 {
            for v in out.iter_mut() {
                *v /= norm;
            }
        }
        out.into_iter().map(f32::to_bits).collect()
    }
}

impl Embedder for TestEmbedder {
    fn embed_documents(&mut self, texts: &Vec<String>) -> Result<Vec<Vec<u32>>, String> {
        Ok(texts.iter().map(|t| self.vector(t)).collect())
    }

    fn embed_query(&mut self, text: &str) -> Result<Vec<u32>, String> {
        Ok(self.vector(text))
    }

    fn dimension(&self) -> usize {
        self.inner.dimension()
    }
}

fn input(path: &str, text: &str) -> FileInput {
    FileInput {
        path: path.to_string(),
        len: Some(text.len() as u64),
        bytes: Some(text.as_bytes().to_vec()),
        mtime: Some(1),
    }
}

fn service() -> RagService<MemoryStore, TestEmbedder> {
    RagService::new_with(MemoryStore::new(), TestEmbedder::new(8))
}

#[test]
fn chunker_respects_size() {
    let text = "a".repeat(2500);
    let chunks = chunk_text(&text, 1000, 150);
    assert!(!chunks.is_empty());
    assert!(chunks[0].len() <= 1000);
}

#[test]
fn chunker_uses_boundaries() {
    let text = "第一句。\n第二句。\n第三句。";
    let chunks = chunk_text(text, 6, 0);
    assert!(chunks.len() >= 2);
}

#[test]
fn extension_allows_text() {
    assert!(extension_allowed("readme.md"));
    assert!(!extension_allowed("image.png"));
}

#[test]
fn minified_detection() {
    assert!(is_minified_code("bundle.min.js", "var a=1;"));
}

#[test]
fn index_add_and_search() {
    let mut service = service();
    let root = "C:\\work\\add".to_string();
    let files = vec![
        input("C:\\work\\add\\file1.txt", "alpha beta gamma"),
        input("C:\\work\\add\\file2.md", "delta epsilon zeta"),
    ];
    let report = service.index_add_files("proj_add", Some(root), files, NOW).unwrap();
    assert_eq!(report.indexed_files, 2);
    assert!(report.chunks_added >= 2);
    assert!(report.skipped_files.is_empty());
    assert!(service.store.chunk_count() > 0);

    let projects = vec!["proj_add".to_string()];
    let query = service.search("alpha", &projects).unwrap();
    let hits = service.store.search_candidates(&projects, query.len());
    assert!(!hits.is_empty());
}

#[test]
fn sync_removes_deleted_file() {
    let mut service = service();
    let root = "C:\\work\\sync".to_string();
    let files = vec![
        input("C:\\work\\sync\\keep.txt", "keep this file"),
        input("C:\\work\\sync\\remove.txt", "remove this file"),
    ];
    service.index_add_files("proj_sync", Some(root.clone()), files, NOW).unwrap();

    let file2_id = hash_str("proj_sync:remove.txt");
    let scan = vec![input("C:\\work\\sync\\keep.txt", "keep this file")];
    let report = service.index_sync_project("proj_sync", root, scan, NOW).unwrap();

    assert_eq!(report.deleted_files, 1);
    assert_eq!(service.store.chunk_count_for_file("proj_sync", &file2_id), 0);
    let record = service.store.file_record("proj_sync", &file2_id).unwrap();
    assert_eq!(record.is_deleted, Some(true));
}

#[test]
fn adding_the_same_files_again_changes_nothing() {
    let mut service = service();
    let root = Some("C:\\p".to_string());
    let files = || vec![input("C:\\p\\a.txt", "one two"), input("C:\\p\\b.rs", "fn main() {}")];
    service.index_add_files("p", root.clone(), files(), NOW).unwrap();
    let chunks_before = service.store.chunk_count();
    let again = service.index_add_files("p", root, files(), NOW).unwrap();
    assert_eq!(again.indexed_files, 0);
    assert_eq!(again.updated_files, 0);
    assert_eq!(again.skipped_files.len(), 2);
    assert!(again.skipped_files.iter().all(|s| s.reason == "unchanged"));
    assert_eq!(service.store.chunk_count(), chunks_before);
}

#[test]
fn changed_file_is_updated_and_filtered_file_skipped() {
    let mut service = service();
    let root = Some("C:\\p".to_string());
    service.index_add_files("p", root.clone(), vec![input("C:\\p\\a.txt", "first")], NOW).unwrap();
    let report = service
        .index_add_files(
            "p",
            root,
            vec![input("C:\\p\\a.txt", "second version"), input("C:\\p\\node_modules\\x.js", "x")], NOW)
        .unwrap();
    assert_eq!(report.updated_files, 1);
    assert_eq!(report.indexed_files, 0);
    assert_eq!(report.chunks_deleted, 1);
    assert_eq!(report.skipped_files.len(), 1);
    assert_eq!(report.skipped_files[0].reason, "filtered");
    assert_eq!(report.skipped_files[0].path, "C:\\p\\node_modules\\x.js");
}

#[test]
fn sync_indexes_new_and_changed_files() {
    let mut service = service();
    let root = "C:\\s".to_string();
    service
        .index_add_files("s", Some(root.clone()), vec![input("C:\\s\\a.txt", "old"), input("C:\\s\\b.txt", "same")], NOW)
        .unwrap();
    let scan = vec![
        input("C:\\s\\a.txt", "new"),
        input("C:\\s\\b.txt", "same"),
        input("C:\\s\\c.txt", "fresh"),
    ];
    let report = service.index_sync_project("s", root.clone(), scan, NOW).unwrap();
    assert_eq!(report.updated_files, 1);
    assert_eq!(report.indexed_files, 1);
    assert_eq!(report.deleted_files, 0);
    assert_eq!(report.root_dir, Some(root));
}

#[test]
fn remove_files_by_path_and_id() {
    let mut service = service();
    let root = "C:\\r".to_string();
    service
        .index_add_files("r", Some(root.clone()), vec![input("C:\\r\\a.txt", "aaa"), input("C:\\r\\b.txt", "bbb")], NOW)
        .unwrap();
    let b_id = hash_str("r:b.txt");
    let report = service
        .index_remove_files("r", Some(root), Some(vec!["C:\\r\\a.txt".to_string()]), Some(vec![b_id.clone()]), NOW)
        .unwrap();
    assert_eq!(report.deleted_files, 2);
    assert_eq!(service.store.chunk_count(), 0);
    assert_eq!(service.store.file_record("r", &b_id).unwrap().is_deleted, Some(true));
}

#[test]
fn remove_by_path_without_root_is_refused() {
    let mut service = service();
    let err = service
        .index_remove_files("r", None, Some(vec!["a.txt".to_string()]), None, NOW)
        .unwrap_err();
    assert_eq!(err, "project root not set");
}

#[test]
fn search_without_projects_is_refused() {
    let mut service = service();
    assert_eq!(service.search("x", &Vec::new()).unwrap_err(), "project_ids is empty");
    assert_eq!(query_text("alpha"), "query: alpha");
}

#[test]
fn list_files_gives_the_project_entries() {
    let mut service = service();
    service
        .index_add_files("l", Some("C:\\l".to_string()), vec![input("C:\\l\\a.txt", "a"), input("C:\\l\\b.md", "b")], NOW)
        .unwrap();
    let listed = service.store.list_files("l").unwrap();
    assert_eq!(listed.len(), 2);
    assert!(service.store.list_files("other").unwrap().is_empty());
}

#[test]
fn keys_and_ids_of_files() {
    assert_eq!(normalize_relative_path("C:\\Root", "C:\\Root\\Sub\\File.TXT"), "sub/file.txt");
    assert_eq!(normalize_filename_only("C:\\x\\ReadMe.MD"), "readme.md");
    assert_eq!(normalize_filename_only(""), "unknown");
    let c = prepare_file_candidate("p", Some("C:\\Root"), input("C:\\Root\\a.txt", "hello"), 100).unwrap();
    assert_eq!(c.file_path, "a.txt");
    assert_eq!(c.file_id, hash_str("p:a.txt"));
    assert_eq!(c.file_hash, hash_str("hello"));
    assert!(prepare_file_candidate("p", None, input("big.txt", "hello"), 3).is_none());
    let binary = FileInput { path: "x.txt".to_string(), len: Some(2), bytes: Some(vec![0, 1]), mtime: None };
    assert!(prepare_file_candidate("p", None, binary, 100).is_none());
}

#[test]
fn sha256_hex_of_known_text() {
    assert_eq!(hash_str("abc"), "ba7816bf8f01cfea414140de5dae2223b00361a396177a9cb410ff61f20015ad");
    assert_eq!(hash_project_id("abc"), "proj_ba7816bf8f01cfea414140de5dae2223b00361a396177a9cb410ff61f20015ad");
}

#[test]
fn skipped_paths_and_filters() {
    assert_eq!(should_skip_path("src/node_modules/x.js"), Some("ignored dir: node_modules".to_string()));
    assert_eq!(should_skip_path("src/main.rs"), None);
    assert!(extension_allowed("Dockerfile"));
    assert!(!extension_allowed("notes"));
    assert!(!is_minified_code("app.js", "var a = 1;\nvar b = 2;\n"));
    assert_eq!(escape_literal("it's"), "it''s");
    assert_eq!(build_project_filter(&vec!["a".to_string(), "b'c".to_string()]), Some("project_id IN ('a','b''c')".to_string()));
    assert_eq!(build_project_filter(&Vec::new()), None);
}

#[test]
fn indexed_files_hold_their_chunks() {
    let mut service = service();
    let root = Some("C:\\docs".to_string());
    let long = "alpha beta gamma. ".repeat(120);
    service
        .index_add_files("proj_c", root.clone(), vec![input("C:\\docs\\long.md", &long), input("C:\\docs\\short.txt", "tiny")], NOW)
        .unwrap();
    let long_id = hash_str("proj_c:long.md");
    let expected = chunk_text(&long, 1000, 150);
    let held: Vec<&str> = service
        .store
        .chunks()
        .iter()
        .filter(|c| c.file_id == long_id)
        .map(|c| c.text.as_str())
        .collect();
    assert_eq!(held, expected.iter().map(|s| s.as_str()).collect::<Vec<_>>());
    let first = service.store.chunks().iter().find(|c| c.file_id == long_id).unwrap();
    assert_eq!(first.chunk_id, format!("{long_id}:0"));
    assert_eq!(first.file_path, "long.md");

    let short_id = hash_str("proj_c:short.txt");
    let scan = vec![input("C:\\docs\\long.md", &long), input("C:\\docs\\short.txt", "tiny but longer now")];
    service.index_sync_project("proj_c", "C:\\docs".to_string(), scan, NOW).unwrap();
    let short_chunks: Vec<&str> = service
        .store
        .chunks()
        .iter()
        .filter(|c| c.file_id == short_id)
        .map(|c| c.text.as_str())
        .collect();
    assert_eq!(short_chunks, vec!["tiny but longer now"]);
    assert_eq!(service.store.chunk_count_for_file("proj_c", &long_id), expected.len());
}

#[test]
fn add_counts_chunks_and_stamps_records() {
    let mut service = service();
    let root = Some("C:\\c".to_string());
    let report = service
        .index_add_files("c", root.clone(), vec![input("C:\\c\\a.txt", "one"), input("C:\\c\\b.txt", "two")], NOW)
        .unwrap();
    assert_eq!(report.chunks_added, 2);
    assert_eq!(report.chunks_deleted, 0);
    let a_id = hash_str("c:a.txt");
    assert_eq!(service.store.file_record("c", &a_id).unwrap().updated_at, NOW);
    assert!(service.store.chunks().iter().all(|c| c.updated_at == NOW));
    let again = service
        .index_add_files("c", root, vec![input("C:\\c\\a.txt", "one"), input("C:\\c\\b.txt", "two")], "later")
        .unwrap();
    assert_eq!(again.chunks_added, 0);
    assert_eq!(again.chunks_deleted, 0);
    assert_eq!(service.store.file_record("c", &a_id).unwrap().updated_at, NOW);
}

#[test]
fn sync_counts_chunks_and_second_sync_does_nothing() {
    let mut service = service();
    let root = "C:\\n".to_string();
    service
        .index_add_files("n", Some(root.clone()), vec![input("C:\\n\\a.txt", "old"), input("C:\\n\\b.txt", "gone")], NOW)
        .unwrap();
    let scan = || vec![input("C:\\n\\a.txt", "new"), input("C:\\n\\c.txt", "fresh")];
    let report = service.index_sync_project("n", root.clone(), scan(), "t1").unwrap();
    assert_eq!(report.chunks_added, 2);
    assert_eq!(report.chunks_deleted, 2);
    let b_id = hash_str("n:b.txt");
    assert_eq!(service.store.file_record("n", &b_id).unwrap().updated_at, "t1");
    let chunks_before = service.store.chunk_count();
    let again = service.index_sync_project("n", root, scan(), "t2").unwrap();
    assert_eq!(again.chunks_added, 0);
    assert_eq!(again.chunks_deleted, 0);
    assert_eq!(again.deleted_files + again.indexed_files + again.updated_files, 0);
    assert_eq!(service.store.chunk_count(), chunks_before);
    assert_eq!(service.store.file_record("n", &b_id).unwrap().updated_at, "t1");
}

#[test]
fn remove_counts_deleted_chunks() {
    let mut service = service();
    let root = "C:\\d".to_string();
    service
        .index_add_files("d", Some(root.clone()), vec![input("C:\\d\\a.txt", "aaa")], NOW)
        .unwrap();
    let a_id = hash_str("d:a.txt");
    let report = service
        .index_remove_files("d", Some(root), None, Some(vec![a_id.clone(), "never".to_string()]), "t9")
        .unwrap();
    assert_eq!(report.deleted_files, 2);
    assert_eq!(report.chunks_deleted, 1);
    assert_eq!(report.chunks_added, 0);
    assert_eq!(service.store.file_record("d", &a_id).unwrap().updated_at, "t9");
}

//! The records and reports of the project index.
use vstd::prelude::*;

verus! {

/// One chunk of an indexed file. The embedding is kept as the bit patterns
/// of its `f32` components (`f32::to_bits`), in order.
#[derive(Debug)]
pub struct ChunkRecord {
    pub project_id: String,
    pub file_id: String,
    pub file_path: String,
    pub file_hash: String,
    pub chunk_id: String,
    pub chunk_index: i32,
    pub text: String,
    pub embedding: Vec<u32>,
    pub updated_at: String,
}

/// The manifest entry of one file of a project.
#[derive(Debug)]
pub struct FileRecord {
    pub project_id: String,
    pub file_id: String,
    pub file_path: String,
    pub file_hash: String,
    pub mtime: Option<i64>,
    pub size: Option<i64>,
    pub is_deleted: Option<bool>,
    pub updated_at: String,
}

/// A file that was not indexed, and why.
#[derive(Debug)]
pub struct SkippedFile {
    pub path: String,
    pub reason: String,
}

/// What one indexing run did.
#[derive(Debug)]
pub struct IndexReport {
    pub project_id: String,
    pub root_dir: Option<String>,
    pub indexed_files: usize,
    pub updated_files: usize,
    pub deleted_files: usize,
    pub skipped_files: Vec<SkippedFile>,
    pub chunks_added: usize,
    pub chunks_deleted: usize,
}

/// A request to index some files of a project.
#[derive(Debug)]
pub struct IndexAddRequest {
    pub project_id: String,
    pub file_paths: Vec<String>,
}

/// A request to bring the index of a project in line with its directory.
#[derive(Debug)]
pub struct IndexSyncRequest {
    pub project_id: String,
    pub root_dir: Option<String>,
}

/// A request to take files out of the index of a project.
#[derive(Debug)]
pub struct IndexRemoveRequest {
    pub project_id: String,
    pub file_paths: Option<Vec<String>>,
    pub file_ids: Option<Vec<String>>,
}

/// A search over the indexes of some projects.
#[derive(Debug)]
pub struct RagSearchRequest {
    pub query: String,
    pub project_ids: Vec<String>,
    pub top_k: Option<usize>,
}

/// A project as the user sees it.
#[derive(Debug)]
pub struct RagProject {
    pub project_id: String,
    pub project_name: String,
    pub root_dir: String,
    pub updated_at: String,
}

/// The key of a manifest entry: its project and file ids.
pub open spec fn record_key(r: FileRecord) -> (Seq<char>, Seq<char>) {
    (r.project_id@, r.file_id@)
}

/// Whether a chunk belongs to the given file of the given project.
pub open spec fn chunk_of(c: ChunkRecord, project_id: Seq<char>, file_id: Seq<char>) -> bool {
    c.project_id@ == project_id && c.file_id@ == file_id
}

impl FileRecord {
    /// A copy of the record.
    pub fn duplicate(&self) -> (r: FileRecord)
        ensures
            r == *self,
    {
        FileRecord {
            project_id: self.project_id.clone(),
            file_id: self.file_id.clone(),
            file_path: self.file_path.clone(),
            file_hash: self.file_hash.clone(),
            mtime: self.mtime,
            size: self.size,
            is_deleted: self.is_deleted,
            updated_at: self.updated_at.clone(),
        }
    }
}

impl IndexReport {
    /// An empty report for a project.
    pub fn new(project_id: &str) -> (r: IndexReport)
        ensures
            r.project_id@ == project_id@,
            r.root_dir is None,
            r.indexed_files == 0,
            r.updated_files == 0,
            r.deleted_files == 0,
            r.skipped_files@.len() == 0,
            r.chunks_added == 0,
            r.chunks_deleted == 0,
    {
        IndexReport {
            project_id: project_id.to_owned(),
            root_dir: None,
            indexed_files: 0,
            updated_files: 0,
            deleted_files: 0,
            skipped_files: Vec::new(),
            chunks_added: 0,
            chunks_deleted: 0,
        }
    }
}

} // verus!

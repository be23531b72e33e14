//! Where chunks and file manifests are kept: the store interface and the
//! in-memory store.
use crate::text::{concat_str, replace_all, replace_str, str_eq};
use crate::types::{chunk_of, record_key, ChunkRecord, FileRecord};
use vstd::prelude::*;

verus! {

broadcast use vstd::seq_lib::group_seq_properties;

/// A manifest: file records by (project id, file id).
pub type Manifest = Map<(Seq<char>, Seq<char>), FileRecord>;

/// The chunks of `chunks` that do not belong to the given file.
pub open spec fn without_file(chunks: Seq<ChunkRecord>, project_id: Seq<char>, file_id: Seq<char>) -> Seq<
    ChunkRecord,
> {
    chunks.filter(|c: ChunkRecord| !chunk_of(c, project_id, file_id))
}

/// The chunks of `chunks` that belong to the given file.
pub open spec fn of_file(chunks: Seq<ChunkRecord>, project_id: Seq<char>, file_id: Seq<char>) -> Seq<
    ChunkRecord,
> {
    chunks.filter(|c: ChunkRecord| chunk_of(c, project_id, file_id))
}

/// `v` lists exactly the manifest entries of the project, each once.
pub open spec fn lists_project(v: Seq<FileRecord>, m: Manifest, project_id: Seq<char>) -> bool {
    &&& forall|i: int|
        0 <= i < v.len() ==> {
            &&& (#[trigger] v[i]).project_id@ == project_id
            &&& m.contains_key(record_key(v[i]))
            &&& m[record_key(v[i])] == v[i]
        }
    &&& forall|k: (Seq<char>, Seq<char>)|
        #[trigger] m.contains_key(k) && k.0 == project_id ==> exists|i: int|
            0 <= i < v.len() && record_key(#[trigger] v[i]) == k
    &&& forall|i: int, j: int|
        0 <= i < j < v.len() ==> record_key(#[trigger] v[i]) != record_key(#[trigger] v[j])
}

/// What a manifest lookup gives.
pub open spec fn lookup(m: Manifest, project_id: Seq<char>, file_id: Seq<char>) -> Option<FileRecord> {
    if m.contains_key((project_id, file_id)) {
        Some(m[(project_id, file_id)])
    } else {
        None
    }
}

/// A store of chunks and file manifests. Each operation may fail; when it
/// succeeds it does exactly what its contract says. A store that is
/// `reliable` (such as one held in memory) never fails, and stays so.
pub trait RagStore {
    /// The store's operations never fail.
    spec fn reliable(&self) -> bool;

    /// Removing the chunks of a file reports how many were removed. (A store
    /// that cannot tell reports some other count.)
    spec fn counts_deletions(&self) -> bool;

    /// The chunks held, in order.
    spec fn chunk_records(&self) -> Seq<ChunkRecord>;

    /// The file manifest held.
    spec fn manifest(&self) -> Manifest;

    /// The store's own consistency condition.
    spec fn well_formed(&self) -> bool;

    /// Adds chunks after the ones held.
    fn add_chunks(&mut self, chunks: Vec<ChunkRecord>) -> (r: Result<(), String>)
        requires
            old(self).well_formed(),
        ensures
            final(self).well_formed(),
            final(self).reliable() == old(self).reliable(),
            final(self).counts_deletions() == old(self).counts_deletions(),
            old(self).reliable() ==> r is Ok,
            r is Ok ==> final(self).chunk_records() == old(self).chunk_records() + chunks@,
            r is Ok ==> final(self).manifest() == old(self).manifest(),
    ;

    /// Removes the chunks of one file; the result counts them where the store
    /// can tell.
    fn delete_by_file(&mut self, project_id: &str, file_id: &str) -> (r: Result<usize, String>)
        requires
            old(self).well_formed(),
        ensures
            final(self).well_formed(),
            final(self).reliable() == old(self).reliable(),
            final(self).counts_deletions() == old(self).counts_deletions(),
            old(self).reliable() ==> r is Ok,
            r is Ok ==> final(self).chunk_records() == without_file(
                old(self).chunk_records(),
                project_id@,
                file_id@,
            ),
            r matches Ok(n) ==> (old(self).counts_deletions() ==> n == of_file(
                old(self).chunk_records(),
                project_id@,
                file_id@,
            ).len()),
            r is Ok ==> final(self).manifest() == old(self).manifest(),
    ;

    /// Puts a manifest entry in place of the one with the same key, if any.
    fn upsert_file_manifest(&mut self, record: FileRecord) -> (r: Result<(), String>)
        requires
            old(self).well_formed(),
        ensures
            final(self).well_formed(),
            final(self).reliable() == old(self).reliable(),
            final(self).counts_deletions() == old(self).counts_deletions(),
            old(self).reliable() ==> r is Ok,
            r is Ok ==> final(self).manifest() == old(self).manifest().insert(
                record_key(record),
                record,
            ),
            r is Ok ==> final(self).chunk_records() == old(self).chunk_records(),
    ;
}

/// A store that can also list and look up its manifest.
pub trait RagManifestStore: RagStore {
    /// The manifest entries of one project.
    fn list_files(&self, project_id: &str) -> (r: Result<Vec<FileRecord>, String>)
        requires
            self.well_formed(),
        ensures
            self.reliable() ==> r is Ok,
            r matches Ok(v) ==> lists_project(v@, self.manifest(), project_id@),
    ;

    /// The manifest entry of one file.
    fn get_file_manifest(&self, project_id: &str, file_id: &str) -> (r: Result<
        Option<FileRecord>,
        String,
    >)
        requires
            self.well_formed(),
        ensures
            self.reliable() ==> r is Ok,
            r matches Ok(o) ==> o == lookup(self.manifest(), project_id@, file_id@),
            r matches Ok(Some(rec)) ==> record_key(rec) == (project_id@, file_id@),
    ;
}

/// A file's chunks and the others make up all the chunks.
pub proof fn lemma_of_file_split(c: Seq<ChunkRecord>, p: Seq<char>, f: Seq<char>)
    ensures
        of_file(c, p, f).len() + without_file(c, p, f).len() == c.len(),
    decreases c.len(),
{
    let keep = |x: ChunkRecord| !chunk_of(x, p, f);
    let pick = |x: ChunkRecord| chunk_of(x, p, f);
    if c.len() == 0 {
        assert(c.filter(keep) =~= Seq::<ChunkRecord>::empty()) by {
            reveal(Seq::filter);
        }
        assert(c.filter(pick) =~= Seq::<ChunkRecord>::empty()) by {
            reveal(Seq::filter);
        }
    } else {
        let init = c.drop_last();
        assert(init.push(c.last()) =~= c);
        lemma_of_file_split(init, p, f);
        init.lemma_filter_push(c.last(), keep);
        init.lemma_filter_push(c.last(), pick);
    }
}

/// Filtering a prefix one element longer adds that element when it is kept.
pub proof fn lemma_filter_take_step<A>(s: Seq<A>, i: int, pred: spec_fn(A) -> bool)
    requires
        0 <= i < s.len(),
    ensures
        s.take(i + 1).filter(pred) == if pred(s[i]) {
            s.take(i).filter(pred).push(s[i])
        } else {
            s.take(i).filter(pred)
        },
{
    reveal(Seq::filter);
    assert(s.take(i + 1).drop_last() =~= s.take(i));
    assert(s.take(i + 1).last() == s[i]);
}

/// The manifest made of a list of records, later ones replacing earlier ones
/// with the same key.
pub open spec fn manifest_of(fs: Seq<FileRecord>) -> Manifest
    decreases fs.len(),
{
    if fs.len() == 0 {
        Map::empty()
    } else {
        manifest_of(fs.drop_last()).insert(record_key(fs.last()), fs.last())
    }
}

/// No two records share a key.
pub open spec fn unique_keys(fs: Seq<FileRecord>) -> bool {
    forall|i: int, j: int|
        0 <= i < j < fs.len() ==> record_key(#[trigger] fs[i]) != record_key(#[trigger] fs[j])
}

pub proof fn lemma_manifest_dom(fs: Seq<FileRecord>, k: (Seq<char>, Seq<char>))
    ensures
        manifest_of(fs).contains_key(k) <==> exists|i: int|
            0 <= i < fs.len() && record_key(#[trigger] fs[i]) == k,
    decreases fs.len(),
{
    if fs.len() > 0 {
        lemma_manifest_dom(fs.drop_last(), k);
        if manifest_of(fs).contains_key(k) && record_key(fs.last()) != k {
            let i = choose|i: int|
                0 <= i < fs.drop_last().len() && record_key(#[trigger] fs.drop_last()[i]) == k;
            assert(fs[i] == fs.drop_last()[i]);
        }
        if exists|i: int| 0 <= i < fs.len() && record_key(#[trigger] fs[i]) == k {
            let i = choose|i: int| 0 <= i < fs.len() && record_key(#[trigger] fs[i]) == k;
            if i < fs.len() - 1 {
                assert(fs.drop_last()[i] == fs[i]);
            }
        }
    }
}

pub proof fn lemma_manifest_at(fs: Seq<FileRecord>, i: int)
    requires
        unique_keys(fs),
        0 <= i < fs.len(),
    ensures
        manifest_of(fs).contains_key(record_key(fs[i])),
        manifest_of(fs)[record_key(fs[i])] == fs[i],
    decreases fs.len(),
{
    if i < fs.len() - 1 {
        assert(fs.drop_last()[i] == fs[i]);
        assert(unique_keys(fs.drop_last())) by {
            assert forall|a: int, b: int| 0 <= a < b < fs.drop_last().len() implies record_key(
                #[trigger] fs.drop_last()[a],
            ) != record_key(#[trigger] fs.drop_last()[b]) by {
                assert(fs.drop_last()[a] == fs[a]);
                assert(fs.drop_last()[b] == fs[b]);
            }
        }
        lemma_manifest_at(fs.drop_last(), i);
        assert(record_key(fs[i]) != record_key(fs.last()));
    }
}

pub proof fn lemma_manifest_update(fs: Seq<FileRecord>, i: int, r: FileRecord)
    requires
        unique_keys(fs),
        0 <= i < fs.len(),
        record_key(r) == record_key(fs[i]),
    ensures
        manifest_of(fs.update(i, r)) == manifest_of(fs).insert(record_key(r), r),
        unique_keys(fs.update(i, r)),
{
    let g = fs.update(i, r);
    assert(unique_keys(g)) by {
        assert forall|a: int, b: int| 0 <= a < b < g.len() implies record_key(#[trigger] g[a])
            != record_key(#[trigger] g[b]) by {
            assert(record_key(g[a]) == record_key(fs[a]));
            assert(record_key(g[b]) == record_key(fs[b]));
        }
    }
    let lhs = manifest_of(g);
    let rhs = manifest_of(fs).insert(record_key(r), r);
    assert forall|k: (Seq<char>, Seq<char>)| lhs.contains_key(k) <==> rhs.contains_key(k) by {
        lemma_manifest_dom(g, k);
        lemma_manifest_dom(fs, k);
        if exists|j: int| 0 <= j < g.len() && record_key(#[trigger] g[j]) == k {
            let j = choose|j: int| 0 <= j < g.len() && record_key(#[trigger] g[j]) == k;
            assert(record_key(fs[j]) == k);
        }
        if exists|j: int| 0 <= j < fs.len() && record_key(#[trigger] fs[j]) == k {
            let j = choose|j: int| 0 <= j < fs.len() && record_key(#[trigger] fs[j]) == k;
            assert(record_key(g[j]) == k);
        }
    }
    assert forall|k: (Seq<char>, Seq<char>)| lhs.contains_key(k) implies lhs[k] == rhs[k] by {
        lemma_manifest_dom(g, k);
        let j = choose|j: int| 0 <= j < g.len() && record_key(#[trigger] g[j]) == k;
        lemma_manifest_at(g, j);
        if j != i {
            lemma_manifest_at(fs, j);
            assert(g[j] == fs[j]);
        }
    }
    assert(lhs =~= rhs);
}

/// Chunks and manifests held in memory.
#[derive(Debug)]
pub struct MemoryStore {
    chunks: Vec<ChunkRecord>,
    files: Vec<FileRecord>,
}

impl MemoryStore {
    /// An empty store.
    pub fn new() -> (r: MemoryStore)
        ensures
            r.well_formed(),
            r.reliable(),
            r.chunk_records().len() == 0,
            r.manifest() == Manifest::empty(),
    {
        MemoryStore { chunks: Vec::new(), files: Vec::new() }
    }

    /// The chunks held, in order.
    pub fn chunks(&self) -> (r: &Vec<ChunkRecord>)
        ensures
            r@ == self.chunk_records(),
    {
        &self.chunks
    }

    /// How many chunks are held.
    pub fn chunk_count(&self) -> (r: usize)
        ensures
            r == self.chunk_records().len(),
    {
        self.chunks.len()
    }

    /// How many chunks of one file are held.
    pub fn chunk_count_for_file(&self, project_id: &str, file_id: &str) -> (r: usize)
        ensures
            r == of_file(self.chunk_records(), project_id@, file_id@).len(),
    {
        let mut count: usize = 0;
        let mut i: usize = 0;
        let ghost pred = |c: ChunkRecord| chunk_of(c, project_id@, file_id@);
        while i < self.chunks.len()
            invariant
                i <= self.chunks.len(),
                pred == (|c: ChunkRecord| chunk_of(c, project_id@, file_id@)),
                count == self.chunks@.take(i as int).filter(pred).len(),
                count <= i,
            decreases self.chunks.len() - i,
        {
            let c = &self.chunks[i];
            proof {
                lemma_filter_take_step(self.chunks@, i as int, pred);
            }
            if str_eq(c.project_id.as_str(), project_id) && str_eq(c.file_id.as_str(), file_id) {
                count += 1;
            }
            i += 1;
        }
        proof {
            assert(self.chunks@.take(self.chunks@.len() as int) =~= self.chunks@);
        }
        count
    }

    /// The manifest entry of one file, if there is one.
    pub fn file_record(&self, project_id: &str, file_id: &str) -> (r: Option<FileRecord>)
        requires
            self.well_formed(),
        ensures
            r == lookup(self.manifest(), project_id@, file_id@),
            r matches Some(rec) ==> record_key(rec) == (project_id@, file_id@),
    {
        let mut i: usize = 0;
        while i < self.files.len()
            invariant
                i <= self.files.len(),
                unique_keys(self.files@),
                forall|j: int| 0 <= j < i ==> record_key(#[trigger] self.files@[j]) != (project_id@, file_id@),
            decreases self.files.len() - i,
        {
            let f = &self.files[i];
            if str_eq(f.project_id.as_str(), project_id) && str_eq(f.file_id.as_str(), file_id) {
                proof {
                    lemma_manifest_at(self.files@, i as int);
                }
                return Some(f.duplicate());
            }
            i += 1;
        }
        proof {
            lemma_manifest_dom(self.files@, (project_id@, file_id@));
        }
        None
    }
}

impl RagStore for MemoryStore {
    closed spec fn reliable(&self) -> bool {
        true
    }

    closed spec fn counts_deletions(&self) -> bool {
        true
    }

    closed spec fn chunk_records(&self) -> Seq<ChunkRecord> {
        self.chunks@
    }

    closed spec fn manifest(&self) -> Manifest {
        manifest_of(self.files@)
    }

    closed spec fn well_formed(&self) -> bool {
        unique_keys(self.files@)
    }

    fn add_chunks(&mut self, chunks: Vec<ChunkRecord>) -> (r: Result<(), String>)
        ensures
            r is Ok,
    {
        let mut chunks = chunks;
        self.chunks.append(&mut chunks);
        Ok(())
    }

    fn delete_by_file(&mut self, project_id: &str, file_id: &str) -> (r: Result<usize, String>)
        ensures
            r matches Ok(n) && n == of_file(old(self).chunk_records(), project_id@, file_id@).len(),
    {
        let ghost keep = |c: ChunkRecord| !chunk_of(c, project_id@, file_id@);
        let ghost drop = |c: ChunkRecord| chunk_of(c, project_id@, file_id@);
        let ghost old_chunks = self.chunks@;
        let mut kept: Vec<ChunkRecord> = Vec::new();
        let mut removed: usize = 0;
        let mut pending: Vec<ChunkRecord> = Vec::new();
        std::mem::swap(&mut pending, &mut self.chunks);
        let n = pending.len();
        let mut taken: Vec<ChunkRecord> = Vec::new();
        // Walk the chunks from the back so that each one can be moved out.
        while pending.len() > 0
            invariant
                pending@.len() <= n == old_chunks.len(),
                pending@ == old_chunks.take(pending@.len() as int),
                taken@.len() + pending@.len() == n,
                forall|j: int|
                    0 <= j < taken@.len() ==> #[trigger] taken@[j] == old_chunks[n - 1 - j],
            decreases pending.len(),
        {
            let c = pending.pop().unwrap();
            proof {
                assert(old_chunks.take(pending@.len() as int + 1).last() == c);
                assert(old_chunks.take(pending@.len() as int + 1).drop_last() =~= old_chunks.take(
                    pending@.len() as int,
                ));
            }
            taken.push(c);
        }
        // `taken` holds the chunks in reverse order; put the kept ones back in order.
        while taken.len() > 0
            invariant
                taken@.len() <= n == old_chunks.len(),
                forall|j: int|
                    0 <= j < taken@.len() ==> #[trigger] taken@[j] == old_chunks[n - 1 - j],
                keep == (|c: ChunkRecord| !chunk_of(c, project_id@, file_id@)),
                drop == (|c: ChunkRecord| chunk_of(c, project_id@, file_id@)),
                kept@ == old_chunks.take(n - taken@.len()).filter(keep),
                removed == old_chunks.take(n - taken@.len()).filter(drop).len(),
                removed <= n - taken@.len(),
            decreases taken.len(),
        {
            let c = taken.pop().unwrap();
            let ghost m = n - taken@.len();
            proof {
                assert(c == old_chunks[m - 1]);
                lemma_filter_take_step(old_chunks, m - 1, keep);
                lemma_filter_take_step(old_chunks, m - 1, drop);
            }
            if str_eq(c.project_id.as_str(), project_id) && str_eq(c.file_id.as_str(), file_id) {
                removed += 1;
            } else {
                kept.push(c);
            }
        }
        proof {
            assert(old_chunks.take(n as int) =~= old_chunks);
        }
        self.chunks = kept;
        Ok(removed)
    }

    fn upsert_file_manifest(&mut self, record: FileRecord) -> (r: Result<(), String>)
        ensures
            r is Ok,
    {
        let mut i: usize = 0;
        while i < self.files.len()
            invariant
                i <= self.files.len(),
                unique_keys(self.files@),
                self.files@ == old(self).files@,
                self.chunks@ == old(self).chunks@,
                forall|j: int| 0 <= j < i ==> record_key(#[trigger] self.files@[j]) != record_key(record),
            decreases self.files.len() - i,
        {
            if str_eq(self.files[i].project_id.as_str(), record.project_id.as_str()) && str_eq(
                self.files[i].file_id.as_str(),
                record.file_id.as_str(),
            ) {
                proof {
                    lemma_manifest_update(self.files@, i as int, record);
                }
                self.files.set(i, record);
                return Ok(());
            }
            i += 1;
        }
        let ghost before = self.files@;
        self.files.push(record);
        proof {
            assert(self.files@.drop_last() =~= before);
            assert(unique_keys(self.files@)) by {
                assert forall|a: int, b: int| 0 <= a < b < self.files@.len() implies record_key(
                    #[trigger] self.files@[a],
                ) != record_key(#[trigger] self.files@[b]) by {
                    if b == self.files@.len() - 1 {
                        assert(self.files@[a] == before[a]);
                    } else {
                        assert(self.files@[a] == before[a]);
                        assert(self.files@[b] == before[b]);
                    }
                }
            }
        }
        Ok(())
    }
}

impl RagManifestStore for MemoryStore {
    fn list_files(&self, project_id: &str) -> (r: Result<Vec<FileRecord>, String>)
        ensures
            r is Ok,
    {
        let mut out: Vec<FileRecord> = Vec::new();
        let mut i: usize = 0;
        while i < self.files.len()
            invariant
                i <= self.files.len(),
                unique_keys(self.files@),
                forall|a: int|
                    0 <= a < out@.len() ==> exists|j: int|
                        0 <= j < i && (#[trigger] out@[a]) == self.files@[j]
                            && self.files@[j].project_id@ == project_id@,
                forall|j: int|
                    0 <= j < i && (#[trigger] self.files@[j]).project_id@ == project_id@
                        ==> exists|a: int| 0 <= a < out@.len() && out@[a] == self.files@[j],
                forall|a: int, b: int|
                    0 <= a < b < out@.len() ==> record_key(#[trigger] out@[a]) != record_key(
                        #[trigger] out@[b],
                    ),
            decreases self.files.len() - i,
        {
            let f = &self.files[i];
            if str_eq(f.project_id.as_str(), project_id) {
                let ghost before = out@;
                out.push(f.duplicate());
                proof {
                    assert forall|a: int, b: int| 0 <= a < b < out@.len() implies record_key(
                        #[trigger] out@[a],
                    ) != record_key(#[trigger] out@[b]) by {
                        if b == out@.len() - 1 {
                            assert(out@[a] == before[a]);
                            let j = choose|j: int|
                                0 <= j < i && (#[trigger] before[a]) == self.files@[j]
                                    && self.files@[j].project_id@ == project_id@;
                        } else {
                            assert(out@[a] == before[a]);
                            assert(out@[b] == before[b]);
                        }
                    }
                    assert forall|a: int| 0 <= a < out@.len() implies exists|j: int|
                        0 <= j < i + 1 && (#[trigger] out@[a]) == self.files@[j]
                            && self.files@[j].project_id@ == project_id@ by {
                        if a < out@.len() - 1 {
                            assert(out@[a] == before[a]);
                        } else {
                            assert(out@[a] == self.files@[i as int]);
                        }
                    }
                    assert forall|j: int|
                        0 <= j < i + 1 && (#[trigger] self.files@[j]).project_id@ == project_id@
                            implies exists|a: int| 0 <= a < out@.len() && out@[a] == self.files@[j] by {
                        if j < i {
                            let a = choose|a: int| 0 <= a < before.len() && before[a] == self.files@[j];
                            assert(out@[a] == before[a]);
                        } else {
                            assert(out@[out@.len() - 1] == self.files@[j]);
                        }
                    }
                }
            }
            i += 1;
        }
        proof {
            let m = manifest_of(self.files@);
            assert forall|a: int| 0 <= a < out@.len() implies {
                &&& (#[trigger] out@[a]).project_id@ == project_id@
                &&& m.contains_key(record_key(out@[a]))
                &&& m[record_key(out@[a])] == out@[a]
            } by {
                let j = choose|j: int|
                    0 <= j < i && (#[trigger] out@[a]) == self.files@[j]
                        && self.files@[j].project_id@ == project_id@;
                lemma_manifest_at(self.files@, j);
            }
            assert forall|k: (Seq<char>, Seq<char>)|
                #[trigger] m.contains_key(k) && k.0 == project_id@ implies exists|a: int|
                    0 <= a < out@.len() && record_key(#[trigger] out@[a]) == k by {
                lemma_manifest_dom(self.files@, k);
                let j = choose|j: int| 0 <= j < self.files@.len() && record_key(#[trigger] self.files@[j]) == k;
                let a = choose|a: int| 0 <= a < out@.len() && out@[a] == self.files@[j];
                assert(record_key(out@[a]) == k);
            }
        }
        Ok(out)
    }

    fn get_file_manifest(&self, project_id: &str, file_id: &str) -> (r: Result<
        Option<FileRecord>,
        String,
    >)
        ensures
            r is Ok,
    {
        Ok(self.file_record(project_id, file_id))
    }
}

/// Whether one of the ids is the given one.
fn lists_id(ids: &Vec<String>, id: &str) -> (r: bool)
    ensures
        r == exists|a: int| 0 <= a < ids@.len() && (#[trigger] ids@[a])@ == id@,
{
    let mut j: usize = 0;
    while j < ids.len()
        invariant
            j <= ids.len(),
            forall|a: int| 0 <= a < j ==> (#[trigger] ids@[a])@ != id@,
        decreases ids.len() - j,
    {
        if str_eq(ids[j].as_str(), id) {
            return true;
        }
        j += 1;
    }
    false
}

/// Whether a search over the given projects scores a chunk: it belongs to
/// one of them and its embedding has the query's dimension.
pub open spec fn scored(c: ChunkRecord, project_ids: Seq<String>, dimension: usize) -> bool {
    c.embedding@.len() == dimension && exists|j: int|
        0 <= j < project_ids.len() && (#[trigger] project_ids[j])@ == c.project_id@
}

/// A search scores a chunk of a project it was not asked about in no case,
/// nor a chunk whose embedding has another dimension than the query's; it
/// scores every other chunk of the projects searched.
pub proof fn search_scores_only_searched_projects(c: ChunkRecord, project_ids: Seq<String>, dimension: usize)
    ensures
        (forall|j: int| 0 <= j < project_ids.len() ==> (#[trigger] project_ids[j])@ != c.project_id@)
            ==> !scored(c, project_ids, dimension),
        c.embedding@.len() != dimension ==> !scored(c, project_ids, dimension),
        forall|j: int|
            0 <= j < project_ids.len() && (#[trigger] project_ids[j])@ == c.project_id@
                && c.embedding@.len() == dimension ==> scored(c, project_ids, dimension),
{
}

impl MemoryStore {
    /// The positions of the chunks that a search over the given projects
    /// scores: those of one of the projects whose embedding has the query's
    /// dimension, in order.
    pub fn search_candidates(&self, project_ids: &Vec<String>, dimension: usize) -> (r: Vec<usize>)
        ensures
            forall|k: int| 0 <= k < r@.len() ==> (#[trigger] r@[k]) < self.chunk_records().len(),
            forall|k: int, l: int| 0 <= k < l < r@.len() ==> r@[k] < r@[l],
            forall|i: int|
                0 <= i < self.chunk_records().len() ==> (r@.contains(i as usize) <==> scored(
                    #[trigger] self.chunk_records()[i],
                    project_ids@,
                    dimension,
                )),
            forall|k: int|
                #![trigger r@[k]]
                0 <= k < r@.len() ==> self.chunk_records()[r@[k] as int].embedding@.len() == dimension
                    && exists|j: int|
                    0 <= j < project_ids@.len() && (#[trigger] project_ids@[j])@ == self.chunk_records()[r@[k] as int].project_id@,
            forall|i: int, j: int|
                0 <= i < self.chunk_records().len() && 0 <= j < project_ids@.len() && (
                #[trigger] project_ids@[j])@ == (#[trigger] self.chunk_records()[i]).project_id@
                    && self.chunk_records()[i].embedding@.len() == dimension ==> r@.contains(i as usize),
    {
        let mut out: Vec<usize> = Vec::new();
        let mut i: usize = 0;
        while i < self.chunks.len()
            invariant
                i <= self.chunks.len(),
                forall|k: int| 0 <= k < out@.len() ==> (#[trigger] out@[k]) < i,
                forall|k: int, l: int| 0 <= k < l < out@.len() ==> out@[k] < out@[l],
                forall|m: int|
                    0 <= m < i ==> (out@.contains(m as usize) <==> scored(
                        #[trigger] self.chunks@[m],
                        project_ids@,
                        dimension,
                    )),
            decreases self.chunks.len() - i,
        {
            let c = &self.chunks[i];
            let found = lists_id(project_ids, c.project_id.as_str());
            let take = found && c.embedding.len() == dimension;
            assert(take == scored(self.chunks@[i as int], project_ids@, dimension));
            let ghost before = out@;
            if take {
                out.push(i);
            }
            proof {
                assert forall|m: int| 0 <= m < i + 1 implies (out@.contains(m as usize) <==> scored(
                    #[trigger] self.chunks@[m],
                    project_ids@,
                    dimension,
                )) by {
                    if m < i {
                        assert(before.contains(m as usize) == scored(self.chunks@[m], project_ids@, dimension));
                        if out@.contains(m as usize) {
                            let k = choose|k: int| 0 <= k < out@.len() && out@[k] == m as usize;
                            if k < before.len() {
                                assert(before[k] == m as usize);
                            }
                        }
                        if before.contains(m as usize) {
                            let k = choose|k: int| 0 <= k < before.len() && before[k] == m as usize;
                            assert(out@[k] == m as usize);
                        }
                    } else if take {
                        assert(out@[before.len() as int] == i);
                    } else {
                        if out@.contains(i) {
                            let k = choose|k: int| 0 <= k < out@.len() && out@[k] == i;
                            assert(before[k] < i);
                        }
                    }
                }
            }
            i += 1;
        }
        proof {
            assert forall|m: int| 0 <= m < self.chunk_records().len() implies (out@.contains(m as usize) <==> scored(
                #[trigger] self.chunk_records()[m],
                project_ids@,
                dimension,
            )) by {
                assert(self.chunk_records()[m] == self.chunks@[m]);
            }
            assert forall|k: int|
                #![trigger out@[k]]
                0 <= k < out@.len() implies self.chunk_records()[out@[k] as int].embedding@.len() == dimension
                    && exists|j: int|
                    0 <= j < project_ids@.len() && (#[trigger] project_ids@[j])@ == self.chunk_records()[out@[k] as int].project_id@ by {
                let m = out@[k] as int;
                assert(out@.contains(out@[k]));
                assert(scored(self.chunk_records()[m], project_ids@, dimension));
            }
            assert forall|i: int, j: int|
                0 <= i < self.chunk_records().len() && 0 <= j < project_ids@.len() && (
                #[trigger] project_ids@[j])@ == (#[trigger] self.chunk_records()[i]).project_id@
                    && self.chunk_records()[i].embedding@.len() == dimension implies out@.contains(i as usize) by {
                assert(scored(self.chunk_records()[i], project_ids@, dimension));
            }
        }
        out
    }
}

/// A text as a literal of a filter expression: each `'` doubled.
pub fn escape_literal(input: &str) -> (r: String)
    ensures
        r@ == replace_all(input@, "'"@, "''"@),
{
    proof {
        reveal_strlit("'");
    }
    replace_str(input, "'", "''")
}

/// The literals of a list of project ids, quoted and comma-separated.
pub open spec fn quoted_ids(ids: Seq<Seq<char>>) -> Seq<char>
    decreases ids.len(),
{
    if ids.len() == 0 {
        seq![]
    } else if ids.len() == 1 {
        "'"@ + replace_all(ids[0], "'"@, "''"@) + "'"@
    } else {
        quoted_ids(ids.drop_last()) + ","@ + "'"@ + replace_all(ids.last(), "'"@, "''"@) + "'"@
    }
}

/// The filter that keeps the rows of some projects: nothing for no
/// project, else `project_id IN (…)` over the quoted ids.
pub fn build_project_filter(project_ids: &Vec<String>) -> (r: Option<String>)
    ensures
        project_ids.len() == 0 ==> r is None,
        project_ids.len() > 0 ==> (r matches Some(f) && f@ == "project_id IN ("@ + quoted_ids(
            project_ids@.map_values(|s: String| s@),
        ) + ")"@),
{
    if project_ids.len() == 0 {
        return None;
    }
    let ghost ids = project_ids@.map_values(|s: String| s@);
    let mut list = String::new();
    let mut k: usize = 0;
    proof {
        assert(ids.take(0) =~= Seq::<Seq<char>>::empty());
    }
    while k < project_ids.len()
        invariant
            k <= project_ids.len(),
            ids == project_ids@.map_values(|s: String| s@),
            list@ == quoted_ids(ids.take(k as int)),
        decreases project_ids.len() - k,
    {
        let escaped = escape_literal(project_ids[k].as_str());
        let a = concat_str("'", escaped.as_str());
        let one = concat_str(a.as_str(), "'");
        proof {
            let t = ids.take(k + 1);
            assert(t.drop_last() =~= ids.take(k as int));
            assert(t.last() == project_ids@[k as int]@);
        }
        if k == 0 {
            list = one;
        } else {
            let with_comma = concat_str(list.as_str(), ",");
            list = concat_str(with_comma.as_str(), one.as_str());
        }
        k += 1;
    }
    proof {
        assert(ids.take(project_ids.len() as int) =~= ids);
    }
    let head = concat_str("project_id IN (", list.as_str());
    Some(concat_str(head.as_str(), ")"))
}

} // verus!

//! Indexing the files of a project into a store: deciding which files are
//! new, changed, unchanged or gone, and keeping chunks and manifest in step.
use crate::chunker::{chunk_text, chunk_text_spec, views};
use crate::file_filter::{ext_allowed, extension_allowed, is_minified_code, minified, should_skip_path, skip_reason};
use crate::hashing::{hash_hex, hash_str};
use crate::path::{file_name, file_name_of, strip_prefix, strip_prefix_text};
use crate::store::{lemma_of_file_split, of_file, without_file, Manifest, RagManifestStore, RagStore};
use crate::text::{
    chars_of, concat_str, decimal, lowercase, replace_str, replace_all, starts_with,
    string_from_range, to_lowercase, u64_to_decimal,
};
use crate::types::{chunk_of, record_key, ChunkRecord, FileRecord, IndexReport, SkippedFile};
use vstd::prelude::*;
use vstd::utf8::{decode_utf8, encode_utf8, valid_utf8};

verus! {

broadcast use vstd::seq_lib::group_seq_properties;

pub const DEFAULT_CHUNK_SIZE: usize = 1000;

pub const DEFAULT_CHUNK_OVERLAP: usize = 150;

pub const DEFAULT_MAX_FILE_SIZE: u64 = 1_048_576;

pub const DEFAULT_EMBEDDING_DIMENSION: usize = 384;

/// Turns texts into embedding vectors, each component given as the bit
/// pattern of an `f32`. Implementations return unit-length vectors, one per
/// text, in order. An embedder that is `reliable` never fails, gives each
/// text its `embedding`, and stays so, with the same `embedding`.
pub trait Embedder: Sized {
    /// The embedder's operations never fail, and each text is embedded as
    /// `embedding` says. Nothing is promised of an embedder that does not say
    /// so.
    open spec fn reliable(&self) -> bool {
        false
    }

    /// The vector that a reliable embedder gives for a text.
    open spec fn embedding(&self, text: Seq<char>) -> Seq<u32> {
        Seq::empty()
    }

    fn embed_documents(&mut self, texts: &Vec<String>) -> (r: Result<Vec<Vec<u32>>, String>)
        ensures
            final(self).reliable() == old(self).reliable(),
            old(self).reliable() ==> forall|t: Seq<char>|
                #[trigger] final(self).embedding(t) == old(self).embedding(t),
            r matches Ok(v) ==> v@.len() == texts@.len(),
            old(self).reliable() ==> (r matches Ok(v) && forall|i: int|
                0 <= i < v@.len() ==> (#[trigger] v@[i])@ == old(self).embedding(texts@[i]@)),
    ;

    fn embed_query(&mut self, text: &str) -> (r: Result<Vec<u32>, String>)
        ensures
            final(self).reliable() == old(self).reliable(),
            old(self).reliable() ==> forall|t: Seq<char>|
                #[trigger] final(self).embedding(t) == old(self).embedding(t),
            old(self).reliable() ==> (r matches Ok(v) && v@ == old(self).embedding(text@)),
    ;

    fn dimension(&self) -> usize;
}

/// What an embedder is known to give for each text: its `embedding` when it
/// is reliable, nothing otherwise.
pub open spec fn embedding_of<E: Embedder>(e: E) -> Option<spec_fn(Seq<char>) -> Seq<u32>> {
    if e.reliable() {
        Some(|t: Seq<char>| e.embedding(t))
    } else {
        None
    }
}

/// An embedder that keeps its reliability and, when reliable, its
/// embedding of every text, is known to give what it gave before.
pub proof fn lemma_embedding_of_kept<E: Embedder>(before: E, after: E)
    requires
        after.reliable() == before.reliable(),
        before.reliable() ==> forall|t: Seq<char>| #[trigger] after.embedding(t) == before.embedding(t),
    ensures
        embedding_of(after) == embedding_of(before),
{
    if before.reliable() {
        let fa = |t: Seq<char>| after.embedding(t);
        let fb = |t: Seq<char>| before.embedding(t);
        assert(fa =~= fb);
    }
}


/// A file read from disk, as the indexer receives it: its path, the length
/// that its metadata gives, its bytes (when it was read), and its
/// modification time in seconds since the epoch.
#[derive(Debug)]
pub struct FileInput {
    pub path: String,
    pub len: Option<u64>,
    pub bytes: Option<Vec<u8>>,
    pub mtime: Option<i64>,
}

/// A file that passed the filters and is ready to be indexed.
#[derive(Debug)]
pub struct FileCandidate {
    pub file_id: String,
    pub file_path: String,
    pub file_hash: String,
    pub text: String,
    pub mtime: Option<i64>,
    pub size: Option<i64>,
}

/// `s` without the `./` prefixes that start it (`trim_start_matches("./")`).
pub open spec fn trim_dot_slash(s: Seq<char>) -> Seq<char>
    decreases s.len(),
{
    if starts_with(s, seq!['.', '/']) {
        trim_dot_slash(s.skip(2))
    } else {
        s
    }
}

/// The key under which a file is indexed: its path relative to the project
/// root, with `/` separators, no leading `./`, lower-cased.
pub open spec fn relative_key(root: Seq<char>, path: Seq<char>) -> Seq<char> {
    lowercase(trim_dot_slash(replace_all(strip_prefix_text(root, path), "\\"@, "/"@)))
}

/// The key of a file indexed without a project root: its lower-cased file
/// name, or `unknown`.
pub open spec fn filename_key(path: Seq<char>) -> Seq<char> {
    match file_name_of(path) {
        Some(n) => lowercase(n),
        None => lowercase("unknown"@),
    }
}

/// The key of a file, relative to the root when there is one.
pub open spec fn file_key(root: Option<Seq<char>>, path: Seq<char>) -> Seq<char> {
    match root {
        Some(r) => relative_key(r, path),
        None => filename_key(path),
    }
}

/// The id of a file of a project: the hash of `project_id:key`.
pub open spec fn file_id_of(project_id: Seq<char>, key: Seq<char>) -> Seq<char> {
    hash_hex(encode_utf8(project_id + ":"@ + key))
}

/// The text of a file: there when its length is known and within `max`, its
/// bytes were read, hold no zero byte and are valid UTF-8.
pub open spec fn text_of(input: FileInput, max: u64) -> Option<Seq<char>> {
    match (input.len, input.bytes) {
        (Some(len), Some(bytes)) => if len <= max && !bytes@.contains(0u8) && valid_utf8(
            bytes@,
        ) {
            Some(decode_utf8(bytes@))
        } else {
            None
        },
        _ => None,
    }
}

/// `String::from_utf8`: the string whose UTF-8 encoding is `bytes`, if they
/// are valid UTF-8.
#[verifier::external_body]
fn string_from_utf8(bytes: Vec<u8>) -> (r: Option<String>)
    ensures
        r is Some <==> valid_utf8(bytes@),
        r matches Some(s) ==> s@ == decode_utf8(bytes@),
{
    String::from_utf8(bytes).ok()
}

/// `s` without the `./` prefixes that start it.
fn trim_dot_slash_str(s: &str) -> (r: String)
    ensures
        r@ == trim_dot_slash(s@),
{
    let chars = chars_of(s);
    let mut i: usize = 0;
    proof {
        assert(chars@.skip(0) =~= chars@);
    }
    while chars.len() >= 2 && i <= chars.len() - 2 && chars[i] == '.' && chars[i + 1] == '/'
        invariant
            i <= chars.len(),
            chars@ == s@,
            trim_dot_slash(s@) == trim_dot_slash(chars@.skip(i as int)),
        decreases chars.len() - i,
    {
        proof {
            let t = chars@.skip(i as int);
            assert(t.subrange(0, 2) =~= seq!['.', '/']);
            assert(t.skip(2) =~= chars@.skip(i + 2));
        }
        i += 2;
    }
    proof {
        let t = chars@.skip(i as int);
        if starts_with(t, seq!['.', '/']) {
            assert(t.subrange(0, 2)[0] == '.');
            assert(t.subrange(0, 2)[1] == '/');
        }
    }
    string_from_range(&chars, i, chars.len())
}

/// The key of a file relative to a project root (see `relative_key`).
pub fn normalize_relative_path(root: &str, path: &str) -> (r: String)
    ensures
        r@ == relative_key(root@, path@),
{
    let relative = strip_prefix(root, path);
    proof {
        reveal_strlit("\\");
    }
    let text = replace_str(relative.as_str(), "\\", "/");
    let text = trim_dot_slash_str(text.as_str());
    to_lowercase(text.as_str())
}

/// The key of a file indexed without a project root (see `filename_key`).
pub fn normalize_filename_only(path: &str) -> (r: String)
    ensures
        r@ == filename_key(path@),
{
    match file_name(path) {
        Some(n) => to_lowercase(n.as_str()),
        None => to_lowercase("unknown"),
    }
}

/// The text of a file read from disk (see `text_of`).
pub fn read_text(input: FileInput, max_size: u64) -> (r: Option<String>)
    ensures
        match r {
            Some(t) => text_of(input, max_size) == Some(t@),
            None => text_of(input, max_size) is None,
        },
{
    let ghost inp = input;
    let len = match input.len {
        Some(l) => l,
        None => return None,
    };
    if len > max_size {
        return None;
    }
    let bytes = match input.bytes {
        Some(b) => b,
        None => return None,
    };
    let mut i: usize = 0;
    while i < bytes.len()
        invariant
            i <= bytes.len(),
            inp == input,
            inp.len == Some(len),
            inp.bytes == Some(bytes),
            len <= max_size,
            forall|j: int| 0 <= j < i ==> bytes@[j] != 0u8,
        decreases bytes.len() - i,
    {
        if bytes[i] == 0 {
            assert(bytes@.contains(0u8));
            return None;
        }
        i += 1;
    }
    assert(!bytes@.contains(0u8));
    string_from_utf8(bytes)
}

/// What `prepare_file_candidate` makes of a file: its id, key and content
/// hash, when it passes the filters and its text can be read.
pub open spec fn candidate_of(
    project_id: Seq<char>,
    root: Option<Seq<char>>,
    input: FileInput,
    max: u64,
) -> Option<(Seq<char>, Seq<char>, Seq<char>, Seq<char>)> {
    if skip_reason(input.path@) is Some || !ext_allowed(input.path@) {
        None
    } else {
        match text_of(input, max) {
            None => None,
            Some(text) => if minified(input.path@, text) {
                None
            } else {
                let key = file_key(root, input.path@);
                Some((file_id_of(project_id, key), key, hash_hex(encode_utf8(text)), text))
            },
        }
    }
}

/// The view of an optional string slice.
pub open spec fn opt_view(o: Option<&str>) -> Option<Seq<char>> {
    match o {
        Some(s) => Some(s@),
        None => None,
    }
}

/// The candidate's id, key and content hash, as a tuple of views.
pub open spec fn cand_view(c: FileCandidate) -> (Seq<char>, Seq<char>, Seq<char>, Seq<char>) {
    (c.file_id@, c.file_path@, c.file_hash@, c.text@)
}

/// Turns a file read from disk into a candidate for indexing: `None` when it
/// lies under an ignored directory, has an extension that is not indexed,
/// cannot be read as text, or is minified script code.
pub fn prepare_file_candidate(
    project_id: &str,
    root_dir: Option<&str>,
    input: FileInput,
    max_size: u64,
) -> (r: Option<FileCandidate>)
    ensures
        match r {
            Some(c) => candidate_of(project_id@, opt_view(root_dir), input, max_size)
                == Some(cand_view(c)) && c.mtime == input.mtime && c.size == match input.len {
                Some(l) => Some(l as i64),
                None => None,
            },
            None => candidate_of(project_id@, opt_view(root_dir), input, max_size) is None,
        },
{
    let ghost inp = input;
    if should_skip_path(input.path.as_str()).is_some() {
        return None;
    }
    if !extension_allowed(input.path.as_str()) {
        return None;
    }
    let path = input.path.clone();
    let mtime = input.mtime;
    let size = match input.len {
        Some(l) => Some(l as i64),
        None => None,
    };
    let text = match read_text(input, max_size) {
        Some(t) => t,
        None => return None,
    };
    if is_minified_code(path.as_str(), text.as_str()) {
        return None;
    }
    let relative = match root_dir {
        Some(root) => normalize_relative_path(root, path.as_str()),
        None => normalize_filename_only(path.as_str()),
    };
    let file_hash = hash_str(text.as_str());
    let with_colon = concat_str(project_id, ":");
    let id_text = concat_str(with_colon.as_str(), relative.as_str());
    let file_id = hash_str(id_text.as_str());
    Some(FileCandidate { file_id, file_path: relative, file_hash, text, mtime, size })
}

/// The state of each file of a project in a manifest: its content hash and
/// whether it is marked deleted.
pub open spec fn status(m: Manifest, p: Seq<char>) -> Map<Seq<char>, (Seq<char>, bool)> {
    Map::new(
        |f: Seq<char>| m.contains_key((p, f)),
        |f: Seq<char>| (m[(p, f)].file_hash@, m[(p, f)].is_deleted == Some(true)),
    )
}

/// Two manifests agree on every project but `p`.
pub open spec fn same_elsewhere(m1: Manifest, m2: Manifest, p: Seq<char>) -> bool {
    forall|k: (Seq<char>, Seq<char>)|
        k.0 != p ==> (#[trigger] m1.contains_key(k) == m2.contains_key(k) && (m1.contains_key(k)
            ==> m1[k] == m2[k]))
}

/// A file with this id is indexed, live, with this content hash.
pub open spec fn is_unchanged(st: Map<Seq<char>, (Seq<char>, bool)>, id: Seq<char>, hash: Seq<char>) -> bool {
    st.contains_key(id) && st[id].0 == hash && !st[id].1
}

/// The saturating sum of two counts.
pub open spec fn sat_add(a: int, b: int) -> int {
    if a + b > usize::MAX {
        usize::MAX as int
    } else {
        a + b
    }
}

/// The (path, reason) pairs of a list of skipped files.
pub open spec fn skipped_views(v: Seq<SkippedFile>) -> Seq<(Seq<char>, Seq<char>)> {
    v.map_values(|f: SkippedFile| (f.path@, f.reason@))
}

/// The chunk records `v` of a candidate of project `p`, built from the
/// chunk texts `texts`: one record per text, in order. When the embedder is
/// known to give `emb` (see `embedding_of`), each record holds what it gives
/// for `passage: ` and the record's text.
pub open spec fn chunks_built(
    v: Seq<ChunkRecord>,
    p: Seq<char>,
    c: (Seq<char>, Seq<char>, Seq<char>, Seq<char>),
    texts: Seq<Seq<char>>,
    emb: Option<spec_fn(Seq<char>) -> Seq<u32>>,
) -> bool {
    &&& v.len() == texts.len()
    &&& forall|i: int|
        0 <= i < v.len() ==> {
            &&& (#[trigger] v[i]).project_id@ == p
            &&& v[i].file_id@ == c.0
            &&& v[i].file_path@ == c.1
            &&& v[i].file_hash@ == c.2
            &&& v[i].chunk_id@ == c.0 + ":"@ + decimal(i as nat)
            &&& v[i].chunk_index == i as i32
            &&& v[i].text@ == texts[i]
            &&& emb is Some ==> v[i].embedding@ == emb.unwrap()("passage: "@ + texts[i])
        }
}

pub proof fn lemma_status_insert(m: Manifest, p: Seq<char>, r: FileRecord)
    ensures
        r.project_id@ == p ==> status(m.insert(record_key(r), r), p) == status(m, p).insert(
            r.file_id@,
            (r.file_hash@, r.is_deleted == Some(true)),
        ),
        r.project_id@ != p ==> status(m.insert(record_key(r), r), p) == status(m, p),
        r.project_id@ == p ==> same_elsewhere(m.insert(record_key(r), r), m, p),
{
    let m2 = m.insert(record_key(r), r);
    if r.project_id@ == p {
        assert(status(m2, p) =~= status(m, p).insert(
            r.file_id@,
            (r.file_hash@, r.is_deleted == Some(true)),
        ));
    } else {
        assert(status(m2, p) =~= status(m, p));
    }
}

/// The view of an optional string.
pub open spec fn opt_string_view(o: Option<String>) -> Option<Seq<char>> {
    match o {
        Some(s) => Some(s@),
        None => None,
    }
}

pub proof fn lemma_same_elsewhere_trans(m2: Manifest, m1: Manifest, m0: Manifest, p: Seq<char>)
    requires
        same_elsewhere(m2, m1, p),
        same_elsewhere(m1, m0, p),
    ensures
        same_elsewhere(m2, m0, p),
{
    assert forall|k: (Seq<char>, Seq<char>)| k.0 != p implies (#[trigger] m2.contains_key(k)
        == m0.contains_key(k) && (m2.contains_key(k) ==> m2[k] == m0[k])) by {
        assert(m2.contains_key(k) == m1.contains_key(k));
        assert(m1.contains_key(k) == m0.contains_key(k));
    }
}

/// No chunk of the given file is held.
pub open spec fn no_chunks_of(c: Seq<ChunkRecord>, p: Seq<char>, f: Seq<char>) -> bool {
    forall|i: int| 0 <= i < c.len() ==> !chunk_of(#[trigger] c[i], p, f)
}

pub proof fn lemma_no_chunks_after_delete(c: Seq<ChunkRecord>, p: Seq<char>, f: Seq<char>, g: Seq<char>)
    requires
        f == g || no_chunks_of(c, p, f),
    ensures
        no_chunks_of(without_file(c, p, g), p, f),
{
    let w = without_file(c, p, g);
    let pred = |x: ChunkRecord| !chunk_of(x, p, g);
    assert forall|i: int| 0 <= i < w.len() implies !chunk_of(#[trigger] w[i], p, f) by {
        c.lemma_filter_pred(pred, i);
        if f != g {
            assert(w.contains(w[i]));
            c.lemma_filter_contains_rev(pred, w[i]);
            let j = choose|j: int| 0 <= j < c.len() && c[j] == w[i];
            assert(!chunk_of(c[j], p, f));
        }
    }
}

/// One indexing state of a project while files are added: the state of each
/// file, how many were indexed anew and how many re-indexed, and what was
/// skipped.
pub struct AddState {
    pub status: Map<Seq<char>, (Seq<char>, bool)>,
    pub indexed: nat,
    pub updated: nat,
    pub skipped: Seq<(Seq<char>, Seq<char>)>,
}

/// Adding one file: a file that did not pass becomes a "filtered" skip; a
/// file indexed live with the same hash an "unchanged" skip; any other file
/// becomes live with its hash, counted as updated if it had an entry before
/// and as indexed if not.
pub open spec fn add_step(
    st: AddState,
    path: Seq<char>,
    cand: Option<(Seq<char>, Seq<char>, Seq<char>, Seq<char>)>,
) -> AddState {
    match cand {
        None => AddState { skipped: st.skipped.push((path, "filtered"@)), ..st },
        Some((id, key, hash, text)) => if is_unchanged(st.status, id, hash) {
            AddState { skipped: st.skipped.push((key, "unchanged"@)), ..st }
        } else if st.status.contains_key(id) {
            AddState { status: st.status.insert(id, (hash, false)), updated: st.updated + 1, ..st }
        } else {
            AddState { status: st.status.insert(id, (hash, false)), indexed: st.indexed + 1, ..st }
        },
    }
}

/// Adding files in order.
pub open spec fn add_fold(
    st: AddState,
    items: Seq<(Seq<char>, Option<(Seq<char>, Seq<char>, Seq<char>, Seq<char>)>)>,
) -> AddState
    decreases items.len(),
{
    if items.len() == 0 {
        st
    } else {
        let prev = add_fold(st, items.drop_last());
        add_step(prev, items.last().0, items.last().1)
    }
}

/// The files of an add request, each with its path and what it makes as a
/// candidate.
pub open spec fn add_items(
    p: Seq<char>,
    root: Option<Seq<char>>,
    inputs: Seq<FileInput>,
    max: u64,
) -> Seq<(Seq<char>, Option<(Seq<char>, Seq<char>, Seq<char>, Seq<char>)>)> {
    inputs.map_values(|inp: FileInput| (inp.path@, candidate_of(p, root, inp, max)))
}

/// The initial state of an add run over manifest `m`.
pub open spec fn add_start(m: Manifest, p: Seq<char>) -> AddState {
    AddState { status: status(m, p), indexed: 0, updated: 0, skipped: seq![] }
}

pub proof fn lemma_add_fold_counts(st: AddState, items: Seq<(Seq<char>, Option<(Seq<char>, Seq<char>, Seq<char>, Seq<char>)>)>)
    ensures
        add_fold(st, items).indexed + add_fold(st, items).updated + add_fold(st, items).skipped.len()
            == st.indexed + st.updated + st.skipped.len() + items.len(),
    decreases items.len(),
{
    if items.len() > 0 {
        lemma_add_fold_counts(st, items.drop_last());
    }
}

/// The id of a candidate.
pub open spec fn cand_id(c: Option<(Seq<char>, Seq<char>, Seq<char>, Seq<char>)>) -> Seq<char> {
    match c {
        Some((id, _, _, _)) => id,
        None => seq![],
    }
}

/// The content hash of a candidate.
pub open spec fn cand_hash(c: Option<(Seq<char>, Seq<char>, Seq<char>, Seq<char>)>) -> Seq<char> {
    match c {
        Some((_, _, hash, _)) => hash,
        None => seq![],
    }
}

/// Item `k` is a candidate whose id no later item has.
pub open spec fn last_with_id(
    items: Seq<(Seq<char>, Option<(Seq<char>, Seq<char>, Seq<char>, Seq<char>)>)>,
    k: int,
) -> bool {
    &&& items[k].1 is Some
    &&& forall|j: int|
        k < j < items.len() && (#[trigger] items[j]).1 is Some ==> cand_id(items[j].1)
            != cand_id(items[k].1)
}

/// No two candidates among the items share an id.
pub open spec fn distinct_ids(
    items: Seq<(Seq<char>, Option<(Seq<char>, Seq<char>, Seq<char>, Seq<char>)>)>,
) -> bool {
    forall|j: int, k: int|
        0 <= j < k < items.len() && (#[trigger] items[j]).1 is Some && (#[trigger] items[k]).1 is Some
            ==> cand_id(items[j].1) != cand_id(items[k].1)
}

proof fn lemma_add_fold_last(
    st: AddState,
    items: Seq<(Seq<char>, Option<(Seq<char>, Seq<char>, Seq<char>, Seq<char>)>)>,
    k: int,
)
    requires
        0 <= k < items.len(),
        last_with_id(items, k),
    ensures
        add_fold(st, items).status.contains_key(cand_id(items[k].1)),
        add_fold(st, items).status[cand_id(items[k].1)] == (cand_hash(items[k].1), false),
    decreases items.len(),
{
    let prev = items.drop_last();
    if k < items.len() - 1 {
        assert forall|j: int| k < j < prev.len() && (#[trigger] prev[j]).1 is Some implies cand_id(prev[j].1)
            != cand_id(prev[k].1) by {
            assert(prev[j] == items[j]);
        }
        lemma_add_fold_last(st, prev, k);
    }
}

proof fn lemma_add_fold_all_unchanged(
    st: AddState,
    items: Seq<(Seq<char>, Option<(Seq<char>, Seq<char>, Seq<char>, Seq<char>)>)>,
)
    requires
        st.indexed == 0,
        st.updated == 0,
        forall|k: int|
            0 <= k < items.len() && (#[trigger] items[k]).1 is Some ==> is_unchanged(
                st.status,
                cand_id(items[k].1),
                cand_hash(items[k].1),
            ),
    ensures
        add_fold(st, items).indexed == 0,
        add_fold(st, items).updated == 0,
        add_fold(st, items).status == st.status,
        add_fold(st, items).skipped.len() == st.skipped.len() + items.len(),
    decreases items.len(),
{
    if items.len() > 0 {
        let prev = items.drop_last();
        assert forall|k: int| 0 <= k < prev.len() && (#[trigger] prev[k]).1 is Some implies is_unchanged(
            st.status,
            cand_id(prev[k].1),
            cand_hash(prev[k].1),
        ) by {
            assert(prev[k] == items[k]);
        }
        lemma_add_fold_all_unchanged(st, prev);
        if items.last().1 is Some {
            assert(items[items.len() - 1].1 is Some);
        }
    }
}

/// The files that an add run stores, by id: the last candidate stored under
/// each id, and whether the file had a manifest entry when it was stored.
pub open spec fn stored_fold(
    st: AddState,
    items: Seq<(Seq<char>, Option<(Seq<char>, Seq<char>, Seq<char>, Seq<char>)>)>,
) -> Map<Seq<char>, ((Seq<char>, Seq<char>, Seq<char>, Seq<char>), bool)>
    decreases items.len(),
{
    if items.len() == 0 {
        Map::empty()
    } else {
        let prev = stored_fold(st, items.drop_last());
        let before = add_fold(st, items.drop_last());
        match items.last().1 {
            Some(c) => if is_unchanged(before.status, c.0, c.2) {
                prev
            } else {
                prev.insert(c.0, (c, before.status.contains_key(c.0)))
            },
            None => prev,
        }
    }
}

/// A count that stops at `usize::MAX`.
pub open spec fn cap(x: int) -> int {
    if x > usize::MAX {
        usize::MAX as int
    } else {
        x
    }
}

/// How many chunks an add run writes: those built from each candidate that
/// it stores, in turn.
pub open spec fn added_fold(
    st: AddState,
    items: Seq<(Seq<char>, Option<(Seq<char>, Seq<char>, Seq<char>, Seq<char>)>)>,
    size: int,
    overlap: int,
) -> nat
    decreases items.len(),
{
    if items.len() == 0 {
        0
    } else {
        let prev = added_fold(st, items.drop_last(), size, overlap);
        let before = add_fold(st, items.drop_last());
        match items.last().1 {
            Some(c) => if is_unchanged(before.status, c.0, c.2) {
                prev
            } else {
                prev + chunk_text_spec(c.3, size, overlap).len()
            },
            None => prev,
        }
    }
}

/// The chunks that a file holds after it was stored from candidate `s.0`:
/// the chunks it held before when it had no manifest entry (`s.1` false),
/// none otherwise, then the chunks built from the candidate's text.
pub open spec fn stored_chunks(
    now: Seq<ChunkRecord>,
    before: Seq<ChunkRecord>,
    p: Seq<char>,
    s: ((Seq<char>, Seq<char>, Seq<char>, Seq<char>), bool),
    size: int,
    overlap: int,
    emb: Option<spec_fn(Seq<char>) -> Seq<u32>>,
) -> bool {
    let base = if s.1 {
        Seq::<ChunkRecord>::empty()
    } else {
        before
    };
    &&& now.take(base.len() as int) == base
    &&& chunks_built(now.skip(base.len() as int), p, s.0, chunk_text_spec(s.0.3, size, overlap), emb)
}

/// How the chunks `c` of a store stand after an add run over project `p`
/// that started from chunks `c0` and stored the files `stored`: the chunks
/// of other projects, and of the project's files that were not stored, are
/// as they were; each stored file holds the chunks built from its candidate
/// (see `stored_chunks`).
pub open spec fn chunks_track(
    c: Seq<ChunkRecord>,
    c0: Seq<ChunkRecord>,
    p: Seq<char>,
    stored: Map<Seq<char>, ((Seq<char>, Seq<char>, Seq<char>, Seq<char>), bool)>,
    size: int,
    overlap: int,
    emb: Option<spec_fn(Seq<char>) -> Seq<u32>>,
) -> bool {
    &&& forall|q: Seq<char>, f: Seq<char>| q != p ==> #[trigger] of_file(c, q, f) == of_file(c0, q, f)
    &&& forall|f: Seq<char>| !stored.contains_key(f) ==> #[trigger] of_file(c, p, f) == of_file(c0, p, f)
    &&& forall|f: Seq<char>|
        stored.contains_key(f) ==> stored_chunks(
            #[trigger] of_file(c, p, f),
            of_file(c0, p, f),
            p,
            stored[f],
            size,
            overlap,
            emb,
        )
}

/// Storing one candidate, with the chunks its file keeps (`kept`) followed
/// by those built from it, changes the chunks of that file alone, and
/// leaves it holding what `stored_chunks` says.
pub(crate) proof fn lemma_store_chunks(
    c_before: Seq<ChunkRecord>,
    c_after: Seq<ChunkRecord>,
    p: Seq<char>,
    cv: (Seq<char>, Seq<char>, Seq<char>, Seq<char>),
    had: bool,
    size: int,
    overlap: int,
    emb: Option<spec_fn(Seq<char>) -> Seq<u32>>,
)
    requires
        ({
            let kept = if had {
                without_file(c_before, p, cv.0)
            } else {
                c_before
            };
            &&& c_after.take(kept.len() as int) == kept
            &&& kept.len() <= c_after.len()
            &&& chunks_built(c_after.skip(kept.len() as int), p, cv, chunk_text_spec(cv.3, size, overlap), emb)
        }),
    ensures
        forall|q: Seq<char>, f: Seq<char>|
            !(q == p && f == cv.0) ==> #[trigger] of_file(c_after, q, f) == of_file(c_before, q, f),
        stored_chunks(of_file(c_after, p, cv.0), of_file(c_before, p, cv.0), p, (cv, had), size, overlap, emb),
{
    let id = cv.0;
    let kept = if had {
        without_file(c_before, p, id)
    } else {
        c_before
    };
    let texts = chunk_text_spec(cv.3, size, overlap);
    let new = c_after.skip(kept.len() as int);
    assert(c_after =~= kept + new);
    assert forall|q: Seq<char>, f: Seq<char>| !(q == p && f == id) implies #[trigger] of_file(c_after, q, f)
        == of_file(c_before, q, f) by {
        lemma_of_file_add(kept, new, q, f);
        lemma_of_file_built(new, p, cv, texts, emb, q, f);
        lemma_of_file_without(c_before, p, id, q, f);
        assert(of_file(c_after, q, f) =~= of_file(kept, q, f));
    }
    lemma_of_file_add(kept, new, p, id);
    lemma_of_file_built(new, p, cv, texts, emb, p, id);
    lemma_of_file_without(c_before, p, id, p, id);
    let now = of_file(c_after, p, id);
    if had {
        assert(now =~= new);
        assert(now.take(0) =~= Seq::<ChunkRecord>::empty());
        assert(now.skip(0) =~= new);
    } else {
        let base = of_file(c_before, p, id);
        assert(now =~= base + new);
        assert(now.take(base.len() as int) =~= base);
        assert(now.skip(base.len() as int) =~= new);
    }
}

/// One candidate of an add run keeps `chunks_track`.
proof fn lemma_add_chunks_step(
    p: Seq<char>,
    c0: Seq<ChunkRecord>,
    c_before: Seq<ChunkRecord>,
    c_after: Seq<ChunkRecord>,
    start: AddState,
    prev_items: Seq<(Seq<char>, Option<(Seq<char>, Seq<char>, Seq<char>, Seq<char>)>)>,
    next_items: Seq<(Seq<char>, Option<(Seq<char>, Seq<char>, Seq<char>, Seq<char>)>)>,
    cv: (Seq<char>, Seq<char>, Seq<char>, Seq<char>),
    size: int,
    overlap: int,
    emb: Option<spec_fn(Seq<char>) -> Seq<u32>>,
)
    requires
        next_items.len() > 0,
        next_items.drop_last() == prev_items,
        next_items.last().1 == Some(cv),
        chunks_track(c_before, c0, p, stored_fold(start, prev_items), size, overlap, emb),
        ({
            let st = add_fold(start, prev_items).status;
            if is_unchanged(st, cv.0, cv.2) {
                c_after == c_before
            } else {
                let kept = if st.contains_key(cv.0) {
                    without_file(c_before, p, cv.0)
                } else {
                    c_before
                };
                &&& c_after.take(kept.len() as int) == kept
                &&& kept.len() <= c_after.len()
                &&& chunks_built(c_after.skip(kept.len() as int), p, cv, chunk_text_spec(cv.3, size, overlap), emb)
            }
        }),
    ensures
        chunks_track(c_after, c0, p, stored_fold(start, next_items), size, overlap, emb),
{
    let st = add_fold(start, prev_items).status;
    let old_stored = stored_fold(start, prev_items);
    let new_stored = stored_fold(start, next_items);
    if is_unchanged(st, cv.0, cv.2) {
        assert(new_stored == old_stored);
    } else {
        let id = cv.0;
        let had = st.contains_key(id);
        assert(new_stored == old_stored.insert(id, (cv, had)));
        lemma_store_chunks(c_before, c_after, p, cv, had, size, overlap, emb);
        assert forall|q: Seq<char>, f: Seq<char>| q != p implies #[trigger] of_file(c_after, q, f) == of_file(c0, q, f) by {
            assert(of_file(c_after, q, f) == of_file(c_before, q, f));
        }
        assert forall|f: Seq<char>| !new_stored.contains_key(f) implies #[trigger] of_file(c_after, p, f) == of_file(c0, p, f) by {
            assert(of_file(c_after, p, f) == of_file(c_before, p, f));
        }
        assert forall|f: Seq<char>| new_stored.contains_key(f) implies stored_chunks(
            #[trigger] of_file(c_after, p, f),
            of_file(c0, p, f),
            p,
            new_stored[f],
            size,
            overlap,
            emb,
        ) by {
            if f == id {
                if !had {
                    if old_stored.contains_key(f) {
                        lemma_stored_in_status(start, prev_items, f);
                    }
                    assert(of_file(c_before, p, f) == of_file(c0, p, f));
                }
            } else {
                assert(old_stored.contains_key(f));
                assert(of_file(c_after, p, f) == of_file(c_before, p, f));
            }
        }
    }
}

/// A file stored by an add run is in the state it leaves.
proof fn lemma_stored_in_status(
    st: AddState,
    items: Seq<(Seq<char>, Option<(Seq<char>, Seq<char>, Seq<char>, Seq<char>)>)>,
    f: Seq<char>,
)
    requires
        stored_fold(st, items).contains_key(f),
    ensures
        add_fold(st, items).status.contains_key(f),
    decreases items.len(),
{
    let prev = items.drop_last();
    let before = add_fold(st, prev);
    match items.last().1 {
        Some(c) => {
            if !is_unchanged(before.status, c.0, c.2) && f == c.0 {
            } else {
                lemma_stored_in_status(st, prev, f);
                lemma_add_step_keeps_keys(before, items.last().0, items.last().1, f);
            }
        },
        None => {
            lemma_stored_in_status(st, prev, f);
        },
    }
}

proof fn lemma_add_step_keeps_keys(
    st: AddState,
    path: Seq<char>,
    cand: Option<(Seq<char>, Seq<char>, Seq<char>, Seq<char>)>,
    f: Seq<char>,
)
    requires
        st.status.contains_key(f),
    ensures
        add_step(st, path, cand).status.contains_key(f),
{
}

/// Filtering keeps all of a sequence whose items all pass, and nothing of
/// one whose items all fail.
pub(crate) proof fn lemma_filter_all_or_none<A>(s: Seq<A>, pred: spec_fn(A) -> bool)
    ensures
        (forall|i: int| 0 <= i < s.len() ==> pred(#[trigger] s[i])) ==> s.filter(pred) == s,
        (forall|i: int| 0 <= i < s.len() ==> !pred(#[trigger] s[i])) ==> s.filter(pred) == Seq::<A>::empty(),
    decreases s.len(),
{
    if s.len() > 0 {
        let init = s.drop_last();
        assert forall|i: int| 0 <= i < init.len() implies init[i] == s[i] by {}
        lemma_filter_all_or_none(init, pred);
        init.lemma_filter_push(s.last(), pred);
        assert(init.push(s.last()) =~= s);
    } else {
        assert(s.filter(pred) =~= Seq::<A>::empty()) by {
            reveal(Seq::filter);
        }
        assert(s =~= Seq::<A>::empty());
    }
}

/// The chunks of a file in two runs of chunks put together.
pub(crate) proof fn lemma_of_file_add(a: Seq<ChunkRecord>, b: Seq<ChunkRecord>, q: Seq<char>, f: Seq<char>)
    ensures
        of_file(a + b, q, f) == of_file(a, q, f) + of_file(b, q, f),
{
    Seq::filter_distributes_over_add(a, b, |c: ChunkRecord| chunk_of(c, q, f));
}

/// The chunks built for one candidate belong to its file alone.
pub(crate) proof fn lemma_of_file_built(
    v: Seq<ChunkRecord>,
    p: Seq<char>,
    c: (Seq<char>, Seq<char>, Seq<char>, Seq<char>),
    texts: Seq<Seq<char>>,
    emb: Option<spec_fn(Seq<char>) -> Seq<u32>>,
    q: Seq<char>,
    f: Seq<char>,
)
    requires
        chunks_built(v, p, c, texts, emb),
    ensures
        q == p && f == c.0 ==> of_file(v, q, f) == v,
        !(q == p && f == c.0) ==> of_file(v, q, f) == Seq::<ChunkRecord>::empty(),
{
    lemma_filter_all_or_none(v, |x: ChunkRecord| chunk_of(x, q, f));
}

/// Dropping the chunks of one file leaves those of every other file, and
/// none of that file.
pub(crate) proof fn lemma_of_file_without(c: Seq<ChunkRecord>, p: Seq<char>, id: Seq<char>, q: Seq<char>, f: Seq<char>)
    ensures
        !(q == p && f == id) ==> of_file(without_file(c, p, id), q, f) == of_file(c, q, f),
        q == p && f == id ==> of_file(without_file(c, p, id), q, f) == Seq::<ChunkRecord>::empty(),
    decreases c.len(),
{
    let keep = |x: ChunkRecord| !chunk_of(x, p, id);
    let pick = |x: ChunkRecord| chunk_of(x, q, f);
    if c.len() == 0 {
        assert(c.filter(keep) =~= Seq::<ChunkRecord>::empty()) by {
            reveal(Seq::filter);
        }
        assert(c.filter(keep).filter(pick) =~= Seq::<ChunkRecord>::empty()) by {
            reveal(Seq::filter);
        }
        assert(c.filter(pick) =~= Seq::<ChunkRecord>::empty()) by {
            reveal(Seq::filter);
        }
    } else {
        let init = c.drop_last();
        let x = c.last();
        assert(init.push(x) =~= c);
        lemma_of_file_without(init, p, id, q, f);
        init.lemma_filter_push(x, keep);
        init.lemma_filter_push(x, pick);
        init.filter(keep).lemma_filter_push(x, pick);
    }
}

/// Indexing the same files a second time, right after a first run, finds
/// each of them unchanged (or filtered again): nothing is indexed or updated,
/// every file is reported skipped, and the state of the files stays as the
/// first run left it. This holds when no two of the files have the same id.
pub proof fn add_files_again_changes_nothing(
    m: Manifest,
    p: Seq<char>,
    items: Seq<(Seq<char>, Option<(Seq<char>, Seq<char>, Seq<char>, Seq<char>)>)>,
)
    requires
        distinct_ids(items),
    ensures
        ({
            let first = add_fold(add_start(m, p), items);
            let again = add_fold(
                AddState { status: first.status, indexed: 0, updated: 0, skipped: seq![] },
                items,
            );
            &&& again.indexed == 0
            &&& again.updated == 0
            &&& again.skipped.len() == items.len()
            &&& again.status == first.status
        }),
{
    let first = add_fold(add_start(m, p), items);
    let st = AddState { status: first.status, indexed: 0, updated: 0, skipped: seq![] };
    assert forall|k: int| 0 <= k < items.len() && (#[trigger] items[k]).1 is Some implies is_unchanged(
        st.status,
        cand_id(items[k].1),
        cand_hash(items[k].1),
    ) by {
        assert(last_with_id(items, k));
        lemma_add_fold_last(add_start(m, p), items, k);
    }
    lemma_add_fold_all_unchanged(st, items);
}

/// The indexing service over a store and an embedder.
pub struct RagService<S: RagManifestStore, E: Embedder> {
    pub store: S,
    pub embedder: E,
    pub chunk_size: usize,
    pub chunk_overlap: usize,
    pub max_file_size: u64,
}

impl<S: RagManifestStore, E: Embedder> RagService<S, E> {
    /// A service with the default chunk size (1000), overlap (150) and file
    /// size limit (1 MiB).
    pub fn new_with(store: S, embedder: E) -> (r: Self)
        ensures
            r.store == store,
            r.embedder == embedder,
            r.chunk_size == DEFAULT_CHUNK_SIZE,
            r.chunk_overlap == DEFAULT_CHUNK_OVERLAP,
            r.max_file_size == DEFAULT_MAX_FILE_SIZE,
    {
        RagService {
            store,
            embedder,
            chunk_size: DEFAULT_CHUNK_SIZE,
            chunk_overlap: DEFAULT_CHUNK_OVERLAP,
            max_file_size: DEFAULT_MAX_FILE_SIZE,
        }
    }

    /// Indexes files of a project, in order. Each file that does not pass the
    /// filters or cannot be read as text is reported skipped as "filtered";
    /// each one that the manifest holds live with the same content hash is
    /// reported skipped as "unchanged"; every other one has its old chunks
    /// (if it had a manifest entry) replaced by new ones and a live manifest
    /// entry, and is counted as updated or newly indexed. New chunks and
    /// entries are stamped `updated_at`; the report counts the chunks written
    /// and, with a store that counts them, those removed.
    pub fn index_add_files(
        &mut self,
        project_id: &str,
        root_dir: Option<String>,
        files: Vec<FileInput>,
        updated_at: &str,
    ) -> (r: Result<IndexReport, String>)
        requires
            old(self).store.well_formed(),
        ensures
            final(self).store.well_formed(),
            final(self).chunk_size == old(self).chunk_size,
            final(self).chunk_overlap == old(self).chunk_overlap,
            final(self).max_file_size == old(self).max_file_size,
            final(self).store.reliable() == old(self).store.reliable(),
            final(self).store.counts_deletions() == old(self).store.counts_deletions(),
            final(self).embedder.reliable() == old(self).embedder.reliable(),
            embedding_of(final(self).embedder) == embedding_of(old(self).embedder),
            old(self).store.reliable() && old(self).embedder.reliable() ==> r is Ok,
            r matches Ok(rep) ==> ({
                let m0 = old(self).store.manifest();
                let m1 = final(self).store.manifest();
                let fin = add_fold(
                    add_start(m0, project_id@),
                    add_items(project_id@, opt_string_view(root_dir), files@, old(self).max_file_size),
                );
                &&& rep.project_id@ == project_id@
                &&& opt_string_view(rep.root_dir) == opt_string_view(root_dir)
                &&& rep.indexed_files == fin.indexed
                &&& rep.updated_files == fin.updated
                &&& rep.deleted_files == 0
                &&& skipped_views(rep.skipped_files@) == fin.skipped
                &&& status(m1, project_id@) == fin.status
                &&& same_elsewhere(m1, m0, project_id@)
                &&& (fin.indexed == 0 && fin.updated == 0) ==> (m1 == m0
                    && final(self).store.chunk_records() == old(self).store.chunk_records()
                    && rep.chunks_added == 0 && rep.chunks_deleted == 0)
            }),
            r is Ok ==> chunks_track(
                final(self).store.chunk_records(),
                old(self).store.chunk_records(),
                project_id@,
                stored_fold(
                    add_start(old(self).store.manifest(), project_id@),
                    add_items(project_id@, opt_string_view(root_dir), files@, old(self).max_file_size),
                ),
                old(self).chunk_size as int,
                old(self).chunk_overlap as int,
                embedding_of(old(self).embedder),
            ),
            r is Ok ==> ({
                let p = project_id@;
                let m0 = old(self).store.manifest();
                let m1 = final(self).store.manifest();
                let stored = stored_fold(
                    add_start(m0, p),
                    add_items(p, opt_string_view(root_dir), files@, old(self).max_file_size),
                );
                &&& forall|f: Seq<char>|
                    #[trigger] stored.contains_key(f) ==> m1.contains_key((p, f)) && m1[(p, f)].file_path@
                        == stored[f].0.1 && m1[(p, f)].updated_at@ == updated_at@
                &&& forall|f: Seq<char>|
                    !stored.contains_key(f) ==> #[trigger] m1.contains_key((p, f)) == m0.contains_key((p, f))
                        && (m0.contains_key((p, f)) ==> m1[(p, f)] == m0[(p, f)])
            }),
            r matches Ok(rep) ==> ({
                let added = added_fold(
                    add_start(old(self).store.manifest(), project_id@),
                    add_items(project_id@, opt_string_view(root_dir), files@, old(self).max_file_size),
                    old(self).chunk_size as int,
                    old(self).chunk_overlap as int,
                );
                &&& rep.chunks_added == cap(added as int)
                &&& old(self).store.counts_deletions() ==> rep.chunks_deleted == cap(
                    old(self).store.chunk_records().len() + added - final(self).store.chunk_records().len(),
                )
            }),
    {
        let ghost m0 = self.store.manifest();
        let ghost c0 = self.store.chunk_records();
        let ghost size0 = self.chunk_size as int;
        let ghost overlap0 = self.chunk_overlap as int;
        let ghost inputs = files@;
        let ghost max = self.max_file_size;
        let ghost root_v = opt_string_view(root_dir);
        let ghost items = add_items(project_id@, root_v, inputs, max);
        let ghost start = add_start(m0, project_id@);
        let ghost emb0 = embedding_of(self.embedder);
        let mut report = IndexReport::new(project_id);
        let root: Option<&str> = match &root_dir {
            Some(r) => Some(r.as_str()),
            None => None,
        };
        assert(opt_view(root) == root_v);
        report.root_dir = root_dir.clone();
        let mut files = files;
        assert(inputs.len() == files.len());
        let mut i: usize = 0;
        proof {
            assert(inputs.skip(0) =~= inputs);
            assert(items.take(0) =~= Seq::<(Seq<char>, Option<(Seq<char>, Seq<char>, Seq<char>, Seq<char>)>)>::empty());
            assert(skipped_views(report.skipped_files@) =~= Seq::<(Seq<char>, Seq<char>)>::empty());
        }
        while files.len() > 0
            invariant
                self.store.well_formed(),
                self.max_file_size == max,
                i <= inputs.len(),
                inputs.len() <= usize::MAX,
                files@ == inputs.skip(i as int),
                items == add_items(project_id@, root_v, inputs, max),
                opt_view(root) == root_v,
                start == add_start(m0, project_id@),
                report.project_id@ == project_id@,
                opt_string_view(report.root_dir) == root_v,
                report.deleted_files == 0,
                ({
                    let st = add_fold(start, items.take(i as int));
                    &&& report.indexed_files == st.indexed
                    &&& report.updated_files == st.updated
                    &&& skipped_views(report.skipped_files@) == st.skipped
                    &&& status(self.store.manifest(), project_id@) == st.status
                    &&& same_elsewhere(self.store.manifest(), m0, project_id@)
                    &&& (st.indexed == 0 && st.updated == 0) ==> (self.store.manifest() == m0
                        && self.store.chunk_records() == c0 && report.chunks_added == 0
                        && report.chunks_deleted == 0)
                }),
                self.chunk_size as int == size0,
                self.chunk_overlap as int == overlap0,
                size0 == old(self).chunk_size as int,
                overlap0 == old(self).chunk_overlap as int,
                max == old(self).max_file_size,
                self.store.reliable() == old(self).store.reliable(),
                self.store.counts_deletions() == old(self).store.counts_deletions(),
                self.embedder.reliable() == old(self).embedder.reliable(),
                embedding_of(self.embedder) == emb0,
                emb0 == embedding_of(old(self).embedder),
                chunks_track(
                    self.store.chunk_records(),
                    c0,
                    project_id@,
                    stored_fold(start, items.take(i as int)),
                    size0,
                    overlap0,
                    emb0,
                ),
                ({
                    let p = project_id@;
                    let m = self.store.manifest();
                    let stored = stored_fold(start, items.take(i as int));
                    &&& forall|f: Seq<char>|
                        #[trigger] stored.contains_key(f) ==> m.contains_key((p, f)) && m[(p, f)].file_path@
                            == stored[f].0.1 && m[(p, f)].updated_at@ == updated_at@
                    &&& forall|f: Seq<char>|
                        !stored.contains_key(f) ==> #[trigger] m.contains_key((p, f)) == m0.contains_key((p, f))
                            && (m0.contains_key((p, f)) ==> m[(p, f)] == m0[(p, f)])
                }),
                ({
                    let added = added_fold(start, items.take(i as int), size0, overlap0);
                    &&& report.chunks_added == cap(added as int)
                    &&& self.store.chunk_records().len() <= c0.len() + added
                    &&& self.store.counts_deletions() ==> report.chunks_deleted == cap(
                        c0.len() + added - self.store.chunk_records().len(),
                    )
                }),
            decreases files.len(),
        {
            let ghost m_before = self.store.manifest();
            let ghost st = add_fold(start, items.take(i as int));
            proof {
                assert(i < inputs.len());
                lemma_add_fold_counts(start, items.take(i as int));
                assert(items.take(i + 1).drop_last() =~= items.take(i as int));
                assert(items[i as int] == (inputs[i as int].path@, candidate_of(project_id@, root_v, inputs[i as int], max)));
            }
            let input = files.remove(0);
            proof {
                assert(input == inputs[i as int]);
                assert(files@ =~= inputs.skip(i + 1));
            }
            let path_text = input.path.clone();
            let max_size = self.max_file_size;
            match prepare_file_candidate(project_id, root, input, max_size) {
                None => {
                    let ghost before = report.skipped_files@;
                    report.skipped_files.push(
                        SkippedFile { path: path_text, reason: "filtered".to_owned() },
                    );
                    proof {
                        assert(skipped_views(report.skipped_files@) =~= skipped_views(before).push(
                            (inputs[i as int].path@, "filtered"@),
                        ));
                        assert(items.take(i + 1).last() == items[i as int]);
                        assert(stored_fold(start, items.take(i + 1)) == stored_fold(start, items.take(i as int)));
                        assert({
                            let pid = project_id@;
                            let m = self.store.manifest();
                            let stored = stored_fold(start, items.take(i + 1));
                            &&& forall|f: Seq<char>|
                                #[trigger] stored.contains_key(f) ==> m.contains_key((pid, f)) && m[(pid, f)].file_path@
                                    == stored[f].0.1 && m[(pid, f)].updated_at@ == updated_at@
                            &&& forall|f: Seq<char>|
                                !stored.contains_key(f) ==> #[trigger] m.contains_key((pid, f)) == m0.contains_key((pid, f))
                                    && (m0.contains_key((pid, f)) ==> m[(pid, f)] == m0[(pid, f)])
                        });
                    }
                },
                Some(candidate) => {
                    let ghost c_before = self.store.chunk_records();
                    let ghost cv = cand_view(candidate);
                    self.index_candidate(project_id, candidate, updated_at, &mut report)?;
                    proof {
                        lemma_same_elsewhere_trans(self.store.manifest(), m_before, m0, project_id@);
                        lemma_add_chunks_step(
                            project_id@,
                            c0,
                            c_before,
                            self.store.chunk_records(),
                            start,
                            items.take(i as int),
                            items.take(i + 1),
                            cv,
                            size0,
                            overlap0,
                            emb0,
                        );
                        let c1 = self.store.chunk_records();
                        let sf0 = stored_fold(start, items.take(i as int));
                        let sf1 = stored_fold(start, items.take(i + 1));
                        let m_after = self.store.manifest();
                        let pid = project_id@;
                        assert(items.take(i + 1).last() == items[i as int]);
                        if is_unchanged(st.status, cv.0, cv.2) {
                            assert(sf1 == sf0);
                        } else {
                            assert(sf1 == sf0.insert(cv.0, (cv, st.status.contains_key(cv.0))));
                            assert forall|f: Seq<char>| #[trigger] sf1.contains_key(f) implies m_after.contains_key((pid, f))
                                && m_after[(pid, f)].file_path@ == sf1[f].0.1 && m_after[(pid, f)].updated_at@
                                == updated_at@ by {
                                if f != cv.0 {
                                    assert(sf0.contains_key(f));
                                    assert(m_after[(pid, f)] == m_before[(pid, f)]);
                                }
                            }
                            assert forall|f: Seq<char>| !sf1.contains_key(f) implies #[trigger] m_after.contains_key((pid, f))
                                == m0.contains_key((pid, f)) && (m0.contains_key((pid, f)) ==> m_after[(pid, f)] == m0[(pid, f)]) by {
                                assert(f != cv.0);
                                assert(!sf0.contains_key(f));
                            }
                        }
                        assert({
                            let pid = project_id@;
                            let m = self.store.manifest();
                            let stored = stored_fold(start, items.take(i + 1));
                            &&& forall|f: Seq<char>|
                                #[trigger] stored.contains_key(f) ==> m.contains_key((pid, f)) && m[(pid, f)].file_path@
                                    == stored[f].0.1 && m[(pid, f)].updated_at@ == updated_at@
                            &&& forall|f: Seq<char>|
                                !stored.contains_key(f) ==> #[trigger] m.contains_key((pid, f)) == m0.contains_key((pid, f))
                                    && (m0.contains_key((pid, f)) ==> m[(pid, f)] == m0[(pid, f)])
                        });
                        if !is_unchanged(st.status, cv.0, cv.2) {
                            let kept = if st.status.contains_key(cv.0) {
                                without_file(c_before, project_id@, cv.0)
                            } else {
                                c_before
                            };
                            assert(c1.skip(kept.len() as int).len() == c1.len() - kept.len());
                        }
                    }
                },
            }
            i += 1;
        }
        proof {
            assert(items.take(inputs.len() as int) =~= items);
            let stored = stored_fold(start, items);
            let m1 = self.store.manifest();
            let p = project_id@;
            assert forall|f: Seq<char>| #[trigger] stored.contains_key(f) implies m1.contains_key((p, f))
                && m1[(p, f)].file_path@ == stored[f].0.1 && m1[(p, f)].updated_at@ == updated_at@ by {
                assert(stored_fold(start, items.take(i as int)).contains_key(f));
            }
            assert forall|f: Seq<char>| !stored.contains_key(f) implies #[trigger] m1.contains_key((p, f))
                == m0.contains_key((p, f)) && (m0.contains_key((p, f)) ==> m1[(p, f)] == m0[(p, f)]) by {
                assert(!stored_fold(start, items.take(i as int)).contains_key(f));
            }
        }
        Ok(report)
    }

    /// Indexes one candidate of a project: skips it when the manifest holds
    /// it live with the same hash; otherwise drops its old chunks (if it had
    /// an entry), adds its new chunks and puts a live manifest entry for it.
    fn index_candidate(
        &mut self,
        project_id: &str,
        candidate: FileCandidate,
        updated_at: &str,
        report: &mut IndexReport,
    ) -> (r: Result<(), String>)
        requires
            old(self).store.well_formed(),
            old(report).indexed_files + old(report).updated_files + old(
                report,
            ).skipped_files@.len() < usize::MAX,
        ensures
            final(self).store.well_formed(),
            final(self).store.reliable() == old(self).store.reliable(),
            final(self).store.counts_deletions() == old(self).store.counts_deletions(),
            final(self).embedder.reliable() == old(self).embedder.reliable(),
            embedding_of(final(self).embedder) == embedding_of(old(self).embedder),
            old(self).store.reliable() && old(self).embedder.reliable() ==> r is Ok,
            final(self).chunk_size == old(self).chunk_size,
            final(self).chunk_overlap == old(self).chunk_overlap,
            final(self).max_file_size == old(self).max_file_size,
            final(report).project_id == old(report).project_id,
            final(report).root_dir == old(report).root_dir,
            final(report).deleted_files == old(report).deleted_files,
            r is Ok ==> ({
                let m0 = old(self).store.manifest();
                let m1 = final(self).store.manifest();
                let c0 = old(self).store.chunk_records();
                let c1 = final(self).store.chunk_records();
                let st0 = status(m0, project_id@);
                let id = candidate.file_id@;
                if is_unchanged(st0, id, candidate.file_hash@) {
                    &&& m1 == m0
                    &&& c1 == c0
                    &&& skipped_views(final(report).skipped_files@) == skipped_views(
                        old(report).skipped_files@,
                    ).push((candidate.file_path@, "unchanged"@))
                    &&& final(report).indexed_files == old(report).indexed_files
                    &&& final(report).updated_files == old(report).updated_files
                    &&& final(report).chunks_added == old(report).chunks_added
                    &&& final(report).chunks_deleted == old(report).chunks_deleted
                } else {
                    let kept = if st0.contains_key(id) {
                        without_file(c0, project_id@, id)
                    } else {
                        c0
                    };
                    &&& status(m1, project_id@) == st0.insert(id, (candidate.file_hash@, false))
                    &&& same_elsewhere(m1, m0, project_id@)
                    &&& m1.contains_key((project_id@, id))
                    &&& m1[(project_id@, id)].file_path@ == candidate.file_path@
                    &&& m1[(project_id@, id)].mtime == candidate.mtime
                    &&& m1[(project_id@, id)].size == candidate.size
                    &&& m1[(project_id@, id)].is_deleted == Some(false)
                    &&& m1[(project_id@, id)].updated_at@ == updated_at@
                    &&& m1 == m0.insert((project_id@, id), m1[(project_id@, id)])
                    &&& c1.take(kept.len() as int) == kept
                    &&& kept.len() <= c1.len()
                    &&& kept.len() <= c0.len()
                    &&& chunks_built(
                        c1.skip(kept.len() as int),
                        project_id@,
                        cand_view(candidate),
                        chunk_text_spec(
                            candidate.text@,
                            old(self).chunk_size as int,
                            old(self).chunk_overlap as int,
                        ),
                        embedding_of(old(self).embedder),
                    )
                    &&& old(self).store.counts_deletions() ==> final(report).chunks_deleted == sat_add(
                        old(report).chunks_deleted as int,
                        c0.len() - kept.len(),
                    )
                    &&& skipped_views(final(report).skipped_files@) == skipped_views(
                        old(report).skipped_files@,
                    )
                    &&& final(report).chunks_added == sat_add(
                        old(report).chunks_added as int,
                        c1.len() - kept.len(),
                    )
                    &&& if st0.contains_key(id) {
                        &&& final(report).updated_files == old(report).updated_files + 1
                        &&& final(report).indexed_files == old(report).indexed_files
                    } else {
                        &&& final(report).indexed_files == old(report).indexed_files + 1
                        &&& final(report).updated_files == old(report).updated_files
                        &&& final(report).chunks_deleted == old(report).chunks_deleted
                    }
                }
            }),
    {
        let existing = self.store.get_file_manifest(project_id, candidate.file_id.as_str())?;
        let had_entry = existing.is_some();
        if let Some(existing) = existing {
            if crate::text::str_eq(existing.file_hash.as_str(), candidate.file_hash.as_str())
                && existing.is_deleted != Some(true) {
                let ghost before = report.skipped_files@;
                report.skipped_files.push(
                    SkippedFile { path: candidate.file_path.clone(), reason: "unchanged".to_owned() },
                );
                proof {
                    assert(skipped_views(report.skipped_files@) =~= skipped_views(before).push(
                        (candidate.file_path@, "unchanged"@),
                    ));
                }
                return Ok(());
            }
        }
        self.store_candidate(project_id, &candidate, had_entry, updated_at, report)
    }

    /// Puts a candidate in the index in place of what the store held of it:
    /// drops its old chunks when it had an entry, adds its new chunks, and
    /// puts a live manifest entry for it; counts it as updated or as new.
    pub(crate) fn store_candidate(
        &mut self,
        project_id: &str,
        candidate: &FileCandidate,
        had_entry: bool,
        updated_at: &str,
        report: &mut IndexReport,
    ) -> (r: Result<(), String>)
        requires
            old(self).store.well_formed(),
            old(report).indexed_files + old(report).updated_files < usize::MAX,
        ensures
            final(self).store.well_formed(),
            final(self).store.reliable() == old(self).store.reliable(),
            final(self).store.counts_deletions() == old(self).store.counts_deletions(),
            final(self).embedder.reliable() == old(self).embedder.reliable(),
            embedding_of(final(self).embedder) == embedding_of(old(self).embedder),
            old(self).store.reliable() && old(self).embedder.reliable() ==> r is Ok,
            final(self).chunk_size == old(self).chunk_size,
            final(self).chunk_overlap == old(self).chunk_overlap,
            final(self).max_file_size == old(self).max_file_size,
            final(report).project_id == old(report).project_id,
            final(report).root_dir == old(report).root_dir,
            final(report).deleted_files == old(report).deleted_files,
            final(report).skipped_files == old(report).skipped_files,
            r is Ok ==> ({
                let p = project_id@;
                let m0 = old(self).store.manifest();
                let m1 = final(self).store.manifest();
                let c0 = old(self).store.chunk_records();
                let c1 = final(self).store.chunk_records();
                let id = candidate.file_id@;
                let kept = if had_entry {
                    without_file(c0, p, id)
                } else {
                    c0
                };
                &&& status(m1, p) == status(m0, p).insert(id, (candidate.file_hash@, false))
                &&& same_elsewhere(m1, m0, p)
                &&& m1.contains_key((p, id))
                &&& m1[(p, id)].file_path@ == candidate.file_path@
                &&& m1[(p, id)].mtime == candidate.mtime
                &&& m1[(p, id)].size == candidate.size
                &&& m1[(p, id)].is_deleted == Some(false)
                &&& m1[(p, id)].updated_at@ == updated_at@
                &&& m1 == m0.insert((p, id), m1[(p, id)])
                &&& c1.take(kept.len() as int) == kept
                &&& kept.len() <= c1.len()
                &&& chunks_built(
                    c1.skip(kept.len() as int),
                    p,
                    cand_view(*candidate),
                    chunk_text_spec(
                        candidate.text@,
                        old(self).chunk_size as int,
                        old(self).chunk_overlap as int,
                    ),
                    embedding_of(old(self).embedder),
                )
                &&& forall|f: Seq<char>|
                    #![trigger no_chunks_of(c1, p, f)]
                    f != id && no_chunks_of(c0, p, f) ==> no_chunks_of(c1, p, f)
                &&& final(report).chunks_added == sat_add(
                    old(report).chunks_added as int,
                    c1.len() - kept.len(),
                )
                &&& kept.len() <= c0.len()
                &&& old(self).store.counts_deletions() ==> final(report).chunks_deleted == sat_add(
                    old(report).chunks_deleted as int,
                    c0.len() - kept.len(),
                )
                &&& if had_entry {
                    &&& final(report).updated_files == old(report).updated_files + 1
                    &&& final(report).indexed_files == old(report).indexed_files
                } else {
                    &&& final(report).indexed_files == old(report).indexed_files + 1
                    &&& final(report).updated_files == old(report).updated_files
                    &&& final(report).chunks_deleted == old(report).chunks_deleted
                }
            }),
    {
        let ghost m0 = self.store.manifest();
        let ghost c0 = self.store.chunk_records();
        let ghost p = project_id@;
        let ghost id = candidate.file_id@;
        if had_entry {
            let deleted = self.store.delete_by_file(project_id, candidate.file_id.as_str())?;
            proof {
                lemma_of_file_split(c0, p, id);
            }
            report.chunks_deleted = report.chunks_deleted.saturating_add(deleted);
            report.updated_files += 1;
        } else {
            report.indexed_files += 1;
        }
        let ghost c_mid = self.store.chunk_records();
        let chunks = self.build_chunks(project_id, candidate, updated_at)?;
        let ghost chunks_v = chunks@;
        let added = chunks.len();
        report.chunks_added = report.chunks_added.saturating_add(added);
        self.store.add_chunks(chunks)?;
        let record = FileRecord {
            project_id: project_id.to_owned(),
            file_id: candidate.file_id.clone(),
            file_path: candidate.file_path.clone(),
            file_hash: candidate.file_hash.clone(),
            mtime: candidate.mtime,
            size: candidate.size,
            is_deleted: Some(false),
            updated_at: updated_at.to_owned(),
        };
        let ghost rec = record;
        self.store.upsert_file_manifest(record)?;
        proof {
            lemma_status_insert(m0, p, rec);
            let c1 = self.store.chunk_records();
            assert(c1.take(c_mid.len() as int) =~= c_mid);
            assert(c1.skip(c_mid.len() as int) =~= chunks_v);
            assert forall|f: Seq<char>|
                #![trigger no_chunks_of(c1, p, f)]
                f != id && no_chunks_of(c0, p, f) implies no_chunks_of(c1, p, f) by {
                if had_entry {
                    lemma_no_chunks_after_delete(c0, p, f, id);
                }
                assert forall|i: int| 0 <= i < c1.len() implies !chunk_of(#[trigger] c1[i], p, f) by {
                    if i < c_mid.len() {
                        assert(c1[i] == c_mid[i]);
                    } else {
                        assert(c1[i] == chunks_v[i - c_mid.len()]);
                    }
                }
            }
        }
        Ok(())
    }

    /// The chunk records of a candidate: its text cut into chunks, each
    /// embedded (as `passage: ` and the chunk), numbered from 0, stamped with
    /// `updated_at`.
    fn build_chunks(&mut self, project_id: &str, candidate: &FileCandidate, updated_at: &str) -> (r: Result<
        Vec<ChunkRecord>,
        String,
    >)
        ensures
            final(self).store == old(self).store,
            final(self).chunk_size == old(self).chunk_size,
            final(self).chunk_overlap == old(self).chunk_overlap,
            final(self).max_file_size == old(self).max_file_size,
            final(self).embedder.reliable() == old(self).embedder.reliable(),
            embedding_of(final(self).embedder) == embedding_of(old(self).embedder),
            old(self).embedder.reliable() ==> r is Ok,
            chunk_text_spec(
                candidate.text@,
                old(self).chunk_size as int,
                old(self).chunk_overlap as int,
            ).len() == 0 ==> (r matches Ok(v) && v@.len() == 0),
            r matches Ok(v) ==> chunks_built(
                v@,
                project_id@,
                cand_view(*candidate),
                chunk_text_spec(
                    candidate.text@,
                    old(self).chunk_size as int,
                    old(self).chunk_overlap as int,
                ),
                embedding_of(old(self).embedder),
            ),
            r matches Ok(v) ==> forall|i: int| 0 <= i < v@.len() ==> (#[trigger] v@[i]).updated_at@ == updated_at@,
    {
        let ghost e0 = self.embedder;
        let chunks = chunk_text(candidate.text.as_str(), self.chunk_size, self.chunk_overlap);
        let ghost texts = views(chunks@);
        if chunks.len() == 0 {
            return Ok(Vec::new());
        }
        let mut embed_texts: Vec<String> = Vec::new();
        let mut i: usize = 0;
        while i < chunks.len()
            invariant
                i <= chunks.len(),
                embed_texts@.len() == i,
                texts == views(chunks@),
                forall|j: int| 0 <= j < i ==> (#[trigger] embed_texts@[j])@ == "passage: "@ + texts[j],
            decreases chunks.len() - i,
        {
            embed_texts.push(concat_str("passage: ", chunks[i].as_str()));
            i += 1;
        }
        let embeddings = self.embedder.embed_documents(&embed_texts)?;
        proof {
            lemma_embedding_of_kept(e0, self.embedder);
        }
        let ghost emb = embedding_of(e0);
        let n = if chunks.len() < embeddings.len() {
            chunks.len()
        } else {
            embeddings.len()
        };
        let mut records: Vec<ChunkRecord> = Vec::new();
        let mut k: usize = 0;
        while k < n
            invariant
                k <= n <= chunks.len(),
                n <= embeddings.len(),
                texts == views(chunks@),
                records@.len() == k,
                embed_texts@.len() == chunks@.len(),
                forall|j: int| 0 <= j < embed_texts@.len() ==> (#[trigger] embed_texts@[j])@ == "passage: "@ + texts[j],
                emb == embedding_of(e0),
                e0.reliable() ==> forall|j: int|
                    0 <= j < embeddings@.len() ==> (#[trigger] embeddings@[j])@ == e0.embedding(embed_texts@[j]@),
                forall|j: int|
                    0 <= j < k ==> {
                        &&& (#[trigger] records@[j]).project_id@ == project_id@
                        &&& records@[j].file_id@ == candidate.file_id@
                        &&& records@[j].file_path@ == candidate.file_path@
                        &&& records@[j].file_hash@ == candidate.file_hash@
                        &&& records@[j].chunk_id@ == candidate.file_id@ + ":"@ + decimal(
                            j as nat,
                        )
                        &&& records@[j].chunk_index == j as i32
                        &&& records@[j].text@ == texts[j]
                        &&& records@[j].updated_at@ == updated_at@
                        &&& emb is Some ==> records@[j].embedding@ == emb.unwrap()("passage: "@ + texts[j])
                    },
            decreases n - k,
        {
            let with_colon = concat_str(candidate.file_id.as_str(), ":");
            let index_text = u64_to_decimal(k as u64);
            let chunk_id = concat_str(with_colon.as_str(), index_text.as_str());
            let record = ChunkRecord {
                project_id: project_id.to_owned(),
                file_id: candidate.file_id.clone(),
                file_path: candidate.file_path.clone(),
                file_hash: candidate.file_hash.clone(),
                chunk_id,
                chunk_index: k as i32,
                text: chunks[k].clone(),
                embedding: embeddings[k].clone(),
                updated_at: updated_at.to_owned(),
            };
            proof {
                if emb is Some {
                    assert(embed_texts@[k as int]@ == "passage: "@ + texts[k as int]);
                }
            }
            records.push(record);
            k += 1;
        }
        Ok(records)
    }
}

/// The text embedded for a search: `query: ` and the query.
pub fn query_text(query: &str) -> (r: String)
    ensures
        r@ == "query: "@ + query@,
{
    concat_str("query: ", query)
}

impl<S: RagManifestStore, E: Embedder> RagService<S, E> {
    /// The embedding to search the given projects with: that of the query
    /// text (see `query_text`). A search over no project is refused with
    /// "project_ids is empty" before anything is embedded; the embedder's
    /// own failure is passed on, and a reliable embedder gives its embedding
    /// of `query: ` and the query. The chunks to score with it are those that
    /// `MemoryStore::search_candidates` picks.
    pub fn search(&mut self, query: &str, project_ids: &Vec<String>) -> (r: Result<Vec<u32>, String>)
        ensures
            project_ids.len() == 0 ==> (r matches Err(e) && e@ == "project_ids is empty"@),
            project_ids.len() > 0 && old(self).embedder.reliable() ==> (r matches Ok(v) && v@
                == old(self).embedder.embedding("query: "@ + query@)),
            project_ids.len() == 0 ==> final(self).embedder == old(self).embedder,
            final(self).embedder.reliable() == old(self).embedder.reliable(),
            embedding_of(final(self).embedder) == embedding_of(old(self).embedder),
            final(self).store == old(self).store,
            final(self).chunk_size == old(self).chunk_size,
            final(self).chunk_overlap == old(self).chunk_overlap,
            final(self).max_file_size == old(self).max_file_size,
    {
        if project_ids.len() == 0 {
            return Err("project_ids is empty".to_owned());
        }
        let input = query_text(query);
        let ghost e0 = self.embedder;
        let r = self.embedder.embed_query(input.as_str());
        proof {
            lemma_embedding_of_kept(e0, self.embedder);
        }
        r
    }
}

/// The FNV-1a hash of some bytes, as the mock embedder seeds itself.
pub open spec fn fnv_seed(bytes: Seq<u8>) -> u64
    decreases bytes.len(),
{
    if bytes.len() == 0 {
        1469598103934665603u64
    } else {
        (fnv_seed(bytes.drop_last()) ^ (bytes.last() as u64)).wrapping_mul(1099511628211u64)
    }
}

/// One xorshift step.
pub open spec fn xorshift(v: u64) -> u64 {
    let a = v ^ (v >> 12u64);
    let b = a ^ (a << 25u64);
    b ^ (b >> 27u64)
}

/// The first `n` xorshift states after `seed`.
pub open spec fn xorshift_states(seed: u64, n: nat) -> Seq<u64>
    decreases n,
{
    if n == 0 {
        seq![]
    } else {
        let prev = xorshift_states(seed, (n - 1) as nat);
        let last = if n == 1 {
            seed
        } else {
            prev.last()
        };
        prev.push(xorshift(last))
    }
}

proof fn lemma_states_len(seed: u64, n: nat)
    ensures
        xorshift_states(seed, n).len() == n,
    decreases n,
{
    if n > 0 {
        lemma_states_len(seed, (n - 1) as nat);
    }
}

/// An embedder for tests: each text gets a fixed vector made from the
/// FNV-1a hash of its bytes.
#[derive(Debug)]
pub struct MockEmbedder {
    pub dimension: usize,
}

impl MockEmbedder {
    /// A mock embedder making vectors of the given dimension.
    pub fn new(dimension: usize) -> (r: MockEmbedder)
        ensures
            r.dimension == dimension,
    {
        MockEmbedder { dimension }
    }

    /// The dimension of its vectors.
    pub fn dimension(&self) -> (r: usize)
        ensures
            r == self.dimension,
    {
        self.dimension
    }

    /// The raw states from which the vector of a text is made, one per
    /// component: the xorshift states after the text's FNV-1a hash. Each
    /// component is its state divided by `u64::MAX`, and the vector is then
    /// scaled to unit length.
    pub fn raw_components(&self, text: &str) -> (r: Vec<u64>)
        ensures
            r@ == xorshift_states(fnv_seed(vstd::utf8::encode_utf8(text@)), self.dimension as nat),
    {
        let bytes = text.as_bytes();
        let mut seed: u64 = 1469598103934665603;
        let mut i: usize = 0;
        proof {
            assert(bytes@.take(0) =~= Seq::<u8>::empty());
        }
        while i < bytes.len()
            invariant
                i <= bytes.len(),
                bytes@ == vstd::utf8::encode_utf8(text@),
                seed == fnv_seed(bytes@.take(i as int)),
            decreases bytes.len() - i,
        {
            proof {
                assert(bytes@.take(i + 1).drop_last() =~= bytes@.take(i as int));
                assert(bytes@.take(i + 1).last() == bytes@[i as int]);
            }
            seed = (seed ^ (bytes[i] as u64)).wrapping_mul(1099511628211);
            i += 1;
        }
        proof {
            assert(bytes@.take(bytes@.len() as int) =~= bytes@);
        }
        let mut out: Vec<u64> = Vec::new();
        let mut value = seed;
        let mut k: usize = 0;
        while k < self.dimension
            invariant
                k <= self.dimension,
                out@ == xorshift_states(seed, k as nat),
                k > 0 ==> value == out@.last(),
                k == 0 ==> value == seed,
            decreases self.dimension - k,
        {
            proof {
                lemma_states_len(seed, k as nat);
            }
            value = value ^ (value >> 12);
            value = value ^ (value << 25);
            value = value ^ (value >> 27);
            out.push(value);
            proof {
                assert(out@ == xorshift_states(seed, (k + 1) as nat));
            }
            k += 1;
        }
        out
    }
}

} // verus!

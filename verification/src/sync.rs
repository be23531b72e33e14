//! Bringing the index of a project in line with a scan of its directory,
//! and taking files out of it.
use crate::hashing::hash_str;
use crate::service::{
    candidate_of, file_id_of, normalize_relative_path, relative_key, cand_view, lemma_no_chunks_after_delete, lemma_same_elsewhere_trans,
    lemma_of_file_without, lemma_store_chunks, stored_chunks,
    lemma_status_insert, no_chunks_of, opt_string_view, opt_view, embedding_of, cap, sat_add,
    prepare_file_candidate, same_elsewhere, status, Embedder, FileCandidate, FileInput,
    RagService,
};
use crate::store::{lemma_of_file_split, lists_project, of_file, without_file, Manifest, RagManifestStore, RagStore};
use crate::text::{concat_str, str_eq};
use crate::chunker::chunk_text_spec;
use crate::types::{record_key, ChunkRecord, FileRecord, IndexReport};
use vstd::prelude::*;

verus! {

broadcast use vstd::seq_lib::group_seq_properties;

/// The candidates that a scan of files gives, in order.
pub open spec fn scanned(
    p: Seq<char>,
    root: Option<Seq<char>>,
    inputs: Seq<FileInput>,
    max: u64,
) -> Seq<(Seq<char>, Seq<char>, Seq<char>, Seq<char>)>
    decreases inputs.len(),
{
    if inputs.len() == 0 {
        seq![]
    } else {
        let prev = scanned(p, root, inputs.drop_last(), max);
        match candidate_of(p, root, inputs.last(), max) {
            Some(c) => prev.push(c),
            None => prev,
        }
    }
}

/// The content hash of each scanned file by id; a later file takes the place
/// of an earlier one with the same id.
pub open spec fn cur_hashes(cs: Seq<(Seq<char>, Seq<char>, Seq<char>, Seq<char>)>) -> Map<
    Seq<char>,
    Seq<char>,
>
    decreases cs.len(),
{
    if cs.len() == 0 {
        Map::empty()
    } else {
        cur_hashes(cs.drop_last()).insert(cs.last().0, cs.last().2)
    }
}

/// Each scanned file by id, as a candidate; a later file takes the place of
/// an earlier one with the same id.
pub open spec fn cur_cands(cs: Seq<(Seq<char>, Seq<char>, Seq<char>, Seq<char>)>) -> Map<
    Seq<char>,
    (Seq<char>, Seq<char>, Seq<char>, Seq<char>),
>
    decreases cs.len(),
{
    if cs.len() == 0 {
        Map::empty()
    } else {
        cur_cands(cs.drop_last()).insert(cs.last().0, cs.last())
    }
}

/// The candidates hold exactly the scanned candidates of their ids.
pub open spec fn holds_cands(
    v: Seq<FileCandidate>,
    cands: Map<Seq<char>, (Seq<char>, Seq<char>, Seq<char>, Seq<char>)>,
) -> bool {
    forall|j: int|
        0 <= j < v.len() ==> cands.contains_key((#[trigger] v[j]).file_id@) && cands[v[j].file_id@]
            == cand_view(v[j])
}

/// The sum of `g` over a finite set of files (0 for an infinite one).
pub open spec fn sum_over(s: Set<Seq<char>>, g: spec_fn(Seq<char>) -> nat) -> nat
    decreases s.len(),
{
    if s.finite() && s.len() > 0 {
        let x = s.choose();
        g(x) + sum_over(s.remove(x), g)
    } else {
        0
    }
}

/// The sum may take out any member first.
pub proof fn lemma_sum_remove(s: Set<Seq<char>>, g: spec_fn(Seq<char>) -> nat, y: Seq<char>)
    requires
        s.finite(),
        s.contains(y),
    ensures
        sum_over(s, g) == g(y) + sum_over(s.remove(y), g),
    decreases s.len(),
{
    let x = s.choose();
    if x != y {
        lemma_sum_remove(s.remove(x), g, y);
        lemma_sum_remove(s.remove(y), g, x);
        assert(s.remove(x).remove(y) =~= s.remove(y).remove(x));
    }
}

/// Adding a new member adds its value.
pub proof fn lemma_sum_insert(s: Set<Seq<char>>, g: spec_fn(Seq<char>) -> nat, y: Seq<char>)
    requires
        s.finite(),
        !s.contains(y),
    ensures
        sum_over(s.insert(y), g) == sum_over(s, g) + g(y),
{
    lemma_sum_remove(s.insert(y), g, y);
    assert(s.insert(y).remove(y) =~= s);
}

/// Sums of two functions that agree on the set are equal.
pub proof fn lemma_sum_congr(s: Set<Seq<char>>, g1: spec_fn(Seq<char>) -> nat, g2: spec_fn(Seq<char>) -> nat)
    requires
        forall|x: Seq<char>| s.contains(x) ==> g1(x) == g2(x),
    ensures
        sum_over(s, g1) == sum_over(s, g2),
    decreases s.len(),
{
    if s.finite() && s.len() > 0 {
        lemma_sum_congr(s.remove(s.choose()), g1, g2);
    }
}

/// How many chunks a file of project `p` holds in `c`.
pub open spec fn held_count(c: Seq<ChunkRecord>, p: Seq<char>) -> spec_fn(Seq<char>) -> nat {
    |f: Seq<char>| of_file(c, p, f).len()
}

/// How many chunks the candidate of each file makes.
pub open spec fn built_count(
    cands: Map<Seq<char>, (Seq<char>, Seq<char>, Seq<char>, Seq<char>)>,
    size: int,
    overlap: int,
) -> spec_fn(Seq<char>) -> nat {
    |f: Seq<char>| chunk_text_spec(cands[f].3, size, overlap).len()
}

/// The manifest `m1` holds the same record for file `f` of project `p` as
/// `m0`, or none in both.
pub open spec fn same_record(m1: Manifest, m0: Manifest, p: Seq<char>, f: Seq<char>) -> bool {
    m1.contains_key((p, f)) == m0.contains_key((p, f)) && (m0.contains_key((p, f)) ==> m1[(p, f)] == m0[(
        p,
        f,
    )])
}

/// The manifest `m1` holds for file `f` of project `p` the record of `m0`
/// with its path, content hash, modification time and size kept, stamped
/// `at`.
pub open spec fn kept_but_stamped(m1: Manifest, m0: Manifest, p: Seq<char>, f: Seq<char>, at: Seq<char>) -> bool {
    &&& m0.contains_key((p, f))
    &&& m1.contains_key((p, f))
    &&& m1[(p, f)].file_path == m0[(p, f)].file_path
    &&& m1[(p, f)].file_hash == m0[(p, f)].file_hash
    &&& m1[(p, f)].mtime == m0[(p, f)].mtime
    &&& m1[(p, f)].size == m0[(p, f)].size
    &&& m1[(p, f)].updated_at@ == at
}

/// The manifest `m` holds for file `f` of project `p` a live record of
/// candidate `c`, stamped `at`.
pub open spec fn stored_record(
    m: Manifest,
    p: Seq<char>,
    f: Seq<char>,
    c: (Seq<char>, Seq<char>, Seq<char>, Seq<char>),
    at: Seq<char>,
) -> bool {
    &&& m.contains_key((p, f))
    &&& m[(p, f)].file_path@ == c.1
    &&& m[(p, f)].file_hash@ == c.2
    &&& m[(p, f)].is_deleted == Some(false)
    &&& m[(p, f)].updated_at@ == at
}

/// The file is indexed and not marked deleted.
pub open spec fn live(st: Map<Seq<char>, (Seq<char>, bool)>, f: Seq<char>) -> bool {
    st.contains_key(f) && !st[f].1
}

/// The live files that the scan no longer has.
pub open spec fn gone_files(
    st0: Map<Seq<char>, (Seq<char>, bool)>,
    cur: Map<Seq<char>, Seq<char>>,
) -> Set<Seq<char>> {
    Set::new(|f: Seq<char>| live(st0, f) && !cur.contains_key(f))
}

/// The scanned files that were not live.
pub open spec fn new_files(
    st0: Map<Seq<char>, (Seq<char>, bool)>,
    cur: Map<Seq<char>, Seq<char>>,
) -> Set<Seq<char>> {
    Set::new(|f: Seq<char>| cur.contains_key(f) && !live(st0, f))
}

/// The scanned files that were live with another content hash.
pub open spec fn changed_files(
    st0: Map<Seq<char>, (Seq<char>, bool)>,
    cur: Map<Seq<char>, Seq<char>>,
) -> Set<Seq<char>> {
    Set::new(|f: Seq<char>| cur.contains_key(f) && live(st0, f) && st0[f].0 != cur[f])
}

/// The scanned files that a sync indexes anew: those that were not live,
/// or were live with another content hash.
pub open spec fn reindexed_files(
    st0: Map<Seq<char>, (Seq<char>, bool)>,
    cur: Map<Seq<char>, Seq<char>>,
) -> Set<Seq<char>> {
    Set::new(|f: Seq<char>| cur.contains_key(f) && (!live(st0, f) || st0[f].0 != cur[f]))
}

/// The state of the files of a project after a sync with a scan: every
/// scanned file live with its scanned hash, every other file marked deleted.
pub open spec fn sync_status(
    st0: Map<Seq<char>, (Seq<char>, bool)>,
    cur: Map<Seq<char>, Seq<char>>,
) -> Map<Seq<char>, (Seq<char>, bool)> {
    Map::new(
        |f: Seq<char>| st0.contains_key(f) || cur.contains_key(f),
        |f: Seq<char>| if cur.contains_key(f) {
            (cur[f], false)
        } else {
            (st0[f].0, true)
        },
    )
}

/// The state of the files after the live ones in `done` that the scan no
/// longer has were marked deleted.
pub open spec fn after_marks(
    st0: Map<Seq<char>, (Seq<char>, bool)>,
    cur: Map<Seq<char>, Seq<char>>,
    done: Set<Seq<char>>,
) -> Map<Seq<char>, (Seq<char>, bool)> {
    Map::new(
        |f: Seq<char>| st0.contains_key(f),
        |f: Seq<char>| if done.contains(f) && !st0[f].1 && !cur.contains_key(f) {
            (st0[f].0, true)
        } else {
            st0[f]
        },
    )
}

/// The state of the files after the scanned ones in `done` were brought in.
pub open spec fn after_scan(
    mid: Map<Seq<char>, (Seq<char>, bool)>,
    cur: Map<Seq<char>, Seq<char>>,
    done: Set<Seq<char>>,
) -> Map<Seq<char>, (Seq<char>, bool)> {
    Map::new(
        |f: Seq<char>| mid.contains_key(f) || done.contains(f),
        |f: Seq<char>| if done.contains(f) {
            (cur[f], false)
        } else {
            mid[f]
        },
    )
}

/// The ids among the first `k` of a list.
pub open spec fn first_ids(ids: Seq<Seq<char>>, k: int) -> Set<Seq<char>>
    decreases k,
{
    if k <= 0 {
        Set::empty()
    } else {
        first_ids(ids, k - 1).insert(ids[k - 1])
    }
}

pub proof fn lemma_first_ids(ids: Seq<Seq<char>>, k: int)
    requires
        0 <= k <= ids.len(),
    ensures
        first_ids(ids, k).finite(),
        first_ids(ids, k).len() <= k,
        forall|f: Seq<char>|
            #[trigger] first_ids(ids, k).contains(f) <==> exists|i: int| 0 <= i < k && ids[i] == f,
    decreases k,
{
    if k > 0 {
        lemma_first_ids(ids, k - 1);
        assert forall|f: Seq<char>| #[trigger] first_ids(ids, k).contains(f) implies exists|i: int|
            0 <= i < k && ids[i] == f by {
            if f != ids[k - 1] {
                let i = choose|i: int| 0 <= i < k - 1 && ids[i] == f;
                assert(0 <= i < k && ids[i] == f);
            }
        }
        assert forall|f: Seq<char>| (exists|i: int| 0 <= i < k && ids[i] == f) implies #[trigger] first_ids(
            ids,
            k,
        ).contains(f) by {
            let i = choose|i: int| 0 <= i < k && ids[i] == f;
            if i < k - 1 {
                assert(first_ids(ids, k - 1).contains(f));
            }
        }
    }
}

/// The file ids of a list of manifest entries.
pub open spec fn record_ids(v: Seq<FileRecord>) -> Seq<Seq<char>> {
    v.map_values(|r: FileRecord| r.file_id@)
}

/// The file ids of a list of candidates.
pub open spec fn candidate_ids(v: Seq<FileCandidate>) -> Seq<Seq<char>> {
    v.map_values(|c: FileCandidate| c.file_id@)
}

/// The candidates hold each id once and give exactly the scanned hashes.
pub open spec fn holds_scan(v: Seq<FileCandidate>, cur: Map<Seq<char>, Seq<char>>) -> bool {
    &&& forall|j: int, k: int|
        0 <= j < k < v.len() ==> (#[trigger] v[j]).file_id@ != (#[trigger] v[k]).file_id@
    &&& forall|j: int|
        0 <= j < v.len() ==> cur.contains_key((#[trigger] v[j]).file_id@) && cur[v[j].file_id@]
            == v[j].file_hash@
    &&& forall|f: Seq<char>|
        #[trigger] cur.contains_key(f) ==> exists|j: int| 0 <= j < v.len() && v[j].file_id@ == f
}

/// The position of the candidate with the given id, if any.
fn position_of_id(v: &Vec<FileCandidate>, id: &str) -> (r: Option<usize>)
    ensures
        match r {
            Some(j) => j < v.len() && v@[j as int].file_id@ == id@,
            None => forall|j: int| 0 <= j < v.len() ==> (#[trigger] v@[j]).file_id@ != id@,
        },
{
    let mut j: usize = 0;
    while j < v.len()
        invariant
            j <= v.len(),
            forall|i: int| 0 <= i < j ==> (#[trigger] v@[i]).file_id@ != id@,
        decreases v.len() - j,
    {
        if str_eq(v[j].file_id.as_str(), id) {
            return Some(j);
        }
        j += 1;
    }
    None
}

/// The position of the live manifest entry with the given id, if any.
fn find_live(v: &Vec<FileRecord>, id: &str) -> (r: Option<usize>)
    ensures
        match r {
            Some(j) => j < v.len() && v@[j as int].file_id@ == id@ && v@[j as int].is_deleted
                != Some(true),
            None => forall|j: int|
                0 <= j < v.len() ==> !((#[trigger] v@[j]).file_id@ == id@ && v@[j].is_deleted
                    != Some(true)),
        },
{
    let mut j: usize = 0;
    while j < v.len()
        invariant
            j <= v.len(),
            forall|i: int|
                0 <= i < j ==> !((#[trigger] v@[i]).file_id@ == id@ && v@[i].is_deleted != Some(
                    true,
                )),
        decreases v.len() - j,
    {
        if str_eq(v[j].file_id.as_str(), id) && v[j].is_deleted != Some(true) {
            return Some(j);
        }
        j += 1;
    }
    None
}

proof fn lemma_listed_ids(v: Seq<FileRecord>, m: Manifest, p: Seq<char>)
    requires
        lists_project(v, m, p),
    ensures
        first_ids(record_ids(v), v.len() as int) == status(m, p).dom(),
        forall|i: int, j: int|
            0 <= i < j < v.len() ==> record_ids(v)[i] != record_ids(v)[j],
        forall|i: int|
            0 <= i < v.len() ==> status(m, p).contains_key(#[trigger] record_ids(v)[i])
                && status(m, p)[record_ids(v)[i]] == (v[i].file_hash@, v[i].is_deleted == Some(
                true,
            )),
{
    let ids = record_ids(v);
    let st = status(m, p);
    lemma_first_ids(ids, v.len() as int);
    assert forall|f: Seq<char>| #[trigger] st.contains_key(f) implies first_ids(
        ids,
        v.len() as int,
    ).contains(f) by {
        assert(m.contains_key((p, f)));
        let i = choose|i: int| 0 <= i < v.len() && record_key(#[trigger] v[i]) == (p, f);
        assert(ids[i] == f);
    }
    assert forall|f: Seq<char>| first_ids(ids, v.len() as int).contains(f) implies #[trigger] st.contains_key(
        f,
    ) by {
        let i = choose|i: int| 0 <= i < v.len() && ids[i] == f;
        assert(v[i].project_id@ == p);
        assert(record_key(v[i]) == (p, f));
    }
    assert(first_ids(ids, v.len() as int) =~= st.dom());
    assert forall|i: int, j: int| 0 <= i < j < v.len() implies ids[i] != ids[j] by {
        assert(record_key(v[i]) != record_key(v[j]));
        assert(v[i].project_id@ == p && v[j].project_id@ == p);
    }
    assert forall|i: int| 0 <= i < v.len() implies st.contains_key(#[trigger] ids[i]) && st[ids[i]] == (
        v[i].file_hash@,
        v[i].is_deleted == Some(true),
    ) by {
        assert(v[i].project_id@ == p);
        assert(record_key(v[i]) == (p, ids[i]));
    }
}

/// The whole state after both passes of a sync is the sync state.
proof fn lemma_sync_result(
    st0: Map<Seq<char>, (Seq<char>, bool)>,
    cur: Map<Seq<char>, Seq<char>>,
    cids: Seq<Seq<char>>,
)
    requires
        forall|f: Seq<char>|
            #[trigger] first_ids(cids, cids.len() as int).contains(f) <==> cur.contains_key(f),
    ensures
        after_scan(after_marks(st0, cur, st0.dom()), cur, first_ids(cids, cids.len() as int))
            == sync_status(st0, cur),
{
    let done = first_ids(cids, cids.len() as int);
    let mid = after_marks(st0, cur, st0.dom());
    let a = after_scan(mid, cur, done);
    let b = sync_status(st0, cur);
    assert forall|f: Seq<char>| #[trigger] a.contains_key(f) <==> b.contains_key(f) by {}
    assert forall|f: Seq<char>| a.contains_key(f) implies #[trigger] a[f] == b[f] by {
        if !cur.contains_key(f) {
            assert(!done.contains(f));
            assert(st0.dom().contains(f));
        }
    }
    assert(a =~= b);
}

/// The files of a scan that pass the filters, each id once, a later file
/// taking the place of an earlier one with the same id.
fn scan_candidates(project_id: &str, root: &str, files: Vec<FileInput>, max: u64) -> (r: Vec<
    FileCandidate,
>)
    ensures
        holds_scan(r@, cur_hashes(scanned(project_id@, Some(root@), files@, max))),
        holds_cands(r@, cur_cands(scanned(project_id@, Some(root@), files@, max))),
{
    let ghost p = project_id@;
    let ghost inputs = files@;
    let ghost root_v = Some(root@);
    assert(opt_view(Some(root)) == root_v);
    let mut files = files;
    assert(inputs.len() == files.len());
    let mut current: Vec<FileCandidate> = Vec::new();
    let mut i: usize = 0;
    proof {
        assert(inputs.skip(0) =~= inputs);
        assert(inputs.take(0) =~= Seq::<FileInput>::empty());
    }
    while files.len() > 0
        invariant
            i <= inputs.len(),
            inputs.len() <= usize::MAX,
            files@ == inputs.skip(i as int),
            opt_view(Some(root)) == root_v,
            p == project_id@,
            holds_scan(current@, cur_hashes(scanned(p, root_v, inputs.take(i as int), max))),
            holds_cands(current@, cur_cands(scanned(p, root_v, inputs.take(i as int), max))),
        decreases files.len(),
    {
        let ghost prev = cur_hashes(scanned(p, root_v, inputs.take(i as int), max));
        let ghost prev_cands = cur_cands(scanned(p, root_v, inputs.take(i as int), max));
        proof {
            assert(inputs.take(i + 1).drop_last() =~= inputs.take(i as int));
        }
        let input = files.remove(0);
        proof {
            assert(input == inputs[i as int]);
            assert(files@ =~= inputs.skip(i + 1));
        }
        let cand = prepare_file_candidate(project_id, Some(root), input, max);
        match cand {
            None => {
                assert(cur_hashes(scanned(p, root_v, inputs.take(i + 1), max)) == prev);
                assert(cur_cands(scanned(p, root_v, inputs.take(i + 1), max)) == prev_cands);
            },
            Some(c) => {
                assert(candidate_of(p, root_v, inputs[i as int], max) == Some(cand_view(c)));
                let ghost next = prev.insert(c.file_id@, c.file_hash@);
                let ghost next_cands = prev_cands.insert(c.file_id@, cand_view(c));
                assert(cur_hashes(scanned(p, root_v, inputs.take(i + 1), max)) == next
                    && cur_cands(scanned(p, root_v, inputs.take(i + 1), max)) == next_cands) by {
                    let sc = scanned(p, root_v, inputs.take(i as int), max);
                    assert(inputs.take(i + 1).last() == inputs[i as int]);
                    assert(candidate_of(p, root_v, inputs[i as int], max) == Some(cand_view(c)));
                    assert(scanned(p, root_v, inputs.take(i + 1), max) == sc.push(cand_view(c)));
                    assert(sc.push(cand_view(c)).drop_last() =~= sc);
                }
                let ghost before = current@;
                match position_of_id(&current, c.file_id.as_str()) {
                    Some(j) => {
                        current.set(j, c);
                        proof {
                            assert forall|f: Seq<char>| #[trigger] next.contains_key(f) implies exists|
                                k: int,
                            | 0 <= k < current@.len() && current@[k].file_id@ == f by {
                                if f != before[j as int].file_id@ {
                                    let k = choose|k: int|
                                        0 <= k < before.len() && before[k].file_id@ == f;
                                    assert(current@[k] == before[k]);
                                } else {
                                    assert(current@[j as int].file_id@ == f);
                                }
                            }
                            assert forall|a: int, b: int|
                                0 <= a < b < current@.len() implies (#[trigger] current@[a]).file_id@
                                != (#[trigger] current@[b]).file_id@ by {
                                assert(before[a].file_id@ != before[b].file_id@);
                            }
                            assert forall|a: int| 0 <= a < current@.len() implies next_cands.contains_key(
                                (#[trigger] current@[a]).file_id@,
                            ) && next_cands[current@[a].file_id@] == cand_view(current@[a]) by {
                                if a != j {
                                    assert(current@[a] == before[a]);
                                    assert(before[a].file_id@ != before[j as int].file_id@);
                                }
                            }
                        }
                    },
                    None => {
                        current.push(c);
                        proof {
                            assert forall|f: Seq<char>| #[trigger] next.contains_key(f) implies exists|
                                k: int,
                            | 0 <= k < current@.len() && current@[k].file_id@ == f by {
                                if f != current@[before.len() as int].file_id@ {
                                    let k = choose|k: int|
                                        0 <= k < before.len() && before[k].file_id@ == f;
                                    assert(current@[k] == before[k]);
                                }
                            }
                            assert forall|a: int, b: int|
                                0 <= a < b < current@.len() implies (#[trigger] current@[a]).file_id@
                                != (#[trigger] current@[b]).file_id@ by {
                                if b == before.len() {
                                    assert(current@[a] == before[a]);
                                } else {
                                    assert(before[a].file_id@ != before[b].file_id@);
                                }
                            }
                            assert forall|a: int| 0 <= a < current@.len() implies next.contains_key(
                                (#[trigger] current@[a]).file_id@,
                            ) && next[current@[a].file_id@] == current@[a].file_hash@ by {
                                if a < before.len() {
                                    assert(current@[a] == before[a]);
                                }
                            }
                            assert forall|a: int| 0 <= a < current@.len() implies next_cands.contains_key(
                                (#[trigger] current@[a]).file_id@,
                            ) && next_cands[current@[a].file_id@] == cand_view(current@[a]) by {
                                if a < before.len() {
                                    assert(current@[a] == before[a]);
                                }
                            }
                        }
                    },
                }
            },
        }
        i += 1;
    }
    proof {
        assert(inputs.take(inputs.len() as int) =~= inputs);
    }
    current
}

/// Syncing a second time with the same scan finds nothing to do: no file
/// is gone, new or changed, and the state of the files stays as the first
/// sync left it.
pub proof fn sync_again_changes_nothing(st0: Map<Seq<char>, (Seq<char>, bool)>, cur: Map<Seq<char>, Seq<char>>)
    ensures
        ({
            let st1 = sync_status(st0, cur);
            &&& gone_files(st1, cur).len() == 0
            &&& new_files(st1, cur).len() == 0
            &&& changed_files(st1, cur).len() == 0
            &&& sync_status(st1, cur) == st1
        }),
{
    let st1 = sync_status(st0, cur);
    assert(gone_files(st1, cur) =~= Set::<Seq<char>>::empty());
    assert(new_files(st1, cur) =~= Set::<Seq<char>>::empty());
    assert(changed_files(st1, cur) =~= Set::<Seq<char>>::empty());
    assert(sync_status(st1, cur) =~= st1);
}

/// The root directory that a sync scans: the one given, which is then to be
/// recorded as the project's root (the flag), or else the recorded one.
/// Without either the sync is refused with "project root not set".
pub fn sync_root(given: Option<String>, recorded: Option<String>) -> (r: Result<(String, bool), String>)
    ensures
        given is Some ==> (r matches Ok((root, record)) && root@ == given->0@ && record),
        given is None && recorded is Some ==> (r matches Ok((root, record)) && root@ == recorded->0@
            && !record),
        given is None && recorded is None ==> (r matches Err(e) && e@ == "project root not set"@),
{
    match given {
        Some(g) => Ok((g, true)),
        None => match recorded {
            Some(x) => Ok((x, false)),
            None => Err("project root not set".to_owned()),
        },
    }
}

impl<S: RagManifestStore, E: Embedder> RagService<S, E> {
    /// Brings the index of a project in line with a scan of its root
    /// directory. `files` are the files found under `root_dir`; those that
    /// pass the filters are the scanned files, a later one taking the place of
    /// an earlier one with the same id. Every live file that the scan no
    /// longer has loses its chunks and is marked deleted; every scanned file
    /// that was not live, or was live with another content hash, is indexed
    /// anew; the others are left as they are. What is written is stamped
    /// `updated_at`; the report counts the chunks written and, with a store
    /// that counts them, those removed.
    pub fn index_sync_project(
        &mut self,
        project_id: &str,
        root_dir: String,
        files: Vec<FileInput>,
        updated_at: &str,
    ) -> (r: Result<IndexReport, String>)
        requires
            old(self).store.well_formed(),
        ensures
            final(self).store.well_formed(),
            final(self).chunk_size == old(self).chunk_size,
            final(self).chunk_overlap == old(self).chunk_overlap,
            final(self).max_file_size == old(self).max_file_size,
            final(self).store.reliable() == old(self).store.reliable(),
            final(self).store.counts_deletions() == old(self).store.counts_deletions(),
            final(self).embedder.reliable() == old(self).embedder.reliable(),
            embedding_of(final(self).embedder) == embedding_of(old(self).embedder),
            old(self).store.reliable() && old(self).embedder.reliable() ==> r is Ok,
            r matches Ok(rep) ==> ({
                let p = project_id@;
                let m0 = old(self).store.manifest();
                let m1 = final(self).store.manifest();
                let st0 = status(m0, p);
                let cur = cur_hashes(
                    scanned(p, Some(root_dir@), files@, old(self).max_file_size),
                );
                let ga = built_count(
                    cur_cands(scanned(p, Some(root_dir@), files@, old(self).max_file_size)),
                    old(self).chunk_size as int,
                    old(self).chunk_overlap as int,
                );
                let held = held_count(old(self).store.chunk_records(), p);
                &&& rep.project_id@ == p
                &&& opt_string_view(rep.root_dir) == Some(root_dir@)
                &&& status(m1, p) == sync_status(st0, cur)
                &&& same_elsewhere(m1, m0, p)
                &&& rep.deleted_files == gone_files(st0, cur).len()
                &&& rep.indexed_files == new_files(st0, cur).len()
                &&& rep.updated_files == changed_files(st0, cur).len()
                &&& rep.skipped_files@.len() == 0
                &&& rep.chunks_added == cap(
                    (sum_over(new_files(st0, cur), ga) + sum_over(changed_files(st0, cur), ga)) as int,
                )
                &&& old(self).store.counts_deletions() ==> rep.chunks_deleted == cap(
                    (sum_over(gone_files(st0, cur), held) + sum_over(changed_files(st0, cur), held)) as int,
                )
                &&& forall|f: Seq<char>|
                    #[trigger] gone_files(st0, cur).contains(f) ==> kept_but_stamped(m1, m0, p, f, updated_at@)
                &&& forall|f: Seq<char>|
                    #[trigger] reindexed_files(st0, cur).contains(f) ==> stored_record(
                        m1,
                        p,
                        f,
                        cur_cands(scanned(p, Some(root_dir@), files@, old(self).max_file_size))[f],
                        updated_at@,
                    )
                &&& forall|f: Seq<char>|
                    !gone_files(st0, cur).contains(f) && !reindexed_files(st0, cur).contains(f)
                        ==> #[trigger] same_record(m1, m0, p, f)
                &&& (gone_files(st0, cur) == Set::<Seq<char>>::empty() && reindexed_files(st0, cur)
                    == Set::<Seq<char>>::empty()) ==> (m1 == m0 && final(self).store.chunk_records()
                    == old(self).store.chunk_records() && rep.chunks_added == 0 && rep.chunks_deleted == 0)
                &&& forall|f: Seq<char>|
                    #[trigger] gone_files(st0, cur).contains(f) ==> no_chunks_of(
                        final(self).store.chunk_records(),
                        p,
                        f,
                    )
                &&& forall|q: Seq<char>, f: Seq<char>|
                    !(q == p && (gone_files(st0, cur).contains(f) || reindexed_files(st0, cur).contains(f)))
                        ==> #[trigger] of_file(final(self).store.chunk_records(), q, f) == of_file(
                        old(self).store.chunk_records(),
                        q,
                        f,
                    )
                &&& forall|f: Seq<char>|
                    #[trigger] reindexed_files(st0, cur).contains(f) ==> stored_chunks(
                        of_file(final(self).store.chunk_records(), p, f),
                        of_file(old(self).store.chunk_records(), p, f),
                        p,
                        (
                            cur_cands(scanned(p, Some(root_dir@), files@, old(self).max_file_size))[f],
                            live(st0, f),
                        ),
                        old(self).chunk_size as int,
                        old(self).chunk_overlap as int,
                        embedding_of(old(self).embedder),
                    )
            }),
    {
        let ghost m0 = self.store.manifest();
        let ghost c0 = self.store.chunk_records();
        let max = self.max_file_size;
        let ghost cur = cur_hashes(scanned(project_id@, Some(root_dir@), files@, max));
        let mut report = IndexReport::new(project_id);
        report.root_dir = Some(root_dir.clone());
        let current = scan_candidates(project_id, root_dir.as_str(), files, max);
        let existing = self.store.list_files(project_id)?;
        self.mark_gone(project_id, &existing, &current, Ghost(cur), updated_at, &mut report)?;
        let ghost c_mid = self.store.chunk_records();
        let ghost m_mid = self.store.manifest();
        let ghost cands = cur_cands(scanned(project_id@, Some(root_dir@), files@, max));
        self.reindex_scanned(project_id, &existing, &current, Ghost(cur), Ghost(cands), Ghost(m0), updated_at, &mut report)?;
        proof {
            let p = project_id@;
            let st0 = status(m0, p);
            assert forall|f: Seq<char>| #[trigger] reindexed_files(st0, cur).contains(f) implies of_file(c_mid, p, f)
                == of_file(c0, p, f) by {
                assert(!gone_files(st0, cur).contains(f));
            }
            assert forall|f: Seq<char>| changed_files(st0, cur).contains(f) implies held_count(c_mid, p)(f)
                == held_count(c0, p)(f) by {
                assert(!gone_files(st0, cur).contains(f));
                assert(of_file(c_mid, p, f) == of_file(c0, p, f));
            }
            lemma_sum_congr(changed_files(st0, cur), held_count(c_mid, p), held_count(c0, p));
            let m1 = self.store.manifest();
            assert forall|f: Seq<char>| #[trigger] gone_files(st0, cur).contains(f) implies kept_but_stamped(
                m1,
                m0,
                p,
                f,
                updated_at@,
            ) by {
                assert(!reindexed_files(st0, cur).contains(f));
                assert(same_record(m1, m_mid, p, f));
                assert(kept_but_stamped(m_mid, m0, p, f, updated_at@));
            }
            assert forall|f: Seq<char>|
                !gone_files(st0, cur).contains(f) && !reindexed_files(st0, cur).contains(f) implies #[trigger] same_record(
                m1,
                m0,
                p,
                f,
            ) by {
                assert(same_record(m1, m_mid, p, f));
                assert(same_record(m_mid, m0, p, f));
            }
            if gone_files(st0, cur) == Set::<Seq<char>>::empty() && reindexed_files(st0, cur)
                == Set::<Seq<char>>::empty() {
                assert(new_files(st0, cur) =~= Set::<Seq<char>>::empty());
                assert(changed_files(st0, cur) =~= Set::<Seq<char>>::empty());
            }
        }
        Ok(report)
    }

    /// Marks deleted, and strips of their chunks, the live listed files that
    /// the scan does not hold.
    fn mark_gone(
        &mut self,
        project_id: &str,
        existing: &Vec<FileRecord>,
        current: &Vec<FileCandidate>,
        Ghost(cur): Ghost<Map<Seq<char>, Seq<char>>>,
        updated_at: &str,
        report: &mut IndexReport,
    ) -> (r: Result<(), String>)
        requires
            old(self).store.well_formed(),
            lists_project(existing@, old(self).store.manifest(), project_id@),
            holds_scan(current@, cur),
            old(report).deleted_files == 0,
            old(report).chunks_deleted == 0,
        ensures
            final(self).store.well_formed(),
            final(self).chunk_size == old(self).chunk_size,
            final(self).chunk_overlap == old(self).chunk_overlap,
            final(self).max_file_size == old(self).max_file_size,
            final(self).store.reliable() == old(self).store.reliable(),
            final(self).store.counts_deletions() == old(self).store.counts_deletions(),
            final(self).embedder.reliable() == old(self).embedder.reliable(),
            final(self).embedder == old(self).embedder,
            old(self).store.reliable() ==> r is Ok,
            final(report).project_id == old(report).project_id,
            final(report).root_dir == old(report).root_dir,
            final(report).indexed_files == old(report).indexed_files,
            final(report).updated_files == old(report).updated_files,
            final(report).skipped_files == old(report).skipped_files,
            final(report).chunks_added == old(report).chunks_added,
            r is Ok ==> ({
                let p = project_id@;
                let m0 = old(self).store.manifest();
                let st0 = status(m0, p);
                &&& old(self).store.counts_deletions() ==> final(report).chunks_deleted == cap(
                    sum_over(gone_files(st0, cur), held_count(old(self).store.chunk_records(), p)) as int,
                )
                &&& gone_files(st0, cur) == Set::<Seq<char>>::empty() ==> (final(self).store.manifest() == m0
                    && final(self).store.chunk_records() == old(self).store.chunk_records()
                    && final(report).chunks_deleted == old(report).chunks_deleted)
                &&& forall|f: Seq<char>|
                    #[trigger] gone_files(st0, cur).contains(f) ==> kept_but_stamped(
                        final(self).store.manifest(),
                        m0,
                        p,
                        f,
                        updated_at@,
                    )
                &&& forall|f: Seq<char>|
                    !gone_files(st0, cur).contains(f) ==> #[trigger] same_record(
                        final(self).store.manifest(),
                        m0,
                        p,
                        f,
                    )
                &&& status(final(self).store.manifest(), p) == after_marks(st0, cur, st0.dom())
                &&& same_elsewhere(final(self).store.manifest(), m0, p)
                &&& final(report).deleted_files == gone_files(st0, cur).len()
                &&& forall|f: Seq<char>|
                    #[trigger] gone_files(st0, cur).contains(f) ==> no_chunks_of(
                        final(self).store.chunk_records(),
                        p,
                        f,
                    )
                &&& forall|q: Seq<char>, f: Seq<char>|
                    !(q == p && gone_files(st0, cur).contains(f)) ==> #[trigger] of_file(
                        final(self).store.chunk_records(),
                        q,
                        f,
                    ) == of_file(old(self).store.chunk_records(), q, f)
            }),
    {
        let ghost p = project_id@;
        let ghost m0 = self.store.manifest();
        let ghost c_start = self.store.chunk_records();
        let ghost st0 = status(m0, p);
        let ghost ids_e = record_ids(existing@);
        proof {
            lemma_listed_ids(existing@, m0, p);
            assert(after_marks(st0, cur, first_ids(ids_e, 0)) =~= st0);
        }
        let ghost mut marked: Set<Seq<char>> = Set::empty();
        let mut k: usize = 0;
        while k < existing.len()
            invariant
                self.store.well_formed(),
                k <= existing.len(),
                ids_e == record_ids(existing@),
                st0 == status(m0, p),
                p == project_id@,
                holds_scan(current@, cur),
                first_ids(ids_e, existing@.len() as int) == st0.dom(),
                forall|a: int, b: int| 0 <= a < b < existing@.len() ==> ids_e[a] != ids_e[b],
                forall|a: int|
                    0 <= a < existing@.len() ==> st0.contains_key(#[trigger] ids_e[a]) && st0[ids_e[a]]
                        == (existing@[a].file_hash@, existing@[a].is_deleted == Some(true)),
                forall|a: int| 0 <= a < existing@.len() ==> (#[trigger] existing@[a]).project_id@ == p,
                status(self.store.manifest(), p) == after_marks(st0, cur, first_ids(ids_e, k as int)),
                same_elsewhere(self.store.manifest(), m0, p),
                marked.finite(),
                report.deleted_files == marked.len(),
                report.chunks_added == old(report).chunks_added,
                self.store.counts_deletions() ==> report.chunks_deleted == cap(
                    sum_over(marked, held_count(c_start, p)) as int,
                ),
                marked.len() == 0 ==> (self.store.manifest() == m0 && self.store.chunk_records() == c_start
                    && report.chunks_deleted == old(report).chunks_deleted),
                forall|f: Seq<char>|
                    #[trigger] marked.contains(f) ==> kept_but_stamped(self.store.manifest(), m0, p, f, updated_at@),
                forall|f: Seq<char>| !marked.contains(f) ==> #[trigger] same_record(self.store.manifest(), m0, p, f),
                lists_project(existing@, m0, p),
                report.deleted_files <= k,
                forall|f: Seq<char>|
                    #[trigger] marked.contains(f) <==> (first_ids(ids_e, k as int).contains(f) && live(
                        st0,
                        f,
                    ) && !cur.contains_key(f)),
                forall|f: Seq<char>|
                    #[trigger] marked.contains(f) ==> no_chunks_of(self.store.chunk_records(), p, f),
                forall|q: Seq<char>, f: Seq<char>|
                    !(q == p && marked.contains(f)) ==> #[trigger] of_file(self.store.chunk_records(), q, f)
                        == of_file(c_start, q, f),
                self.chunk_size == old(self).chunk_size,
                self.max_file_size == old(self).max_file_size,
                self.chunk_overlap == old(self).chunk_overlap,
                self.store.reliable() == old(self).store.reliable(),
                self.store.counts_deletions() == old(self).store.counts_deletions(),
                self.embedder.reliable() == old(self).embedder.reliable(),
                self.embedder == old(self).embedder,
                report.project_id == old(report).project_id,
                report.root_dir == old(report).root_dir,
                report.indexed_files == old(report).indexed_files,
                report.updated_files == old(report).updated_files,
                report.skipped_files == old(report).skipped_files,
            decreases existing.len() - k,
        {
            let ghost id = ids_e[k as int];
            let ghost done = first_ids(ids_e, k as int);
            let ghost m_before = self.store.manifest();
            proof {
                lemma_first_ids(ids_e, k as int);
                assert(first_ids(ids_e, k + 1) == done.insert(id));
                assert(!done.contains(id)) by {
                    if done.contains(id) {
                        let a = choose|a: int| 0 <= a < k && ids_e[a] == id;
                        assert(ids_e[a] != ids_e[k as int]);
                    }
                }
                assert(existing@[k as int].file_id@ == id);
            }
            let gone = existing[k].is_deleted != Some(true) && position_of_id(
                current,
                existing[k].file_id.as_str(),
            ).is_none();
            if gone {
                proof {
                    assert(!cur.contains_key(id)) by {
                        if cur.contains_key(id) {
                            let j = choose|j: int| 0 <= j < current@.len() && current@[j].file_id@ == id;
                            assert(current@[j].file_id@ != id);
                        }
                    }
                }
                let ghost c_before = self.store.chunk_records();
                let deleted = self.store.delete_by_file(project_id, existing[k].file_id.as_str())?;
                proof {
                    assert(!marked.contains(id));
                    assert(of_file(c_before, p, id) == of_file(c_start, p, id));
                    lemma_sum_insert(marked, held_count(c_start, p), id);
                }
                report.chunks_deleted = report.chunks_deleted.saturating_add(deleted);
                report.deleted_files += 1;
                let mut updated = existing[k].duplicate();
                updated.is_deleted = Some(true);
                updated.updated_at = updated_at.to_owned();
                let ghost rec = updated;
                self.store.upsert_file_manifest(updated)?;
                proof {
                    assert(existing@[k as int].project_id@ == p);
                    assert(rec.file_id@ == id);
                    assert(record_key(existing@[k as int]) == (p, id));
                    assert(m0.contains_key((p, id)) && m0[(p, id)] == existing@[k as int]);
                    assert(!marked.contains(id));
                    assert(same_record(m_before, m0, p, id));
                    assert(m_before.contains_key((p, id)) == m0.contains_key((p, id)));
                    let m_after = self.store.manifest();
                    assert(m_after == m_before.insert((p, id), rec));
                    assert forall|f: Seq<char>| #[trigger] marked.insert(id).contains(f) implies kept_but_stamped(
                        m_after,
                        m0,
                        p,
                        f,
                        updated_at@,
                    ) by {
                        if f != id {
                            assert(marked.contains(f));
                        }
                    }
                    assert forall|f: Seq<char>| !marked.insert(id).contains(f) implies #[trigger] same_record(
                        m_after,
                        m0,
                        p,
                        f,
                    ) by {
                        assert(!marked.contains(f));
                        assert(same_record(m_before, m0, p, f));
                    }
                    lemma_status_insert(m_before, p, rec);
                    lemma_same_elsewhere_trans(self.store.manifest(), m_before, m0, p);
                    assert(after_marks(st0, cur, done.insert(id)) =~= after_marks(st0, cur, done).insert(
                        id,
                        (st0[id].0, true),
                    ));
                    assert forall|f: Seq<char>| #[trigger] marked.insert(id).contains(f) implies no_chunks_of(
                        self.store.chunk_records(),
                        p,
                        f,
                    ) by {
                        if f != id {
                            assert(marked.contains(f));
                        }
                        lemma_no_chunks_after_delete(c_before, p, f, id);
                    }
                    assert forall|q: Seq<char>, f: Seq<char>| !(q == p && marked.insert(id).contains(f)) implies #[trigger] of_file(
                        self.store.chunk_records(),
                        q,
                        f,
                    ) == of_file(c_start, q, f) by {
                        lemma_of_file_without(c_before, p, id, q, f);
                    }
                    assert(!marked.contains(id));
                    marked = marked.insert(id);
                }
            } else {
                proof {
                    if !st0[id].1 {
                        let j = choose|j: int| 0 <= j < current@.len() && current@[j].file_id@ == id;
                        assert(cur.contains_key(current@[j].file_id@));
                    }
                    assert(after_marks(st0, cur, done.insert(id)) =~= after_marks(st0, cur, done));
                }
            }
            k += 1;
        }
        proof {
            assert(marked =~= gone_files(st0, cur));
            if gone_files(st0, cur) == Set::<Seq<char>>::empty() {
                assert(marked.len() == 0);
            }
        }
        Ok(())
    }

    /// Indexes anew the scanned files that were not live or were live with
    /// another content hash.
    fn reindex_scanned(
        &mut self,
        project_id: &str,
        existing: &Vec<FileRecord>,
        current: &Vec<FileCandidate>,
        Ghost(cur): Ghost<Map<Seq<char>, Seq<char>>>,
        Ghost(cands): Ghost<Map<Seq<char>, (Seq<char>, Seq<char>, Seq<char>, Seq<char>)>>,
        Ghost(m0): Ghost<Manifest>,
        updated_at: &str,
        report: &mut IndexReport,
    ) -> (r: Result<(), String>)
        requires
            old(self).store.well_formed(),
            lists_project(existing@, m0, project_id@),
            holds_scan(current@, cur),
            holds_cands(current@, cands),
            status(old(self).store.manifest(), project_id@) == after_marks(
                status(m0, project_id@),
                cur,
                status(m0, project_id@).dom(),
            ),
            same_elsewhere(old(self).store.manifest(), m0, project_id@),
            forall|f: Seq<char>|
                #[trigger] gone_files(status(m0, project_id@), cur).contains(f) ==> no_chunks_of(
                    old(self).store.chunk_records(),
                    project_id@,
                    f,
                ),
            old(report).indexed_files == 0,
            old(report).updated_files == 0,
            old(report).chunks_added == 0,
        ensures
            final(self).store.well_formed(),
            final(self).chunk_size == old(self).chunk_size,
            final(self).chunk_overlap == old(self).chunk_overlap,
            final(self).max_file_size == old(self).max_file_size,
            final(self).store.reliable() == old(self).store.reliable(),
            final(self).store.counts_deletions() == old(self).store.counts_deletions(),
            final(self).embedder.reliable() == old(self).embedder.reliable(),
            embedding_of(final(self).embedder) == embedding_of(old(self).embedder),
            old(self).store.reliable() && old(self).embedder.reliable() ==> r is Ok,
            final(report).project_id == old(report).project_id,
            final(report).root_dir == old(report).root_dir,
            final(report).deleted_files == old(report).deleted_files,
            final(report).skipped_files == old(report).skipped_files,
            r is Ok ==> ({
                let p = project_id@;
                let st0 = status(m0, p);
                let ga = built_count(cands, old(self).chunk_size as int, old(self).chunk_overlap as int);
                &&& final(report).chunks_added == cap(
                    (sum_over(new_files(st0, cur), ga) + sum_over(changed_files(st0, cur), ga)) as int,
                )
                &&& old(self).store.counts_deletions() ==> final(report).chunks_deleted == sat_add(
                    old(report).chunks_deleted as int,
                    sum_over(changed_files(st0, cur), held_count(old(self).store.chunk_records(), p)) as int,
                )
                &&& forall|f: Seq<char>|
                    #[trigger] reindexed_files(st0, cur).contains(f) ==> stored_record(
                        final(self).store.manifest(),
                        p,
                        f,
                        cands[f],
                        updated_at@,
                    )
                &&& forall|f: Seq<char>|
                    !reindexed_files(st0, cur).contains(f) ==> #[trigger] same_record(
                        final(self).store.manifest(),
                        old(self).store.manifest(),
                        p,
                        f,
                    )
                &&& reindexed_files(st0, cur) == Set::<Seq<char>>::empty() ==> (final(self).store.manifest()
                    == old(self).store.manifest() && final(self).store.chunk_records()
                    == old(self).store.chunk_records() && final(report).chunks_deleted
                    == old(report).chunks_deleted)
                &&& status(final(self).store.manifest(), p) == sync_status(st0, cur)
                &&& same_elsewhere(final(self).store.manifest(), m0, p)
                &&& final(report).indexed_files == new_files(st0, cur).len()
                &&& final(report).updated_files == changed_files(st0, cur).len()
                &&& forall|f: Seq<char>|
                    #[trigger] gone_files(st0, cur).contains(f) ==> no_chunks_of(
                        final(self).store.chunk_records(),
                        p,
                        f,
                    )
                &&& forall|q: Seq<char>, f: Seq<char>|
                    !(q == p && reindexed_files(st0, cur).contains(f)) ==> #[trigger] of_file(
                        final(self).store.chunk_records(),
                        q,
                        f,
                    ) == of_file(old(self).store.chunk_records(), q, f)
                &&& forall|f: Seq<char>|
                    #[trigger] reindexed_files(st0, cur).contains(f) ==> stored_chunks(
                        of_file(final(self).store.chunk_records(), p, f),
                        of_file(old(self).store.chunk_records(), p, f),
                        p,
                        (cands[f], live(st0, f)),
                        old(self).chunk_size as int,
                        old(self).chunk_overlap as int,
                        embedding_of(old(self).embedder),
                    )
            }),
    {
        let ghost p = project_id@;
        let ghost st0 = status(m0, p);
        let ghost c_in = self.store.chunk_records();
        let ghost size0 = self.chunk_size as int;
        let ghost overlap0 = self.chunk_overlap as int;
        let ghost ids_e = record_ids(existing@);
        let ghost cids = candidate_ids(current@);
        let ghost mid = after_marks(st0, cur, st0.dom());
        let ghost emb0 = embedding_of(self.embedder);
        proof {
            lemma_listed_ids(existing@, m0, p);
            lemma_first_ids(ids_e, existing@.len() as int);
            assert forall|f: Seq<char>| #[trigger] st0.contains_key(f) implies exists|a: int|
                0 <= a < existing@.len() && ids_e[a] == f by {
                assert(st0.dom().contains(f));
                assert(first_ids(ids_e, existing@.len() as int).contains(f));
            }
            assert(after_scan(mid, cur, first_ids(cids, 0)) =~= mid);
        }
        let ghost mut new_set: Set<Seq<char>> = Set::empty();
        let ghost mut changed_set: Set<Seq<char>> = Set::empty();
        let mut k: usize = 0;
        while k < current.len()
            invariant
                self.store.well_formed(),
                k <= current.len(),
                p == project_id@,
                ids_e == record_ids(existing@),
                cids == candidate_ids(current@),
                st0 == status(m0, p),
                holds_scan(current@, cur),
                mid == after_marks(st0, cur, st0.dom()),
                forall|a: int|
                    0 <= a < existing@.len() ==> st0.contains_key(#[trigger] ids_e[a]) && st0[ids_e[a]]
                        == (existing@[a].file_hash@, existing@[a].is_deleted == Some(true)),
                forall|f: Seq<char>|
                    #[trigger] st0.contains_key(f) ==> exists|a: int|
                        0 <= a < existing@.len() && ids_e[a] == f,
                status(self.store.manifest(), p) == after_scan(mid, cur, first_ids(cids, k as int)),
                same_elsewhere(self.store.manifest(), m0, p),
                forall|f: Seq<char>|
                    #[trigger] gone_files(st0, cur).contains(f) ==> no_chunks_of(
                        self.store.chunk_records(),
                        p,
                        f,
                    ),
                new_set.finite(),
                changed_set.finite(),
                report.indexed_files == new_set.len(),
                report.updated_files == changed_set.len(),
                report.indexed_files + report.updated_files <= k,
                forall|f: Seq<char>|
                    #[trigger] new_set.contains(f) <==> (first_ids(cids, k as int).contains(f) && !live(
                        st0,
                        f,
                    )),
                forall|f: Seq<char>|
                    #[trigger] changed_set.contains(f) <==> (first_ids(cids, k as int).contains(f)
                        && live(st0, f) && st0[f].0 != cur[f]),
                holds_cands(current@, cands),
                self.chunk_size as int == size0,
                self.chunk_overlap as int == overlap0,
                size0 == old(self).chunk_size as int,
                overlap0 == old(self).chunk_overlap as int,
                self.max_file_size == old(self).max_file_size,
                self.store.reliable() == old(self).store.reliable(),
                self.store.counts_deletions() == old(self).store.counts_deletions(),
                self.embedder.reliable() == old(self).embedder.reliable(),
                embedding_of(self.embedder) == emb0,
                emb0 == embedding_of(old(self).embedder),
                forall|q: Seq<char>, f: Seq<char>|
                    !(q == p && (new_set.contains(f) || changed_set.contains(f))) ==> #[trigger] of_file(
                        self.store.chunk_records(),
                        q,
                        f,
                    ) == of_file(c_in, q, f),
                forall|f: Seq<char>|
                    new_set.contains(f) || changed_set.contains(f) ==> stored_chunks(
                        #[trigger] of_file(self.store.chunk_records(), p, f),
                        of_file(c_in, p, f),
                        p,
                        (cands[f], live(st0, f)),
                        size0,
                        overlap0,
                        emb0,
                    ),
                report.project_id == old(report).project_id,
                report.root_dir == old(report).root_dir,
                report.deleted_files == old(report).deleted_files,
                report.skipped_files == old(report).skipped_files,
                c_in == old(self).store.chunk_records(),
                report.chunks_added == cap(
                    (sum_over(new_set, built_count(cands, size0, overlap0)) + sum_over(
                        changed_set,
                        built_count(cands, size0, overlap0),
                    )) as int,
                ),
                self.store.counts_deletions() ==> report.chunks_deleted == sat_add(
                    old(report).chunks_deleted as int,
                    sum_over(changed_set, held_count(c_in, p)) as int,
                ),
                new_set.len() == 0 && changed_set.len() == 0 ==> (self.store.manifest()
                    == old(self).store.manifest() && self.store.chunk_records() == c_in
                    && report.chunks_deleted == old(report).chunks_deleted),
                forall|f: Seq<char>|
                    new_set.contains(f) || changed_set.contains(f) ==> #[trigger] stored_record(
                        self.store.manifest(),
                        p,
                        f,
                        cands[f],
                        updated_at@,
                    ),
                forall|f: Seq<char>|
                    !(new_set.contains(f) || changed_set.contains(f)) ==> #[trigger] same_record(
                        self.store.manifest(),
                        old(self).store.manifest(),
                        p,
                        f,
                    ),
            decreases current.len() - k,
        {
            let ghost id = cids[k as int];
            let ghost done = first_ids(cids, k as int);
            let ghost m_before = self.store.manifest();
            let ghost c_before = self.store.chunk_records();
            proof {
                lemma_first_ids(cids, k as int);
                assert(first_ids(cids, k + 1) == done.insert(id));
                assert(!done.contains(id)) by {
                    if done.contains(id) {
                        let a = choose|a: int| 0 <= a < k && cids[a] == id;
                        assert(current@[a].file_id@ != current@[k as int].file_id@);
                    }
                }
                assert(current@[k as int].file_id@ == id);
                assert(cur.contains_key(id) && cur[id] == current@[k as int].file_hash@);
            }
            let found = find_live(existing, current[k].file_id.as_str());
            proof {
                match found {
                    Some(j) => {
                        assert(ids_e[j as int] == id);
                    },
                    None => {
                        if live(st0, id) {
                            let a = choose|a: int| 0 <= a < existing@.len() && ids_e[a] == id;
                            assert(st0[ids_e[a]].1 == (existing@[a].is_deleted == Some(true)));
                        }
                    },
                }
            }
            let should_index = match found {
                None => true,
                Some(j) => !str_eq(existing[j].file_hash.as_str(), current[k].file_hash.as_str()),
            };
            if should_index {
                let ghost cv = cand_view(current@[k as int]);
                let ghost had = found is Some;
                proof {
                    if let Some(j) = found {
                        assert(st0[ids_e[j as int]].1 == (existing@[j as int].is_deleted == Some(true)));
                    }
                    assert(had == live(st0, id));
                    assert(cands[id] == cv);
                    assert(!new_set.contains(id) && !changed_set.contains(id));
                }
                self.store_candidate(project_id, &current[k], found.is_some(), updated_at, report)?;
                proof {
                    lemma_store_chunks(c_before, self.store.chunk_records(), p, cv, had, size0, overlap0, emb0);
                    assert(of_file(c_before, p, id) == of_file(c_in, p, id));
                    let c1 = self.store.chunk_records();
                    let kept = if had {
                        without_file(c_before, p, id)
                    } else {
                        c_before
                    };
                    assert(c1.skip(kept.len() as int).len() == c1.len() - kept.len());
                    assert(built_count(cands, size0, overlap0)(id) == c1.len() - kept.len());
                    if had {
                        lemma_of_file_split(c_before, p, id);
                        assert(held_count(c_in, p)(id) == c_before.len() - kept.len());
                    }
                    let m_after = self.store.manifest();
                    assert(m_after == m_before.insert((p, id), m_after[(p, id)]));
                    assert(status(m_after, p)[id] == (cv.2, false));
                    assert(stored_record(m_after, p, id, cands[id], updated_at@));
                    assert forall|f: Seq<char>|
                        new_set.insert(id).contains(f) || changed_set.insert(id).contains(f) implies #[trigger] stored_record(
                        m_after,
                        p,
                        f,
                        cands[f],
                        updated_at@,
                    ) by {
                        if f != id {
                            assert(new_set.contains(f) || changed_set.contains(f));
                            assert(stored_record(m_before, p, f, cands[f], updated_at@));
                        }
                    }
                    assert forall|f: Seq<char>|
                        !(new_set.insert(id).contains(f) || changed_set.insert(id).contains(f)) implies #[trigger] same_record(
                        m_after,
                        old(self).store.manifest(),
                        p,
                        f,
                    ) by {
                        assert(!(new_set.contains(f) || changed_set.contains(f)));
                        assert(same_record(m_before, old(self).store.manifest(), p, f));
                    }
                    lemma_sum_insert(new_set, built_count(cands, size0, overlap0), id);
                    lemma_sum_insert(changed_set, built_count(cands, size0, overlap0), id);
                    lemma_sum_insert(changed_set, held_count(c_in, p), id);
                    lemma_same_elsewhere_trans(self.store.manifest(), m_before, m0, p);
                    assert(after_scan(mid, cur, done.insert(id)) =~= after_scan(mid, cur, done).insert(
                        id,
                        (cur[id], false),
                    ));
                    assert forall|f: Seq<char>| #[trigger] gone_files(st0, cur).contains(f) implies no_chunks_of(
                        self.store.chunk_records(),
                        p,
                        f,
                    ) by {
                        assert(f != id);
                        assert(no_chunks_of(c_before, p, f));
                    }
                    if found is Some {
                        assert(!changed_set.contains(id));
                        changed_set = changed_set.insert(id);
                    } else {
                        assert(!new_set.contains(id));
                        new_set = new_set.insert(id);
                    }
                }
            } else {
                proof {
                    assert(after_scan(mid, cur, done.insert(id)) =~= after_scan(mid, cur, done));
                }
            }
            k += 1;
        }
        proof {
            lemma_first_ids(cids, cids.len() as int);
            assert forall|f: Seq<char>| #[trigger] first_ids(cids, cids.len() as int).contains(f)
                <==> cur.contains_key(f) by {
                if cur.contains_key(f) {
                    let j = choose|j: int| 0 <= j < current@.len() && current@[j].file_id@ == f;
                    assert(cids[j] == f);
                }
                if first_ids(cids, cids.len() as int).contains(f) {
                    let j = choose|j: int| 0 <= j < cids.len() && cids[j] == f;
                    assert(cur.contains_key(current@[j].file_id@));
                }
            }
            lemma_sync_result(st0, cur, cids);
            assert(new_set =~= new_files(st0, cur));
            assert(changed_set =~= changed_files(st0, cur));
            if reindexed_files(st0, cur) == Set::<Seq<char>>::empty() {
                assert(new_set =~= Set::<Seq<char>>::empty());
                assert(changed_set =~= Set::<Seq<char>>::empty());
            }
            assert forall|f: Seq<char>| #[trigger] reindexed_files(st0, cur).contains(f) <==> (new_set.contains(f)
                || changed_set.contains(f)) by {
                assert(new_files(st0, cur).contains(f) == new_set.contains(f));
                assert(changed_files(st0, cur).contains(f) == changed_set.contains(f));
            }
        }
        Ok(())
    }
}

/// The ids of the files that a remove request names: the given ids, then
/// the ids of the given paths, taken relative to the project root.
pub open spec fn remove_ids(
    p: Seq<char>,
    root: Option<Seq<char>>,
    paths: Option<Seq<String>>,
    ids: Option<Seq<String>>,
) -> Seq<Seq<char>> {
    let given = match ids {
        Some(v) => v.map_values(|s: String| s@),
        None => seq![],
    };
    let r = match root {
        Some(r) => r,
        None => seq![],
    };
    let from_paths = match paths {
        Some(v) => v.map_values(|s: String| file_id_of(p, relative_key(r, s@))),
        None => seq![],
    };
    given + from_paths
}

/// The items of an optional list.
pub open spec fn opt_seq(o: Option<Vec<String>>) -> Option<Seq<String>> {
    match o {
        Some(v) => Some(v@),
        None => None,
    }
}

/// The state of the files with those in `gone` marked deleted.
pub open spec fn mark_deleted(st: Map<Seq<char>, (Seq<char>, bool)>, gone: Set<Seq<char>>) -> Map<
    Seq<char>,
    (Seq<char>, bool),
> {
    Map::new(
        |f: Seq<char>| st.contains_key(f),
        |f: Seq<char>| if gone.contains(f) {
            (st[f].0, true)
        } else {
            st[f]
        },
    )
}

impl<S: RagManifestStore, E: Embedder> RagService<S, E> {
    /// Takes files out of the index of a project: those with the given ids,
    /// and those at the given paths under the project root. Each loses its
    /// chunks and, when it has a manifest entry, is marked deleted; each
    /// counts as deleted, and each entry marked is stamped `updated_at`.
    /// Paths without a project root are refused with "project root not set",
    /// before anything is changed.
    pub fn index_remove_files(
        &mut self,
        project_id: &str,
        root_dir: Option<String>,
        file_paths: Option<Vec<String>>,
        file_ids: Option<Vec<String>>,
        updated_at: &str,
    ) -> (r: Result<IndexReport, String>)
        requires
            old(self).store.well_formed(),
        ensures
            final(self).store.well_formed(),
            final(self).chunk_size == old(self).chunk_size,
            final(self).chunk_overlap == old(self).chunk_overlap,
            final(self).max_file_size == old(self).max_file_size,
            final(self).store.reliable() == old(self).store.reliable(),
            final(self).store.counts_deletions() == old(self).store.counts_deletions(),
            final(self).embedder == old(self).embedder,
            (file_paths is Some && root_dir is None) ==> (r matches Err(e) && e@
                == "project root not set"@ && final(self).store == old(self).store),
            old(self).store.reliable() && !(file_paths is Some && root_dir is None) ==> r is Ok,
            r matches Ok(rep) ==> ({
                let p = project_id@;
                let m0 = old(self).store.manifest();
                let m1 = final(self).store.manifest();
                let ids = remove_ids(p, opt_string_view(root_dir), opt_seq(file_paths), opt_seq(file_ids));
                &&& rep.project_id@ == p
                &&& rep.root_dir is None
                &&& rep.deleted_files == ids.len()
                &&& rep.indexed_files == 0
                &&& rep.updated_files == 0
                &&& rep.skipped_files@.len() == 0
                &&& rep.chunks_added == 0
                &&& old(self).store.counts_deletions() ==> rep.chunks_deleted == cap(
                    old(self).store.chunk_records().len() - final(self).store.chunk_records().len(),
                )
                &&& forall|i: int|
                    0 <= i < ids.len() && #[trigger] m0.contains_key((p, ids[i])) ==> m1[(p, ids[i])].updated_at@
                        == updated_at@
                &&& status(m1, p) == mark_deleted(status(m0, p), ids.to_set())
                &&& same_elsewhere(m1, m0, p)
                &&& forall|i: int|
                    0 <= i < ids.len() ==> no_chunks_of(
                        final(self).store.chunk_records(),
                        p,
                        #[trigger] ids[i],
                    )
                &&& forall|q: Seq<char>, f: Seq<char>|
                    !(q == p && ids.contains(f)) ==> #[trigger] of_file(final(self).store.chunk_records(), q, f)
                        == of_file(old(self).store.chunk_records(), q, f)
            }),
    {
        let ghost p = project_id@;
        let ghost m0 = self.store.manifest();
        let ghost c0 = self.store.chunk_records();
        let ghost st0 = status(m0, p);
        let ghost paths_v = opt_seq(file_paths);
        let ghost ids_in = opt_seq(file_ids);
        let ghost root_v = opt_string_view(root_dir);
        let ghost target = remove_ids(p, root_v, paths_v, ids_in);
        let mut report = IndexReport::new(project_id);
        let mut ids: Vec<String> = match file_ids {
            Some(v) => v,
            None => Vec::new(),
        };
        let ghost given = ids@.map_values(|s: String| s@);
        assert(given == match ids_in {
            Some(v) => v.map_values(|s: String| s@),
            None => seq![],
        }) by {
            if ids_in is None {
                assert(given =~= Seq::<Seq<char>>::empty());
            }
        }
        let ghost root_ok = !(file_paths is Some && root_dir is None);
        if let Some(paths) = file_paths {
            let root = match root_dir {
                Some(r) => r,
                None => {
                    return Err("project root not set".to_owned());
                },
            };
            let ghost base = ids@;
            let mut j: usize = 0;
            while j < paths.len()
                invariant
                    j <= paths.len(),
                    ids@.len() == base.len() + j,
                    forall|a: int| 0 <= a < base.len() ==> ids@[a] == base[a],
                    forall|a: int|
                        0 <= a < j ==> (#[trigger] ids@[base.len() + a])@ == file_id_of(
                            project_id@,
                            relative_key(root@, paths@[a]@),
                        ),
                decreases paths.len() - j,
            {
                let relative = normalize_relative_path(root.as_str(), paths[j].as_str());
                let with_colon = concat_str(project_id, ":");
                let id_text = concat_str(with_colon.as_str(), relative.as_str());
                ids.push(hash_str(id_text.as_str()));
                j += 1;
            }
            proof {
                let lhs = ids@.map_values(|s: String| s@);
                assert(root_v == Some(root@));
                assert(paths_v == Some(paths@));
                assert forall|a: int| 0 <= a < lhs.len() implies lhs[a] == target[a] by {
                    if a < base.len() {
                        assert(lhs[a] == given[a]);
                    } else {
                        assert(lhs[a] == ids@[base.len() + (a - base.len())]@);
                    }
                }
                assert(lhs =~= target);
            }
        } else {
            proof {
                assert(given + Seq::<Seq<char>>::empty() =~= given);
                assert(ids@.map_values(|s: String| s@) =~= target);
            }
        }
        let ghost idsv = ids@.map_values(|s: String| s@);
        proof {
            assert(mark_deleted(st0, first_ids(idsv, 0)) =~= st0);
        }
        let mut k: usize = 0;
        while k < ids.len()
            invariant
                self.store.well_formed(),
                k <= ids.len(),
                p == project_id@,
                root_ok,
                root_ok == !(file_paths is Some && root_dir is None),
                st0 == status(m0, p),
                idsv == ids@.map_values(|s: String| s@),
                status(self.store.manifest(), p) == mark_deleted(st0, first_ids(idsv, k as int)),
                same_elsewhere(self.store.manifest(), m0, p),
                forall|f: Seq<char>|
                    #[trigger] first_ids(idsv, k as int).contains(f) ==> no_chunks_of(
                        self.store.chunk_records(),
                        p,
                        f,
                    ),
                forall|q: Seq<char>, f: Seq<char>|
                    !(q == p && first_ids(idsv, k as int).contains(f)) ==> #[trigger] of_file(
                        self.store.chunk_records(),
                        q,
                        f,
                    ) == of_file(c0, q, f),
                report.project_id@ == p,
                report.root_dir is None,
                report.deleted_files == k,
                report.indexed_files == 0,
                report.updated_files == 0,
                report.skipped_files@.len() == 0,
                report.chunks_added == 0,
                self.store.reliable() == old(self).store.reliable(),
                self.store.counts_deletions() == old(self).store.counts_deletions(),
                self.embedder == old(self).embedder,
                self.chunk_size == old(self).chunk_size,
                self.chunk_overlap == old(self).chunk_overlap,
                self.max_file_size == old(self).max_file_size,
                self.store.chunk_records().len() <= c0.len(),
                self.store.counts_deletions() ==> report.chunks_deleted == cap(
                    c0.len() - self.store.chunk_records().len(),
                ),
                forall|a: int|
                    0 <= a < k && #[trigger] m0.contains_key((p, idsv[a])) ==> self.store.manifest()[(
                        p,
                        idsv[a],
                    )].updated_at@ == updated_at@,
            decreases ids.len() - k,
        {
            let ghost id = idsv[k as int];
            let ghost done = first_ids(idsv, k as int);
            let ghost m_before = self.store.manifest();
            let ghost c_before = self.store.chunk_records();
            assert(ids@[k as int]@ == id);
            let deleted = self.store.delete_by_file(project_id, ids[k].as_str())?;
            proof {
                lemma_of_file_split(c_before, p, id);
            }
            report.chunks_deleted = report.chunks_deleted.saturating_add(deleted);
            report.deleted_files += 1;
            proof {
                assert(first_ids(idsv, k + 1) == done.insert(id));
                assert forall|f: Seq<char>| #[trigger] done.insert(id).contains(f) implies no_chunks_of(
                    self.store.chunk_records(),
                    p,
                    f,
                ) by {
                    if f != id {
                        assert(done.contains(f));
                    }
                    lemma_no_chunks_after_delete(c_before, p, f, id);
                }
                assert forall|q: Seq<char>, f: Seq<char>|
                    !(q == p && done.insert(id).contains(f)) implies #[trigger] of_file(
                    self.store.chunk_records(),
                    q,
                    f,
                ) == of_file(c0, q, f) by {
                    lemma_of_file_without(c_before, p, id, q, f);
                }
            }
            let found = self.store.get_file_manifest(project_id, ids[k].as_str())?;
            match found {
                Some(record) => {
                    let mut updated = record;
                    updated.is_deleted = Some(true);
                    updated.updated_at = updated_at.to_owned();
                    let ghost rec = updated;
                    self.store.upsert_file_manifest(updated)?;
                    proof {
                        assert(rec.project_id@ == p && rec.file_id@ == id);
                        lemma_status_insert(m_before, p, rec);
                        lemma_same_elsewhere_trans(self.store.manifest(), m_before, m0, p);
                        assert(status(m_before, p).contains_key(id));
                        assert(status(m_before, p)[id].0 == m_before[(p, id)].file_hash@);
                        assert(mark_deleted(st0, done)[id].0 == st0[id].0);
                        assert(rec.file_hash@ == st0[id].0);
                        assert(status(self.store.manifest(), p) == status(m_before, p).insert(id, (rec.file_hash@, true)));
                        assert(mark_deleted(st0, done.insert(id)) =~= mark_deleted(st0, done).insert(
                            id,
                            (st0[id].0, true),
                        ));
                    }
                },
                None => {
                    proof {
                        assert(!status(m_before, p).contains_key(id));
                        assert(mark_deleted(st0, done.insert(id)) =~= mark_deleted(st0, done));
                    }
                },
            }
            k += 1;
        }
        proof {
            lemma_first_ids(idsv, idsv.len() as int);
            assert(first_ids(idsv, idsv.len() as int) =~= idsv.to_set());
            assert forall|i: int| 0 <= i < idsv.len() implies no_chunks_of(
                self.store.chunk_records(),
                p,
                #[trigger] idsv[i],
            ) by {
                assert(first_ids(idsv, idsv.len() as int).contains(idsv[i]));
            }
            assert forall|q: Seq<char>, f: Seq<char>| !(q == p && idsv.contains(f)) implies #[trigger] of_file(
                self.store.chunk_records(),
                q,
                f,
            ) == of_file(c0, q, f) by {
                if q == p && first_ids(idsv, idsv.len() as int).contains(f) {
                    assert(idsv.to_set().contains(f));
                }
            }
        }
        Ok(report)
    }
}

} // verus!

//! The list of indexed projects: each project's id, display name, root
//! directory and time of last change.
use crate::hashing::{hash_hex, hash_project_id};
use crate::path::{file_name, file_name_of};
use crate::text::{
    text_less, text_lt, lemma_text_lt_total, lemma_text_lt_trans, all_ws, chars_of, is_blank, lowercase, replace_all, replace_str, str_eq, string_from_range,
    to_lowercase, trim, trim_str,
};
use crate::types::RagProject;
use vstd::prelude::*;
use vstd::utf8::encode_utf8;

verus! {

broadcast use vstd::seq_lib::group_seq_properties;

/// One registered project.
#[derive(Debug)]
pub struct ProjectEntry {
    pub project_id: String,
    pub project_name: Option<String>,
    pub root_dir: String,
    pub updated_at: String,
}

/// All registered projects, in the order they were registered.
#[derive(Debug)]
pub struct ProjectsIndex {
    pub projects: Vec<ProjectEntry>,
}

/// A project entry as plain values.
pub open spec fn entry_view(e: ProjectEntry) -> (Seq<char>, Option<Seq<char>>, Seq<char>, Seq<char>) {
    (
        e.project_id@,
        match e.project_name {
            Some(n) => Some(n@),
            None => None,
        },
        e.root_dir@,
        e.updated_at@,
    )
}

/// The entries of an index as plain values.
pub open spec fn entries_view(v: Seq<ProjectEntry>) -> Seq<
    (Seq<char>, Option<Seq<char>>, Seq<char>, Seq<char>),
> {
    v.map_values(|e: ProjectEntry| entry_view(e))
}

/// A name that is missing or blank.
pub open spec fn name_blank(n: Option<Seq<char>>) -> bool {
    match n {
        Some(s) => all_ws(s),
        None => true,
    }
}

/// The display name of a project: the given name trimmed, else the last
/// component of its root directory when that is not blank, else the
/// fallback.
pub open spec fn name_of(input: Seq<char>, root: Seq<char>, fallback: Seq<char>) -> Seq<char> {
    if trim(input).len() > 0 {
        trim(input)
    } else {
        match file_name_of(root) {
            Some(n) => if all_ws(n) {
                fallback
            } else {
                n
            },
            None => fallback,
        }
    }
}

/// `s` without the `/` characters that end it.
pub open spec fn drop_trailing_slashes(s: Seq<char>) -> Seq<char>
    decreases s.len(),
{
    if s.len() > 0 && s.last() == '/' {
        drop_trailing_slashes(s.drop_last())
    } else {
        s
    }
}

/// The form in which two root directories are compared: `/` separators,
/// trimmed, no trailing `/`, lower-cased.
pub open spec fn root_key(root: Seq<char>) -> Seq<char> {
    lowercase(drop_trailing_slashes(trim(replace_all(root, "\\"@, "/"@))))
}

/// The id of the project with the given root directory.
pub open spec fn project_id_of(root: Seq<char>) -> Seq<char> {
    "proj_"@ + hash_hex(encode_utf8(root_key(root)))
}

/// An entry with its name filled in when it is blank.
pub open spec fn normalized(
    e: (Seq<char>, Option<Seq<char>>, Seq<char>, Seq<char>),
) -> (Seq<char>, Option<Seq<char>>, Seq<char>, Seq<char>) {
    if name_blank(e.1) {
        (e.0, Some(name_of(seq![], e.2, e.0)), e.2, e.3)
    } else {
        e
    }
}

/// The root directory of the first entry with the given id.
pub open spec fn root_of(v: Seq<(Seq<char>, Option<Seq<char>>, Seq<char>, Seq<char>)>, id: Seq<char>) -> Option<
    Seq<char>,
>
    decreases v.len(),
{
    if v.len() == 0 {
        None
    } else if v[0].0 == id {
        Some(v[0].2)
    } else {
        root_of(v.drop_first(), id)
    }
}

/// The user-facing form of an entry.
pub open spec fn dto_of(e: (Seq<char>, Option<Seq<char>>, Seq<char>, Seq<char>)) -> (
    Seq<char>,
    Seq<char>,
    Seq<char>,
    Seq<char>,
) {
    (
        e.0,
        name_of(
            match e.1 {
                Some(n) => n,
                None => seq![],
            },
            e.2,
            e.0,
        ),
        e.2,
        e.3,
    )
}

/// A project as plain values.
pub open spec fn project_view(p: RagProject) -> (Seq<char>, Seq<char>, Seq<char>, Seq<char>) {
    (p.project_id@, p.project_name@, p.root_dir@, p.updated_at@)
}

proof fn lemma_root_of_first(v: Seq<(Seq<char>, Option<Seq<char>>, Seq<char>, Seq<char>)>, id: Seq<char>, i: int)
    requires
        0 <= i < v.len(),
        v[i].0 == id,
        forall|j: int| 0 <= j < i ==> v[j].0 != id,
    ensures
        root_of(v, id) == Some(v[i].2),
    decreases i,
{
    if i > 0 {
        assert forall|j: int| 0 <= j < i - 1 implies v.drop_first()[j].0 != id by {
            assert(v.drop_first()[j] == v[j + 1]);
        }
        lemma_root_of_first(v.drop_first(), id, i - 1);
    }
}

proof fn lemma_root_of_none(v: Seq<(Seq<char>, Option<Seq<char>>, Seq<char>, Seq<char>)>, id: Seq<char>)
    requires
        forall|j: int| 0 <= j < v.len() ==> v[j].0 != id,
    ensures
        root_of(v, id) is None,
    decreases v.len(),
{
    if v.len() > 0 {
        assert forall|j: int| 0 <= j < v.len() - 1 implies v.drop_first()[j].0 != id by {
            assert(v.drop_first()[j] == v[j + 1]);
        }
        lemma_root_of_none(v.drop_first(), id);
    }
}

/// The display name of a project (see `name_of`).
pub fn resolve_project_name(input: &str, root_dir: &str, fallback: &str) -> (r: String)
    ensures
        r@ == name_of(input@, root_dir@, fallback@),
{
    if !is_blank(input) {
        return trim_str(input);
    }
    match file_name(root_dir) {
        Some(n) => {
            if is_blank(n.as_str()) {
                fallback.to_owned()
            } else {
                n
            }
        },
        None => fallback.to_owned(),
    }
}

/// The form in which root directories are compared (see `root_key`).
pub fn normalize_root_dir(root_dir: &str) -> (r: String)
    ensures
        r@ == root_key(root_dir@),
{
    proof {
        reveal_strlit("\\");
        reveal_strlit("/");
    }
    let replaced = replace_str(root_dir, "\\", "/");
    let trimmed = trim_str(replaced.as_str());
    let chars = chars_of(trimmed.as_str());
    let mut end = chars.len();
    proof {
        assert(chars@.subrange(0, end as int) =~= chars@);
    }
    while end > 0 && chars[end - 1] == '/'
        invariant
            end <= chars.len(),
            drop_trailing_slashes(chars@) == drop_trailing_slashes(chars@.subrange(0, end as int)),
        decreases end,
    {
        proof {
            assert(chars@.subrange(0, end as int).drop_last() =~= chars@.subrange(0, end - 1));
        }
        end -= 1;
    }
    let kept = string_from_range(&chars, 0, end);
    to_lowercase(kept.as_str())
}

impl ProjectEntry {
    /// A copy of the entry.
    pub fn duplicate(&self) -> (r: ProjectEntry)
        ensures
            entry_view(r) == entry_view(*self),
    {
        ProjectEntry {
            project_id: self.project_id.clone(),
            project_name: match &self.project_name {
                Some(n) => Some(n.clone()),
                None => None,
            },
            root_dir: self.root_dir.clone(),
            updated_at: self.updated_at.clone(),
        }
    }
}

/// Whether a name is missing or blank.
fn project_name_blank(n: &Option<String>) -> (r: bool)
    ensures
        r == name_blank(
            match n {
                Some(s) => Some(s@),
                None => None,
            },
        ),
{
    match n {
        Some(s) => is_blank(s.as_str()),
        None => true,
    }
}

/// The user-facing form of an entry: its name resolved (see `dto_of`).
pub fn to_project_dto(entry: &ProjectEntry) -> (r: RagProject)
    ensures
        project_view(r) == dto_of(entry_view(*entry)),
{
    let name = match &entry.project_name {
        Some(n) => resolve_project_name(n.as_str(), entry.root_dir.as_str(), entry.project_id.as_str()),
        None => resolve_project_name("", entry.root_dir.as_str(), entry.project_id.as_str()),
    };
    proof {
        reveal_strlit("");
    }
    RagProject {
        project_id: entry.project_id.clone(),
        project_name: name,
        root_dir: entry.root_dir.clone(),
        updated_at: entry.updated_at.clone(),
    }
}

/// Fills in the name of every entry whose name is missing or blank.
pub fn normalize_projects(index: &mut ProjectsIndex)
    ensures
        entries_view(final(index).projects@) == entries_view(old(index).projects@).map_values(
            |e: (Seq<char>, Option<Seq<char>>, Seq<char>, Seq<char>)| normalized(e),
        ),
{
    let ghost before = entries_view(index.projects@);
    let n = index.projects.len();
    let mut i: usize = 0;
    proof {
        reveal_strlit("");
    }
    while i < n
        invariant
            n == index.projects.len(),
            i <= n,
            before.len() == n,
            forall|j: int| 0 <= j < i ==> entry_view(#[trigger] index.projects@[j]) == normalized(before[j]),
            forall|j: int| i <= j < n ==> entry_view(#[trigger] index.projects@[j]) == before[j],
        decreases n - i,
    {
        proof {
            reveal_strlit("");
            assert(before[i as int] == entry_view(index.projects@[i as int]));
        }
        if project_name_blank(&index.projects[i].project_name) {
            let name = resolve_project_name(
                "",
                index.projects[i].root_dir.as_str(),
                index.projects[i].project_id.as_str(),
            );
            let mut entry = index.projects[i].duplicate();
            entry.project_name = Some(name);
            index.projects.set(i, entry);
        }
        i += 1;
    }
    proof {
        assert(entries_view(index.projects@) =~= before.map_values(
            |e: (Seq<char>, Option<Seq<char>>, Seq<char>, Seq<char>)| normalized(e),
        ));
    }
}

/// Filling in names a second time changes nothing.
pub proof fn normalize_is_idempotent(e: (Seq<char>, Option<Seq<char>>, Seq<char>, Seq<char>))
    ensures
        normalized(normalized(e)) == normalized(e),
{
}

/// The position of the first entry with the given id, if any.
fn position_of_project(index: &ProjectsIndex, project_id: &str) -> (r: Option<usize>)
    ensures
        match r {
            Some(i) => i < index.projects.len() && index.projects@[i as int].project_id@
                == project_id@ && forall|j: int|
                0 <= j < i ==> (#[trigger] index.projects@[j]).project_id@ != project_id@,
            None => forall|j: int|
                0 <= j < index.projects.len() ==> (#[trigger] index.projects@[j]).project_id@
                    != project_id@,
        },
{
    let mut i: usize = 0;
    while i < index.projects.len()
        invariant
            i <= index.projects.len(),
            forall|j: int| 0 <= j < i ==> (#[trigger] index.projects@[j]).project_id@ != project_id@,
        decreases index.projects.len() - i,
    {
        if str_eq(index.projects[i].project_id.as_str(), project_id) {
            return Some(i);
        }
        i += 1;
    }
    None
}

/// The root directory of the project with the given id: that of the first
/// entry with it.
pub fn get_project_root(index: &ProjectsIndex, project_id: &str) -> (r: Option<String>)
    ensures
        match r {
            Some(root) => root_of(entries_view(index.projects@), project_id@) == Some(root@),
            None => root_of(entries_view(index.projects@), project_id@) is None,
        },
{
    let ghost v = entries_view(index.projects@);
    match position_of_project(index, project_id) {
        Some(i) => {
            proof {
                assert forall|j: int| 0 <= j < i implies v[j].0 != project_id@ by {
                    assert(v[j] == entry_view(index.projects@[j]));
                }
                lemma_root_of_first(v, project_id@, i as int);
            }
            Some(index.projects[i].root_dir.clone())
        },
        None => {
            proof {
                assert forall|j: int| 0 <= j < v.len() implies v[j].0 != project_id@ by {
                    assert(v[j] == entry_view(index.projects@[j]));
                }
                lemma_root_of_none(v, project_id@);
            }
            None
        },
    }
}

/// Removes every entry with the given id; tells whether there was one.
#[verifier::rlimit(40)]
pub fn remove_project(index: &mut ProjectsIndex, project_id: &str) -> (r: bool)
    ensures
        entries_view(final(index).projects@) == entries_view(old(index).projects@).filter(
            |e: (Seq<char>, Option<Seq<char>>, Seq<char>, Seq<char>)| e.0 != project_id@,
        ),
        r == root_of(entries_view(old(index).projects@), project_id@) is Some,
        root_of(entries_view(final(index).projects@), project_id@) is None,
{
    let ghost before = entries_view(index.projects@);
    let ghost keep = |e: (Seq<char>, Option<Seq<char>>, Seq<char>, Seq<char>)| e.0 != project_id@;
    let mut kept: Vec<ProjectEntry> = Vec::new();
    let mut removed = false;
    let n = index.projects.len();
    let mut i: usize = 0;
    proof {
        assert(before.take(0).filter(keep) =~= Seq::<
            (Seq<char>, Option<Seq<char>>, Seq<char>, Seq<char>),
        >::empty()) by {
            reveal(Seq::filter);
        }
    }
    while i < n
        invariant
            n == index.projects.len(),
            i <= n,
            before == entries_view(index.projects@),
            keep == (|e: (Seq<char>, Option<Seq<char>>, Seq<char>, Seq<char>)| e.0 != project_id@),
            entries_view(kept@) == before.take(i as int).filter(keep),
            removed == exists|j: int| 0 <= j < i && before[j].0 == project_id@,
        decreases n - i,
    {
        proof {
            crate::store::lemma_filter_take_step(before, i as int, keep);
        }
        if str_eq(index.projects[i].project_id.as_str(), project_id) {
            removed = true;
        } else {
            let ghost prev = kept@;
            kept.push(index.projects[i].duplicate());
            proof {
                assert(entries_view(kept@) =~= entries_view(prev).push(entry_view(index.projects@[i as int])));
            }
        }
        i += 1;
    }
    proof {
        assert(before.take(n as int) =~= before);
        if removed {
            let j = choose|j: int| 0 <= j < n && before[j].0 == project_id@;
            lemma_first_match(before, project_id@, j);
            let k = choose|k: int| 0 <= k < before.len() && before[k].0 == project_id@ && forall|m: int|
                0 <= m < k ==> before[m].0 != project_id@;
            lemma_root_of_first(before, project_id@, k);
        } else {
            lemma_root_of_none(before, project_id@);
        }
        let after = before.filter(keep);
        assert forall|j: int| 0 <= j < after.len() implies after[j].0 != project_id@ by {
            before.lemma_filter_pred(keep, j);
        }
        lemma_root_of_none(after, project_id@);
    }
    index.projects = kept;
    removed
}

proof fn lemma_first_match(v: Seq<(Seq<char>, Option<Seq<char>>, Seq<char>, Seq<char>)>, id: Seq<char>, j: int)
    requires
        0 <= j < v.len(),
        v[j].0 == id,
    ensures
        exists|k: int| 0 <= k < v.len() && v[k].0 == id && forall|m: int| 0 <= m < k ==> v[m].0 != id,
    decreases j,
{
    if exists|m: int| 0 <= m < j && v[m].0 == id {
        let m = choose|m: int| 0 <= m < j && v[m].0 == id;
        lemma_first_match(v, id, m);
    } else {
        assert(forall|m: int| 0 <= m < j ==> v[m].0 != id);
    }
}

/// The position of the first entry with the given id.
pub open spec fn first_index(v: Seq<(Seq<char>, Option<Seq<char>>, Seq<char>, Seq<char>)>, id: Seq<char>) -> Option<
    int,
>
    decreases v.len(),
{
    if v.len() == 0 {
        None
    } else if v[0].0 == id {
        Some(0)
    } else {
        match first_index(v.drop_first(), id) {
            Some(k) => Some(k + 1),
            None => None,
        }
    }
}

proof fn lemma_first_index(v: Seq<(Seq<char>, Option<Seq<char>>, Seq<char>, Seq<char>)>, id: Seq<char>, i: int)
    requires
        0 <= i < v.len(),
        v[i].0 == id,
        forall|j: int| 0 <= j < i ==> v[j].0 != id,
    ensures
        first_index(v, id) == Some(i),
    decreases i,
{
    if i > 0 {
        assert forall|j: int| 0 <= j < i - 1 implies v.drop_first()[j].0 != id by {
            assert(v.drop_first()[j] == v[j + 1]);
        }
        lemma_first_index(v.drop_first(), id, i - 1);
    }
}

proof fn lemma_first_index_none(v: Seq<(Seq<char>, Option<Seq<char>>, Seq<char>, Seq<char>)>, id: Seq<char>)
    requires
        forall|j: int| 0 <= j < v.len() ==> v[j].0 != id,
    ensures
        first_index(v, id) is None,
    decreases v.len(),
{
    if v.len() > 0 {
        assert forall|j: int| 0 <= j < v.len() - 1 implies v.drop_first()[j].0 != id by {
            assert(v.drop_first()[j] == v[j + 1]);
        }
        lemma_first_index_none(v.drop_first(), id);
    }
}

/// An existing entry pointed at a new root directory: its name filled in
/// from the root when blank, its time of change updated.
pub open spec fn with_root(
    e: (Seq<char>, Option<Seq<char>>, Seq<char>, Seq<char>),
    root: Seq<char>,
    now: Seq<char>,
) -> (Seq<char>, Option<Seq<char>>, Seq<char>, Seq<char>) {
    (e.0, if name_blank(e.1) {
        Some(name_of(seq![], root, e.0))
    } else {
        e.1
    }, root, now)
}

/// Pointing an existing project at a new root keeps its id and a name that
/// is not blank, and records the root and the time; only a blank or missing
/// name is filled in, from the root.
pub proof fn new_root_keeps_given_name(
    e: (Seq<char>, Option<Seq<char>>, Seq<char>, Seq<char>),
    root: Seq<char>,
    now: Seq<char>,
)
    ensures
        with_root(e, root, now).0 == e.0,
        with_root(e, root, now).2 == root,
        with_root(e, root, now).3 == now,
        e.1 is Some && !all_ws(e.1->0) ==> with_root(e, root, now).1 == e.1,
        (e.1 is None || all_ws(e.1->0)) ==> with_root(e, root, now).1 is Some,
{
}

/// A new entry for a project id and root directory.
pub open spec fn new_entry(id: Seq<char>, root: Seq<char>, now: Seq<char>) -> (
    Seq<char>,
    Option<Seq<char>>,
    Seq<char>,
    Seq<char>,
) {
    (id, Some(name_of(seq![], root, id)), root, now)
}

/// Points the project with the given id at a root directory, registering
/// it when it is not there yet. `root_dir` is the root as the file system
/// names it; `now` the time of the change.
pub fn upsert_project_root(index: &mut ProjectsIndex, project_id: &str, root_dir: String, now: String)
    ensures
        ({
            let v0 = entries_view(old(index).projects@);
            let v1 = entries_view(final(index).projects@);
            match first_index(v0, project_id@) {
                Some(i) => v1 == v0.update(i, with_root(v0[i], root_dir@, now@)),
                None => v1 == v0.push(new_entry(project_id@, root_dir@, now@)),
            }
        }),
        root_of(entries_view(final(index).projects@), project_id@) == Some(root_dir@),
        ({
            let v0 = entries_view(old(index).projects@);
            let v1 = entries_view(final(index).projects@);
            first_index(v0, project_id@) matches Some(i) ==> {
                &&& v1.len() == v0.len()
                &&& v1[i].0 == v0[i].0
                &&& v1[i].2 == root_dir@
                &&& v1[i].3 == now@
                &&& (v0[i].1 is Some && !all_ws(v0[i].1->0)) ==> v1[i].1 == v0[i].1
                &&& forall|j: int| 0 <= j < v0.len() && j != i ==> #[trigger] v1[j] == v0[j]
            }
        }),
        ({
            let v0 = entries_view(old(index).projects@);
            let v1 = entries_view(final(index).projects@);
            first_index(v0, project_id@) is None ==> {
                &&& v1.len() == v0.len() + 1
                &&& v1[v0.len() as int].0 == project_id@
                &&& v1[v0.len() as int].1 is Some
                &&& v1[v0.len() as int].2 == root_dir@
                &&& v1[v0.len() as int].3 == now@
                &&& forall|j: int| 0 <= j < v0.len() ==> #[trigger] v1[j] == v0[j]
            }
        }),
{
    let ghost v0 = entries_view(index.projects@);
    let root_name = resolve_project_name("", root_dir.as_str(), project_id);
    proof {
        reveal_strlit("");
    }
    match position_of_project(index, project_id) {
        Some(i) => {
            let mut entry = index.projects[i].duplicate();
            if project_name_blank(&entry.project_name) {
                entry.project_name = Some(root_name);
            }
            entry.root_dir = root_dir;
            entry.updated_at = now;
            index.projects.set(i, entry);
            proof {
                assert forall|j: int| 0 <= j < i implies v0[j].0 != project_id@ by {
                    assert(v0[j] == entry_view(old(index).projects@[j]));
                }
                lemma_first_index(v0, project_id@, i as int);
                let v1 = entries_view(index.projects@);
                assert(v1 =~= v0.update(i as int, with_root(v0[i as int], root_dir@, now@)));
                assert forall|j: int| 0 <= j < i implies v1[j].0 != project_id@ by {
                    assert(v1[j] == v0[j]);
                }
                lemma_root_of_first(v1, project_id@, i as int);
            }
        },
        None => {
            let entry = ProjectEntry {
                project_id: project_id.to_owned(),
                project_name: Some(root_name),
                root_dir,
                updated_at: now,
            };
            index.projects.push(entry);
            proof {
                assert forall|j: int| 0 <= j < v0.len() implies v0[j].0 != project_id@ by {
                    assert(v0[j] == entry_view(old(index).projects@[j]));
                }
                lemma_first_index_none(v0, project_id@);
                let v1 = entries_view(index.projects@);
                assert(v1 =~= v0.push(new_entry(project_id@, root_dir@, now@)));
                assert forall|j: int| 0 <= j < v0.len() implies v1[j].0 != project_id@ by {
                    assert(v1[j] == v0[j]);
                }
                lemma_root_of_first(v1, project_id@, v0.len() as int);
            }
        },
    }
}

/// Some entry has a root directory that compares equal to `root`.
pub open spec fn root_taken(v: Seq<(Seq<char>, Option<Seq<char>>, Seq<char>, Seq<char>)>, root: Seq<char>) -> bool {
    exists|j: int| 0 <= j < v.len() && root_key(#[trigger] v[j].2) == root_key(root)
}

/// No two entries have root directories that compare equal.
pub open spec fn distinct_roots(v: Seq<(Seq<char>, Option<Seq<char>>, Seq<char>, Seq<char>)>) -> bool {
    forall|a: int, b: int|
        0 <= a < b < v.len() ==> root_key(#[trigger] v[a].2) != root_key(#[trigger] v[b].2)
}

/// Registers a project for a root directory, named `project_name` (or after
/// the root when that is blank) and identified by the hash of the root's
/// compared form. A root that compares equal to a registered one is refused
/// with "project root already exists", and nothing changes. `root_dir` is
/// the root as the file system names it; `now` the time of registration.
pub fn create_project(index: &mut ProjectsIndex, project_name: &str, root_dir: String, now: String) -> (r: Result<
    RagProject,
    String,
>)
    ensures
        ({
            let v0 = entries_view(old(index).projects@);
            let v1 = entries_view(final(index).projects@);
            let id = project_id_of(root_dir@);
            let entry = (id, Some(name_of(project_name@, root_dir@, id)), root_dir@, now@);
            &&& r is Err <==> root_taken(v0, root_dir@)
            &&& r matches Err(e) ==> e@ == "project root already exists"@ && v1 == v0
            &&& r matches Ok(p) ==> v1 == v0.push(entry) && project_view(p) == dto_of(entry)
            &&& distinct_roots(v0) ==> distinct_roots(v1)
        }),
{
    let ghost v0 = entries_view(index.projects@);
    let normalized_root = normalize_root_dir(root_dir.as_str());
    let project_id = hash_project_id(normalized_root.as_str());
    let mut i: usize = 0;
    while i < index.projects.len()
        invariant
            i <= index.projects.len(),
            v0 == entries_view(index.projects@),
            normalized_root@ == root_key(root_dir@),
            forall|j: int| 0 <= j < i ==> root_key((#[trigger] v0[j]).2) != root_key(root_dir@),
        decreases index.projects.len() - i,
    {
        let other = normalize_root_dir(index.projects[i].root_dir.as_str());
        proof {
            assert(v0[i as int] == entry_view(index.projects@[i as int]));
        }
        if str_eq(other.as_str(), normalized_root.as_str()) {
            assert(root_key(v0[i as int].2) == root_key(root_dir@));
            return Err("project root already exists".to_owned());
        }
        i += 1;
    }
    let final_name = resolve_project_name(project_name, root_dir.as_str(), project_id.as_str());
    let entry = ProjectEntry {
        project_id,
        project_name: Some(final_name),
        root_dir,
        updated_at: now,
    };
    let dto = to_project_dto(&entry);
    index.projects.push(entry);
    proof {
        let v1 = entries_view(index.projects@);
        assert(v1 =~= v0.push(entry_view(entry)));
        if distinct_roots(v0) {
            assert forall|a: int, b: int| 0 <= a < b < v1.len() implies root_key(#[trigger] v1[a].2)
                != root_key(#[trigger] v1[b].2) by {
                assert(v1[a] == v0[a]);
                if b < v0.len() {
                    assert(v1[b] == v0[b]);
                }
            }
        }
    }
    Ok(dto)
}

/// The key by which projects are listed: the display name lower-cased.
pub open spec fn name_key(p: (Seq<char>, Seq<char>, Seq<char>, Seq<char>)) -> Seq<char> {
    lowercase(p.1)
}

/// Projects listed by name: no project comes after one whose key comes
/// later.
pub open spec fn sorted_by_name(v: Seq<(Seq<char>, Seq<char>, Seq<char>, Seq<char>)>) -> bool {
    forall|i: int, j: int| 0 <= i < j < v.len() ==> !text_lt(name_key(#[trigger] v[j]), name_key(#[trigger] v[i]))
}

/// Projects as plain values.
pub open spec fn projects_view(v: Seq<RagProject>) -> Seq<(Seq<char>, Seq<char>, Seq<char>, Seq<char>)> {
    v.map_values(|p: RagProject| project_view(p))
}

/// `idx` says where each item of `r` comes from in `src`: every item of
/// `src` once, and items with the same key in their order in `src`.
pub open spec fn arranged_by(
    idx: Seq<int>,
    r: Seq<(Seq<char>, Seq<char>, Seq<char>, Seq<char>)>,
    src: Seq<(Seq<char>, Seq<char>, Seq<char>, Seq<char>)>,
) -> bool {
    &&& idx.len() == r.len()
    &&& r.len() == src.len()
    &&& forall|k: int| 0 <= k < r.len() ==> 0 <= #[trigger] idx[k] < src.len() && r[k] == src[idx[k]]
    &&& forall|k: int, l: int| 0 <= k < l < r.len() ==> #[trigger] idx[k] != #[trigger] idx[l]
    &&& forall|k: int, l: int|
        0 <= k < l < r.len() && name_key(#[trigger] r[k]) == name_key(#[trigger] r[l]) ==> idx[k] < idx[l]
}

/// `r` is `src` rearranged so that projects with the same key keep their
/// order (a stable rearrangement).
pub open spec fn stable_arrangement(
    r: Seq<(Seq<char>, Seq<char>, Seq<char>, Seq<char>)>,
    src: Seq<(Seq<char>, Seq<char>, Seq<char>, Seq<char>)>,
) -> bool {
    exists|idx: Seq<int>| arranged_by(idx, r, src)
}

/// The projects of an index in their user-facing form, ordered by name
/// (case-insensitively, by character code): the same projects, each once,
/// those with the same name in the order they were registered.
pub fn list_projects(index: &ProjectsIndex) -> (r: Vec<RagProject>)
    ensures
        projects_view(r@).to_multiset() == entries_view(index.projects@).map_values(
            |e: (Seq<char>, Option<Seq<char>>, Seq<char>, Seq<char>)| dto_of(e),
        ).to_multiset(),
        sorted_by_name(projects_view(r@)),
        stable_arrangement(
            projects_view(r@),
            entries_view(index.projects@).map_values(
                |e: (Seq<char>, Option<Seq<char>>, Seq<char>, Seq<char>)| dto_of(e),
            ),
        ),
{
    broadcast use vstd::seq_lib::group_to_multiset_ensures;

    let ghost dtos = entries_view(index.projects@).map_values(
        |e: (Seq<char>, Option<Seq<char>>, Seq<char>, Seq<char>)| dto_of(e),
    );
    let mut out: Vec<RagProject> = Vec::new();
    let mut keys: Vec<String> = Vec::new();
    let mut i: usize = 0;
    let ghost mut idx: Seq<int> = Seq::empty();
    proof {
        assert(projects_view(out@) =~= Seq::<(Seq<char>, Seq<char>, Seq<char>, Seq<char>)>::empty());
        assert(dtos.take(0) =~= Seq::<(Seq<char>, Seq<char>, Seq<char>, Seq<char>)>::empty());
    }
    while i < index.projects.len()
        invariant
            i <= index.projects.len(),
            dtos == entries_view(index.projects@).map_values(
                |e: (Seq<char>, Option<Seq<char>>, Seq<char>, Seq<char>)| dto_of(e),
            ),
            keys@.len() == out@.len(),
            forall|k: int| 0 <= k < out@.len() ==> (#[trigger] keys@[k])@ == name_key(projects_view(out@)[k]),
            sorted_by_name(projects_view(out@)),
            projects_view(out@).to_multiset() == dtos.take(i as int).to_multiset(),
            out@.len() == i,
            idx.len() == i,
            forall|k: int| 0 <= k < i ==> 0 <= #[trigger] idx[k] < i && projects_view(out@)[k] == dtos[idx[k]],
            forall|k: int, l: int| 0 <= k < l < i ==> #[trigger] idx[k] != #[trigger] idx[l],
            forall|k: int, l: int|
                0 <= k < l < i && name_key(#[trigger] projects_view(out@)[k]) == name_key(
                    #[trigger] projects_view(out@)[l],
                ) ==> idx[k] < idx[l],
        decreases index.projects.len() - i,
    {
        let dto = to_project_dto(&index.projects[i]);
        let key = to_lowercase(dto.project_name.as_str());
        let ghost d = project_view(dto);
        let ghost ov = projects_view(out@);
        let mut p: usize = 0;
        while p < keys.len() && !text_less(key.as_str(), keys[p].as_str())
            invariant
                p <= keys.len(),
                keys@.len() == out@.len(),
                forall|m: int| 0 <= m < p ==> !text_lt(key@, (#[trigger] keys@[m])@),
            decreases keys.len() - p,
        {
            p += 1;
        }
        proof {
            assert(d == dtos[i as int]);
            assert(key@ == name_key(d));
            let t = ov.insert(p as int, d);
            assert forall|a: int, b: int| 0 <= a < b < t.len() implies !text_lt(name_key(#[trigger] t[b]), name_key(#[trigger] t[a])) by {
                if b < p {
                    assert(t[a] == ov[a] && t[b] == ov[b]);
                } else if b == p {
                    assert(t[a] == ov[a] && t[b] == d);
                    assert(keys@[a]@ == name_key(ov[a]));
                    lemma_text_lt_total(key@, keys@[a]@);
                } else if a < p {
                    assert(t[a] == ov[a] && t[b] == ov[b - 1]);
                } else if a == p {
                    assert(t[a] == d && t[b] == ov[b - 1]);
                    assert(keys@[p as int]@ == name_key(ov[p as int]));
                    assert(text_lt(key@, keys@[p as int]@));
                    if text_lt(name_key(ov[b - 1]), key@) {
                        if b - 1 == p {
                            lemma_text_lt_total(name_key(ov[b - 1]), key@);
                        } else {
                            lemma_text_lt_trans(name_key(ov[b - 1]), key@, keys@[p as int]@);
                            assert(!text_lt(name_key(ov[b - 1]), name_key(ov[p as int])));
                        }
                    }
                } else {
                    assert(t[a] == ov[a - 1] && t[b] == ov[b - 1]);
                }
            }
            assert(dtos.take(i + 1) =~= dtos.take(i as int).push(d));
        }
        proof {
            if p < keys.len() {
                assert(text_lt(key@, keys@[p as int]@));
            }
        }
        out.insert(p, dto);
        keys.insert(p, key);
        proof {
            assert(projects_view(out@) =~= ov.insert(p as int, d));
            let oidx = idx;
            idx = oidx.insert(p as int, i as int);
            let t = projects_view(out@);
            assert forall|k: int| 0 <= k < i + 1 implies 0 <= #[trigger] idx[k] < i + 1 && t[k] == dtos[idx[k]] by {
                if k < p {
                    assert(idx[k] == oidx[k] && t[k] == ov[k]);
                } else if k > p {
                    assert(idx[k] == oidx[k - 1] && t[k] == ov[k - 1]);
                }
            }
            assert forall|k: int, l: int| 0 <= k < l < i + 1 implies #[trigger] idx[k] != #[trigger] idx[l] by {
                if k != p && l != p {
                    let k0 = if k < p { k } else { k - 1 };
                    let l0 = if l < p { l } else { l - 1 };
                    assert(idx[k] == oidx[k0] && idx[l] == oidx[l0]);
                } else if k == p {
                    assert(idx[l] == oidx[l - 1]);
                } else {
                    assert(idx[k] == oidx[k]);
                }
            }
            assert forall|k: int, l: int|
                0 <= k < l < i + 1 && name_key(#[trigger] t[k]) == name_key(#[trigger] t[l]) implies idx[k] < idx[l] by {
                if k != p && l != p {
                    let k0 = if k < p { k } else { k - 1 };
                    let l0 = if l < p { l } else { l - 1 };
                    assert(idx[k] == oidx[k0] && idx[l] == oidx[l0]);
                    assert(t[k] == ov[k0] && t[l] == ov[l0]);
                } else if l == p {
                    assert(idx[k] == oidx[k]);
                } else {
                    assert(t[l] == ov[l - 1]);
                    assert(t[k] == d);
                    assert(keys@[p as int]@ == name_key(ov[p as int]));
                    lemma_text_lt_total(key@, key@);
                    if l - 1 > p {
                        assert(!text_lt(name_key(ov[l - 1]), name_key(ov[p as int])));
                    }
                    assert(false);
                }
            }
            assert forall|k: int| 0 <= k < out@.len() implies (#[trigger] keys@[k])@ == name_key(projects_view(out@)[k]) by {
                if k < p {
                    assert(projects_view(out@)[k] == ov[k]);
                } else if k > p {
                    assert(projects_view(out@)[k] == ov[k - 1]);
                }
            }
        }
        i += 1;
    }
    proof {
        assert(dtos.take(index.projects.len() as int) =~= dtos);
        assert(arranged_by(idx, projects_view(out@), dtos));
    }
    out
}

} // verus!

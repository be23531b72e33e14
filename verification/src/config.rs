//! Where the configuration file is looked for.
use crate::path::{is_sep, path_components, path_pieces};
use crate::text::{chars_of, concat_str, join_range, join_with, str_eq};
use vstd::prelude::*;

verus! {

broadcast use vstd::seq_lib::group_seq_properties;

/// The name of the configuration file.
pub const CONFIG_FILE: &'static str = "ai-interview.config";

/// The components by which paths are compared: `.` components after the
/// first are left out.
pub open spec fn compared_pieces(ps: Seq<Seq<char>>) -> Seq<Seq<char>>
    decreases ps.len(),
{
    if ps.len() == 0 {
        seq![]
    } else {
        let prev = compared_pieces(ps.drop_last());
        if ps.len() > 1 && ps.last() == seq!['.'] {
            prev
        } else {
            prev.push(ps.last())
        }
    }
}

/// Two paths name the same place: both or neither start at a root, and
/// their components compare equal.
pub open spec fn same_place(a: Seq<char>, b: Seq<char>) -> bool {
    &&& (a.len() > 0 && is_sep(a[0])) == (b.len() > 0 && is_sep(b[0]))
    &&& compared_pieces(path_pieces(a)) == compared_pieces(path_pieces(b))
}

/// The components of a path by which it is compared.
fn compared_components(path: &str) -> (r: Vec<String>)
    ensures
        r@.map_values(|c: String| c@) == compared_pieces(path_pieces(path@)),
{
    let comps = path_components(path);
    let ghost cv = comps@.map_values(|c: String| c@);
    let mut out: Vec<String> = Vec::new();
    let mut k: usize = 0;
    proof {
        assert(cv.take(0) =~= Seq::<Seq<char>>::empty());
        assert(out@.map_values(|c: String| c@) =~= Seq::<Seq<char>>::empty());
    }
    while k < comps.len()
        invariant
            k <= comps.len(),
            cv == comps@.map_values(|c: String| c@),
            cv == path_pieces(path@),
            out@.map_values(|c: String| c@) == compared_pieces(cv.take(k as int)),
        decreases comps.len() - k,
    {
        proof {
            assert(cv.take(k + 1).drop_last() =~= cv.take(k as int));
            assert(cv.take(k + 1).last() == cv[k as int]);
        }
        let cs = chars_of(comps[k].as_str());
        let is_dot = cs.len() == 1 && cs[0] == '.';
        proof {
            if cv[k as int] == seq!['.'] {
                assert(cs@ == cv[k as int]);
            }
            if is_dot {
                assert(cv[k as int] =~= seq!['.']);
            }
        }
        if !(k > 0 && is_dot) {
            let ghost before = out@;
            out.push(comps[k].clone());
            proof {
                assert(out@.map_values(|c: String| c@) =~= before.map_values(|c: String| c@).push(
                    cv[k as int],
                ));
            }
        }
        k += 1;
    }
    proof {
        assert(cv.take(comps.len() as int) =~= cv);
    }
    out
}

/// Whether two paths name the same place (see `same_place`).
pub fn same_path(left: &str, right: &str) -> (r: bool)
    ensures
        r == same_place(left@, right@),
{
    let lc = chars_of(left);
    let rc = chars_of(right);
    let l_root = lc.len() > 0 && (lc[0] == '/' || lc[0] == '\\');
    let r_root = rc.len() > 0 && (rc[0] == '/' || rc[0] == '\\');
    if l_root != r_root {
        return false;
    }
    let a = compared_components(left);
    let b = compared_components(right);
    if a.len() != b.len() {
        proof {
            assert(a@.map_values(|c: String| c@).len() != b@.map_values(|c: String| c@).len());
        }
        return false;
    }
    let mut k: usize = 0;
    while k < a.len()
        invariant
            k <= a.len(),
            a.len() == b.len(),
            a@.map_values(|c: String| c@) == compared_pieces(path_pieces(left@)),
            b@.map_values(|c: String| c@) == compared_pieces(path_pieces(right@)),
            forall|j: int| 0 <= j < k ==> (#[trigger] a@[j])@ == b@[j]@,
        decreases a.len() - k,
    {
        if !str_eq(a[k].as_str(), b[k].as_str()) {
            proof {
                assert(a@.map_values(|c: String| c@)[k as int] != b@.map_values(|c: String| c@)[k as int]);
            }
            return false;
        }
        k += 1;
    }
    proof {
        assert(a@.map_values(|c: String| c@) =~= b@.map_values(|c: String| c@));
    }
    true
}

/// Adds a candidate location unless one naming the same place is there.
pub fn push_candidate(candidates: &mut Vec<String>, path: String)
    ensures
        (exists|i: int| 0 <= i < old(candidates)@.len() && same_place(#[trigger] old(candidates)@[i]@, path@))
            ==> final(candidates)@ == old(candidates)@,
        !(exists|i: int| 0 <= i < old(candidates)@.len() && same_place(#[trigger] old(candidates)@[i]@, path@))
            ==> final(candidates)@ == old(candidates)@.push(path),
{
    let mut k: usize = 0;
    while k < candidates.len()
        invariant
            k <= candidates.len(),
            candidates@ == old(candidates)@,
            forall|j: int| 0 <= j < k ==> !same_place((#[trigger] candidates@[j])@, path@),
        decreases candidates.len() - k,
    {
        if same_path(candidates[k].as_str(), path.as_str()) {
            return;
        }
        k += 1;
    }
    candidates.push(path);
}

/// A file name placed in a directory: `\` between them unless the
/// directory already ends with a separator.
pub open spec fn joined_path(dir: Seq<char>, name: Seq<char>) -> Seq<char> {
    if dir.len() > 0 && is_sep(dir.last()) {
        dir + name
    } else {
        dir + "\\"@ + name
    }
}

/// A file name placed in a directory (see `joined_path`).
pub fn join_file(dir: &str, name: &str) -> (r: String)
    ensures
        r@ == joined_path(dir@, name@),
{
    let cs = chars_of(dir);
    if cs.len() > 0 && (cs[cs.len() - 1] == '/' || cs[cs.len() - 1] == '\\') {
        concat_str(dir, name)
    } else {
        let with_sep = concat_str(dir, "\\");
        proof {
            reveal_strlit("\\");
        }
        concat_str(with_sep.as_str(), name)
    }
}

/// The places where the configuration file is looked for, in order, each
/// once: the path named by the environment, then the file in the working
/// directory and its parent, then in the program's directory and its
/// parent (for the directories that are known).
pub fn config_candidates(
    env_path: Option<String>,
    cwd: Option<String>,
    cwd_parent: Option<String>,
    exe_dir: Option<String>,
    exe_parent: Option<String>,
) -> (r: Vec<String>)
    ensures
        forall|i: int, j: int| 0 <= i < j < r@.len() ==> !same_place((#[trigger] r@[i])@, (#[trigger] r@[j])@),
        env_path is Some ==> r@.len() > 0 && r@[0]@ == env_path->0@,
{
    let mut candidates: Vec<String> = Vec::new();
    if let Some(path) = env_path {
        candidates.push(path);
    }
    let dirs = [cwd, cwd_parent, exe_dir, exe_parent];
    let mut k: usize = 0;
    while k < 4
        invariant
            k <= 4,
            forall|i: int, j: int|
                0 <= i < j < candidates@.len() ==> !same_place((#[trigger] candidates@[i])@, (#[trigger] candidates@[j])@),
            env_path is Some ==> candidates@.len() > 0 && candidates@[0]@ == env_path->0@,
        decreases 4 - k,
    {
        if let Some(dir) = &dirs[k] {
            let ghost before = candidates@;
            let file = join_file(dir.as_str(), CONFIG_FILE);
            push_candidate(&mut candidates, file);
            proof {
                assert forall|i: int, j: int|
                    0 <= i < j < candidates@.len() implies !same_place((#[trigger] candidates@[i])@, (#[trigger] candidates@[j])@) by {
                    if j == before.len() {
                        assert(candidates@[i] == before[i]);
                    }
                }
            }
        }
        k += 1;
    }
    candidates
}

/// The message when no candidate holds the configuration file.
pub open spec fn not_found_message(candidates: Seq<Seq<char>>) -> Seq<char> {
    "ai-interview.config not found. Tried: "@ + join_with(candidates, ", "@)
}

/// The message when no candidate holds the configuration file (see
/// `not_found_message`).
pub fn config_not_found(candidates: &Vec<String>) -> (r: String)
    ensures
        r@ == not_found_message(candidates@.map_values(|c: String| c@)),
{
    let tried = join_range(candidates, 0, candidates.len(), ", ");
    proof {
        assert(candidates@.map_values(|c: String| c@).subrange(0, candidates@.len() as int) =~= candidates@.map_values(
            |c: String| c@,
        ));
    }
    concat_str("ai-interview.config not found. Tried: ", tried.as_str())
}

} // verus!

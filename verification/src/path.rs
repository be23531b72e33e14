//! Paths as text. A path is read the way Windows reads it: both `/` and `\`
//! separate its components, and empty components are dropped.
use crate::text::{chars_of, join_range, join_with, str_eq, string_from_chars};
use vstd::prelude::*;

verus! {

broadcast use vstd::seq_lib::group_seq_properties;

/// A path separator.
pub open spec fn is_sep(c: char) -> bool {
    c == '/' || c == '\\'
}

/// The non-empty runs of non-separator characters of `s`, `cur` being the
/// run read so far.
pub open spec fn split_pieces(s: Seq<char>, cur: Seq<char>) -> Seq<Seq<char>>
    decreases s.len(),
{
    if s.len() == 0 {
        if cur.len() == 0 {
            seq![]
        } else {
            seq![cur]
        }
    } else if is_sep(s[0]) {
        if cur.len() == 0 {
            split_pieces(s.drop_first(), seq![])
        } else {
            seq![cur] + split_pieces(s.drop_first(), seq![])
        }
    } else {
        split_pieces(s.drop_first(), cur.push(s[0]))
    }
}

/// The components of a path, in order.
pub open spec fn path_pieces(s: Seq<char>) -> Seq<Seq<char>> {
    split_pieces(s, seq![])
}

/// The last component that is not `.`.
pub open spec fn last_named(ps: Seq<Seq<char>>) -> Option<Seq<char>>
    decreases ps.len(),
{
    if ps.len() == 0 {
        None
    } else if ps.last() == seq!['.'] {
        last_named(ps.drop_last())
    } else {
        Some(ps.last())
    }
}

/// The final component of a path, unless the path ends in `..` or has none
/// (`Path::file_name`).
pub open spec fn file_name_of(s: Seq<char>) -> Option<Seq<char>> {
    match last_named(path_pieces(s)) {
        Some(p) => if p == seq!['.', '.'] {
            None
        } else {
            Some(p)
        },
        None => None,
    }
}

/// The index of the last `.` of `n`, or -1.
pub open spec fn last_dot(n: Seq<char>) -> int
    decreases n.len(),
{
    if n.len() == 0 {
        -1
    } else if n.last() == '.' {
        n.len() - 1
    } else {
        last_dot(n.drop_last())
    }
}

/// The extension of a file name: what follows its last `.`, unless that `.`
/// is its first character or it has none.
pub open spec fn ext_of_name(n: Seq<char>) -> Option<Seq<char>> {
    if last_dot(n) <= 0 {
        None
    } else {
        Some(n.skip(last_dot(n) + 1))
    }
}

/// The extension of a path (`Path::extension`).
pub open spec fn extension_of(s: Seq<char>) -> Option<Seq<char>> {
    match file_name_of(s) {
        Some(n) => ext_of_name(n),
        None => None,
    }
}

pub proof fn lemma_last_dot_range(n: Seq<char>)
    ensures
        -1 <= last_dot(n) < n.len(),
        last_dot(n) >= 0 ==> n[last_dot(n)] == '.',
        forall|j: int| last_dot(n) < j < n.len() ==> n[j] != '.',
    decreases n.len(),
{
    if n.len() > 0 && n.last() != '.' {
        lemma_last_dot_range(n.drop_last());
        assert forall|j: int| last_dot(n) < j < n.len() implies n[j] != '.' by {
            if j < n.len() - 1 {
                assert(n[j] == n.drop_last()[j]);
            }
        }
    }
}

/// `path.components()`: the components of a path, as strings.
pub fn path_components(path: &str) -> (r: Vec<String>)
    ensures
        r@.map_values(|c: String| c@) == path_pieces(path@),
{
    let chars = chars_of(path);
    let mut out: Vec<String> = Vec::new();
    let mut cur: Vec<char> = Vec::new();
    let mut i: usize = 0;
    proof {
        assert(chars@.skip(0) =~= chars@);
        assert(out@.map_values(|c: String| c@) =~= Seq::<Seq<char>>::empty());
    }
    while i < chars.len()
        invariant
            i <= chars.len(),
            chars@ == path@,
            out@.map_values(|c: String| c@) + split_pieces(chars@.skip(i as int), cur@)
                == path_pieces(path@),
        decreases chars.len() - i,
    {
        let ghost rest = chars@.skip(i as int);
        let ghost before = out@.map_values(|c: String| c@);
        proof {
            assert(rest.drop_first() =~= chars@.skip(i + 1));
            assert(rest[0] == chars@[i as int]);
        }
        let c = chars[i];
        if c == '/' || c == '\\' {
            if cur.len() > 0 {
                let piece = string_from_chars(&cur);
                let ghost old_out = out@;
                out.push(piece);
                proof {
                    assert(out@.map_values(|c: String| c@) =~= old_out.map_values(|c: String| c@).push(
                        cur@,
                    ));
                    assert(before + (seq![cur@] + split_pieces(rest.drop_first(), seq![]))
                        =~= before.push(cur@) + split_pieces(rest.drop_first(), seq![]));
                }
                cur = Vec::new();
            } else {
                proof {
                    assert(cur@ =~= Seq::<char>::empty());
                }
            }
        } else {
            cur.push(c);
        }
        i += 1;
    }
    proof {
        assert(chars@.skip(i as int) =~= Seq::<char>::empty());
    }
    if cur.len() > 0 {
        let piece = string_from_chars(&cur);
        let ghost old_out = out@;
        out.push(piece);
        proof {
            assert(out@.map_values(|c: String| c@) =~= old_out.map_values(|c: String| c@).push(
                cur@,
            ));
            assert(old_out.map_values(|c: String| c@) + seq![cur@] =~= old_out.map_values(
                |c: String| c@,
            ).push(cur@));
        }
    } else {
        proof {
            assert(out@.map_values(|c: String| c@) + Seq::<Seq<char>>::empty() =~= out@.map_values(
                |c: String| c@,
            ));
        }
    }
    out
}

/// `Path::file_name` of a path given as text.
pub fn file_name(path: &str) -> (r: Option<String>)
    ensures
        match r {
            Some(n) => file_name_of(path@) == Some(n@),
            None => file_name_of(path@) is None,
        },
{
    let comps = path_components(path);
    let ghost ps = comps@.map_values(|c: String| c@);
    let mut k = comps.len();
    while k > 0
        invariant
            k <= comps.len(),
            ps == comps@.map_values(|c: String| c@),
            ps == path_pieces(path@),
            last_named(ps) == last_named(ps.take(k as int)),
        decreases k,
    {
        let comp = &comps[k - 1];
        let cs = chars_of(comp.as_str());
        proof {
            assert(ps.take(k as int).last() == comp@);
            assert(ps.take(k as int).drop_last() =~= ps.take(k - 1));
        }
        if cs.len() == 1 && cs[0] == '.' {
            proof {
                assert(comp@ =~= seq!['.']);
            }
            k -= 1;
        } else {
            proof {
                assert(comp@ != seq!['.']) by {
                    if comp@ == seq!['.'] {
                        assert(cs@.len() == 1 && cs@[0] == '.');
                    }
                }
            }
            if cs.len() == 2 && cs[0] == '.' && cs[1] == '.' {
                proof {
                    assert(comp@ =~= seq!['.', '.']);
                }
                return None;
            }
            proof {
                assert(comp@ != seq!['.', '.']) by {
                    if comp@ == seq!['.', '.'] {
                        assert(cs@.len() == 2 && cs@[0] == '.' && cs@[1] == '.');
                    }
                }
            }
            return Some(comp.clone());
        }
    }
    proof {
        assert(ps.take(0) =~= Seq::<Seq<char>>::empty());
    }
    None
}

/// The extension of a file name (see `ext_of_name`).
pub fn extension_of_name(name: &str) -> (r: Option<String>)
    ensures
        match r {
            Some(e) => ext_of_name(name@) == Some(e@),
            None => ext_of_name(name@) is None,
        },
{
    let cs = chars_of(name);
    let mut k = cs.len();
    while k > 0 && cs[k - 1] != '.'
        invariant
            k <= cs.len(),
            cs@ == name@,
            last_dot(cs@) == last_dot(cs@.take(k as int)),
        decreases k,
    {
        proof {
            assert(cs@.take(k as int).drop_last() =~= cs@.take(k - 1));
        }
        k -= 1;
    }
    proof {
        if k == 0 {
            assert(cs@.take(0) =~= Seq::<char>::empty());
        } else {
            assert(cs@.take(k as int).last() == '.');
        }
    }
    if k <= 1 {
        return None;
    }
    let mut out: Vec<char> = Vec::new();
    let mut j = k;
    while j < cs.len()
        invariant
            k <= j <= cs.len(),
            out@ == cs@.subrange(k as int, j as int),
        decreases cs.len() - j,
    {
        out.push(cs[j]);
        proof {
            assert(cs@.subrange(k as int, j + 1) =~= cs@.subrange(k as int, j as int).push(
                cs@[j as int],
            ));
        }
        j += 1;
    }
    proof {
        assert(cs@.skip(k as int) =~= cs@.subrange(k as int, cs@.len() as int));
    }
    Some(string_from_chars(&out))
}

/// `Path::extension` of a path given as text.
pub fn extension(path: &str) -> (r: Option<String>)
    ensures
        match r {
            Some(e) => extension_of(path@) == Some(e@),
            None => extension_of(path@) is None,
        },
{
    match file_name(path) {
        Some(n) => extension_of_name(n.as_str()),
        None => None,
    }
}

/// `s` without its leading separators.
pub open spec fn drop_seps(s: Seq<char>) -> Seq<char>
    decreases s.len(),
{
    if s.len() > 0 && is_sep(s[0]) {
        drop_seps(s.drop_first())
    } else {
        s
    }
}

/// `s` without its leading run of non-separator characters.
pub open spec fn drop_piece(s: Seq<char>) -> Seq<char>
    decreases s.len(),
{
    if s.len() > 0 && !is_sep(s[0]) {
        drop_piece(s.drop_first())
    } else {
        s
    }
}

/// What follows the first `k` components of a path, leading separators
/// dropped; the whole path when `k` is 0.
pub open spec fn rest_after(s: Seq<char>, k: nat) -> Seq<char>
    decreases k,
{
    if k == 0 {
        s
    } else {
        drop_seps(drop_piece(drop_seps(rest_after(s, (k - 1) as nat))))
    }
}

/// The components `a` are the first components of `b`.
pub open spec fn pieces_prefix(a: Seq<Seq<char>>, b: Seq<Seq<char>>) -> bool {
    a.len() <= b.len() && forall|i: int| 0 <= i < a.len() ==> a[i] == b[i]
}

/// `path` relative to `root` when `root`'s components are the first ones of
/// `path`, else `path` itself (`Path::strip_prefix(..).unwrap_or(path)`).
pub open spec fn strip_prefix_text(root: Seq<char>, path: Seq<char>) -> Seq<char> {
    if pieces_prefix(path_pieces(root), path_pieces(path)) {
        rest_after(path, path_pieces(root).len())
    } else {
        path
    }
}

/// The index past the separators that start `chars[i..]`.
fn skip_seps_from(chars: &Vec<char>, i: usize) -> (j: usize)
    requires
        i <= chars.len(),
    ensures
        i <= j <= chars.len(),
        chars@.skip(j as int) == drop_seps(chars@.skip(i as int)),
{
    let mut j = i;
    while j < chars.len() && (chars[j] == '/' || chars[j] == '\\')
        invariant
            i <= j <= chars.len(),
            drop_seps(chars@.skip(i as int)) == drop_seps(chars@.skip(j as int)),
        decreases chars.len() - j,
    {
        proof {
            assert(chars@.skip(j as int).drop_first() =~= chars@.skip(j + 1));
        }
        j += 1;
    }
    j
}

/// The index past the run of non-separators that starts `chars[i..]`.
fn skip_piece_from(chars: &Vec<char>, i: usize) -> (j: usize)
    requires
        i <= chars.len(),
    ensures
        i <= j <= chars.len(),
        chars@.skip(j as int) == drop_piece(chars@.skip(i as int)),
{
    let mut j = i;
    while j < chars.len() && !(chars[j] == '/' || chars[j] == '\\')
        invariant
            i <= j <= chars.len(),
            drop_piece(chars@.skip(i as int)) == drop_piece(chars@.skip(j as int)),
        decreases chars.len() - j,
    {
        proof {
            assert(chars@.skip(j as int).drop_first() =~= chars@.skip(j + 1));
        }
        j += 1;
    }
    j
}

/// `path` relative to `root` (see `strip_prefix_text`).
pub fn strip_prefix(root: &str, path: &str) -> (r: String)
    ensures
        r@ == strip_prefix_text(root@, path@),
{
    let rp = path_components(root);
    let pp = path_components(path);
    let ghost rs = rp@.map_values(|c: String| c@);
    let ghost ps = pp@.map_values(|c: String| c@);
    if rp.len() > pp.len() {
        return path.to_owned();
    }
    let mut i: usize = 0;
    while i < rp.len()
        invariant
            i <= rp.len() <= pp.len(),
            rs == rp@.map_values(|c: String| c@),
            ps == pp@.map_values(|c: String| c@),
            rs == path_pieces(root@),
            ps == path_pieces(path@),
            forall|j: int| 0 <= j < i ==> rs[j] == ps[j],
        decreases rp.len() - i,
    {
        if !crate::text::str_eq(rp[i].as_str(), pp[i].as_str()) {
            proof {
                assert(rs[i as int] != ps[i as int]);
                assert(!pieces_prefix(rs, ps));
            }
            return path.to_owned();
        }
        i += 1;
    }
    assert(pieces_prefix(rs, ps));
    let k = rp.len();
    if k == 0 {
        return path.to_owned();
    }
    let chars = chars_of(path);
    let mut pos: usize = 0;
    let mut n: usize = 0;
    proof {
        assert(chars@.skip(0) =~= chars@);
    }
    while n < k
        invariant
            n <= k,
            pos <= chars.len(),
            chars@ == path@,
            n == 0 ==> pos == 0,
            n > 0 ==> chars@.skip(pos as int) == rest_after(path@, n as nat),
        decreases k - n,
    {
        let a = skip_seps_from(&chars, pos);
        let b = skip_piece_from(&chars, a);
        let c = skip_seps_from(&chars, b);
        proof {
            if n == 0 {
                assert(chars@.skip(0) =~= path@);
            }
            assert(chars@.skip(pos as int) == rest_after(path@, n as nat));
            assert(rest_after(path@, (n + 1) as nat) == drop_seps(
                drop_piece(drop_seps(rest_after(path@, n as nat))),
            ));
        }
        pos = c;
        n += 1;
    }
    let mut out: Vec<char> = Vec::new();
    let mut j = pos;
    while j < chars.len()
        invariant
            pos <= j <= chars.len(),
            out@ == chars@.subrange(pos as int, j as int),
        decreases chars.len() - j,
    {
        out.push(chars[j]);
        proof {
            assert(chars@.subrange(pos as int, j + 1) =~= chars@.subrange(pos as int, j as int).push(
                chars@[j as int],
            ));
        }
        j += 1;
    }
    proof {
        assert(chars@.skip(pos as int) =~= chars@.subrange(pos as int, chars@.len() as int));
    }
    string_from_chars(&out)
}

/// The components that two component lists share at their start.
pub open spec fn shared_pieces(a: Seq<Seq<char>>, b: Seq<Seq<char>>) -> Seq<Seq<char>>
    decreases a.len(),
{
    if a.len() == 0 || b.len() == 0 || a[0] != b[0] {
        seq![]
    } else {
        seq![a[0]] + shared_pieces(a.drop_first(), b.drop_first())
    }
}

/// Components written as a path, `\` between them.
pub open spec fn rendered_path(ps: Seq<Seq<char>>) -> Seq<char> {
    join_with(ps, "\\"@)
}

/// How many components two lists share at their start.
fn shared_count(a: &Vec<String>, b: &Vec<String>) -> (r: usize)
    ensures
        r <= a.len(),
        r <= b.len(),
        a@.map_values(|c: String| c@).take(r as int) == shared_pieces(
            a@.map_values(|c: String| c@),
            b@.map_values(|c: String| c@),
        ),
{
    let ghost av = a@.map_values(|c: String| c@);
    let ghost bv = b@.map_values(|c: String| c@);
    let mut k: usize = 0;
    proof {
        assert(av.skip(0) =~= av);
        assert(bv.skip(0) =~= bv);
        assert(av.take(0) + shared_pieces(av.skip(0), bv.skip(0)) =~= shared_pieces(av, bv));
    }
    while k < a.len() && k < b.len() && str_eq(a[k].as_str(), b[k].as_str())
        invariant
            k <= a.len(),
            k <= b.len(),
            av == a@.map_values(|c: String| c@),
            bv == b@.map_values(|c: String| c@),
            av.take(k as int) + shared_pieces(av.skip(k as int), bv.skip(k as int)) == shared_pieces(av, bv),
        decreases a.len() - k,
    {
        proof {
            let x = av.skip(k as int);
            let y = bv.skip(k as int);
            assert(x[0] == av[k as int] && y[0] == bv[k as int]);
            assert(x.drop_first() =~= av.skip(k + 1));
            assert(y.drop_first() =~= bv.skip(k + 1));
            assert(av.take(k + 1) =~= av.take(k as int) + seq![av[k as int]]);
            assert(av.take(k as int) + (seq![x[0]] + shared_pieces(x.drop_first(), y.drop_first()))
                =~= av.take(k + 1) + shared_pieces(av.skip(k + 1), bv.skip(k + 1)));
        }
        k += 1;
    }
    proof {
        let x = av.skip(k as int);
        let y = bv.skip(k as int);
        if k < a.len() && k < b.len() {
            assert(x[0] == av[k as int] && y[0] == bv[k as int]);
        }
        assert(shared_pieces(x, y) =~= Seq::<Seq<char>>::empty());
        assert(av.take(k as int) + Seq::<Seq<char>>::empty() =~= av.take(k as int));
    }
    k
}

/// The path that two paths share at their start, written with `\` between
/// its components; nothing when they share no component.
pub fn common_prefix(left: &str, right: &str) -> (r: Option<String>)
    ensures
        ({
            let s = shared_pieces(path_pieces(left@), path_pieces(right@));
            &&& s.len() == 0 ==> r is None
            &&& s.len() > 0 ==> (r matches Some(p) && p@ == rendered_path(s))
        }),
{
    let a = path_components(left);
    let b = path_components(right);
    let k = shared_count(&a, &b);
    if k == 0 {
        return None;
    }
    proof {
        reveal_strlit("\\");
        assert(a@.map_values(|c: String| c@).subrange(0, k as int) =~= a@.map_values(|c: String| c@).take(
            k as int,
        ));
    }
    Some(join_range(&a, 0, k, "\\"))
}

/// The components of a path's parent: all but its last; nothing for a
/// path without components.
pub open spec fn parent_pieces(path: Seq<char>) -> Option<Seq<Seq<char>>> {
    let ps = path_pieces(path);
    if ps.len() == 0 {
        None
    } else {
        Some(ps.drop_last())
    }
}

/// The parents of some paths, in order, for the paths that have one.
pub open spec fn parents_of(paths: Seq<Seq<char>>) -> Seq<Seq<Seq<char>>>
    decreases paths.len(),
{
    if paths.len() == 0 {
        seq![]
    } else {
        let prev = parents_of(paths.drop_last());
        match parent_pieces(paths.last()) {
            Some(p) => prev.push(p),
            None => prev,
        }
    }
}

/// The start that a list of paths shares, taken path by path: each path
/// narrows the prefix to what it shares with it, unless it shares nothing.
pub open spec fn narrowed(prefix: Seq<Seq<char>>, rest: Seq<Seq<Seq<char>>>) -> Seq<Seq<char>>
    decreases rest.len(),
{
    if rest.len() == 0 {
        prefix
    } else {
        let p = narrowed(prefix, rest.drop_last());
        let s = shared_pieces(p, rest.last());
        if s.len() > 0 {
            s
        } else {
            p
        }
    }
}

/// The root directory that a set of files suggests (see `project_root_of`).
pub open spec fn suggested_root(paths: Seq<Seq<char>>) -> Option<Seq<char>> {
    let ps = parents_of(paths);
    if ps.len() == 0 {
        None
    } else {
        Some(rendered_path(narrowed(ps[0], ps.skip(1))))
    }
}

/// The root directory of a project: the registered one, else the start
/// shared by the parents of its files (nothing without files).
pub open spec fn project_root_of(registered: Option<Seq<char>>, paths: Seq<Seq<char>>) -> Option<Seq<char>> {
    match registered {
        Some(r) => Some(r),
        None => suggested_root(paths),
    }
}

/// The components of the parent of a path, if it has one.
fn parent_components(path: &str) -> (r: Option<Vec<String>>)
    ensures
        match r {
            Some(v) => parent_pieces(path@) == Some(v@.map_values(|c: String| c@)),
            None => parent_pieces(path@) is None,
        },
{
    let mut comps = path_components(path);
    if comps.len() == 0 {
        return None;
    }
    let ghost before = comps@;
    comps.pop();
    proof {
        assert(comps@.map_values(|c: String| c@) =~= before.map_values(|c: String| c@).drop_last());
    }
    Some(comps)
}

/// The root directory of a project (see `project_root_of`).
pub fn resolve_project_root(registered: Option<String>, file_paths: &Vec<String>) -> (r: Option<String>)
    ensures
        match r {
            Some(root) => project_root_of(opt_path(registered), file_paths@.map_values(|p: String| p@))
                == Some(root@),
            None => project_root_of(opt_path(registered), file_paths@.map_values(|p: String| p@)) is None,
        },
{
    if let Some(root) = registered {
        return Some(root);
    }
    let ghost pv = file_paths@.map_values(|p: String| p@);
    let mut prefix: Option<Vec<String>> = None;
    let mut k: usize = 0;
    proof {
        assert(pv.take(0) =~= Seq::<Seq<char>>::empty());
    }
    while k < file_paths.len()
        invariant
            k <= file_paths.len(),
            pv == file_paths@.map_values(|p: String| p@),
            ({
                let ps = parents_of(pv.take(k as int));
                match prefix {
                    None => ps.len() == 0,
                    Some(v) => ps.len() > 0 && v@.map_values(|c: String| c@) == narrowed(ps[0], ps.skip(1)),
                }
            }),
        decreases file_paths.len() - k,
    {
        let ghost ps = parents_of(pv.take(k as int));
        proof {
            assert(pv.take(k + 1).drop_last() =~= pv.take(k as int));
            assert(pv.take(k + 1).last() == pv[k as int]);
        }
        match parent_components(file_paths[k].as_str()) {
            None => {},
            Some(parent) => {
                let ghost pp = parent@.map_values(|c: String| c@);
                let ghost ps2 = ps.push(pp);
                match prefix {
                    None => {
                        proof {
                            assert(ps2.skip(1) =~= Seq::<Seq<Seq<char>>>::empty());
                        }
                        prefix = Some(parent);
                    },
                    Some(cur) => {
                        let n = shared_count(&cur, &parent);
                        proof {
                            assert(ps2[0] == ps[0]);
                            assert(ps2.skip(1).drop_last() =~= ps.skip(1));
                            assert(ps2.skip(1).last() == pp);
                        }
                        if n > 0 {
                            let mut kept = cur;
                            let ghost cv = kept@;
                            kept.truncate(n);
                            proof {
                                assert(kept@ =~= cv.take(n as int));
                                assert(kept@.map_values(|c: String| c@) =~= cv.map_values(|c: String| c@).take(n as int));
                            }
                            prefix = Some(kept);
                        } else {
                            prefix = Some(cur);
                        }
                    },
                }
            },
        }
        k += 1;
    }
    proof {
        assert(pv.take(file_paths.len() as int) =~= pv);
    }
    match prefix {
        None => None,
        Some(v) => {
            proof {
                reveal_strlit("\\");
                assert(v@.map_values(|c: String| c@).subrange(0, v@.len() as int) =~= v@.map_values(|c: String| c@));
            }
            Some(join_range(&v, 0, v.len(), "\\"))
        },
    }
}

/// The view of an optional path.
pub open spec fn opt_path(o: Option<String>) -> Option<Seq<char>> {
    match o {
        Some(s) => Some(s@),
        None => None,
    }
}

} // verus!

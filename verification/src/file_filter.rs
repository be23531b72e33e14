//! Which files of a project are worth indexing.
use crate::path::{extension, extension_of, file_name, file_name_of, path_components, path_pieces};
use crate::text::{
    string_from_chars, string_from_range,
    ascii_lower, chars_of, concat_str, contains_chars, contains_seq, lowercase, str_eq,
    to_lowercase,
};
use vstd::prelude::*;

verus! {

broadcast use vstd::seq_lib::group_seq_properties;

/// Directory names whose contents are never indexed.
pub open spec fn is_ignored_dir(n: Seq<char>) -> bool {
    n == ".git"@ || n == ".hg"@ || n == ".svn"@ || n == ".idea"@ || n == ".vscode"@ || n
        == "node_modules"@ || n == "dist"@ || n == "build"@ || n == "target"@ || n == "out"@ || n
        == "coverage"@ || n == ".next"@ || n == ".turbo"@ || n == ".cache"@ || n == ".venv"@ || n
        == "__pycache__"@
}

/// Extensions of text files that are indexed.
pub open spec fn is_allowed_ext(e: Seq<char>) -> bool {
    e == "md"@ || e == "markdown"@ || e == "txt"@ || e == "rst"@ || e == "adoc"@ || e == "org"@
        || e == "rs"@ || e == "go"@ || e == "py"@ || e == "js"@ || e == "jsx"@ || e == "ts"@ || e
        == "tsx"@ || e == "java"@ || e == "kt"@ || e == "swift"@ || e == "rb"@ || e == "php"@ || e
        == "cs"@ || e == "fs"@ || e == "scala"@ || e == "c"@ || e == "h"@ || e == "cc"@ || e
        == "cpp"@ || e == "hpp"@ || e == "json"@ || e == "toml"@ || e == "yaml"@ || e == "yml"@
        || e == "ini"@ || e == "cfg"@ || e == "conf"@ || e == "env"@ || e == "sql"@ || e
        == "html"@ || e == "css"@ || e == "scss"@ || e == "less"@ || e == "xml"@ || e == "vue"@
        || e == "svelte"@ || e == "sh"@ || e == "bat"@ || e == "ps1"@ || e == "dockerfile"@ || e
        == "makefile"@ || e == "gradle"@ || e == "properties"@
}

/// Extensions of binary or media files that are never indexed.
pub open spec fn is_disallowed_ext(e: Seq<char>) -> bool {
    e == "png"@ || e == "jpg"@ || e == "jpeg"@ || e == "gif"@ || e == "bmp"@ || e == "svg"@ || e
        == "webp"@ || e == "mp3"@ || e == "wav"@ || e == "flac"@ || e == "ogg"@ || e == "mp4"@
        || e == "mkv"@ || e == "avi"@ || e == "mov"@ || e == "zip"@ || e == "rar"@ || e == "7z"@
        || e == "tar"@ || e == "gz"@ || e == "bz2"@ || e == "pdf"@ || e == "doc"@ || e == "docx"@
        || e == "ppt"@ || e == "pptx"@ || e == "xls"@ || e == "xlsx"@ || e == "exe"@ || e
        == "dll"@ || e == "so"@ || e == "dylib"@
}

/// The extensions of script sources that may be minified.
pub open spec fn is_script_ext(e: Seq<char>) -> bool {
    e == "js"@ || e == "jsx"@ || e == "ts"@ || e == "tsx"@
}

/// The lower-cased name of the first component of `ps` that is an ignored
/// directory, if any.
pub open spec fn first_ignored(ps: Seq<Seq<char>>) -> Option<Seq<char>>
    decreases ps.len(),
{
    if ps.len() == 0 {
        None
    } else if is_ignored_dir(lowercase(ps[0])) {
        Some(lowercase(ps[0]))
    } else {
        first_ignored(ps.drop_first())
    }
}

/// Why a path is left out of the index, if it is: it lies under an ignored
/// directory.
pub open spec fn skip_reason(path: Seq<char>) -> Option<Seq<char>> {
    match first_ignored(path_pieces(path)) {
        Some(n) => Some("ignored dir: "@ + n),
        None => None,
    }
}

/// Whether a path names an indexable text file by its extension (or, with
/// none, by being a Dockerfile or Makefile).
pub open spec fn ext_allowed(path: Seq<char>) -> bool {
    match extension_of(path) {
        None => {
            let name = match file_name_of(path) {
                Some(n) => n,
                None => Seq::<char>::empty(),
            };
            ascii_lower(name) == ascii_lower("dockerfile"@) || ascii_lower(name) == ascii_lower(
                "makefile"@,
            )
        },
        Some(e) => !is_disallowed_ext(lowercase(e)) && is_allowed_ext(lowercase(e)),
    }
}

/// The lines of `s` (`str::lines`), `cur` being the line read so far: lines
/// end at `\n`, a `\r` just before it is dropped, and a last line ending at
/// the end of the text counts only when it is not empty.
pub open spec fn split_lines(s: Seq<char>, cur: Seq<char>) -> Seq<Seq<char>>
    decreases s.len(),
{
    if s.len() == 0 {
        if cur.len() == 0 {
            seq![]
        } else {
            seq![cur]
        }
    } else if s[0] == '\n' {
        seq![strip_cr(cur)] + split_lines(s.drop_first(), seq![])
    } else {
        split_lines(s.drop_first(), cur.push(s[0]))
    }
}

/// A line without the `\r` that ends it, if it ends with one.
pub open spec fn strip_cr(l: Seq<char>) -> Seq<char> {
    if l.len() > 0 && l.last() == '\r' {
        l.drop_last()
    } else {
        l
    }
}

/// The lines of `s`.
pub open spec fn lines_of(s: Seq<char>) -> Seq<Seq<char>> {
    split_lines(s, seq![])
}

/// The length of the longest of `ls`, or 0.
pub open spec fn max_len(ls: Seq<Seq<char>>) -> nat
    decreases ls.len(),
{
    if ls.len() == 0 {
        0
    } else {
        let m = max_len(ls.drop_last());
        if ls.last().len() > m {
            ls.last().len()
        } else {
            m
        }
    }
}

/// Whether the text of a script looks minified: a line over 4000
/// characters, a line over 2000 characters in fewer than 5 lines, or more
/// than 200 000 bytes in at most 3 lines.
pub open spec fn looks_minified(text: Seq<char>) -> bool {
    let ls = lines_of(text);
    ||| max_len(ls) > 4000
    ||| (max_len(ls) > 2000 && ls.len() < 5)
    ||| (ls.len() <= 3 && vstd::utf8::encode_utf8(text).len() as usize > 200_000)
}

/// Whether a file is minified script code: a `.js`, `.jsx`, `.ts` or `.tsx`
/// file whose name contains `.min.` or whose text looks minified.
pub open spec fn minified(path: Seq<char>, text: Seq<char>) -> bool {
    match extension_of(path) {
        None => false,
        Some(e) => {
            let name = match file_name_of(path) {
                Some(n) => n,
                None => Seq::<char>::empty(),
            };
            is_script_ext(lowercase(e)) && (contains_seq(lowercase(name), ".min."@)
                || looks_minified(text))
        },
    }
}

pub proof fn lemma_max_len_append(a: Seq<Seq<char>>, b: Seq<Seq<char>>)
    ensures
        max_len(a + b) >= max_len(a),
    decreases b.len(),
{
    if b.len() == 0 {
        assert(a + b =~= a);
    } else {
        lemma_max_len_append(a, b.drop_last());
        assert((a + b).drop_last() =~= a + b.drop_last());
    }
}

pub proof fn lemma_max_len_push(a: Seq<Seq<char>>, l: Seq<char>)
    ensures
        max_len(a.push(l)) == if l.len() > max_len(a) {
            l.len()
        } else {
            max_len(a)
        },
{
    assert(a.push(l).drop_last() =~= a);
}

/// Whether a lower-cased directory name is one that indexing skips.
pub fn is_ignored_dir_name(n: &str) -> (r: bool)
    ensures
        r == is_ignored_dir(n@),
{
    str_eq(n, ".git") || str_eq(n, ".hg") || str_eq(n, ".svn") || str_eq(n, ".idea") || str_eq(
        n,
        ".vscode",
    ) || str_eq(n, "node_modules") || str_eq(n, "dist") || str_eq(n, "build") || str_eq(
        n,
        "target",
    ) || str_eq(n, "out") || str_eq(n, "coverage") || str_eq(n, ".next") || str_eq(n, ".turbo")
        || str_eq(n, ".cache") || str_eq(n, ".venv") || str_eq(n, "__pycache__")
}

/// Whether a lower-cased extension is a known text or source one.
pub fn is_allowed_ext_name(e: &str) -> (r: bool)
    ensures
        r == is_allowed_ext(e@),
{
    str_eq(e, "md") || str_eq(e, "markdown") || str_eq(e, "txt") || str_eq(e, "rst") || str_eq(
        e,
        "adoc",
    ) || str_eq(e, "org") || str_eq(e, "rs") || str_eq(e, "go") || str_eq(e, "py") || str_eq(
        e,
        "js",
    ) || str_eq(e, "jsx") || str_eq(e, "ts") || str_eq(e, "tsx") || str_eq(e, "java") || str_eq(
        e,
        "kt",
    ) || str_eq(e, "swift") || str_eq(e, "rb") || str_eq(e, "php") || str_eq(e, "cs") || str_eq(
        e,
        "fs",
    ) || str_eq(e, "scala") || str_eq(e, "c") || str_eq(e, "h") || str_eq(e, "cc") || str_eq(
        e,
        "cpp",
    ) || str_eq(e, "hpp") || str_eq(e, "json") || str_eq(e, "toml") || str_eq(e, "yaml")
        || str_eq(e, "yml") || str_eq(e, "ini") || str_eq(e, "cfg") || str_eq(e, "conf")
        || str_eq(e, "env") || str_eq(e, "sql") || str_eq(e, "html") || str_eq(e, "css")
        || str_eq(e, "scss") || str_eq(e, "less") || str_eq(e, "xml") || str_eq(e, "vue")
        || str_eq(e, "svelte") || str_eq(e, "sh") || str_eq(e, "bat") || str_eq(e, "ps1")
        || str_eq(e, "dockerfile") || str_eq(e, "makefile") || str_eq(e, "gradle") || str_eq(
        e,
        "properties",
    )
}

/// Whether a lower-cased extension is a known binary one.
pub fn is_disallowed_ext_name(e: &str) -> (r: bool)
    ensures
        r == is_disallowed_ext(e@),
{
    str_eq(e, "png") || str_eq(e, "jpg") || str_eq(e, "jpeg") || str_eq(e, "gif") || str_eq(
        e,
        "bmp",
    ) || str_eq(e, "svg") || str_eq(e, "webp") || str_eq(e, "mp3") || str_eq(e, "wav") || str_eq(
        e,
        "flac",
    ) || str_eq(e, "ogg") || str_eq(e, "mp4") || str_eq(e, "mkv") || str_eq(e, "avi") || str_eq(
        e,
        "mov",
    ) || str_eq(e, "zip") || str_eq(e, "rar") || str_eq(e, "7z") || str_eq(e, "tar") || str_eq(
        e,
        "gz",
    ) || str_eq(e, "bz2") || str_eq(e, "pdf") || str_eq(e, "doc") || str_eq(e, "docx") || str_eq(
        e,
        "ppt",
    ) || str_eq(e, "pptx") || str_eq(e, "xls") || str_eq(e, "xlsx") || str_eq(e, "exe")
        || str_eq(e, "dll") || str_eq(e, "so") || str_eq(e, "dylib")
}

/// `str::eq_ignore_ascii_case`.
pub fn eq_ignore_ascii_case(a: &str, b: &str) -> (r: bool)
    ensures
        r == (ascii_lower(a@) == ascii_lower(b@)),
{
    let la = crate::text::to_ascii_lowercase(a);
    let lb = crate::text::to_ascii_lowercase(b);
    str_eq(la.as_str(), lb.as_str())
}

/// The reason for leaving `path` out of the index, if it lies under an
/// ignored directory (`.git`, `node_modules`, `target`, ...): `"ignored dir: "`
/// and the lower-cased name of the first such component.
pub fn should_skip_path(path: &str) -> (r: Option<String>)
    ensures
        match r {
            Some(reason) => skip_reason(path@) == Some(reason@),
            None => skip_reason(path@) is None,
        },
{
    let comps = path_components(path);
    let ghost ps = comps@.map_values(|c: String| c@);
    let mut i: usize = 0;
    proof {
        assert(ps.skip(0) =~= ps);
    }
    while i < comps.len()
        invariant
            i <= comps.len(),
            ps == comps@.map_values(|c: String| c@),
            ps == path_pieces(path@),
            first_ignored(ps) == first_ignored(ps.skip(i as int)),
        decreases comps.len() - i,
    {
        let name = to_lowercase(comps[i].as_str());
        proof {
            assert(ps.skip(i as int)[0] == comps@[i as int]@);
            assert(ps.skip(i as int).drop_first() =~= ps.skip(i + 1));
        }
        if is_ignored_dir_name(name.as_str()) {
            return Some(concat_str("ignored dir: ", name.as_str()));
        }
        i += 1;
    }
    proof {
        assert(ps.skip(i as int) =~= Seq::<Seq<char>>::empty());
    }
    None
}

/// Whether `path` names an indexable text file: by its lower-cased
/// extension, which must be a known text or source extension and not a known
/// binary one, or, with no extension, by being named Dockerfile or Makefile
/// (in any ASCII case).
pub fn extension_allowed(path: &str) -> (r: bool)
    ensures
        r == ext_allowed(path@),
{
    match extension(path) {
        None => {
            let name = match file_name(path) {
                Some(n) => n,
                None => String::new(),
            };
            eq_ignore_ascii_case(name.as_str(), "dockerfile") || eq_ignore_ascii_case(
                name.as_str(),
                "makefile",
            )
        },
        Some(ext) => {
            let ext = to_lowercase(ext.as_str());
            if is_disallowed_ext_name(ext.as_str()) {
                return false;
            }
            is_allowed_ext_name(ext.as_str())
        },
    }
}

/// Whether `text` looks minified (see `looks_minified`).
pub fn text_looks_minified(text: &str) -> (r: bool)
    ensures
        r == looks_minified(text@),
{
    let cs = chars_of(text);
    let mut max_line: usize = 0;
    let mut lines: usize = 0;
    let mut cur_len: usize = 0;
    let mut last_cr = false;
    let ghost mut done: Seq<Seq<char>> = seq![];
    let ghost mut cur: Seq<char> = seq![];
    let mut i: usize = 0;
    proof {
        assert(cs@.skip(0) =~= cs@);
    }
    while i < cs.len()
        invariant
            i <= cs.len(),
            cs@ == text@,
            lines_of(text@) == done + split_lines(cs@.skip(i as int), cur),
            lines == done.len(),
            max_line == max_len(done),
            max_line <= 4000,
            cur_len == cur.len(),
            cur_len <= i,
            lines + cur_len <= i,
            last_cr == (cur.len() > 0 && cur.last() == '\r'),
        decreases cs.len() - i,
    {
        let ghost rest = cs@.skip(i as int);
        proof {
            assert(rest[0] == cs@[i as int]);
            assert(rest.drop_first() =~= cs@.skip(i + 1));
        }
        let c = cs[i];
        if c == '\n' {
            let len = if last_cr {
                cur_len - 1
            } else {
                cur_len
            };
            proof {
                assert(strip_cr(cur).len() == len);
                lemma_max_len_push(done, strip_cr(cur));
                assert(done + (seq![strip_cr(cur)] + split_lines(rest.drop_first(), seq![]))
                    =~= done.push(strip_cr(cur)) + split_lines(rest.drop_first(), seq![]));
                done = done.push(strip_cr(cur));
                cur = seq![];
            }
            lines += 1;
            if len > max_line {
                max_line = len;
            }
            if max_line > 4000 {
                proof {
                    lemma_max_len_append(done, split_lines(cs@.skip(i + 1), cur));
                }
                return true;
            }
            cur_len = 0;
            last_cr = false;
        } else {
            proof {
                cur = cur.push(c);
            }
            cur_len += 1;
            last_cr = c == '\r';
        }
        i += 1;
    }
    proof {
        assert(cs@.skip(i as int) =~= Seq::<char>::empty());
    }
    let ghost ls = if cur_len > 0 {
        done.push(cur)
    } else {
        done
    };
    if cur_len > 0 {
        proof {
            lemma_max_len_push(done, cur);
            assert(done + seq![cur] =~= done.push(cur));
        }
        lines += 1;
        if cur_len > max_line {
            max_line = cur_len;
        }
    } else {
        proof {
            assert(cur =~= Seq::<char>::empty());
            assert(done + Seq::<Seq<char>>::empty() =~= done);
        }
    }
    assert(lines_of(text@) == ls);
    assert(lines == ls.len());
    assert(max_line == max_len(ls));
    if max_line > 4000 {
        return true;
    }
    if max_line > 2000 && lines < 5 {
        return true;
    }
    if lines <= 3 && text.len() > 200_000 {
        return true;
    }
    false
}

/// Whether `path` with contents `text` is minified script code: its
/// lower-cased extension is `js`, `jsx`, `ts` or `tsx`, and its lower-cased
/// file name contains `.min.` or its text looks minified.
pub fn is_minified_code(path: &str, text: &str) -> (r: bool)
    ensures
        r == minified(path@, text@),
{
    let ext = match extension(path) {
        Some(e) => e,
        None => return false,
    };
    let ext = to_lowercase(ext.as_str());
    let name = match file_name(path) {
        Some(n) => n,
        None => String::new(),
    };
    let name_lower = to_lowercase(name.as_str());
    script_minified(ext.as_str(), name_lower.as_str(), text)
}

/// Whether a file with this lower-cased extension and lower-cased name, and
/// with contents `text`, is minified script code: the extension is `js`,
/// `jsx`, `ts` or `tsx`, and the name contains `.min.` or the text looks
/// minified.
pub fn script_minified(ext: &str, name: &str, text: &str) -> (r: bool)
    ensures
        r == (is_script_ext(ext@) && (contains_seq(name@, ".min."@) || looks_minified(text@))),
{
    if !(str_eq(ext, "js") || str_eq(ext, "jsx") || str_eq(ext, "ts") || str_eq(ext, "tsx")) {
        return false;
    }
    let hay = chars_of(name);
    let needle = chars_of(".min.");
    if contains_chars(&hay, &needle) {
        return true;
    }
    text_looks_minified(text)
}

/// The lines of a text (`str::lines`, see `lines_of`).
pub fn text_lines(text: &str) -> (r: Vec<String>)
    ensures
        r@.map_values(|l: String| l@) == lines_of(text@),
{
    let cs = chars_of(text);
    let mut out: Vec<String> = Vec::new();
    let mut cur: Vec<char> = Vec::new();
    let mut i: usize = 0;
    proof {
        assert(cs@.skip(0) =~= cs@);
        assert(out@.map_values(|l: String| l@) =~= Seq::<Seq<char>>::empty());
        assert(Seq::<Seq<char>>::empty() + split_lines(cs@, seq![]) =~= split_lines(cs@, seq![]));
    }
    while i < cs.len()
        invariant
            i <= cs.len(),
            cs@ == text@,
            lines_of(text@) == out@.map_values(|l: String| l@) + split_lines(cs@.skip(i as int), cur@),
        decreases cs.len() - i,
    {
        let ghost rest = cs@.skip(i as int);
        let ghost done = out@.map_values(|l: String| l@);
        proof {
            assert(rest[0] == cs@[i as int]);
            assert(rest.drop_first() =~= cs@.skip(i + 1));
        }
        let c = cs[i];
        if c == '\n' {
            let end = if cur.len() > 0 && cur[cur.len() - 1] == '\r' {
                cur.len() - 1
            } else {
                cur.len()
            };
            let line = string_from_range(&cur, 0, end);
            proof {
                assert(line@ == strip_cr(cur@)) by {
                    if cur@.len() > 0 && cur@.last() == '\r' {
                        assert(cur@.subrange(0, end as int) =~= cur@.drop_last());
                    } else {
                        assert(cur@.subrange(0, end as int) =~= cur@);
                    }
                }
            }
            out.push(line);
            cur = Vec::new();
            proof {
                assert(out@.map_values(|l: String| l@) =~= done.push(line@));
            }
        } else {
            cur.push(c);
        }
        i += 1;
    }
    proof {
        assert(cs@.skip(i as int) =~= Seq::<char>::empty());
    }
    if cur.len() > 0 {
        let ghost done = out@.map_values(|l: String| l@);
        let line = string_from_chars(&cur);
        out.push(line);
        proof {
            assert(out@.map_values(|l: String| l@) =~= done.push(cur@));
            assert(done + seq![cur@] =~= done.push(cur@));
        }
    } else {
        proof {
            assert(cur@ =~= Seq::<char>::empty());
            assert(out@.map_values(|l: String| l@) + Seq::<Seq<char>>::empty() =~= out@.map_values(
                |l: String| l@,
            ));
        }
    }
    out
}

/// A binary extension, spelled out.
proof fn lemma_binary_shape(x: Seq<char>)
    requires
        is_disallowed_ext(x),
    ensures
        ({
            ||| (x.len() == 3 && x[0] == 'p' && x[1] == 'n' && x[2] == 'g')
            ||| (x.len() == 3 && x[0] == 'j' && x[1] == 'p' && x[2] == 'g')
            ||| (x.len() == 4 && x[0] == 'j' && x[1] == 'p' && x[2] == 'e' && x[3] == 'g')
            ||| (x.len() == 3 && x[0] == 'g' && x[1] == 'i' && x[2] == 'f')
            ||| (x.len() == 3 && x[0] == 'b' && x[1] == 'm' && x[2] == 'p')
            ||| (x.len() == 3 && x[0] == 's' && x[1] == 'v' && x[2] == 'g')
            ||| (x.len() == 4 && x[0] == 'w' && x[1] == 'e' && x[2] == 'b' && x[3] == 'p')
            ||| (x.len() == 3 && x[0] == 'm' && x[1] == 'p' && x[2] == '3')
            ||| (x.len() == 3 && x[0] == 'w' && x[1] == 'a' && x[2] == 'v')
            ||| (x.len() == 4 && x[0] == 'f' && x[1] == 'l' && x[2] == 'a' && x[3] == 'c')
            ||| (x.len() == 3 && x[0] == 'o' && x[1] == 'g' && x[2] == 'g')
            ||| (x.len() == 3 && x[0] == 'm' && x[1] == 'p' && x[2] == '4')
            ||| (x.len() == 3 && x[0] == 'm' && x[1] == 'k' && x[2] == 'v')
            ||| (x.len() == 3 && x[0] == 'a' && x[1] == 'v' && x[2] == 'i')
            ||| (x.len() == 3 && x[0] == 'm' && x[1] == 'o' && x[2] == 'v')
            ||| (x.len() == 3 && x[0] == 'z' && x[1] == 'i' && x[2] == 'p')
            ||| (x.len() == 3 && x[0] == 'r' && x[1] == 'a' && x[2] == 'r')
            ||| (x.len() == 2 && x[0] == '7' && x[1] == 'z')
            ||| (x.len() == 3 && x[0] == 't' && x[1] == 'a' && x[2] == 'r')
            ||| (x.len() == 2 && x[0] == 'g' && x[1] == 'z')
            ||| (x.len() == 3 && x[0] == 'b' && x[1] == 'z' && x[2] == '2')
            ||| (x.len() == 3 && x[0] == 'p' && x[1] == 'd' && x[2] == 'f')
            ||| (x.len() == 3 && x[0] == 'd' && x[1] == 'o' && x[2] == 'c')
            ||| (x.len() == 4 && x[0] == 'd' && x[1] == 'o' && x[2] == 'c' && x[3] == 'x')
            ||| (x.len() == 3 && x[0] == 'p' && x[1] == 'p' && x[2] == 't')
            ||| (x.len() == 4 && x[0] == 'p' && x[1] == 'p' && x[2] == 't' && x[3] == 'x')
            ||| (x.len() == 3 && x[0] == 'x' && x[1] == 'l' && x[2] == 's')
            ||| (x.len() == 4 && x[0] == 'x' && x[1] == 'l' && x[2] == 's' && x[3] == 'x')
            ||| (x.len() == 3 && x[0] == 'e' && x[1] == 'x' && x[2] == 'e')
            ||| (x.len() == 3 && x[0] == 'd' && x[1] == 'l' && x[2] == 'l')
            ||| (x.len() == 2 && x[0] == 's' && x[1] == 'o')
            ||| (x.len() == 5 && x[0] == 'd' && x[1] == 'y' && x[2] == 'l' && x[3] == 'i' && x[4] == 'b')
        }),
{
    reveal_strlit("png");
    reveal_strlit("jpg");
    reveal_strlit("jpeg");
    reveal_strlit("gif");
    reveal_strlit("bmp");
    reveal_strlit("svg");
    reveal_strlit("webp");
    reveal_strlit("mp3");
    reveal_strlit("wav");
    reveal_strlit("flac");
    reveal_strlit("ogg");
    reveal_strlit("mp4");
    reveal_strlit("mkv");
    reveal_strlit("avi");
    reveal_strlit("mov");
    reveal_strlit("zip");
    reveal_strlit("rar");
    reveal_strlit("7z");
    reveal_strlit("tar");
    reveal_strlit("gz");
    reveal_strlit("bz2");
    reveal_strlit("pdf");
    reveal_strlit("doc");
    reveal_strlit("docx");
    reveal_strlit("ppt");
    reveal_strlit("pptx");
    reveal_strlit("xls");
    reveal_strlit("xlsx");
    reveal_strlit("exe");
    reveal_strlit("dll");
    reveal_strlit("so");
    reveal_strlit("dylib");
}

/// None of the indexed extensions is a binary one.
proof fn lemma_allowed_not_binary(a: Seq<char>)
    requires
        a == "md"@ || a == "markdown"@ || a == "txt"@ || a == "rst"@ || a == "adoc"@ || a == "org"@ || a == "rs"@ || a == "go"@ || a == "py"@ || a == "js"@ || a == "jsx"@ || a == "ts"@ || a == "tsx"@ || a == "java"@ || a == "kt"@ || a == "swift"@ || a == "rb"@ || a == "php"@ || a == "cs"@ || a == "fs"@ || a == "scala"@ || a == "c"@ || a == "h"@ || a == "cc"@ || a == "cpp"@ || a == "hpp"@ || a == "json"@ || a == "toml"@ || a == "yaml"@ || a == "yml"@ || a == "ini"@ || a == "cfg"@ || a == "conf"@ || a == "env"@ || a == "sql"@ || a == "html"@ || a == "css"@ || a == "scss"@ || a == "less"@ || a == "xml"@ || a == "vue"@ || a == "svelte"@ || a == "sh"@ || a == "bat"@ || a == "ps1"@ || a == "dockerfile"@ || a == "makefile"@ || a == "gradle"@ || a == "properties"@,
    ensures
        !is_disallowed_ext(a),
{
    if is_disallowed_ext(a) {
        lemma_binary_shape(a);
        if a == "md"@ {
            reveal_strlit("md");
        }
        if a == "markdown"@ {
            reveal_strlit("markdown");
        }
        if a == "txt"@ {
            reveal_strlit("txt");
        }
        if a == "rst"@ {
            reveal_strlit("rst");
        }
        if a == "adoc"@ {
            reveal_strlit("adoc");
        }
        if a == "org"@ {
            reveal_strlit("org");
        }
        if a == "rs"@ {
            reveal_strlit("rs");
        }
        if a == "go"@ {
            reveal_strlit("go");
        }
        if a == "py"@ {
            reveal_strlit("py");
        }
        if a == "js"@ {
            reveal_strlit("js");
        }
        if a == "jsx"@ {
            reveal_strlit("jsx");
        }
        if a == "ts"@ {
            reveal_strlit("ts");
        }
        if a == "tsx"@ {
            reveal_strlit("tsx");
        }
        if a == "java"@ {
            reveal_strlit("java");
        }
        if a == "kt"@ {
            reveal_strlit("kt");
        }
        if a == "swift"@ {
            reveal_strlit("swift");
        }
        if a == "rb"@ {
            reveal_strlit("rb");
        }
        if a == "php"@ {
            reveal_strlit("php");
        }
        if a == "cs"@ {
            reveal_strlit("cs");
        }
        if a == "fs"@ {
            reveal_strlit("fs");
        }
        if a == "scala"@ {
            reveal_strlit("scala");
        }
        if a == "c"@ {
            reveal_strlit("c");
        }
        if a == "h"@ {
            reveal_strlit("h");
        }
        if a == "cc"@ {
            reveal_strlit("cc");
        }
        if a == "cpp"@ {
            reveal_strlit("cpp");
        }
        if a == "hpp"@ {
            reveal_strlit("hpp");
        }
        if a == "json"@ {
            reveal_strlit("json");
        }
        if a == "toml"@ {
            reveal_strlit("toml");
        }
        if a == "yaml"@ {
            reveal_strlit("yaml");
        }
        if a == "yml"@ {
            reveal_strlit("yml");
        }
        if a == "ini"@ {
            reveal_strlit("ini");
        }
        if a == "cfg"@ {
            reveal_strlit("cfg");
        }
        if a == "conf"@ {
            reveal_strlit("conf");
        }
        if a == "env"@ {
            reveal_strlit("env");
        }
        if a == "sql"@ {
            reveal_strlit("sql");
        }
        if a == "html"@ {
            reveal_strlit("html");
        }
        if a == "css"@ {
            reveal_strlit("css");
        }
        if a == "scss"@ {
            reveal_strlit("scss");
        }
        if a == "less"@ {
            reveal_strlit("less");
        }
        if a == "xml"@ {
            reveal_strlit("xml");
        }
        if a == "vue"@ {
            reveal_strlit("vue");
        }
        if a == "svelte"@ {
            reveal_strlit("svelte");
        }
        if a == "sh"@ {
            reveal_strlit("sh");
        }
        if a == "bat"@ {
            reveal_strlit("bat");
        }
        if a == "ps1"@ {
            reveal_strlit("ps1");
        }
        if a == "dockerfile"@ {
            reveal_strlit("dockerfile");
        }
        if a == "makefile"@ {
            reveal_strlit("makefile");
        }
        if a == "gradle"@ {
            reveal_strlit("gradle");
        }
        if a == "properties"@ {
            reveal_strlit("properties");
        }
    }
}

/// The text and source extensions that are indexed: a path whose
/// extension, lower-cased, is one of these passes the extension check.
pub proof fn listed_extensions_are_indexed(path: Seq<char>)
    ensures
        extension_of(path) matches Some(e) && (lowercase(e) == "md"@ || lowercase(e) == "markdown"@ || lowercase(e) == "txt"@
            || lowercase(e) == "rst"@ || lowercase(e) == "adoc"@ || lowercase(e) == "org"@
            || lowercase(e) == "rs"@ || lowercase(e) == "go"@ || lowercase(e) == "py"@
            || lowercase(e) == "js"@ || lowercase(e) == "jsx"@ || lowercase(e) == "ts"@
            || lowercase(e) == "tsx"@ || lowercase(e) == "java"@ || lowercase(e) == "kt"@
            || lowercase(e) == "swift"@ || lowercase(e) == "rb"@ || lowercase(e) == "php"@
            || lowercase(e) == "cs"@ || lowercase(e) == "fs"@ || lowercase(e) == "scala"@
            || lowercase(e) == "c"@ || lowercase(e) == "h"@ || lowercase(e) == "cc"@
            || lowercase(e) == "cpp"@ || lowercase(e) == "hpp"@ || lowercase(e) == "json"@
            || lowercase(e) == "toml"@ || lowercase(e) == "yaml"@ || lowercase(e) == "yml"@
            || lowercase(e) == "ini"@ || lowercase(e) == "cfg"@ || lowercase(e) == "conf"@
            || lowercase(e) == "env"@ || lowercase(e) == "sql"@ || lowercase(e) == "html"@
            || lowercase(e) == "css"@ || lowercase(e) == "scss"@ || lowercase(e) == "less"@
            || lowercase(e) == "xml"@ || lowercase(e) == "vue"@ || lowercase(e) == "svelte"@
            || lowercase(e) == "sh"@ || lowercase(e) == "bat"@ || lowercase(e) == "ps1"@
            || lowercase(e) == "dockerfile"@ || lowercase(e) == "makefile"@
            || lowercase(e) == "gradle"@ || lowercase(e) == "properties"@) ==> ext_allowed(path),
{
    if let Some(e) = extension_of(path) {
        let l = lowercase(e);
        if l == "md"@ || l == "markdown"@ || l == "txt"@ || l == "rst"@ || l == "adoc"@ || l == "org"@ || l == "rs"@ || l == "go"@ || l == "py"@ || l == "js"@ || l == "jsx"@ || l == "ts"@ || l == "tsx"@ || l == "java"@ || l == "kt"@ || l == "swift"@ || l == "rb"@ || l == "php"@ || l == "cs"@ || l == "fs"@ || l == "scala"@ || l == "c"@ || l == "h"@ || l == "cc"@ || l == "cpp"@ || l == "hpp"@ || l == "json"@ || l == "toml"@ || l == "yaml"@ || l == "yml"@ || l == "ini"@ || l == "cfg"@ || l == "conf"@ || l == "env"@ || l == "sql"@ || l == "html"@ || l == "css"@ || l == "scss"@ || l == "less"@ || l == "xml"@ || l == "vue"@ || l == "svelte"@ || l == "sh"@ || l == "bat"@ || l == "ps1"@ || l == "dockerfile"@ || l == "makefile"@ || l == "gradle"@ || l == "properties"@ {
            lemma_allowed_not_binary(l);
        }
    }
}

/// The binary and media extensions that are never indexed: a path whose
/// extension, lower-cased, is one of these fails the extension check.
pub proof fn binary_extensions_are_not_indexed(path: Seq<char>)
    ensures
        extension_of(path) matches Some(e) && (lowercase(e) == "png"@ || lowercase(e) == "jpg"@ || lowercase(e) == "jpeg"@
            || lowercase(e) == "gif"@ || lowercase(e) == "bmp"@ || lowercase(e) == "svg"@
            || lowercase(e) == "webp"@ || lowercase(e) == "mp3"@ || lowercase(e) == "wav"@
            || lowercase(e) == "flac"@ || lowercase(e) == "ogg"@ || lowercase(e) == "mp4"@
            || lowercase(e) == "mkv"@ || lowercase(e) == "avi"@ || lowercase(e) == "mov"@
            || lowercase(e) == "zip"@ || lowercase(e) == "rar"@ || lowercase(e) == "7z"@
            || lowercase(e) == "tar"@ || lowercase(e) == "gz"@ || lowercase(e) == "bz2"@
            || lowercase(e) == "pdf"@ || lowercase(e) == "doc"@ || lowercase(e) == "docx"@
            || lowercase(e) == "ppt"@ || lowercase(e) == "pptx"@ || lowercase(e) == "xls"@
            || lowercase(e) == "xlsx"@ || lowercase(e) == "exe"@ || lowercase(e) == "dll"@
            || lowercase(e) == "so"@ || lowercase(e) == "dylib"@) ==> !ext_allowed(path),
{
}

/// A path under one of these directories (the name lower-cased) is skipped.
pub proof fn ignored_directories_are_skipped(ps: Seq<Seq<char>>, k: int)
    requires
        0 <= k < ps.len(),
        lowercase(ps[k]) == ".git"@ || lowercase(ps[k]) == ".hg"@
        || lowercase(ps[k]) == ".svn"@ || lowercase(ps[k]) == ".idea"@
        || lowercase(ps[k]) == ".vscode"@ || lowercase(ps[k]) == "node_modules"@
        || lowercase(ps[k]) == "dist"@ || lowercase(ps[k]) == "build"@
        || lowercase(ps[k]) == "target"@ || lowercase(ps[k]) == "out"@
        || lowercase(ps[k]) == "coverage"@ || lowercase(ps[k]) == ".next"@
        || lowercase(ps[k]) == ".turbo"@ || lowercase(ps[k]) == ".cache"@
        || lowercase(ps[k]) == ".venv"@ || lowercase(ps[k]) == "__pycache__"@,
    ensures
        first_ignored(ps) is Some,
    decreases k,
{
    if k > 0 && !is_ignored_dir(lowercase(ps[0])) {
        ignored_directories_are_skipped(ps.drop_first(), k - 1);
    }
}

} // verus!

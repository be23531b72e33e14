//! Splitting a text into overlapping chunks of bounded size, cut preferably
//! just after a sentence or clause boundary.
use crate::text::{all_ws, chars_of, contains_seq, occurs_at, range_is_blank, string_from_range};
use vstd::prelude::*;

verus! {

broadcast use vstd::seq_lib::group_seq_properties;

/// How far back from the size limit a chunk may be cut at a boundary.
pub const DEFAULT_SOFT_WINDOW: usize = 120;

/// The characters after which a chunk may be cut.
pub open spec fn is_boundary(c: char) -> bool {
    c == '\n' || c == '。' || c == '！' || c == '？' || c == '.' || c == '!' || c == '?' || c
        == ';' || c == '；' || c == '、' || c == '，' || c == ','
}

/// The first index that a boundary search before `end` looks at.
pub open spec fn window_start(start: int, end: int) -> int {
    let back = if end >= DEFAULT_SOFT_WINDOW as int {
        end - DEFAULT_SOFT_WINDOW as int
    } else {
        0
    };
    if back > start {
        back
    } else {
        start
    }
}

/// `k` is the last boundary character in `chars[window_start(start, end)..end]`.
pub open spec fn is_last_boundary(chars: Seq<char>, start: int, end: int, k: int) -> bool {
    &&& window_start(start, end) <= k < end
    &&& is_boundary(chars[k])
    &&& forall|j: int| k < j < end ==> !is_boundary(#[trigger] chars[j])
}

/// The cut position just after the last boundary character before `end`,
/// within the soft window, if there is one.
pub open spec fn boundary_cut(chars: Seq<char>, start: int, end: int) -> Option<int> {
    if exists|k: int| is_last_boundary(chars, start, end, k) {
        Some((choose|k: int| is_last_boundary(chars, start, end, k)) + 1)
    } else {
        None
    }
}

/// The end (exclusive) of the chunk that starts at `start`.
pub open spec fn chunk_end(chars: Seq<char>, start: int, size: int) -> int {
    let hard = if start + size < chars.len() {
        start + size
    } else {
        chars.len() as int
    };
    if hard < chars.len() {
        match boundary_cut(chars, start, hard) {
            Some(b) => if b > start {
                b
            } else {
                hard
            },
            None => hard,
        }
    } else {
        hard
    }
}

/// Where the chunk after the one spanning `start..end` begins.
pub open spec fn next_start(start: int, end: int, overlap: int) -> int {
    let back = if end >= overlap {
        end - overlap
    } else {
        0
    };
    if back <= start {
        end
    } else {
        back
    }
}

pub proof fn lemma_last_boundary_unique(chars: Seq<char>, start: int, end: int, k1: int, k2: int)
    requires
        is_last_boundary(chars, start, end, k1),
        is_last_boundary(chars, start, end, k2),
    ensures
        k1 == k2,
{
    if k1 < k2 {
        assert(!is_boundary(chars[k2]));
    } else if k2 < k1 {
        assert(!is_boundary(chars[k1]));
    }
}

pub proof fn lemma_chunk_end_bounds(chars: Seq<char>, start: int, size: int)
    requires
        0 <= start < chars.len(),
        size > 0,
    ensures
        start < chunk_end(chars, start, size) <= chars.len(),
        chunk_end(chars, start, size) - start <= size,
        chunk_end(chars, start, size) < chars.len() ==> (chunk_end(chars, start, size) == start
            + size || is_boundary(chars[chunk_end(chars, start, size) - 1])),
{
    let hard = if start + size < chars.len() {
        start + size
    } else {
        chars.len() as int
    };
    if hard < chars.len() {
        if exists|k: int| is_last_boundary(chars, start, hard, k) {
            let k = choose|k: int| is_last_boundary(chars, start, hard, k);
            assert(is_last_boundary(chars, start, hard, k));
        }
    }
}

/// The spans `(lo, hi)` of the chunks taken from `start` on, before blank
/// chunks are dropped.
pub open spec fn spans_from(chars: Seq<char>, start: int, size: int, overlap: int) -> Seq<
    (int, int),
>
    decreases chars.len() - start,
{
    if start < 0 || start >= chars.len() || size <= 0 || overlap < 0 {
        seq![]
    } else {
        let end = chunk_end(chars, start, size);
        proof {
            lemma_chunk_end_bounds(chars, start, size);
        }
        if end >= chars.len() {
            seq![(start, end)]
        } else {
            seq![(start, end)] + spans_from(chars, next_start(start, end, overlap), size, overlap)
        }
    }
}

/// The chunks taken from `start` on, blank ones left out.
pub open spec fn chunks_from(chars: Seq<char>, start: int, size: int, overlap: int) -> Seq<
    Seq<char>,
>
    decreases chars.len() - start,
{
    if start < 0 || start >= chars.len() || size <= 0 || overlap < 0 {
        seq![]
    } else {
        let end = chunk_end(chars, start, size);
        proof {
            lemma_chunk_end_bounds(chars, start, size);
        }
        let piece = chars.subrange(start, end);
        let rest = if end >= chars.len() {
            seq![]
        } else {
            chunks_from(chars, next_start(start, end, overlap), size, overlap)
        };
        if all_ws(piece) {
            rest
        } else {
            seq![piece] + rest
        }
    }
}

/// The overlap actually used: at most one less than the chunk size.
pub open spec fn effective_overlap(chunk_size: int, overlap: int) -> int {
    if overlap < chunk_size - 1 {
        overlap
    } else {
        chunk_size - 1
    }
}

/// The chunks of `text` for the given chunk size and overlap.
pub open spec fn chunk_text_spec(text: Seq<char>, chunk_size: int, overlap: int) -> Seq<Seq<char>> {
    if chunk_size == 0 {
        seq![]
    } else {
        chunks_from(text, 0, chunk_size, effective_overlap(chunk_size, overlap))
    }
}

/// The spans of `text` that the chunker cuts, blank ones included.
pub open spec fn chunk_spans(text: Seq<char>, chunk_size: int, overlap: int) -> Seq<(int, int)> {
    if chunk_size == 0 {
        seq![]
    } else {
        spans_from(text, 0, chunk_size, effective_overlap(chunk_size, overlap))
    }
}

/// The pieces of `chars` under `spans`, blank ones left out.
pub open spec fn pieces(chars: Seq<char>, spans: Seq<(int, int)>) -> Seq<Seq<char>>
    decreases spans.len(),
{
    if spans.len() == 0 {
        seq![]
    } else {
        let piece = chars.subrange(spans[0].0, spans[0].1);
        let rest = pieces(chars, spans.drop_first());
        if all_ws(piece) {
            rest
        } else {
            seq![piece] + rest
        }
    }
}

/// The character sequences of a sequence of strings.
pub open spec fn views(v: Seq<String>) -> Seq<Seq<char>> {
    v.map_values(|s: String| s@)
}

pub proof fn lemma_views_push(v: Seq<String>, x: String)
    ensures
        views(v.push(x)) == views(v).push(x@),
{
    assert(views(v.push(x)) =~= views(v).push(x@));
}

/// The last boundary character before `end` (within the soft window and not
/// before `start`); the result is one past it.
fn find_boundary(chars: &Vec<char>, start: usize, end: usize) -> (r: Option<usize>)
    requires
        start <= end <= chars.len(),
    ensures
        match r {
            Some(b) => boundary_cut(chars@, start as int, end as int) == Some(b as int),
            None => boundary_cut(chars@, start as int, end as int) is None,
        },
{
    let back = if end >= DEFAULT_SOFT_WINDOW {
        end - DEFAULT_SOFT_WINDOW
    } else {
        0
    };
    let window_start = if back > start {
        back
    } else {
        start
    };
    let mut idx = end;
    while idx > window_start
        invariant
            start <= window_start <= idx <= end <= chars.len(),
            window_start == crate::chunker::window_start(start as int, end as int),
            forall|j: int| idx <= j < end ==> !is_boundary(#[trigger] chars@[j]),
        decreases idx,
    {
        idx -= 1;
        let ch = chars[idx];
        if ch == '\n' || ch == '。' || ch == '！' || ch == '？' || ch == '.' || ch == '!' || ch
            == '?' || ch == ';' || ch == '；' || ch == '、' || ch == '，' || ch == ',' {
            proof {
                assert(is_last_boundary(chars@, start as int, end as int, idx as int));
                let k = choose|k: int| is_last_boundary(chars@, start as int, end as int, k);
                lemma_last_boundary_unique(chars@, start as int, end as int, k, idx as int);
            }
            return Some(idx + 1);
        }
    }
    proof {
        if exists|k: int| is_last_boundary(chars@, start as int, end as int, k) {
            let k = choose|k: int| is_last_boundary(chars@, start as int, end as int, k);
            assert(!is_boundary(chars@[k]));
        }
    }
    None
}

/// Splits `text` into chunks of at most `chunk_size` characters, each chunk
/// after the first starting `overlap` characters (at most `chunk_size - 1`)
/// before the end of the previous one. A chunk that would end before the end
/// of the text is cut just after the last boundary character within its last
/// 120 characters, if there is one. Chunks that are all whitespace are left
/// out.
pub fn chunk_text(text: &str, chunk_size: usize, overlap: usize) -> (r: Vec<String>)
    ensures
        views(r@) == chunk_text_spec(text@, chunk_size as int, overlap as int),
{
    if chunk_size == 0 {
        proof {
            assert(views(Seq::<String>::empty()) =~= Seq::<Seq<char>>::empty());
        }
        return Vec::new();
    }
    let chars = chars_of(text);
    let n = chars.len();
    if n == 0 {
        proof {
            assert(views(Seq::<String>::empty()) =~= Seq::<Seq<char>>::empty());
        }
        return Vec::new();
    }
    let ghost ov0 = overlap as int;
    let eff_overlap = if overlap < chunk_size - 1 {
        overlap
    } else {
        chunk_size - 1
    };
    let ghost ov = eff_overlap as int;
    let mut chunks: Vec<String> = Vec::new();
    let mut start: usize = 0;
    proof {
        assert(views(chunks@) =~= Seq::<Seq<char>>::empty());
    }
    while start < n
        invariant
            chars@ == text@,
            n == chars.len(),
            chunk_size > 0,
            eff_overlap == ov,
            ov == effective_overlap(chunk_size as int, ov0),
            ov0 == overlap as int,
            start <= n,
            views(chunks@) + chunks_from(chars@, start as int, chunk_size as int, ov)
                == chunks_from(chars@, 0, chunk_size as int, ov),
        decreases n - start,
    {
        let ghost old_chunks = views(chunks@);
        proof {
            lemma_chunk_end_bounds(chars@, start as int, chunk_size as int);
        }
        let mut end = if chunk_size >= n - start {
            n
        } else {
            start + chunk_size
        };
        if end < n {
            if let Some(best) = find_boundary(&chars, start, end) {
                if best > start {
                    end = best;
                }
            }
        }
        assert(end as int == chunk_end(chars@, start as int, chunk_size as int));
        if end <= start {
            return chunks;
        }
        let blank = range_is_blank(&chars, start, end);
        let ghost piece = chars@.subrange(start as int, end as int);
        if !blank {
            let chunk = string_from_range(&chars, start, end);
            let ghost old_vec = chunks@;
            chunks.push(chunk);
            proof {
                lemma_views_push(old_vec, chunk);
            }
        }
        if end >= n {
            proof {
                assert(chunks_from(chars@, end as int, chunk_size as int, ov) =~= Seq::<
                    Seq<char>,
                >::empty());
                let here = chunks_from(chars@, start as int, chunk_size as int, ov);
                if blank {
                    assert(here =~= Seq::<Seq<char>>::empty());
                    assert(views(chunks@) =~= old_chunks);
                    assert(old_chunks + here =~= old_chunks);
                } else {
                    assert(here =~= seq![piece]);
                    assert(old_chunks.push(piece) =~= old_chunks + seq![piece]);
                }
                assert(views(chunks@) == chunks_from(chars@, 0, chunk_size as int, ov));
                assert(chunk_text_spec(text@, chunk_size as int, ov0) == chunks_from(
                    chars@,
                    0,
                    chunk_size as int,
                    ov,
                ));
            }
            return chunks;
        }
        let back = if end >= eff_overlap {
            end - eff_overlap
        } else {
            0
        };
        let next = if back <= start {
            end
        } else {
            back
        };
        proof {
            let rest = chunks_from(chars@, next as int, chunk_size as int, ov);
            if blank {
                assert(views(chunks@) =~= old_chunks);
            } else {
                assert(old_chunks.push(piece) + rest =~= old_chunks + (seq![piece] + rest));
            }
        }
        start = next;
    }
    proof {
        assert(chunks_from(chars@, start as int, chunk_size as int, ov) =~= Seq::<
            Seq<char>,
        >::empty());
        assert(views(chunks@) + Seq::<Seq<char>>::empty() =~= views(chunks@));
    }
    chunks
}

/// A span of `chars` as the chunker cuts it: non-empty, in bounds, at most
/// `size` long, and ending either at the size limit, at the end of the text,
/// or just after a boundary character.
pub open spec fn good_span(chars: Seq<char>, span: (int, int), size: int) -> bool {
    &&& 0 <= span.0 < span.1 <= chars.len()
    &&& span.1 - span.0 <= size
    &&& span.1 < chars.len() ==> (span.1 == span.0 + size || is_boundary(chars[span.1 - 1]))
}

/// Two consecutive spans: the second starts after the first starts, leaves no
/// gap, and overlaps the first by at most `overlap` characters.
pub open spec fn linked_spans(a: (int, int), b: (int, int), overlap: int) -> bool {
    &&& a.0 < b.0 <= a.1
    &&& a.1 - b.0 <= overlap
}

proof fn lemma_spans_from(chars: Seq<char>, start: int, size: int, overlap: int)
    requires
        0 <= start < chars.len(),
        0 <= overlap < size,
    ensures
        ({
            let sp = spans_from(chars, start, size, overlap);
            &&& sp.len() > 0
            &&& sp[0].0 == start
            &&& sp.last().1 == chars.len()
            &&& forall|i: int| 0 <= i < sp.len() ==> good_span(chars, #[trigger] sp[i], size)
            &&& forall|i: int|
                0 <= i < sp.len() - 1 ==> linked_spans(#[trigger] sp[i], sp[i + 1], overlap)
        }),
    decreases chars.len() - start,
{
    lemma_chunk_end_bounds(chars, start, size);
    let end = chunk_end(chars, start, size);
    let sp = spans_from(chars, start, size, overlap);
    if end < chars.len() {
        let next = next_start(start, end, overlap);
        lemma_spans_from(chars, next, size, overlap);
        let rest = spans_from(chars, next, size, overlap);
        assert(sp =~= seq![(start, end)] + rest);
        assert forall|i: int| 0 <= i < sp.len() implies good_span(chars, #[trigger] sp[i], size) by {
            if i > 0 {
                assert(sp[i] == rest[i - 1]);
            }
        }
        assert forall|i: int| 0 <= i < sp.len() - 1 implies linked_spans(
            #[trigger] sp[i],
            sp[i + 1],
            overlap,
        ) by {
            if i > 0 {
                assert(sp[i] == rest[i - 1]);
                assert(sp[i + 1] == rest[i]);
            }
        }
    }
}

proof fn lemma_chunks_are_pieces(chars: Seq<char>, start: int, size: int, overlap: int)
    requires
        0 <= start,
        0 <= overlap,
    ensures
        chunks_from(chars, start, size, overlap) == pieces(
            chars,
            spans_from(chars, start, size, overlap),
        ),
    decreases chars.len() - start,
{
    if start < chars.len() && size > 0 {
        lemma_chunk_end_bounds(chars, start, size);
        let end = chunk_end(chars, start, size);
        let sp = spans_from(chars, start, size, overlap);
        assert(sp[0] == (start, end));
        if end < chars.len() {
            let next = next_start(start, end, overlap);
            lemma_chunks_are_pieces(chars, next, size, overlap);
            assert(sp.drop_first() =~= spans_from(chars, next, size, overlap));
        } else {
            assert(sp.drop_first() =~= Seq::<(int, int)>::empty());
            assert(pieces(chars, sp.drop_first()) =~= Seq::<Seq<char>>::empty());
        }
    }
}

proof fn lemma_pieces_elements(chars: Seq<char>, spans: Seq<(int, int)>, k: int)
    requires
        0 <= k < pieces(chars, spans).len(),
    ensures
        exists|i: int|
            0 <= i < spans.len() && pieces(chars, spans)[k] == chars.subrange(
                spans[i].0,
                spans[i].1,
            ) && !all_ws(#[trigger] chars.subrange(spans[i].0, spans[i].1)),
    decreases spans.len(),
{
    let piece = chars.subrange(spans[0].0, spans[0].1);
    let rest = pieces(chars, spans.drop_first());
    if !all_ws(piece) && k == 0 {
        assert(pieces(chars, spans)[0] == piece);
    } else {
        let k2 = if all_ws(piece) {
            k
        } else {
            k - 1
        };
        lemma_pieces_elements(chars, spans.drop_first(), k2);
        let i = choose|i: int|
            0 <= i < spans.drop_first().len() && rest[k2] == chars.subrange(
                spans.drop_first()[i].0,
                spans.drop_first()[i].1,
            ) && !all_ws(
                #[trigger] chars.subrange(spans.drop_first()[i].0, spans.drop_first()[i].1),
            );
        assert(spans.drop_first()[i] == spans[i + 1]);
    }
}

/// The chunks of a text are exactly its spans, taken in order, with the
/// all-whitespace ones left out.
pub proof fn chunk_text_is_spans_without_blanks(text: Seq<char>, chunk_size: int, overlap: int)
    requires
        chunk_size >= 0,
        overlap >= 0,
    ensures
        chunk_text_spec(text, chunk_size, overlap) == pieces(
            text,
            chunk_spans(text, chunk_size, overlap),
        ),
{
    if chunk_size > 0 {
        lemma_chunks_are_pieces(text, 0, chunk_size, effective_overlap(chunk_size, overlap));
    }
}

/// The spans of a non-empty text start at its first character, end at its
/// end, follow each other without gaps, each one starting after the one
/// before and overlapping it by at most the effective overlap; each span is at
/// most `chunk_size` long and, unless it reaches the end of the text, ends at
/// the size limit or just after a boundary character.
pub proof fn chunk_spans_cover_text(text: Seq<char>, chunk_size: int, overlap: int)
    requires
        chunk_size > 0,
        overlap >= 0,
        text.len() > 0,
    ensures
        ({
            let sp = chunk_spans(text, chunk_size, overlap);
            &&& sp.len() > 0
            &&& sp[0].0 == 0
            &&& sp.last().1 == text.len()
            &&& forall|i: int| 0 <= i < sp.len() ==> good_span(text, #[trigger] sp[i], chunk_size)
            &&& forall|i: int|
                0 <= i < sp.len() - 1 ==> linked_spans(
                    #[trigger] sp[i],
                    sp[i + 1],
                    effective_overlap(chunk_size, overlap),
                )
        }),
{
    lemma_spans_from(text, 0, chunk_size, effective_overlap(chunk_size, overlap));
}

/// Every chunk is a non-blank piece of the text, at most `chunk_size`
/// characters long.
pub proof fn chunk_text_chunks_are_bounded(text: Seq<char>, chunk_size: int, overlap: int)
    requires
        chunk_size >= 0,
        overlap >= 0,
    ensures
        forall|k: int|
            0 <= k < chunk_text_spec(text, chunk_size, overlap).len() ==> {
                let c = #[trigger] chunk_text_spec(text, chunk_size, overlap)[k];
                &&& 0 < c.len() <= chunk_size
                &&& !all_ws(c)
                &&& contains_seq(text, c)
            },
{
    chunk_text_is_spans_without_blanks(text, chunk_size, overlap);
    let chunks = chunk_text_spec(text, chunk_size, overlap);
    assert forall|k: int| 0 <= k < chunks.len() implies {
        let c = #[trigger] chunks[k];
        &&& 0 < c.len() <= chunk_size
        &&& !all_ws(c)
        &&& contains_seq(text, c)
    } by {
        let sp = chunk_spans(text, chunk_size, overlap);
        lemma_pieces_elements(text, sp, k);
        let i = choose|i: int|
            0 <= i < sp.len() && pieces(text, sp)[k] == text.subrange(sp[i].0, sp[i].1) && !all_ws(
                #[trigger] text.subrange(sp[i].0, sp[i].1),
            );
        chunk_spans_cover_text(text, chunk_size, overlap);
        assert(good_span(text, sp[i], chunk_size));
        assert(occurs_at(text, chunks[k], sp[i].0));
        if chunks[k].len() == 0 {
            assert(all_ws(chunks[k]));
        }
    }
}

proof fn lemma_spans_step(chars: Seq<char>, start: int, size: int, ov: int)
    requires
        0 <= start < chars.len(),
        0 <= ov < size,
    ensures
        ({
            let sp = spans_from(chars, start, size, ov);
            &&& forall|i: int|
                0 <= i < sp.len() - 1 ==> (#[trigger] sp[i + 1]).0 == if sp[i].1 - ov > sp[i].0 {
                    sp[i].1 - ov
                } else {
                    sp[i].1
                }
            &&& forall|i: int| 0 <= i < sp.len() - 1 ==> (#[trigger] sp[i]).1 < chars.len()
            &&& forall|i: int|
                0 <= i < sp.len() ==> (#[trigger] sp[i]).1 == chunk_end(chars, sp[i].0, size) && 0
                    <= sp[i].0 < chars.len()
        }),
    decreases chars.len() - start,
{
    lemma_chunk_end_bounds(chars, start, size);
    let end = chunk_end(chars, start, size);
    let sp = spans_from(chars, start, size, ov);
    if end < chars.len() {
        let next = next_start(start, end, ov);
        lemma_spans_step(chars, next, size, ov);
        lemma_spans_from(chars, next, size, ov);
        let rest = spans_from(chars, next, size, ov);
        assert(sp =~= seq![(start, end)] + rest);
        assert forall|i: int| 0 <= i < sp.len() - 1 implies (#[trigger] sp[i + 1]).0 == if sp[i].1 - ov
            > sp[i].0 {
            sp[i].1 - ov
        } else {
            sp[i].1
        } by {
            if i > 0 {
                assert(sp[i] == rest[i - 1]);
                assert(sp[i + 1] == rest[i]);
            } else {
                assert(sp[1] == rest[0]);
            }
        }
        assert forall|i: int| 0 <= i < sp.len() - 1 implies (#[trigger] sp[i]).1 < chars.len() by {
            if i > 0 {
                assert(sp[i] == rest[i - 1]);
            }
        }
        assert forall|i: int| 0 <= i < sp.len() implies (#[trigger] sp[i]).1 == chunk_end(
            chars,
            sp[i].0,
            size,
        ) && 0 <= sp[i].0 < chars.len() by {
            if i > 0 {
                assert(sp[i] == rest[i - 1]);
            }
        }
    } else {
        assert(sp.len() == 1);
    }
}

/// Where each chunk after the first starts: `overlap` characters (at most
/// `chunk_size - 1`) before the end of the chunk before it, so that the two
/// share exactly that many characters, unless that would not move past the
/// start of the chunk before, in which case it starts where that one ends.
pub proof fn chunk_spans_overlap_exactly(text: Seq<char>, chunk_size: int, overlap: int)
    requires
        chunk_size > 0,
        overlap >= 0,
    ensures
        ({
            let sp = chunk_spans(text, chunk_size, overlap);
            let ov = if overlap < chunk_size - 1 {
                overlap
            } else {
                chunk_size - 1
            };
            forall|i: int|
                0 <= i < sp.len() - 1 ==> (#[trigger] sp[i + 1]).0 == if sp[i].1 - ov > sp[i].0 {
                    sp[i].1 - ov
                } else {
                    sp[i].1
                }
        }),
{
    let ov = if overlap < chunk_size - 1 {
        overlap
    } else {
        chunk_size - 1
    };
    assert(effective_overlap(chunk_size, overlap) == ov);
    if text.len() > 0 {
        lemma_spans_step(text, 0, chunk_size, ov);
    }
}

/// A text of `n` non-blank characters and no boundary character, longer than
/// one chunk, with `0 < overlap < chunk_size`: its chunks start at `0`,
/// `chunk_size - overlap`, `2 * (chunk_size - overlap)`, ..., each one
/// `chunk_size` long but the last, which ends with the text.
pub proof fn chunk_spans_of_plain_text(text: Seq<char>, chunk_size: int, overlap: int)
    requires
        0 < overlap < chunk_size,
        text.len() > 0,
        forall|i: int| 0 <= i < text.len() ==> !is_boundary(#[trigger] text[i]),
    ensures
        ({
            let sp = chunk_spans(text, chunk_size, overlap);
            &&& sp[0].0 == 0
            &&& forall|i: int|
                0 <= i < sp.len() - 1 ==> (#[trigger] sp[i]).1 == sp[i].0 + chunk_size && sp[i + 1].0
                    == sp[i].1 - overlap
            &&& sp.last().1 == text.len()
        }),
{
    chunk_spans_cover_text(text, chunk_size, overlap);
    chunk_spans_overlap_exactly(text, chunk_size, overlap);
    lemma_spans_step(text, 0, chunk_size, effective_overlap(chunk_size, overlap));
    let sp = chunk_spans(text, chunk_size, overlap);
    assert forall|i: int| 0 <= i < sp.len() - 1 implies (#[trigger] sp[i]).1 == sp[i].0 + chunk_size
        && sp[i + 1].0 == sp[i].1 - overlap by {
        assert(good_span(text, sp[i], chunk_size));
        assert(linked_spans(sp[i], sp[i + 1], effective_overlap(chunk_size, overlap)));
        if sp[i].1 < text.len() && sp[i].1 != sp[i].0 + chunk_size {
            assert(is_boundary(text[sp[i].1 - 1]));
        }
    }
}

proof fn lemma_last_boundary_exists(chars: Seq<char>, start: int, end: int, j: int)
    requires
        window_start(start, end) <= j < end,
        is_boundary(chars[j]),
    ensures
        exists|k: int| is_last_boundary(chars, start, end, k),
    decreases end - j,
{
    if exists|m: int| j < m < end && is_boundary(#[trigger] chars[m]) {
        let m = choose|m: int| j < m < end && is_boundary(#[trigger] chars[m]);
        lemma_last_boundary_exists(chars, start, end, m);
    } else {
        assert(is_last_boundary(chars, start, end, j));
    }
}

proof fn lemma_chunk_end_cut(chars: Seq<char>, start: int, size: int)
    requires
        0 <= start < chars.len(),
        size > 0,
        chunk_end(chars, start, size) < chars.len(),
    ensures
        ({
            let e = chunk_end(chars, start, size);
            let hard = start + size;
            let w = if hard - 120 > start {
                hard - 120
            } else {
                start
            };
            &&& forall|j: int| e <= j < hard ==> !is_boundary(#[trigger] chars[j])
            &&& (w <= e - 1 && is_boundary(chars[e - 1])) || (e == hard && forall|j: int|
                w <= j < hard ==> !is_boundary(#[trigger] chars[j]))
        }),
{
    let hard = start + size;
    if exists|k: int| is_last_boundary(chars, start, hard, k) {
        let k = choose|k: int| is_last_boundary(chars, start, hard, k);
        assert(is_last_boundary(chars, start, hard, k));
    } else {
        let w = window_start(start, hard);
        assert forall|j: int| w <= j < hard implies !is_boundary(#[trigger] chars[j]) by {
            if is_boundary(chars[j]) {
                lemma_last_boundary_exists(chars, start, hard, j);
            }
        }
    }
}

/// Where a chunk that stops before the end of the text is cut: just after
/// a boundary character within its last 120 characters, or at its size
/// limit when those hold none; and nothing between the cut and the size
/// limit is a boundary character, so the cut follows the last one.
pub proof fn chunk_cut_after_last_boundary(text: Seq<char>, chunk_size: int, overlap: int)
    requires
        chunk_size > 0,
        overlap >= 0,
    ensures
        ({
            let sp = chunk_spans(text, chunk_size, overlap);
            forall|i: int|
                0 <= i < sp.len() && (#[trigger] sp[i]).1 < text.len() ==> {
                    let hard = sp[i].0 + chunk_size;
                    let w = if hard - 120 > sp[i].0 {
                        hard - 120
                    } else {
                        sp[i].0
                    };
                    &&& forall|j: int| sp[i].1 <= j < hard ==> !is_boundary(#[trigger] text[j])
                    &&& (w <= sp[i].1 - 1 && is_boundary(text[sp[i].1 - 1])) || (sp[i].1 == hard
                        && forall|j: int| w <= j < hard ==> !is_boundary(#[trigger] text[j]))
                }
        }),
{
    if text.len() > 0 {
        let ov = effective_overlap(chunk_size, overlap);
        lemma_spans_step(text, 0, chunk_size, ov);
        let sp = chunk_spans(text, chunk_size, overlap);
        assert forall|i: int| 0 <= i < sp.len() && (#[trigger] sp[i]).1 < text.len() implies {
            let hard = sp[i].0 + chunk_size;
            let w = if hard - 120 > sp[i].0 {
                hard - 120
            } else {
                sp[i].0
            };
            &&& forall|j: int| sp[i].1 <= j < hard ==> !is_boundary(#[trigger] text[j])
            &&& (w <= sp[i].1 - 1 && is_boundary(text[sp[i].1 - 1])) || (sp[i].1 == hard && forall|j: int|
                w <= j < hard ==> !is_boundary(#[trigger] text[j]))
        } by {
            lemma_chunk_end_cut(text, sp[i].0, chunk_size);
        }
    }
}

} // verus!

//! Translating captured segments in batches: which segments go into a
//! batch, what earlier segments it is given as context, and what each
//! segment gets from the answer.
use crate::queue::{opt_str_eq, opt_text, TranslationRequest};
use crate::text::{is_blank, str_eq};
use crate::translate::{
    items_view, opt_str, result_entries, BatchTranslationItem, BatchTranslationResult,
};
use vstd::prelude::*;

verus! {

broadcast use vstd::seq_lib::group_seq_properties;

/// A captured segment as batch translation reads it: its name and, once
/// transcribed, its transcript.
#[derive(Debug)]
pub struct SegmentText {
    pub name: String,
    pub transcript: Option<String>,
}

/// A segment of an earlier batch with its cleaned-up text.
#[derive(Debug)]
pub struct CleanedBatchItem {
    pub name: String,
    pub cleaned_text: String,
}

/// What the previous batch of a provider left as context for the next.
#[derive(Debug)]
pub struct SegmentTranslationHistory {
    pub generation: u64,
    pub provider: Option<String>,
    pub previous_batch: Vec<CleanedBatchItem>,
}

/// Segments as plain values.
pub open spec fn segments_view(v: Seq<SegmentText>) -> Seq<(Seq<char>, Option<Seq<char>>)> {
    v.map_values(|s: SegmentText| (s.name@, opt_text(s.transcript)))
}

/// The transcript of the first segment with the given name.
pub open spec fn transcript_of(segs: Seq<(Seq<char>, Option<Seq<char>>)>, name: Seq<char>) -> Option<Seq<char>>
    decreases segs.len(),
{
    if segs.len() == 0 {
        None
    } else if segs[0].0 == name {
        segs[0].1
    } else {
        transcript_of(segs.drop_first(), name)
    }
}

/// The items of a batch: each request of the active generation whose
/// segment has a transcript, in order.
pub open spec fn batch_items(
    reqs: Seq<(Seq<char>, Option<Seq<char>>, usize, u64)>,
    active: u64,
    segs: Seq<(Seq<char>, Option<Seq<char>>)>,
) -> Seq<(Seq<char>, Seq<char>)>
    decreases reqs.len(),
{
    if reqs.len() == 0 {
        seq![]
    } else {
        let prev = batch_items(reqs.drop_last(), active, segs);
        let r = reqs.last();
        if r.3 == active && transcript_of(segs, r.0) is Some {
            prev.push((r.0, transcript_of(segs, r.0)->0))
        } else {
            prev
        }
    }
}

/// Whether an item with the given id is among `items`.
pub open spec fn has_id(items: Seq<(Seq<char>, Seq<char>)>, id: Seq<char>) -> bool {
    exists|i: int| 0 <= i < items.len() && (#[trigger] items[i]).0 == id
}

/// The context items followed by the batch items whose id is not there
/// yet, in order.
pub open spec fn merged(context: Seq<(Seq<char>, Seq<char>)>, items: Seq<(Seq<char>, Seq<char>)>) -> Seq<
    (Seq<char>, Seq<char>),
>
    decreases items.len(),
{
    if items.len() == 0 {
        context
    } else {
        let prev = merged(context, items.drop_last());
        if has_id(prev, items.last().0) {
            prev
        } else {
            prev.push(items.last())
        }
    }
}

/// The context of the next batch as plain values.
pub open spec fn history_items(v: Seq<CleanedBatchItem>) -> Seq<(Seq<char>, Seq<char>)> {
    v.map_values(|c: CleanedBatchItem| (c.name@, c.cleaned_text@))
}

/// A batch to send: its provider, the segments to translate, the earlier
/// segments given as context, and all the items sent (context first).
#[derive(Debug)]
pub struct GroupPlan {
    pub provider: Option<String>,
    pub items: Vec<BatchTranslationItem>,
    pub context_items: Vec<BatchTranslationItem>,
    pub all_items: Vec<BatchTranslationItem>,
}

/// The transcript of the first segment with the given name.
fn find_transcript(segments: &Vec<SegmentText>, name: &str) -> (r: Option<String>)
    ensures
        opt_str(r) == transcript_of(segments_view(segments@), name@),
{
    let ghost sv = segments_view(segments@);
    let mut k: usize = 0;
    proof {
        assert(sv.skip(0) =~= sv);
    }
    while k < segments.len()
        invariant
            k <= segments.len(),
            sv == segments_view(segments@),
            transcript_of(sv, name@) == transcript_of(sv.skip(k as int), name@),
        decreases segments.len() - k,
    {
        proof {
            let rest = sv.skip(k as int);
            assert(rest[0] == sv[k as int]);
            assert(rest.drop_first() =~= sv.skip(k + 1));
        }
        if str_eq(segments[k].name.as_str(), name) {
            return match &segments[k].transcript {
                Some(t) => Some(t.clone()),
                None => None,
            };
        }
        k += 1;
    }
    None
}

/// Whether an item with the given id is among `items`.
fn contains_item(items: &Vec<BatchTranslationItem>, id: &str) -> (r: bool)
    ensures
        r == has_id(items_view(items@), id@),
{
    let ghost iv = items_view(items@);
    let mut k: usize = 0;
    while k < items.len()
        invariant
            k <= items.len(),
            iv == items_view(items@),
            forall|j: int| 0 <= j < k ==> (#[trigger] iv[j]).0 != id@,
        decreases items.len() - k,
    {
        if str_eq(items[k].id.as_str(), id) {
            proof {
                assert(iv[k as int].0 == id@);
            }
            return true;
        }
        k += 1;
    }
    false
}

/// A copy of a batch item.
fn copy_item(item: &BatchTranslationItem) -> (r: BatchTranslationItem)
    ensures
        r.id@ == item.id@,
        r.text@ == item.text@,
{
    BatchTranslationItem { id: item.id.clone(), text: item.text.clone() }
}

/// Plans the batch of a run of requests with one provider. The history is
/// started afresh when it belongs to another generation or provider. The
/// batch holds the requests of the active generation whose segment has a
/// transcript; nothing is sent when there is none (or no request).
pub fn plan_provider_group(
    history: &mut SegmentTranslationHistory,
    requests: &Vec<TranslationRequest>,
    active_generation: u64,
    segments: &Vec<SegmentText>,
) -> (r: Option<GroupPlan>)
    ensures
        requests.len() == 0 ==> r is None && *final(history) == *old(history),
        requests.len() > 0 ==> ({
            let provider = opt_text(requests@[0].provider);
            let fresh = old(history).generation != active_generation || opt_text(
                old(history).provider,
            ) != provider;
            let context = if fresh {
                Seq::<(Seq<char>, Seq<char>)>::empty()
            } else {
                history_items(old(history).previous_batch@)
            };
            let items = batch_items(
                crate::queue::requests_view(requests@),
                active_generation,
                segments_view(segments@),
            );
            &&& fresh ==> final(history).generation == active_generation && opt_text(
                final(history).provider,
            ) == provider && final(history).previous_batch@.len() == 0
            &&& !fresh ==> *final(history) == *old(history)
            &&& items.len() == 0 ==> r is None
            &&& items.len() > 0 ==> (r matches Some(plan) && opt_text(plan.provider) == provider
                && items_view(plan.items@) == items && items_view(plan.context_items@) == context
                && items_view(plan.all_items@) == merged(context, items))
        }),
{
    if requests.len() == 0 {
        return None;
    }
    let provider = match &requests[0].provider {
        Some(p) => Some(p.clone()),
        None => None,
    };
    if history.generation != active_generation || !opt_str_eq(&history.provider, &provider) {
        history.generation = active_generation;
        history.provider = match &provider {
            Some(p) => Some(p.clone()),
            None => None,
        };
        history.previous_batch = Vec::new();
    }
    let ghost rv = crate::queue::requests_view(requests@);
    let ghost sv = segments_view(segments@);
    let mut items: Vec<BatchTranslationItem> = Vec::new();
    let mut k: usize = 0;
    proof {
        assert(rv.take(0) =~= Seq::<(Seq<char>, Option<Seq<char>>, usize, u64)>::empty());
        assert(items_view(items@) =~= Seq::<(Seq<char>, Seq<char>)>::empty());
    }
    while k < requests.len()
        invariant
            k <= requests.len(),
            rv == crate::queue::requests_view(requests@),
            sv == segments_view(segments@),
            items_view(items@) == batch_items(rv.take(k as int), active_generation, sv),
        decreases requests.len() - k,
    {
        proof {
            assert(rv.take(k + 1).drop_last() =~= rv.take(k as int));
            assert(rv.take(k + 1).last() == rv[k as int]);
        }
        if requests[k].generation == active_generation {
            let found = find_transcript(segments, requests[k].name.as_str());
            if let Some(text) = found {
                let ghost before = items_view(items@);
                items.push(BatchTranslationItem { id: requests[k].name.clone(), text });
                proof {
                    assert(items_view(items@) =~= before.push((rv[k as int].0, transcript_of(sv, rv[k as int].0)->0)));
                }
            }
        }
        k += 1;
    }
    proof {
        assert(rv.take(requests.len() as int) =~= rv);
    }
    if items.len() == 0 {
        return None;
    }
    let mut context_items: Vec<BatchTranslationItem> = Vec::new();
    let mut j: usize = 0;
    let ghost hv = history_items(history.previous_batch@);
    proof {
        assert(items_view(context_items@) =~= hv.take(0));
    }
    while j < history.previous_batch.len()
        invariant
            j <= history.previous_batch.len(),
            hv == history_items(history.previous_batch@),
            items_view(context_items@) == hv.take(j as int),
        decreases history.previous_batch.len() - j,
    {
        let item = &history.previous_batch[j];
        let ghost before = items_view(context_items@);
        context_items.push(BatchTranslationItem { id: item.name.clone(), text: item.cleaned_text.clone() });
        proof {
            assert(hv.take(j + 1) =~= hv.take(j as int).push(hv[j as int]));
            assert(items_view(context_items@) =~= before.push(hv[j as int]));
        }
        j += 1;
    }
    proof {
        assert(hv.take(history.previous_batch.len() as int) =~= hv);
    }
    let ghost iv = items_view(items@);
    let mut all_items: Vec<BatchTranslationItem> = Vec::new();
    let mut c: usize = 0;
    proof {
        assert(items_view(all_items@) =~= hv.take(0));
    }
    while c < context_items.len()
        invariant
            c <= context_items.len(),
            items_view(context_items@) == hv,
            items_view(all_items@) == hv.take(c as int),
        decreases context_items.len() - c,
    {
        let ghost before = items_view(all_items@);
        all_items.push(copy_item(&context_items[c]));
        proof {
            assert(hv[c as int] == items_view(context_items@)[c as int]);
            assert(hv.take(c + 1) =~= hv.take(c as int).push(hv[c as int]));
            assert(items_view(all_items@) =~= before.push(hv[c as int]));
        }
        c += 1;
    }
    proof {
        assert(hv.take(context_items.len() as int) =~= hv);
        assert(iv.take(0) =~= Seq::<(Seq<char>, Seq<char>)>::empty());
    }
    let mut m: usize = 0;
    while m < items.len()
        invariant
            m <= items.len(),
            iv == items_view(items@),
            items_view(all_items@) == merged(hv, iv.take(m as int)),
        decreases items.len() - m,
    {
        proof {
            assert(iv.take(m + 1).drop_last() =~= iv.take(m as int));
            assert(iv.take(m + 1).last() == iv[m as int]);
        }
        if !contains_item(&all_items, items[m].id.as_str()) {
            let ghost before = items_view(all_items@);
            all_items.push(copy_item(&items[m]));
            proof {
                assert(items_view(all_items@) =~= before.push(iv[m as int]));
            }
        }
        m += 1;
    }
    proof {
        assert(iv.take(items.len() as int) =~= iv);
    }
    Some(GroupPlan { provider, items, context_items, all_items })
}

/// The answer for a name: the last answer entry with it (a later entry
/// takes the place of an earlier one).
pub open spec fn answer_for(entries: Seq<(Seq<char>, Seq<char>, Option<Seq<char>>)>, name: Seq<char>) -> Option<
    (Seq<char>, Option<Seq<char>>),
>
    decreases entries.len(),
{
    if entries.len() == 0 {
        None
    } else if entries.last().0 == name {
        Some((entries.last().1, entries.last().2))
    } else {
        answer_for(entries.drop_last(), name)
    }
}

/// The translation each item gets from an answer: its answer's
/// translation, or an empty text when the answer has none for it.
pub open spec fn applied(
    all: Seq<(Seq<char>, Seq<char>)>,
    entries: Seq<(Seq<char>, Seq<char>, Option<Seq<char>>)>,
) -> Seq<(Seq<char>, Seq<char>)> {
    all.map_values(
        |it: (Seq<char>, Seq<char>)|
            (
                it.0,
                match answer_for(entries, it.0) {
                    Some(a) => a.0,
                    None => seq![],
                },
            ),
    )
}

/// The context that a batch leaves for the next: each translated item with
/// the cleaned source of its answer when that is not blank, else its text.
pub open spec fn cleaned_context(
    items: Seq<(Seq<char>, Seq<char>)>,
    entries: Seq<(Seq<char>, Seq<char>, Option<Seq<char>>)>,
) -> Seq<(Seq<char>, Seq<char>)> {
    items.map_values(
        |it: (Seq<char>, Seq<char>)|
            (
                it.0,
                match answer_for(entries, it.0) {
                    Some((_, Some(c))) => if crate::text::all_ws(c) {
                        it.1
                    } else {
                        c
                    },
                    _ => it.1,
                },
            ),
    )
}

/// Pairs of strings as plain values.
pub open spec fn pairs_view(v: Seq<(String, String)>) -> Seq<(Seq<char>, Seq<char>)> {
    v.map_values(|p: (String, String)| (p.0@, p.1@))
}

/// The answer entry for a name (see `answer_for`).
fn find_answer<'a>(entries: &'a Vec<(String, BatchTranslationResult)>, name: &str) -> (r: Option<
    &'a BatchTranslationResult,
>)
    ensures
        match r {
            Some(a) => answer_for(result_entries(entries@), name@) == Some(
                (a.translation@, opt_str(a.cleaned_source)),
            ),
            None => answer_for(result_entries(entries@), name@) is None,
        },
{
    let ghost ev = result_entries(entries@);
    let mut k: usize = entries.len();
    proof {
        assert(ev.take(k as int) =~= ev);
    }
    while k > 0
        invariant
            k <= entries.len(),
            ev == result_entries(entries@),
            answer_for(ev, name@) == answer_for(ev.take(k as int), name@),
        decreases k,
    {
        proof {
            assert(ev.take(k as int).last() == ev[k - 1]);
            assert(ev.take(k as int).drop_last() =~= ev.take(k - 1));
        }
        if str_eq(entries[k - 1].0.as_str(), name) {
            return Some(&entries[k - 1].1);
        }
        k -= 1;
    }
    None
}

/// Takes in the answer to a planned batch. When the translations were
/// cancelled meanwhile (`still_current` false) nothing changes and nothing
/// is applied. Otherwise every item sent gets its translation (an empty
/// text when the answer has none, or when the request failed), and the
/// history keeps the translated items, with their cleaned sources, as the
/// next batch's context (none after a failure).
pub fn apply_group_result(
    history: &mut SegmentTranslationHistory,
    plan: GroupPlan,
    active_generation: u64,
    still_current: bool,
    result: &Result<Vec<(String, BatchTranslationResult)>, String>,
) -> (r: Vec<(String, String)>)
    ensures
        !still_current ==> r@.len() == 0 && *final(history) == *old(history),
        still_current ==> ({
            let all = items_view(plan.all_items@);
            &&& final(history).generation == active_generation
            &&& opt_text(final(history).provider) == opt_text(plan.provider)
            &&& match result {
                Ok(v) => pairs_view(r@) == applied(all, result_entries(v@)) && history_items(
                    final(history).previous_batch@,
                ) == cleaned_context(items_view(plan.items@), result_entries(v@)),
                Err(_) => pairs_view(r@) == all.map_values(
                    |it: (Seq<char>, Seq<char>)| (it.0, Seq::<char>::empty()),
                ) && final(history).previous_batch@.len() == 0,
            }
        }),
{
    let mut out: Vec<(String, String)> = Vec::new();
    if !still_current {
        return out;
    }
    let ghost all = items_view(plan.all_items@);
    match result {
        Ok(entries) => {
            let ghost ev = result_entries(entries@);
            let mut k: usize = 0;
            proof {
                assert(pairs_view(out@) =~= applied(all.take(0), ev));
            }
            while k < plan.all_items.len()
                invariant
                    k <= plan.all_items.len(),
                    all == items_view(plan.all_items@),
                    ev == result_entries(entries@),
                    pairs_view(out@) == applied(all.take(k as int), ev),
                decreases plan.all_items.len() - k,
            {
                let name = plan.all_items[k].id.clone();
                let translation = match find_answer(entries, name.as_str()) {
                    Some(a) => a.translation.clone(),
                    None => String::new(),
                };
                let ghost before = pairs_view(out@);
                let ghost entry = (name@, translation@);
                out.push((name, translation));
                proof {
                    assert(all[k as int].0 == entry.0);
                    assert(entry.1 == match answer_for(ev, all[k as int].0) {
                        Some(a) => a.0,
                        None => Seq::<char>::empty(),
                    });
                    assert(all.take(k + 1) =~= all.take(k as int).push(all[k as int]));
                    assert(applied(all.take(k + 1), ev) =~= applied(all.take(k as int), ev).push(entry));
                    assert(pairs_view(out@) =~= before.push(entry));
                }
                k += 1;
            }
            proof {
                assert(all.take(plan.all_items.len() as int) =~= all);
            }
            let ghost iv = items_view(plan.items@);
            let mut cleaned: Vec<CleanedBatchItem> = Vec::new();
            let mut j: usize = 0;
            proof {
                assert(history_items(cleaned@) =~= cleaned_context(iv.take(0), ev));
            }
            while j < plan.items.len()
                invariant
                    j <= plan.items.len(),
                    iv == items_view(plan.items@),
                    ev == result_entries(entries@),
                    history_items(cleaned@) == cleaned_context(iv.take(j as int), ev),
                decreases plan.items.len() - j,
            {
                let item = &plan.items[j];
                let text = match find_answer(entries, item.id.as_str()) {
                    Some(a) => match &a.cleaned_source {
                        Some(c) => {
                            if is_blank(c.as_str()) {
                                item.text.clone()
                            } else {
                                c.clone()
                            }
                        },
                        None => item.text.clone(),
                    },
                    None => item.text.clone(),
                };
                let ghost before = history_items(cleaned@);
                let ghost entry = (item.id@, text@);
                cleaned.push(CleanedBatchItem { name: item.id.clone(), cleaned_text: text });
                proof {
                    assert(iv[j as int] == (item.id@, item.text@));
                    assert(iv.take(j + 1) =~= iv.take(j as int).push(iv[j as int]));
                    assert(cleaned_context(iv.take(j + 1), ev) =~= cleaned_context(iv.take(j as int), ev).push(entry));
                    assert(history_items(cleaned@) =~= before.push(entry));
                }
                j += 1;
            }
            proof {
                assert(iv.take(plan.items.len() as int) =~= iv);
            }
            history.generation = active_generation;
            history.provider = plan.provider;
            history.previous_batch = cleaned;
        },
        Err(_) => {
            let mut k: usize = 0;
            let ghost blank = all.map_values(|it: (Seq<char>, Seq<char>)| (it.0, Seq::<char>::empty()));
            proof {
                assert(pairs_view(out@) =~= blank.take(0));
            }
            while k < plan.all_items.len()
                invariant
                    k <= plan.all_items.len(),
                    all == items_view(plan.all_items@),
                    blank == all.map_values(|it: (Seq<char>, Seq<char>)| (it.0, Seq::<char>::empty())),
                    pairs_view(out@) == blank.take(k as int),
                decreases plan.all_items.len() - k,
            {
                let ghost before = pairs_view(out@);
                out.push((plan.all_items[k].id.clone(), String::new()));
                proof {
                    assert(blank.take(k + 1) =~= blank.take(k as int).push(blank[k as int]));
                    assert(pairs_view(out@) =~= blank.take(k + 1));
                }
                k += 1;
            }
            proof {
                assert(blank.take(plan.all_items.len() as int) =~= blank);
            }
            history.generation = active_generation;
            history.provider = plan.provider;
            history.previous_batch = Vec::new();
        },
    }
    out
}

} // verus!

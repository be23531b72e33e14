//! The queue of segment translations: requests ordered by segment position,
//! each segment queued at most once, and the bookkeeping around it.
use crate::path::file_name;
use crate::text::{all_ws, is_blank, str_eq};
use vstd::prelude::*;

verus! {

broadcast use vstd::seq_lib::group_seq_properties;

/// A request to translate one segment.
#[derive(Debug)]
pub struct TranslationRequest {
    pub name: String,
    pub provider: Option<String>,
    pub order: usize,
    pub generation: u64,
}

/// The view of an optional string.
pub open spec fn opt_text(o: Option<String>) -> Option<Seq<char>> {
    match o {
        Some(s) => Some(s@),
        None => None,
    }
}

/// A request as plain values: name, provider, order, generation.
pub open spec fn request_view(r: TranslationRequest) -> (Seq<char>, Option<Seq<char>>, usize, u64) {
    (r.name@, opt_text(r.provider), r.order, r.generation)
}

/// Requests as plain values.
pub open spec fn requests_view(v: Seq<TranslationRequest>) -> Seq<(Seq<char>, Option<Seq<char>>, usize, u64)> {
    v.map_values(|r: TranslationRequest| request_view(r))
}

/// Queued requests are ordered by order, and no segment is queued twice.
pub open spec fn queue_wf(s: Seq<(Seq<char>, Option<Seq<char>>, usize, u64)>) -> bool {
    &&& forall|i: int, j: int| 0 <= i < j < s.len() ==> (#[trigger] s[i]).2 <= (#[trigger] s[j]).2
    &&& forall|i: int, j: int| 0 <= i < j < s.len() ==> (#[trigger] s[i]).0 != (#[trigger] s[j]).0
}

/// Where a request with the given order goes: before the first queued
/// request with a greater order, after all others.
pub open spec fn insert_pos(s: Seq<(Seq<char>, Option<Seq<char>>, usize, u64)>, order: usize) -> int
    decreases s.len(),
{
    if s.len() == 0 {
        0
    } else if order < s[0].2 {
        0
    } else {
        1 + insert_pos(s.drop_first(), order)
    }
}

/// The segment is queued.
pub open spec fn queued(s: Seq<(Seq<char>, Option<Seq<char>>, usize, u64)>, name: Seq<char>) -> bool {
    exists|i: int| 0 <= i < s.len() && (#[trigger] s[i]).0 == name
}

proof fn lemma_insert_pos(s: Seq<(Seq<char>, Option<Seq<char>>, usize, u64)>, order: usize, p: int)
    requires
        0 <= p <= s.len(),
        forall|i: int| 0 <= i < p ==> (#[trigger] s[i]).2 <= order,
        p == s.len() || order < s[p].2,
    ensures
        insert_pos(s, order) == p,
    decreases p,
{
    if p > 0 {
        assert forall|i: int| 0 <= i < p - 1 implies (#[trigger] s.drop_first()[i]).2 <= order by {
            assert(s.drop_first()[i] == s[i + 1]);
        }
        if p < s.len() {
            assert(s.drop_first()[p - 1] == s[p]);
        }
        lemma_insert_pos(s.drop_first(), order, p - 1);
    }
}

/// The translation queue.
#[derive(Debug)]
pub struct TranslationQueue {
    items: Vec<TranslationRequest>,
}

impl TranslationQueue {
    /// The queued requests, first to be taken first.
    pub closed spec fn view(&self) -> Seq<(Seq<char>, Option<Seq<char>>, usize, u64)> {
        requests_view(self.items@)
    }

    /// An empty queue.
    pub fn new() -> (r: TranslationQueue)
        ensures
            r.view() == Seq::<(Seq<char>, Option<Seq<char>>, usize, u64)>::empty(),
            queue_wf(r.view()),
    {
        let r = TranslationQueue { items: Vec::new() };
        proof {
            assert(requests_view(r.items@) =~= Seq::<(Seq<char>, Option<Seq<char>>, usize, u64)>::empty());
        }
        r
    }

    /// Queues a request, unless its segment is queued already: before the
    /// first queued request with a greater order, after all others.
    pub fn push(&mut self, request: TranslationRequest)
        requires
            queue_wf(old(self).view()),
        ensures
            queue_wf(final(self).view()),
            queued(old(self).view(), request.name@) ==> final(self).view() == old(self).view(),
            !queued(old(self).view(), request.name@) ==> final(self).view() == old(self).view().insert(
                insert_pos(old(self).view(), request.order),
                request_view(request),
            ),
    {
        let ghost s = self.view();
        let mut i: usize = 0;
        while i < self.items.len()
            invariant
                i <= self.items.len(),
                s == requests_view(self.items@),
                queue_wf(s),
                forall|j: int| 0 <= j < i ==> (#[trigger] s[j]).0 != request.name@,
            decreases self.items.len() - i,
        {
            if str_eq(self.items[i].name.as_str(), request.name.as_str()) {
                proof {
                    assert(s[i as int].0 == request.name@);
                }
                return;
            }
            i += 1;
        }
        let mut p: usize = 0;
        while p < self.items.len() && !(request.order < self.items[p].order)
            invariant
                p <= self.items.len(),
                s == requests_view(self.items@),
                forall|j: int| 0 <= j < p ==> (#[trigger] s[j]).2 <= request.order,
            decreases self.items.len() - p,
        {
            proof {
                assert(s[p as int].2 == self.items@[p as int].order);
            }
            p += 1;
        }
        proof {
            if p < s.len() {
                assert(s[p as int].2 == self.items@[p as int].order);
            }
            lemma_insert_pos(s, request.order, p as int);
        }
        let ghost rv = request_view(request);
        self.items.insert(p, request);
        proof {
            let t = self.view();
            assert(t =~= s.insert(p as int, rv));
            assert forall|a: int, b: int| 0 <= a < b < t.len() implies (#[trigger] t[a]).2 <= (
            #[trigger] t[b]).2 by {
                if b < p {
                    assert(t[a] == s[a] && t[b] == s[b]);
                } else if b == p {
                    assert(t[a] == s[a]);
                } else if a < p {
                    assert(t[a] == s[a] && t[b] == s[b - 1]);
                } else if a == p {
                    assert(t[b] == s[b - 1]);
                } else {
                    assert(t[a] == s[a - 1] && t[b] == s[b - 1]);
                }
            }
            assert forall|a: int, b: int| 0 <= a < b < t.len() implies (#[trigger] t[a]).0 != (
            #[trigger] t[b]).0 by {
                if b < p {
                    assert(t[a] == s[a] && t[b] == s[b]);
                } else if b == p {
                    assert(t[a] == s[a]);
                } else if a < p {
                    assert(t[a] == s[a] && t[b] == s[b - 1]);
                } else if a == p {
                    assert(t[b] == s[b - 1]);
                } else {
                    assert(t[a] == s[a - 1] && t[b] == s[b - 1]);
                }
            }
        }
    }

    /// Takes the first queued request, if any.
    pub fn try_pop(&mut self) -> (r: Option<TranslationRequest>)
        requires
            queue_wf(old(self).view()),
        ensures
            queue_wf(final(self).view()),
            old(self).view().len() == 0 ==> r is None && final(self).view() == old(self).view(),
            old(self).view().len() > 0 ==> (r matches Some(req) && request_view(req) == old(
                self,
            ).view()[0] && final(self).view() == old(self).view().drop_first()),
    {
        if self.items.len() == 0 {
            return None;
        }
        let ghost s = self.view();
        let request = self.items.remove(0);
        proof {
            assert(self.view() =~= s.drop_first());
        }
        Some(request)
    }

    /// Drops every queued request.
    pub fn clear(&mut self)
        ensures
            final(self).view().len() == 0,
            queue_wf(final(self).view()),
    {
        self.items.clear();
        proof {
            assert(self.view().len() == 0);
        }
    }

    /// How many requests are queued.
    pub fn len(&self) -> (r: usize)
        ensures
            r == self.view().len(),
    {
        self.items.len()
    }
}

/// A pushed request's segment is queued afterwards, so that pushing the same
/// segment again changes nothing.
pub proof fn push_queues_the_segment(s: Seq<(Seq<char>, Option<Seq<char>>, usize, u64)>, r: (Seq<char>, Option<Seq<char>>, usize, u64))
    requires
        !queued(s, r.0),
    ensures
        queued(s.insert(insert_pos(s, r.2), r), r.0),
{
    let p = insert_pos(s, r.2);
    lemma_insert_pos_bounds(s, r.2);
    assert(s.insert(p, r)[p] == r);
}

/// The request taken first has the least order of all queued.
pub proof fn front_has_least_order(s: Seq<(Seq<char>, Option<Seq<char>>, usize, u64)>)
    requires
        queue_wf(s),
        s.len() > 0,
    ensures
        forall|i: int| 0 <= i < s.len() ==> s[0].2 <= (#[trigger] s[i]).2,
{
    assert forall|i: int| 0 <= i < s.len() implies s[0].2 <= (#[trigger] s[i]).2 by {
        if i > 0 {
            assert(s[0].2 <= s[i].2);
        }
    }
}

proof fn lemma_insert_pos_bounds(s: Seq<(Seq<char>, Option<Seq<char>>, usize, u64)>, order: usize)
    ensures
        0 <= insert_pos(s, order) <= s.len(),
    decreases s.len(),
{
    if s.len() > 0 {
        lemma_insert_pos_bounds(s.drop_first(), order);
    }
}

/// Groups laid end to end.
pub open spec fn joined(gs: Seq<Seq<(Seq<char>, Option<Seq<char>>, usize, u64)>>) -> Seq<
    (Seq<char>, Option<Seq<char>>, usize, u64),
>
    decreases gs.len(),
{
    if gs.len() == 0 {
        seq![]
    } else {
        joined(gs.drop_last()) + gs.last()
    }
}

/// Groups of requests as plain values.
pub open spec fn groups_view(g: Seq<Vec<TranslationRequest>>) -> Seq<
    Seq<(Seq<char>, Option<Seq<char>>, usize, u64)>,
> {
    g.map_values(|v: Vec<TranslationRequest>| requests_view(v@))
}

/// Every request of a group has the provider of its first request.
pub open spec fn one_provider(g: Seq<(Seq<char>, Option<Seq<char>>, usize, u64)>) -> bool {
    g.len() > 0 && forall|i: int| 0 <= i < g.len() ==> (#[trigger] g[i]).1 == g[0].1
}

/// Groups that each have one provider, and neighbours that differ in it.
pub open spec fn provider_runs(gs: Seq<Seq<(Seq<char>, Option<Seq<char>>, usize, u64)>>) -> bool {
    &&& forall|k: int| 0 <= k < gs.len() ==> one_provider(#[trigger] gs[k])
    &&& forall|k: int| 0 <= k < gs.len() - 1 ==> (#[trigger] gs[k])[0].1 != gs[k + 1][0].1
}

/// Whether two optional strings are equal.
pub fn opt_str_eq(a: &Option<String>, b: &Option<String>) -> (r: bool)
    ensures
        r == (opt_text(*a) == opt_text(*b)),
{
    match (a, b) {
        (Some(x), Some(y)) => str_eq(x.as_str(), y.as_str()),
        (None, None) => true,
        _ => false,
    }
}

/// Splits requests into runs of consecutive requests with the same
/// provider, in order.
pub fn group_by_provider(requests: Vec<TranslationRequest>) -> (r: Vec<Vec<TranslationRequest>>)
    ensures
        joined(groups_view(r@)) == requests_view(requests@),
        provider_runs(groups_view(r@)),
{
    let ghost input = requests_view(requests@);
    let mut requests = requests;
    let mut groups: Vec<Vec<TranslationRequest>> = Vec::new();
    let mut group: Vec<TranslationRequest> = Vec::new();
    let ghost mut i: int = 0;
    proof {
        assert(requests_view(requests@) == input.skip(0));
        assert(joined(groups_view(groups@)) + requests_view(group@) =~= input.take(0));
    }
    while requests.len() > 0
        invariant
            0 <= i <= input.len(),
            requests_view(requests@) == input.skip(i),
            joined(groups_view(groups@)) + requests_view(group@) == input.take(i),
            provider_runs(groups_view(groups@)),
            group.len() == 0 ==> groups.len() == 0,
            group.len() > 0 ==> one_provider(requests_view(group@)),
            group.len() > 0 && groups.len() > 0 ==> groups_view(groups@).last()[0].1
                != requests_view(group@)[0].1,
        decreases requests.len(),
    {
        let ghost before_groups = groups_view(groups@);
        let ghost before_group = requests_view(group@);
        let ghost before_reqs = requests@;
        proof {
            assert(requests_view(before_reqs).len() == before_reqs.len());
            assert(i < input.len());
            assert(requests_view(before_reqs)[0] == input[i]);
        }
        let r = requests.remove(0);
        proof {
            assert(r == before_reqs[0]);
            assert(request_view(r) == input[i]);
            assert(requests_view(requests@) =~= input.skip(i + 1));
            assert(input.take(i + 1) =~= input.take(i).push(input[i]));
        }
        if group.len() == 0 {
            group.push(r);
            proof {
                assert(requests_view(group@) =~= seq![input[i]]);
                assert(groups_view(groups@) =~= Seq::<Seq<(Seq<char>, Option<Seq<char>>, usize, u64)>>::empty());
            }
        } else if opt_str_eq(&r.provider, &group[0].provider) {
            group.push(r);
            proof {
                assert(requests_view(group@) =~= before_group.push(input[i]));
            }
        } else {
            let mut done: Vec<TranslationRequest> = Vec::new();
            std::mem::swap(&mut done, &mut group);
            groups.push(done);
            group.push(r);
            proof {
                let gv = groups_view(groups@);
                assert(gv =~= before_groups.push(before_group));
                assert(gv.drop_last() =~= before_groups);
                assert(requests_view(group@) =~= seq![input[i]]);
                assert(joined(gv) == joined(before_groups) + before_group);
                assert(joined(gv) + requests_view(group@) =~= input.take(i + 1));
                assert forall|k: int| 0 <= k < gv.len() implies one_provider(#[trigger] gv[k]) by {
                    if k < before_groups.len() {
                        assert(gv[k] == before_groups[k]);
                    }
                }
                assert forall|k: int| 0 <= k < gv.len() - 1 implies (#[trigger] gv[k])[0].1 != gv[k
                    + 1][0].1 by {
                    if k < before_groups.len() - 1 {
                        assert(gv[k] == before_groups[k] && gv[k + 1] == before_groups[k + 1]);
                    } else {
                        assert(gv[k] == before_groups.last());
                    }
                }
            }
        }
        proof {
            i = i + 1;
        }
    }
    proof {
        assert(input.skip(i).len() == 0);
        assert(input.take(i) =~= input);
    }
    if group.len() > 0 {
        let ghost before_groups = groups_view(groups@);
        let ghost before_group = requests_view(group@);
        groups.push(group);
        proof {
            let gv = groups_view(groups@);
            assert(gv =~= before_groups.push(before_group));
            assert(gv.drop_last() =~= before_groups);
            assert forall|k: int| 0 <= k < gv.len() implies one_provider(#[trigger] gv[k]) by {
                if k < before_groups.len() {
                    assert(gv[k] == before_groups[k]);
                }
            }
            assert forall|k: int| 0 <= k < gv.len() - 1 implies (#[trigger] gv[k])[0].1 != gv[k
                + 1][0].1 by {
                if k < before_groups.len() - 1 {
                    assert(gv[k] == before_groups[k] && gv[k + 1] == before_groups[k + 1]);
                } else {
                    assert(gv[k] == before_groups.last());
                }
            }
        }
    } else {
        proof {
            assert(requests_view(group@) =~= Seq::<(Seq<char>, Option<Seq<char>>, usize, u64)>::empty());
            assert(joined(groups_view(groups@)) + requests_view(group@) =~= joined(groups_view(groups@)));
        }
    }
    groups
}

/// The position of a segment among the segments, or `usize::MAX` when it is
/// not there.
pub fn segment_order(names: &Vec<String>, name: &str) -> (r: usize)
    ensures
        r < names.len() ==> names@[r as int]@ == name@ && forall|j: int|
            0 <= j < r ==> (#[trigger] names@[j])@ != name@,
        r >= names.len() ==> r == usize::MAX && forall|j: int|
            0 <= j < names.len() ==> (#[trigger] names@[j])@ != name@,
{
    let mut i: usize = 0;
    while i < names.len()
        invariant
            i <= names.len(),
            forall|j: int| 0 <= j < i ==> (#[trigger] names@[j])@ != name@,
        decreases names.len() - i,
    {
        if str_eq(names[i].as_str(), name) {
            return i;
        }
        i += 1;
    }
    usize::MAX
}

/// Translations asked for before the segment's transcript was ready: the
/// provider asked for, by segment name.
#[derive(Debug)]
pub struct PendingTranslations {
    entries: Vec<(String, Option<String>)>,
}

impl PendingTranslations {
    /// The provider asked for, by segment name.
    pub closed spec fn view(&self) -> Map<Seq<char>, Option<Seq<char>>> {
        Map::new(
            |n: Seq<char>| exists|i: int| 0 <= i < self.entries@.len() && self.entries@[i].0@ == n,
            |n: Seq<char>| {
                let i = choose|i: int| 0 <= i < self.entries@.len() && self.entries@[i].0@ == n;
                opt_text(self.entries@[i].1)
            },
        )
    }

    /// No segment is held twice.
    pub closed spec fn wf(&self) -> bool {
        forall|i: int, j: int|
            0 <= i < j < self.entries@.len() ==> (#[trigger] self.entries@[i]).0@ != (
            #[trigger] self.entries@[j]).0@
    }

    /// Nothing pending.
    pub fn new() -> (r: PendingTranslations)
        ensures
            r.wf(),
            r.view() == Map::<Seq<char>, Option<Seq<char>>>::empty(),
    {
        let r = PendingTranslations { entries: Vec::new() };
        proof {
            assert(r.view() =~= Map::<Seq<char>, Option<Seq<char>>>::empty());
        }
        r
    }

    /// The position of a segment, if it is held.
    fn position(&self, name: &str) -> (r: Option<usize>)
        ensures
            match r {
                Some(i) => i < self.entries.len() && self.entries@[i as int].0@ == name@,
                None => forall|j: int| 0 <= j < self.entries.len() ==> (#[trigger] self.entries@[j]).0@ != name@,
            },
    {
        let mut i: usize = 0;
        while i < self.entries.len()
            invariant
                i <= self.entries.len(),
                forall|j: int| 0 <= j < i ==> (#[trigger] self.entries@[j]).0@ != name@,
            decreases self.entries.len() - i,
        {
            if str_eq(self.entries[i].0.as_str(), name) {
                return Some(i);
            }
            i += 1;
        }
        None
    }

    /// Remembers a request for a segment, unless one is held for it already.
    pub fn request(&mut self, name: String, provider: Option<String>)
        requires
            old(self).wf(),
        ensures
            final(self).wf(),
            old(self).view().contains_key(name@) ==> final(self).view() == old(self).view(),
            !old(self).view().contains_key(name@) ==> final(self).view() == old(self).view().insert(
                name@,
                opt_text(provider),
            ),
    {
        match self.position(name.as_str()) {
            Some(i) => {
                proof {
                    assert(self.view().contains_key(name@));
                }
            },
            None => {
                let ghost before = self.entries@;
                let ghost old_view = self.view();
                let ghost nv = name@;
                let ghost pv = opt_text(provider);
                self.entries.push((name, provider));
                proof {
                    assert(!old_view.contains_key(nv));
                    let now = self.view();
                    assert forall|n: Seq<char>| #[trigger] now.contains_key(n) <==> old_view.insert(nv, pv).contains_key(n) by {
                        if n != nv && now.contains_key(n) {
                            let i = choose|i: int| 0 <= i < self.entries@.len() && self.entries@[i].0@ == n;
                            assert(before[i] == self.entries@[i]);
                        }
                        if old_view.contains_key(n) {
                            let i = choose|i: int| 0 <= i < before.len() && before[i].0@ == n;
                            assert(self.entries@[i] == before[i]);
                        }
                        if n == nv {
                            assert(self.entries@[before.len() as int].0@ == n);
                        }
                    }
                    assert forall|n: Seq<char>| now.contains_key(n) implies #[trigger] now[n] == old_view.insert(nv, pv)[n] by {
                        let i = choose|i: int| 0 <= i < self.entries@.len() && self.entries@[i].0@ == n;
                        if n == nv {
                            assert(i == before.len());
                        } else {
                            assert(i < before.len());
                            assert(self.entries@[i] == before[i]);
                            let k = choose|k: int| 0 <= k < before.len() && before[k].0@ == n;
                            assert(k == i);
                        }
                    }
                    assert(now =~= old_view.insert(nv, pv));
                }
            },
        }
    }

    /// Takes the request held for a segment, if any.
    pub fn take(&mut self, name: &str) -> (r: Option<Option<String>>)
        requires
            old(self).wf(),
        ensures
            final(self).wf(),
            final(self).view() == old(self).view().remove(name@),
            match r {
                Some(p) => old(self).view().contains_key(name@) && old(self).view()[name@] == opt_text(p),
                None => !old(self).view().contains_key(name@),
            },
    {
        match self.position(name) {
            Some(i) => {
                let ghost before = self.entries@;
                let ghost old_view = self.view();
                let (_, provider) = self.entries.remove(i);
                proof {
                    assert(before[i as int].0@ == name@);
                    assert(old_view.contains_key(name@));
                    let k = choose|k: int| 0 <= k < before.len() && before[k].0@ == name@;
                    assert(k == i);
                    let now = self.view();
                    assert forall|n: Seq<char>| #[trigger] now.contains_key(n) <==> old_view.remove(name@).contains_key(n) by {
                        if now.contains_key(n) {
                            let a = choose|a: int| 0 <= a < self.entries@.len() && self.entries@[a].0@ == n;
                            if a < i {
                                assert(self.entries@[a] == before[a]);
                            } else {
                                assert(self.entries@[a] == before[a + 1]);
                            }
                        }
                        if old_view.contains_key(n) && n != name@ {
                            let a = choose|a: int| 0 <= a < before.len() && before[a].0@ == n;
                            if a < i {
                                assert(self.entries@[a] == before[a]);
                            } else {
                                assert(a != i);
                                assert(self.entries@[a - 1] == before[a]);
                            }
                        }
                    }
                    assert forall|n: Seq<char>| now.contains_key(n) implies #[trigger] now[n] == old_view.remove(name@)[n] by {
                        let a = choose|a: int| 0 <= a < self.entries@.len() && self.entries@[a].0@ == n;
                        let b = choose|b: int| 0 <= b < before.len() && before[b].0@ == n;
                        if a < i {
                            assert(self.entries@[a] == before[a]);
                            assert(b == a);
                        } else {
                            assert(self.entries@[a] == before[a + 1]);
                            assert(b == a + 1);
                        }
                    }
                    assert(now =~= old_view.remove(name@));
                }
                Some(provider)
            },
            None => {
                proof {
                    assert(!self.view().contains_key(name@));
                    assert(self.view().remove(name@) =~= self.view());
                }
                None
            },
        }
    }

    /// Whether nothing is pending.
    pub fn is_empty(&self) -> (r: bool)
        ensures
            r == (self.view() == Map::<Seq<char>, Option<Seq<char>>>::empty()),
    {
        proof {
            if self.entries@.len() == 0 {
                assert(self.view() =~= Map::<Seq<char>, Option<Seq<char>>>::empty());
            } else {
                assert(self.view().contains_key(self.entries@[0].0@));
            }
        }
        self.entries.len() == 0
    }

    /// Forgets every pending request.
    pub fn clear(&mut self)
        ensures
            final(self).wf(),
            final(self).view() == Map::<Seq<char>, Option<Seq<char>>>::empty(),
    {
        self.entries.clear();
        proof {
            assert(self.view() =~= Map::<Seq<char>, Option<Seq<char>>>::empty());
        }
    }
}

/// The speaker of the audio being captured, as the last decision left it.
#[derive(Debug)]
pub struct SpeakerState {
    pub current_id: Option<u32>,
    /// The similarity of the last decision, as the bit pattern of an `f32`.
    pub current_similarity: Option<u32>,
    pub last_changed: Option<bool>,
}

impl SpeakerState {
    /// No speaker known.
    pub fn new() -> (r: SpeakerState)
        ensures
            r.current_id is None,
            r.current_similarity is None,
            r.last_changed is None,
    {
        SpeakerState { current_id: None, current_similarity: None, last_changed: None }
    }

    /// Takes in a decision about the latest window: a mixed window, or one
    /// with no speaker, forgets the speaker; otherwise the speaker becomes
    /// current, marked changed when it differs from the previous one (or
    /// there was none).
    pub fn apply_decision(&mut self, speaker_id: Option<u32>, similarity: Option<u32>, mixed: bool)
        ensures
            (mixed || speaker_id is None) ==> final(self).current_id is None
                && final(self).current_similarity is None && final(self).last_changed is None,
            (!mixed && speaker_id is Some) ==> final(self).current_id == speaker_id
                && final(self).current_similarity == similarity && final(self).last_changed == Some(
                match old(self).current_id {
                    Some(prev) => prev != speaker_id->0,
                    None => true,
                },
            ),
    {
        if mixed || speaker_id.is_none() {
            self.current_id = None;
            self.current_similarity = None;
            self.last_changed = None;
            return;
        }
        let id = match speaker_id {
            Some(id) => id,
            None => 0,
        };
        let changed = match self.current_id {
            Some(prev) => prev != id,
            None => true,
        };
        self.current_id = Some(id);
        self.current_similarity = similarity;
        self.last_changed = Some(changed);
    }
}

/// How many segments are translated together: the configured size, at
/// least 1, or 1 when none is configured.
pub fn load_segment_translation_batch_config(segment_batch_size: Option<usize>) -> (r: usize)
    ensures
        r == match segment_batch_size {
            Some(n) => if n >= 1 {
                n
            } else {
                1
            },
            None => 1,
        },
        r >= 1,
{
    let raw = match segment_batch_size {
        Some(n) => n,
        None => 1,
    };
    if raw >= 1 {
        raw
    } else {
        1
    }
}

/// A segment name is a bare file name: the last component of itself.
/// Anything else is refused with "invalid segment name".
pub fn segment_file_name(name: &str) -> (r: Result<String, String>)
    ensures
        match r {
            Ok(n) => n@ == name@ && crate::path::file_name_of(name@) == Some(name@),
            Err(e) => e@ == "invalid segment name"@ && crate::path::file_name_of(name@) != Some(
                name@,
            ),
        },
{
    match file_name(name) {
        Some(n) => {
            if str_eq(n.as_str(), name) {
                Ok(n)
            } else {
                Err("invalid segment name".to_owned())
            }
        },
        None => Err("invalid segment name".to_owned()),
    }
}

/// What collecting a batch of translations does next.
#[derive(Debug)]
pub enum BatchStep {
    /// The translations were cancelled meanwhile: drop the batch.
    Abandon,
    /// The batch is full.
    Finish,
    /// Take the next queued request, or wait for one.
    Poll,
}

/// The next step of collecting a batch of `size` requests that has
/// `batch_len` so far, for generation `active` while `current` is the
/// generation now in force.
pub fn next_batch_step(batch_len: usize, size: usize, active: u64, current: u64) -> (r: BatchStep)
    ensures
        batch_len >= size ==> r is Finish,
        batch_len < size && active != current ==> r is Abandon,
        batch_len < size && active == current ==> r is Poll,
{
    if batch_len >= size {
        BatchStep::Finish
    } else if active != current {
        BatchStep::Abandon
    } else {
        BatchStep::Poll
    }
}

/// What a request to translate one segment leads to.
#[derive(Debug)]
pub enum SegmentTranslation {
    /// Segment translations are being dropped: nothing happens.
    Ignore,
    /// The transcript is there: queue the translation with this provider.
    Enqueue(Option<String>),
    /// The transcript is not there yet: remember the request.
    Defer(Option<String>),
}

/// Decides a request to translate one segment: a name that is not a bare
/// file name is refused with "invalid segment name"; a blank provider
/// counts as none; nothing happens while translations are dropped;
/// otherwise the translation is queued when the transcript is ready, and
/// remembered for later when it is not.
pub fn plan_segment_translation(
    name: &str,
    provider: Option<String>,
    dropping: bool,
    transcript_ready: bool,
) -> (r: Result<SegmentTranslation, String>)
    ensures
        crate::path::file_name_of(name@) != Some(name@) ==> (r matches Err(e) && e@ == "invalid segment name"@),
        crate::path::file_name_of(name@) == Some(name@) ==> ({
            let p = match provider {
                Some(p) => if all_ws(p@) {
                    None
                } else {
                    Some(p@)
                },
                None => None,
            };
            &&& dropping ==> (r matches Ok(SegmentTranslation::Ignore))
            &&& !dropping && transcript_ready ==> (r matches Ok(SegmentTranslation::Enqueue(q)) && opt_text(q) == p)
            &&& !dropping && !transcript_ready ==> (r matches Ok(SegmentTranslation::Defer(q)) && opt_text(q) == p)
        }),
{
    segment_file_name(name)?;
    let provider = match provider {
        Some(p) => {
            if is_blank(p.as_str()) {
                None
            } else {
                Some(p)
            }
        },
        None => None,
    };
    if dropping {
        return Ok(SegmentTranslation::Ignore);
    }
    if transcript_ready {
        Ok(SegmentTranslation::Enqueue(provider))
    } else {
        Ok(SegmentTranslation::Defer(provider))
    }
}

} // verus!

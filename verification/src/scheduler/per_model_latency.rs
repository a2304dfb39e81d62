//! Recent call times of each model.

use crate::scheduler::latency::LatencyTracker;
use crate::types::{latest, law_latest_of_latest, law_length_tells_spans_apart, Span};
use dashmap::DashMap;
use vstd::prelude::*;

verus! {

/// The most recent call times, up to a fixed number.
#[derive(Debug)]
pub struct ModelSampleRing {
    samples: Vec<Span>,
    next: usize,
}

/// How many call times a ring keeps.
pub const CAPACITY: usize = 256;

impl ModelSampleRing {
    /// The times that are kept, the oldest first.
    pub closed spec fn view(&self) -> Seq<Span> {
        self.samples@.skip(self.next as int) + self.samples@.take(self.next as int)
    }

    /// The ring holds no more than it may, and its oldest element is inside it.
    #[verifier::type_invariant]
    pub closed spec fn wf(&self) -> bool {
        &&& self.samples@.len() <= CAPACITY
        &&& self.next < CAPACITY
        &&& self.samples@.len() < CAPACITY ==> self.next == 0
    }

    /// An empty ring.
    pub fn new() -> (r: ModelSampleRing)
        ensures
            r@ == Seq::<Span>::empty(),
    {
        let r = ModelSampleRing { samples: Vec::new(), next: 0 };
        assert(r@ =~= Seq::<Span>::empty());
        r
    }

    /// Takes in a call time; where the ring is full, the oldest goes.
    pub fn push(&mut self, d: Span)
        ensures
            final(self)@ == latest(old(self)@.push(d), CAPACITY as nat),
    {
        proof {
            use_type_invariant(&*self);
        }
        let ghost before = self@;
        let at: usize = self.next;
        self.next = 0;
        let mut samples: Vec<Span> = Vec::new();
        std::mem::swap(&mut samples, &mut self.samples);
        let ghost s0 = samples@;
        if samples.len() < CAPACITY {
            samples.push(d);
            self.samples = samples;
            assert(self@ =~= before.push(d));
        } else {
            samples.set(at, d);
            let next: usize = if at + 1 == CAPACITY {
                0
            } else {
                at + 1
            };
            *self = ModelSampleRing { samples, next };
            assert(before.push(d).skip(1) =~= self@);
        }
    }

    /// How many times are kept.
    pub fn len(&self) -> (n: usize)
        ensures
            n == self@.len(),
            n <= CAPACITY,
    {
        proof {
            use_type_invariant(self);
        }
        self.samples.len()
    }

    /// The time at position `rank` among those kept, the shortest first; the
    /// longest where there are not so many.
    fn at_rank(&self, rank: usize) -> (r: Option<Span>)
        ensures
            self@.len() == 0 ==> r is None,
            self@.len() > 0 ==> r is Some && exists|sorted: Seq<Span>|
                #![trigger spans_ascend(sorted)]
                spans_ascend(sorted) && sorted.to_multiset() == self@.to_multiset() && r->0
                    == sorted[if rank < self@.len() {
                    rank as int
                } else {
                    self@.len() - 1
                }],
    {
        proof {
            use_type_invariant(self);
        }
        if self.samples.len() == 0 {
            return None;
        }
        let sorted = sort_spans(&self.samples);
        let last: usize = sorted.len() - 1;
        let at: usize = if rank < last {
            rank
        } else {
            last
        };
        proof {
            let a = self.samples@.take(self.next as int);
            let b = self.samples@.skip(self.next as int);
            assert(self.samples@ =~= a + b);
            vstd::seq_lib::lemma_multiset_commutative(a, b);
            vstd::seq_lib::lemma_multiset_commutative(b, a);
            assert(self.samples@.to_multiset() =~= self@.to_multiset());
            assert(spans_ascend(sorted@));
        }
        Some(sorted[at])
    }

    /// The time at a percentile, where there is any: `percent` hundredths of
    /// the way from the shortest to the longest, to the nearest time.
    pub fn percentile(&self, percent: u32) -> (r: Option<Span>)
        ensures
            is_percentile(self@, percent as nat, r),
    {
        let n = self.len();
        if n == 0 {
            return None;
        }
        let steps: u128 = (n - 1) as u128;
        assert(steps * percent <= 0xffff_ffff_ffff_ffff * 0xffff_ffff) by (nonlinear_arith)
            requires
                0 <= steps <= 0xffff_ffff_ffff_ffff,
                0 <= percent <= 0xffff_ffff,
        ;
        assert(steps * percent >= 0) by (nonlinear_arith)
            requires
                0 <= steps,
                0 <= percent,
        ;
        let at: u128 = (2 * (steps * (percent as u128)) + 100) / 200;
        let rank: usize = if at < steps {
            at as usize
        } else {
            n - 1
        };
        self.at_rank(rank)
    }

    /// A copy of the ring.
    pub fn copy(&self) -> (r: ModelSampleRing)
        ensures
            r@ == self@,
    {
        proof {
            use_type_invariant(self);
        }
        let samples = self.samples.clone();
        assert(samples@ =~= self.samples@);
        ModelSampleRing { samples, next: self.next }
    }
}

/// The position of a percentile among `n` times in ascending order.
pub open spec fn percentile_rank(n: nat, percent: nat) -> int {
    let at = (2 * ((n - 1) * percent) + 100) / 200;
    if at < n - 1 {
        at
    } else {
        n - 1
    }
}

/// Whether `r` is the time at a percentile: the one at its position once the
/// times are sorted. Of no times there is none.
pub open spec fn is_percentile(times: Seq<Span>, percent: nat, r: Option<Span>) -> bool {
    if times.len() == 0 {
        r is None
    } else {
        r is Some && exists|sorted: Seq<Span>|
            #![trigger spans_ascend(sorted)]
            spans_ascend(sorted) && sorted.to_multiset() == times.to_multiset() && r->0
                == sorted[percentile_rank(times.len(), percent)]
    }
}

/// The spans ascend.
pub open spec fn spans_ascend(s: Seq<Span>) -> bool {
    forall|i: int, j: int|
        0 <= i < j < s.len() ==> (#[trigger] s[i]).total() <= (#[trigger] s[j]).total()
}

/// The spans in ascending order.
fn sort_spans(v: &Vec<Span>) -> (r: Vec<Span>)
    ensures
        spans_ascend(r@),
        r@.to_multiset() == v@.to_multiset(),
        r@.len() == v@.len(),
{
    let mut out: Vec<Span> = Vec::new();
    let mut i: usize = 0;
    assert(v@.take(0) =~= out@);
    while i < v.len()
        invariant
            0 <= i <= v@.len(),
            out@.len() == i,
            spans_ascend(out@),
            out@.to_multiset() == v@.take(i as int).to_multiset(),
        decreases v@.len() - i,
    {
        let x = v[i];
        let ghost before = out@;
        let mut p: usize = 0;
        while p < out.len() && out[p].at_most(&x)
            invariant
                0 <= p <= out@.len(),
                before == out@,
                spans_ascend(before),
                forall|a: int| 0 <= a < p ==> (#[trigger] before[a]).total() <= x.total(),
            decreases out@.len() - p,
        {
            p += 1;
        }
        out.insert(p, x);
        proof {
            vstd::seq_lib::to_multiset_insert(before, p as int, x);
            assert(v@.take(i + 1) =~= v@.take(i as int).push(x));
            vstd::seq_lib::to_multiset_build(v@.take(i as int), x);
        }
        i += 1;
    }
    assert(v@.take(i as int) =~= v@);
    out
}

/// What a ring that kept some times keeps once more of them were pushed.
pub open spec fn pushed(kept: Seq<Span>, times: Seq<Span>) -> Seq<Span>
    decreases times.len(),
{
    if times.len() == 0 {
        kept
    } else {
        latest(pushed(kept, times.drop_last()).push(times.last()), CAPACITY as nat)
    }
}

/// However many times are pushed into a new ring, it keeps the last of them,
/// in the order in which they came.
pub proof fn law_ring_keeps_the_latest(times: Seq<Span>)
    ensures
        pushed(Seq::empty(), times) == latest(times, CAPACITY as nat),
    decreases times.len(),
{
    if times.len() > 0 {
        let before = times.drop_last();
        law_ring_keeps_the_latest(before);
        law_latest_of_latest(before, seq![times.last()], CAPACITY as nat);
        assert(before + seq![times.last()] =~= times);
        let kept = latest(before, CAPACITY as nat);
        assert(kept + seq![times.last()] =~= kept.push(times.last()));
    }
}

/// The order of spans by their length; of those of the same length, by their
/// seconds.
spec fn span_le(a: Span, b: Span) -> bool {
    a.total() < b.total() || (a.total() == b.total() && a.secs <= b.secs)
}

proof fn lemma_sorted_spans(sorted: Seq<Span>, times: Seq<Span>)
    requires
        forall|i: int| 0 <= i < times.len() ==> (#[trigger] times[i]).wf(),
        spans_ascend(sorted),
        sorted.to_multiset() == times.to_multiset(),
    ensures
        vstd::relations::sorted_by(sorted, |a: Span, b: Span| span_le(a, b)),
        sorted.len() == times.len(),
{
    broadcast use vstd::seq_lib::group_to_multiset_ensures;

    assert forall|i: int| 0 <= i < sorted.len() implies (#[trigger] sorted[i]).wf() by {
        assert(sorted.to_multiset().count(sorted[i]) > 0);
        assert(times.contains(sorted[i]));
    }
    assert forall|i: int, j: int| 0 <= i < j < sorted.len() implies span_le(
        #[trigger] sorted[i],
        #[trigger] sorted[j],
    ) by {
        if sorted[i].total() == sorted[j].total() {
            law_length_tells_spans_apart(sorted[i], sorted[j]);
        }
    }
    assert(sorted.len() == sorted.to_multiset().len());
    assert(times.len() == times.to_multiset().len());
}

/// A percentile depends on which times there are, and not on the order in
/// which they came.
pub proof fn law_percentile_is_one(
    times: Seq<Span>,
    others: Seq<Span>,
    percent: nat,
    q: Option<Span>,
    r: Option<Span>,
)
    requires
        forall|i: int| 0 <= i < times.len() ==> (#[trigger] times[i]).wf(),
        times.to_multiset() == others.to_multiset(),
        is_percentile(times, percent, q),
        is_percentile(others, percent, r),
    ensures
        q == r,
{
    broadcast use vstd::seq_lib::group_to_multiset_ensures;

    assert(times.len() == times.to_multiset().len());
    assert(others.len() == others.to_multiset().len());
    if times.len() > 0 {
        let leq = |a: Span, b: Span| span_le(a, b);
        let x = choose|s: Seq<Span>|
            #![trigger spans_ascend(s)]
            spans_ascend(s) && s.to_multiset() == times.to_multiset() && q->0
                == s[percentile_rank(times.len(), percent)];
        let y = choose|s: Seq<Span>|
            #![trigger spans_ascend(s)]
            spans_ascend(s) && s.to_multiset() == others.to_multiset() && r->0
                == s[percentile_rank(others.len(), percent)];
        lemma_sorted_spans(x, times);
        lemma_sorted_spans(y, times);
        assert(vstd::relations::total_ordering(leq)) by {
            assert(forall|a: Span, b: Span|
                #![trigger leq(a, b), leq(b, a)]
                leq(a, b) && leq(b, a) ==> a == b);
        }
        vstd::seq_lib::lemma_sorted_unique(x, y, leq);
    }
}

/// Only the latest times count: the percentiles of a ring are those of another
/// one into which just these were pushed, in whatever order.
pub proof fn law_only_the_latest_times_count(
    times: Seq<Span>,
    others: Seq<Span>,
    percent: nat,
    q: Option<Span>,
    r: Option<Span>,
)
    requires
        forall|i: int| 0 <= i < times.len() ==> (#[trigger] times[i]).wf(),
        others.to_multiset() == latest(times, CAPACITY as nat).to_multiset(),
        is_percentile(pushed(Seq::empty(), times), percent, q),
        is_percentile(pushed(Seq::empty(), others), percent, r),
    ensures
        q == r,
{
    broadcast use vstd::seq_lib::group_to_multiset_ensures;

    let kept = latest(times, CAPACITY as nat);
    law_ring_keeps_the_latest(times);
    law_ring_keeps_the_latest(others);
    assert(others.len() == others.to_multiset().len());
    assert(kept.len() == kept.to_multiset().len());
    assert(latest(others, CAPACITY as nat) == others);
    law_percentile_is_one(kept, others, percent, q, r);
}

/// The model of each subtask.
pub uninterp spec fn models_of(m: DashMap<String, String>) -> Map<Seq<char>, Seq<char>>;

/// The times of each model.
pub uninterp spec fn rings_of(m: DashMap<String, ModelSampleRing>) -> Map<Seq<char>, Seq<Span>>;

/// `DashMap::new`: nothing is in the map.
#[verifier::external_body]
fn new_models() -> (m: DashMap<String, String>)
    ensures
        models_of(m).dom() == Set::<Seq<char>>::empty(),
{
    DashMap::new()
}

/// `DashMap::get`: a copy of the value under the key, if there is one.
#[verifier::external_body]
fn get_model(m: &DashMap<String, String>, key: &str) -> (r: Option<String>)
    ensures
        match r {
            Some(v) => models_of(*m).dom().contains(key@) && models_of(*m)[key@] == v@,
            None => !models_of(*m).dom().contains(key@),
        },
{
    m.get(key).map(|e| e.clone())
}

/// `DashMap::insert`: the value stands under the key, whatever stood there
/// before; all else stays.
#[verifier::external_body]
fn put_model(m: &mut DashMap<String, String>, key: &str, value: &str)
    ensures
        models_of(*final(m)) == models_of(*old(m)).insert(key@, value@),
{
    m.insert(key.to_string(), value.to_string());
}

/// `DashMap::new`: nothing is in the map.
#[verifier::external_body]
fn new_rings() -> (m: DashMap<String, ModelSampleRing>)
    ensures
        rings_of(m).dom() == Set::<Seq<char>>::empty(),
{
    DashMap::new()
}

/// `DashMap::get`: a copy of the value under the key, if there is one.
#[verifier::external_body]
fn get_ring(m: &DashMap<String, ModelSampleRing>, key: &str) -> (r: Option<ModelSampleRing>)
    ensures
        match r {
            Some(v) => rings_of(*m).dom().contains(key@) && rings_of(*m)[key@] == v@,
            None => !rings_of(*m).dom().contains(key@),
        },
{
    m.get(key).map(|e| e.copy())
}

/// `DashMap::insert`: the value stands under the key, whatever stood there
/// before; all else stays.
#[verifier::external_body]
fn put_ring(m: &mut DashMap<String, ModelSampleRing>, key: &str, value: ModelSampleRing)
    ensures
        rings_of(*final(m)) == rings_of(*old(m)).insert(key@, value@),
{
    m.insert(key.to_string(), value);
}

/// Keeps the recent call times of each model.
pub struct PerModelLatencyTracker {
    subtask_models: DashMap<String, String>,
    samples: DashMap<String, ModelSampleRing>,
}

impl PerModelLatencyTracker {
    /// The model of each subtask that was registered.
    pub closed spec fn models(&self) -> Map<Seq<char>, Seq<char>> {
        models_of(self.subtask_models)
    }

    /// The recent call times of a model, the oldest first.
    pub closed spec fn times(&self, model: Seq<char>) -> Seq<Span> {
        if rings_of(self.samples).dom().contains(model) {
            rings_of(self.samples)[model]
        } else {
            Seq::empty()
        }
    }

    /// A tracker that knows no subtask.
    pub fn new() -> (r: PerModelLatencyTracker)
        ensures
            r.models().dom() == Set::<Seq<char>>::empty(),
            forall|model: Seq<char>| (#[trigger] r.times(model)).len() == 0,
    {
        PerModelLatencyTracker { subtask_models: new_models(), samples: new_rings() }
    }

    /// Says which model a subtask runs on, whatever was said before.
    pub fn register(&mut self, subtask_id: &str, model: &str)
        ensures
            final(self).models() == old(self).models().insert(subtask_id@, model@),
            forall|m: Seq<char>| #[trigger] final(self).times(m) == old(self).times(m),
    {
        put_model(&mut self.subtask_models, subtask_id, model);
    }

    /// How many call times of a model are kept.
    pub fn sample_count(&self, model: &str) -> (n: usize)
        ensures
            n == self.times(model@).len(),
    {
        match get_ring(&self.samples, model) {
            Some(ring) => ring.len(),
            None => 0,
        }
    }

    /// The time that half of a model's calls took no longer than.
    pub fn p50(&self, model: &str) -> (r: Option<Span>)
        ensures
            is_percentile(self.times(model@), 50, r),
    {
        match get_ring(&self.samples, model) {
            Some(ring) => ring.percentile(50),
            None => None,
        }
    }

    /// The time that all but a twentieth of a model's calls took no longer
    /// than.
    pub fn p95(&self, model: &str) -> (r: Option<Span>)
        ensures
            is_percentile(self.times(model@), 95, r),
    {
        match get_ring(&self.samples, model) {
            Some(ring) => ring.percentile(95),
            None => None,
        }
    }
}

impl LatencyTracker for PerModelLatencyTracker {
    /// Times are kept by model here, not by subtask.
    open spec fn recorded(&self, subtask_id: Seq<char>) -> nat {
        0
    }

    fn record(&mut self, subtask_id: &str, elapsed: Span)
        ensures
            final(self).models() == old(self).models(),
            old(self).models().dom().contains(subtask_id@) ==> final(self).times(
                old(self).models()[subtask_id@],
            ) == latest(
                old(self).times(old(self).models()[subtask_id@]).push(elapsed),
                CAPACITY as nat,
            ),
            forall|m: Seq<char>|
                !(old(self).models().dom().contains(subtask_id@) && m
                    == old(self).models()[subtask_id@]) ==> #[trigger] final(self).times(m)
                    == old(self).times(m),
    {
        let model = match get_model(&self.subtask_models, subtask_id) {
            None => {
                return ;
            },
            Some(m) => m,
        };
        let mut ring = match get_ring(&self.samples, model.as_str()) {
            Some(ring) => ring,
            None => ModelSampleRing::new(),
        };
        ring.push(elapsed);
        put_ring(&mut self.samples, model.as_str(), ring);
    }

    fn wall_clock_elapsed(&self, subtask_id: &str) -> (r: Span) {
        Span::zero()
    }
}

/// The rank of a percentile is the share of the way from the first time to the
/// last, rounded to the nearest, and never past the last.
#[verifier::rlimit(40)]
pub proof fn law_rank_is_its_share(n: nat, percent: nat)
    requires
        n > 0,
    ensures
        0 <= percentile_rank(n, percent) < n,
        percentile_rank(n, 0) == 0,
        percentile_rank(n, 100) == n - 1,
        percent <= 100 ==> -100 < 200 * percentile_rank(n, percent) - 2 * ((n - 1) * percent)
            <= 100,
{
    let way = (n - 1) * percent;
    assert(0 <= way) by (nonlinear_arith)
        requires
            n > 0,
            way == (n - 1) * percent,
    ;
    let at = (2 * way + 100) / 200;
    assert(2 * way + 100 - 200 < 200 * at <= 2 * way + 100);
    assert((n - 1) * 0 == 0) by (nonlinear_arith);
    if percent <= 100 {
        assert(way <= (n - 1) * 100) by (nonlinear_arith)
            requires
                n > 0,
                percent <= 100,
                way == (n - 1) * percent,
        ;
    }
}

} // verus!

//! How long the calls of the language model took.

use crate::types::{max_total, Span};
use dashmap::DashMap;
use vstd::prelude::*;

verus! {

/// `dashmap::DashMap`. What a map holds is named below for each kind of map.
#[verifier::external_type_specification]
#[verifier::external_body]
#[verifier::reject_recursive_types(K)]
#[verifier::reject_recursive_types(V)]
#[verifier::reject_recursive_types(S)]
pub struct ExDashMap<K, V, S>(DashMap<K, V, S>);

/// The time recorded for each subtask.
pub uninterp spec fn times_of(m: DashMap<String, Span>) -> Map<Seq<char>, Span>;

/// `DashMap::new`: nothing is in the map.
#[verifier::external_body]
fn new_times() -> (m: DashMap<String, Span>)
    ensures
        times_of(m).dom() == Set::<Seq<char>>::empty(),
{
    DashMap::new()
}

/// `DashMap::get`: a copy of the value under the key, if there is one.
#[verifier::external_body]
fn get_time(m: &DashMap<String, Span>, key: &str) -> (r: Option<Span>)
    ensures
        r == if times_of(*m).dom().contains(key@) {
            Some(times_of(*m)[key@])
        } else {
            None
        },
{
    m.get(key).map(|e| *e)
}

/// `DashMap::insert`: the value stands under the key, whatever stood there
/// before; all else stays.
#[verifier::external_body]
fn put_time(m: &mut DashMap<String, Span>, key: &str, value: Span)
    ensures
        times_of(*final(m)) == times_of(*old(m)).insert(key@, value),
{
    m.insert(key.to_string(), value);
}

/// Keeps the time that calls of the model took.
pub trait LatencyTracker {
    /// The time that was recorded for a subtask, in nanoseconds.
    spec fn recorded(&self, subtask_id: Seq<char>) -> nat;

    /// Records the time of one call for a subtask.
    fn record(&mut self, subtask_id: &str, elapsed: Span);

    /// The time of all the calls for a subtask.
    fn wall_clock_elapsed(&self, subtask_id: &str) -> (r: Span)
        ensures
            r.total() == self.recorded(subtask_id@),
    ;
}

/// Adds up the time of the calls for each subtask.
pub struct SubtaskWallClockTracker {
    elapsed: DashMap<String, Span>,
}

/// The sum of two times, as far as a span can hold it.
pub open spec fn capped_sum(a: nat, b: nat) -> nat {
    if a + b <= max_total() {
        a + b
    } else {
        max_total()
    }
}

impl SubtaskWallClockTracker {
    /// A tracker that has recorded nothing.
    pub fn new() -> (r: SubtaskWallClockTracker)
        ensures
            forall|id: Seq<char>| #[trigger] r.recorded(id) == 0,
    {
        SubtaskWallClockTracker { elapsed: new_times() }
    }
}

impl LatencyTracker for SubtaskWallClockTracker {
    closed spec fn recorded(&self, subtask_id: Seq<char>) -> nat {
        if times_of(self.elapsed).dom().contains(subtask_id) {
            times_of(self.elapsed)[subtask_id].total()
        } else {
            0
        }
    }

    fn record(&mut self, subtask_id: &str, elapsed: Span)
        ensures
            final(self).recorded(subtask_id@) == capped_sum(
                old(self).recorded(subtask_id@),
                elapsed.total(),
            ),
            forall|id: Seq<char>|
                id != subtask_id@ ==> #[trigger] final(self).recorded(id) == old(self).recorded(id),
    {
        let before = self.wall_clock_elapsed(subtask_id);
        put_time(&mut self.elapsed, subtask_id, before.plus(elapsed));
    }

    fn wall_clock_elapsed(&self, subtask_id: &str) -> (r: Span) {
        match get_time(&self.elapsed, subtask_id) {
            Some(d) => d,
            None => Span::zero(),
        }
    }
}

/// Times add up as long as a span can hold them, and then stay at the most that
/// it can.
pub proof fn law_times_add_up(a: nat, b: nat)
    ensures
        a + b <= (u64::MAX as nat) * 1_000_000_000 + 999_999_999 ==> capped_sum(a, b) == a + b,
        a + b > (u64::MAX as nat) * 1_000_000_000 + 999_999_999 ==> capped_sum(a, b) == (
        u64::MAX as nat) * 1_000_000_000 + 999_999_999,
{
}

} // verus!

//! Identifiers and small values that the modules share.

use vstd::prelude::*;

verus! {

/// Identity of an agent: the value of its UUID.
#[derive(Debug, Clone, Copy, PartialEq, Eq, Structural, Hash, PartialOrd, Ord)]
pub struct AgentId {
    pub uuid: u128,
}

/// A span of time.
#[derive(Debug, Clone, Copy, PartialEq, Eq, Structural, Hash)]
pub struct Span {
    pub secs: u64,
    pub nanos: u32,
}

impl Span {
    /// The length of the span in nanoseconds.
    pub open spec fn total(self) -> nat {
        (self.secs as nat) * 1_000_000_000 + self.nanos as nat
    }

    /// Whether the part below a second is less than one.
    pub open spec fn wf(self) -> bool {
        self.nanos < 1_000_000_000
    }

    /// A span of whole seconds.
    pub fn from_secs(secs: u64) -> (r: Span)
        ensures
            r.total() == secs as nat * 1_000_000_000,
            r == (Span { secs, nanos: 0 }),
            r.wf(),
    {
        Span { secs, nanos: 0 }
    }

    /// A span of milliseconds.
    pub fn from_millis(millis: u64) -> (r: Span)
        ensures
            r.total() == millis as nat * 1_000_000,
            r.wf(),
    {
        Span { secs: millis / 1000, nanos: (millis % 1000) as u32 * 1_000_000 }
    }
}

/// The length of the longest span in nanoseconds.
pub open spec fn max_total() -> nat {
    (u64::MAX as nat) * 1_000_000_000 + 999_999_999
}

impl Span {
    /// No time at all.
    pub fn zero() -> (r: Span)
        ensures
            r == (Span { secs: 0, nanos: 0 }),
            r.total() == 0,
            r.wf(),
    {
        Span { secs: 0, nanos: 0 }
    }

    /// This span and `other` one after the other, as far as a span can hold it.
    pub fn plus(self, other: Span) -> (r: Span)
        ensures
            r.wf(),
            r.total() == if self.total() + other.total() <= max_total() {
                self.total() + other.total()
            } else {
                max_total()
            },
    {
        let a: u128 = (self.secs as u128) * 1_000_000_000 + self.nanos as u128;
        let b: u128 = (other.secs as u128) * 1_000_000_000 + other.nanos as u128;
        let most: u128 = (u64::MAX as u128) * 1_000_000_000 + 999_999_999;
        let sum: u128 = if a + b <= most {
            a + b
        } else {
            most
        };
        Span { secs: (sum / 1_000_000_000) as u64, nanos: (sum % 1_000_000_000) as u32 }
    }

    /// Whether this span is no longer than `other`.
    pub fn at_most(&self, other: &Span) -> (r: bool)
        ensures
            r == (self.total() <= other.total()),
    {
        let a: u128 = (self.secs as u128) * 1_000_000_000 + self.nanos as u128;
        let b: u128 = (other.secs as u128) * 1_000_000_000 + other.nanos as u128;
        a <= b
    }
}

/// Two spans of the same length are the same span.
pub proof fn law_length_tells_spans_apart(a: Span, b: Span)
    requires
        a.wf(),
        b.wf(),
        a.total() == b.total(),
    ensures
        a == b,
{
}

/// The last `n` elements of `s`.
pub open spec fn latest<T>(s: Seq<T>, n: nat) -> Seq<T> {
    if s.len() <= n {
        s
    } else {
        s.skip(s.len() - n)
    }
}

/// Forgetting early loses nothing: the last `n` elements of all are the last
/// `n` of what comes when older ones are dropped before more are added.
pub proof fn law_latest_of_latest<T>(s: Seq<T>, more: Seq<T>, n: nat)
    ensures
        latest(latest(s, n) + more, n) == latest(s + more, n),
{
    assert(latest(latest(s, n) + more, n) =~= latest(s + more, n));
}

/// Bounds on how far and how long a task may run.
#[derive(Debug, Clone, Copy, PartialEq, Eq, Structural)]
pub struct TaskTtl {
    pub max_hops: Option<u32>,
    pub max_wall_clock: Option<Span>,
}

/// The latest of a sequence are its end: as many as are wanted, or all where
/// there are no more.
pub proof fn law_latest_are_the_end<T>(s: Seq<T>, n: nat, before: Seq<T>, end: Seq<T>)
    ensures
        s.len() <= n ==> latest(s, n) == s,
        latest(before + end, end.len()) == end,
        latest(s, n).len() <= n,
{
    if before.len() > 0 {
        assert((before + end).skip(before.len() as int) =~= end);
    } else {
        assert(before + end =~= end);
    }
}

} // verus!

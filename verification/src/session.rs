//! Where conversations are kept.

use crate::clock::Timestamp;
use crate::error::CoreError;
use crate::ids::{
    hyphenated, law_identities_have_their_own_text, law_identity_is_written_in_groups,
};
use crate::llm::{copy_history, messages_view, Message, MessageView};
use crate::text::{
    begins_with, char_position, ends_in, ends_with, is_space, lemma_char_position, lines,
    starts_with, text_lines, trim, trimmed, trimmed_end, trimmed_start, views, without_cr,
};
use crate::text_laws::law_lines_end_at_line_feeds;
use crate::types::{AgentId, Span};
use dashmap::DashMap;
use vstd::prelude::*;
use vstd::string::*;

verus! {

/// A part of a conversation that was taken out of it.
#[derive(Debug)]
pub struct ArchiveSegment {
    /// The first and the last position that it had.
    pub source_range: (usize, usize),
    pub messages: Vec<Message>,
    pub archived_at: Timestamp,
}

/// What a segment holds.
pub struct SegmentView {
    pub source_range: (usize, usize),
    pub messages: Seq<MessageView>,
    pub archived_at: Timestamp,
}

impl View for ArchiveSegment {
    type V = SegmentView;

    open spec fn view(&self) -> SegmentView {
        SegmentView {
            source_range: self.source_range,
            messages: messages_view(self.messages@),
            archived_at: self.archived_at,
        }
    }
}

/// What a list of segments holds.
pub open spec fn segments_view(s: Seq<ArchiveSegment>) -> Seq<SegmentView> {
    s.map_values(|x: ArchiveSegment| x@)
}

impl ArchiveSegment {
    /// A copy of the segment.
    pub fn copy(&self) -> (r: ArchiveSegment)
        ensures
            r@ == self@,
    {
        ArchiveSegment {
            source_range: self.source_range,
            messages: copy_history(&self.messages),
            archived_at: self.archived_at,
        }
    }
}

/// A copy of some segments.
fn copy_segments(v: &Vec<ArchiveSegment>) -> (r: Vec<ArchiveSegment>)
    ensures
        segments_view(r@) == segments_view(v@),
{
    let ghost all = segments_view(v@);
    let mut out: Vec<ArchiveSegment> = Vec::new();
    let mut i: usize = 0;
    while i < v.len()
        invariant
            0 <= i <= v@.len(),
            all == segments_view(v@),
            segments_view(out@) == all.take(i as int),
        decreases v@.len() - i,
    {
        let ghost before = segments_view(out@);
        out.push(v[i].copy());
        assert(segments_view(out@) =~= before.push(all[i as int]));
        assert(all.take(i + 1) =~= all.take(i as int).push(all[i as int]));
        i += 1;
    }
    assert(all.take(i as int) =~= all);
    out
}

/// The segments that were archived at `t`, in their order.
pub open spec fn archived_at(s: Seq<SegmentView>, t: Timestamp) -> Seq<SegmentView> {
    s.filter(|x: SegmentView| x.archived_at == t)
}

/// Whether `r` is `s` ordered by time: earlier ones come first, and those of
/// the same time stay in their order.
pub open spec fn ordered_by_time(s: Seq<SegmentView>, r: Seq<SegmentView>) -> bool {
    &&& forall|i: int, j: int|
        0 <= i < j < r.len() ==> (#[trigger] r[i]).archived_at.no_later(
            (#[trigger] r[j]).archived_at,
        )
    &&& forall|t: Timestamp| #[trigger] archived_at(r, t) == archived_at(s, t)
}

proof fn lemma_none_at(s: Seq<SegmentView>, t: Timestamp)
    requires
        forall|i: int| 0 <= i < s.len() ==> (#[trigger] s[i]).archived_at != t,
    ensures
        archived_at(s, t) == Seq::<SegmentView>::empty(),
    decreases s.len(),
{
    reveal(Seq::filter);
    if s.len() > 0 {
        lemma_none_at(s.drop_last(), t);
    }
}

proof fn lemma_placed(s: Seq<SegmentView>, p: int, x: SegmentView, t: Timestamp)
    requires
        0 <= p <= s.len(),
        forall|i: int| p <= i < s.len() ==> (#[trigger] s[i]).archived_at != x.archived_at,
    ensures
        archived_at(s.insert(p, x), t) == archived_at(s.push(x), t),
{
    let at = |y: SegmentView| y.archived_at == t;
    let a = s.take(p);
    let b = s.skip(p);
    assert(s.insert(p, x) =~= (a + seq![x]) + b);
    assert(s.push(x) =~= (a + b) + seq![x]);
    Seq::filter_distributes_over_add(a + seq![x], b, at);
    Seq::filter_distributes_over_add(a, seq![x], at);
    Seq::filter_distributes_over_add(a + b, seq![x], at);
    Seq::filter_distributes_over_add(a, b, at);
    if t == x.archived_at {
        lemma_none_at(b, t);
        assert(b.filter(at) =~= Seq::<SegmentView>::empty());
    } else {
        lemma_none_at(seq![x], t);
        assert(seq![x].filter(at) =~= Seq::<SegmentView>::empty());
    }
}

/// The segments ordered by time.
pub fn sort_by_time(v: &Vec<ArchiveSegment>) -> (r: Vec<ArchiveSegment>)
    ensures
        ordered_by_time(segments_view(v@), segments_view(r@)),
{
    let ghost all = segments_view(v@);
    let mut out: Vec<ArchiveSegment> = Vec::new();
    let mut i: usize = 0;
    assert(segments_view(out@) =~= all.take(0));
    while i < v.len()
        invariant
            0 <= i <= v@.len(),
            all == segments_view(v@),
            ordered_by_time(all.take(i as int), segments_view(out@)),
        decreases v@.len() - i,
    {
        let ghost before = segments_view(out@);
        let ghost x = all[i as int];
        let mut p: usize = out.len();
        assert(x == v@[i as int]@);
        while p > 0 && !out[p - 1].archived_at.at_most(&v[i].archived_at)
            invariant
                0 <= p <= out@.len(),
                i < v@.len(),
                x == v@[i as int]@,
                before == segments_view(out@),
                forall|k: int|
                    p <= k < before.len() ==> !(#[trigger] before[k]).archived_at.no_later(
                        x.archived_at,
                    ),
            decreases p,
        {
            assert(before[p - 1] == out@[p - 1]@);
            p -= 1;
        }
        proof {
            if p > 0 {
                assert(before[p - 1] == out@[p - 1]@);
            }
        }
        out.insert(p, v[i].copy());
        proof {
            let after = segments_view(out@);
            assert(after =~= before.insert(p as int, x));
            assert(all.take(i + 1) =~= all.take(i as int).push(x));
            assert forall|t: Timestamp| #[trigger]
                archived_at(after, t) == archived_at(all.take(i + 1), t) by {
                lemma_placed(before, p as int, x, t);
                let at = |y: SegmentView| y.archived_at == t;
                before.lemma_filter_push(x, at);
                all.take(i as int).lemma_filter_push(x, at);
                assert(archived_at(before, t) == archived_at(all.take(i as int), t));
            }
        }
        i += 1;
    }
    assert(all.take(i as int) =~= all);
    out
}

/// The segments that were archived no earlier than `cutoff`.
pub open spec fn kept_since(s: Seq<SegmentView>, cutoff: Timestamp) -> Seq<SegmentView> {
    s.filter(|x: SegmentView| cutoff.no_later(x.archived_at))
}

/// Whether a segment is too old to keep.
pub fn expired(archived_at: &Timestamp, cutoff: &Timestamp) -> (r: bool)
    ensures
        r == !cutoff.no_later(*archived_at),
{
    !cutoff.at_most(archived_at)
}

/// The longest age that is taken as it is given, in nanoseconds: the longest
/// span that the calendar computes with.
pub const LONGEST_AGE_NANOS: i128 = 9_223_372_036_854_775_807_000_000;

/// The age that stands in for a longer one, in nanoseconds: 365 days.
pub const YEAR_NANOS: i128 = 31_536_000_000_000_000;

/// The age up to which segments are kept.
pub open spec fn kept_age(max_age: Span) -> int {
    if max_age.total() <= LONGEST_AGE_NANOS {
        max_age.total() as int
    } else {
        YEAR_NANOS as int
    }
}

/// Whether the time before which segments are too old is still in the calendar.
pub fn has_cutoff(now: Timestamp, max_age: Span) -> (r: bool)
    ensures
        r == (now.in_calendar() && now.total() - kept_age(max_age) >= -8_334_601_228_800
            * 1_000_000_000),
{
    if !now.is_in_calendar() {
        return false;
    }
    let given: i128 = (max_age.secs as i128) * 1_000_000_000 + max_age.nanos as i128;
    let age: i128 = if given <= LONGEST_AGE_NANOS {
        given
    } else {
        YEAR_NANOS
    };
    let at: i128 = (now.secs as i128) * 1_000_000_000 + now.nanos as i128 - age;
    at >= -8_334_601_228_800_000_000_000
}

/// The time before which segments are too old.
pub fn prune_cutoff(now: Timestamp, max_age: Span) -> (r: Timestamp)
    requires
        now.in_calendar(),
        now.total() - kept_age(max_age) >= -8_334_601_228_800 * 1_000_000_000,
    ensures
        r.total() == now.total() - kept_age(max_age),
        r.in_calendar(),
{
    let given: i128 = (max_age.secs as i128) * 1_000_000_000 + max_age.nanos as i128;
    let age: i128 = if given <= LONGEST_AGE_NANOS {
        given
    } else {
        YEAR_NANOS
    };
    let at: i128 = (now.secs as i128) * 1_000_000_000 + now.nanos as i128 - age;
    // Counted from the beginning of the calendar, so that nothing is negative.
    let since: u128 = (at + 8_334_601_228_800_000_000_000) as u128;
    let secs: u128 = since / 1_000_000_000;
    let nanos: u128 = since % 1_000_000_000;
    Timestamp { secs: (secs as i64) - 8_334_601_228_800, nanos: nanos as u32 }
}

/// Keeps conversations, and what was archived of them.
pub trait SessionStore {
    /// The conversation of an agent.
    spec fn history(&self, agent_id: AgentId) -> Seq<MessageView>;

    /// What was archived of an agent's conversation, in the order in which it
    /// came.
    spec fn archived(&self, agent_id: AgentId) -> Seq<SegmentView>;

    /// The conversation of an agent; none if nothing is kept.
    fn load(&self, agent_id: &AgentId) -> (r: Result<Vec<Message>, CoreError>)
        ensures
            r is Ok ==> messages_view(r->Ok_0@) == self.history(*agent_id),
    ;

    /// Adds messages to the conversation of an agent.
    fn append(&mut self, agent_id: &AgentId, messages: &Vec<Message>) -> (r: Result<(), CoreError>)
        ensures
            r is Ok ==> final(self).history(*agent_id) == old(self).history(*agent_id)
                + messages_view(messages@),
            forall|other: AgentId|
                other != *agent_id ==> #[trigger] final(self).history(other) == old(self).history(
                    other,
                ),
            forall|other: AgentId| #[trigger]
                final(self).archived(other) == old(self).archived(other),
    ;

    /// Drops the conversation of an agent.
    fn clear(&mut self, agent_id: &AgentId) -> (r: Result<(), CoreError>)
        ensures
            r is Ok ==> final(self).history(*agent_id) == Seq::<MessageView>::empty(),
            forall|other: AgentId|
                other != *agent_id ==> #[trigger] final(self).history(other) == old(self).history(
                    other,
                ),
            forall|other: AgentId| #[trigger]
                final(self).archived(other) == old(self).archived(other),
    ;

    /// Adds a segment to the archive of an agent.
    fn archive_segment(&mut self, agent_id: &AgentId, segment: &ArchiveSegment) -> (r: Result<
        (),
        CoreError,
    >)
        ensures
            r is Ok ==> final(self).archived(*agent_id) == old(self).archived(*agent_id).push(
                segment@,
            ),
            forall|other: AgentId|
                other != *agent_id ==> #[trigger] final(self).archived(other) == old(self).archived(
                    other,
                ),
            forall|other: AgentId| #[trigger]
                final(self).history(other) == old(self).history(other),
    ;

    /// The archive of an agent, ordered by time.
    fn load_archives(&self, agent_id: &AgentId) -> (r: Result<Vec<ArchiveSegment>, CoreError>)
        ensures
            r is Ok ==> ordered_by_time(self.archived(*agent_id), segments_view(r->Ok_0@)),
    ;

    /// Drops the segments that were archived before `cutoff`, and counts them.
    fn prune_archives(&mut self, agent_id: &AgentId, cutoff: &Timestamp) -> (r: Result<
        usize,
        CoreError,
    >)
        ensures
            r is Ok ==> final(self).archived(*agent_id) == kept_since(
                old(self).archived(*agent_id),
                *cutoff,
            ) && r->Ok_0 == old(self).archived(*agent_id).len() - final(self).archived(
                *agent_id).len(),
            forall|other: AgentId|
                other != *agent_id ==> #[trigger] final(self).archived(other) == old(self).archived(
                    other,
                ),
            forall|other: AgentId| #[trigger]
                final(self).history(other) == old(self).history(other),
    ;
}

/// The conversation under each key.
pub uninterp spec fn histories_of(m: DashMap<String, Vec<Message>>) -> Map<
    Seq<char>,
    Seq<MessageView>,
>;

/// The archive under each key.
pub uninterp spec fn archives_of(m: DashMap<String, Vec<ArchiveSegment>>) -> Map<
    Seq<char>,
    Seq<SegmentView>,
>;

/// `DashMap::new`: nothing is in the map.
#[verifier::external_body]
fn new_histories() -> (m: DashMap<String, Vec<Message>>)
    ensures
        histories_of(m).dom() == Set::<Seq<char>>::empty(),
{
    DashMap::new()
}

/// `DashMap::get`: a copy of the value under the key, if there is one.
#[verifier::external_body]
fn get_history(m: &DashMap<String, Vec<Message>>, key: &str) -> (r: Option<Vec<Message>>)
    ensures
        r is Some == histories_of(*m).dom().contains(key@),
        r is Some ==> messages_view(r->0@) == histories_of(*m)[key@],
{
    m.get(key).map(|e| copy_history(&*e))
}

/// `DashMap::insert`: the value stands under the key, whatever stood there
/// before; all else stays.
#[verifier::external_body]
fn put_history(m: &mut DashMap<String, Vec<Message>>, key: &str, value: Vec<Message>)
    ensures
        histories_of(*final(m)) == histories_of(*old(m)).insert(key@, messages_view(value@)),
{
    m.insert(key.to_string(), value);
}

/// `DashMap::remove`: nothing stands under the key; all else stays.
#[verifier::external_body]
fn drop_history(m: &mut DashMap<String, Vec<Message>>, key: &str)
    ensures
        histories_of(*final(m)) == histories_of(*old(m)).remove(key@),
{
    m.remove(key);
}

/// `DashMap::new`: nothing is in the map.
#[verifier::external_body]
fn new_archives() -> (m: DashMap<String, Vec<ArchiveSegment>>)
    ensures
        archives_of(m).dom() == Set::<Seq<char>>::empty(),
{
    DashMap::new()
}

/// `DashMap::get`: a copy of the value under the key, if there is one.
#[verifier::external_body]
fn get_archive(m: &DashMap<String, Vec<ArchiveSegment>>, key: &str) -> (r: Option<
    Vec<ArchiveSegment>,
>)
    ensures
        r is Some == archives_of(*m).dom().contains(key@),
        r is Some ==> segments_view(r->0@) == archives_of(*m)[key@],
{
    m.get(key).map(|e| copy_segments(&*e))
}

/// `DashMap::insert`: the value stands under the key, whatever stood there
/// before; all else stays.
#[verifier::external_body]
fn put_archive(m: &mut DashMap<String, Vec<ArchiveSegment>>, key: &str, value: Vec<ArchiveSegment>)
    ensures
        archives_of(*final(m)) == archives_of(*old(m)).insert(key@, segments_view(value@)),
{
    m.insert(key.to_string(), value);
}

/// Keeps conversations in memory.
pub struct InMemorySessionStore {
    store: DashMap<String, Vec<Message>>,
    archives: DashMap<String, Vec<ArchiveSegment>>,
}

impl InMemorySessionStore {
    /// A store that keeps nothing yet.
    pub fn new() -> (r: InMemorySessionStore)
        ensures
            forall|id: AgentId| #[trigger] r.history(id) == Seq::<MessageView>::empty(),
            forall|id: AgentId| #[trigger] r.archived(id) == Seq::<SegmentView>::empty(),
    {
        InMemorySessionStore { store: new_histories(), archives: new_archives() }
    }
}

proof fn lemma_other_key(a: AgentId, b: AgentId)
    ensures
        a != b ==> hyphenated(a.uuid) != hyphenated(b.uuid),
{
    if hyphenated(a.uuid) == hyphenated(b.uuid) {
        law_identities_have_their_own_text(a, b);
    }
}

impl SessionStore for InMemorySessionStore {
    closed spec fn history(&self, agent_id: AgentId) -> Seq<MessageView> {
        let m = histories_of(self.store);
        if m.dom().contains(hyphenated(agent_id.uuid)) {
            m[hyphenated(agent_id.uuid)]
        } else {
            Seq::empty()
        }
    }

    closed spec fn archived(&self, agent_id: AgentId) -> Seq<SegmentView> {
        let m = archives_of(self.archives);
        if m.dom().contains(hyphenated(agent_id.uuid)) {
            m[hyphenated(agent_id.uuid)]
        } else {
            Seq::empty()
        }
    }

    fn load(&self, agent_id: &AgentId) -> (r: Result<Vec<Message>, CoreError>)
        ensures
            r is Ok,
    {
        let key = agent_id.to_text();
        match get_history(&self.store, key.as_str()) {
            Some(h) => Ok(h),
            None => {
                let none: Vec<Message> = Vec::new();
                assert(messages_view(none@) =~= Seq::<MessageView>::empty());
                Ok(none)
            },
        }
    }

    fn append(&mut self, agent_id: &AgentId, messages: &Vec<Message>) -> (r: Result<(), CoreError>)
        ensures
            r is Ok,
    {
        let key = agent_id.to_text();
        let mut h: Vec<Message> = match get_history(&self.store, key.as_str()) {
            Some(h) => h,
            None => Vec::new(),
        };
        let ghost before = messages_view(h@);
        assert(before =~= self.history(*agent_id));
        let mut more = copy_history(messages);
        let ghost added = messages_view(more@);
        h.append(&mut more);
        assert(messages_view(h@) =~= before + added);
        put_history(&mut self.store, key.as_str(), h);
        assert forall|other: AgentId| other != *agent_id implies #[trigger] self.history(other)
            == old(self).history(other) by {
            lemma_other_key(other, *agent_id);
        }
        Ok(())
    }

    fn clear(&mut self, agent_id: &AgentId) -> (r: Result<(), CoreError>)
        ensures
            r is Ok,
    {
        let key = agent_id.to_text();
        drop_history(&mut self.store, key.as_str());
        assert forall|other: AgentId| other != *agent_id implies #[trigger] self.history(other)
            == old(self).history(other) by {
            lemma_other_key(other, *agent_id);
        }
        Ok(())
    }

    fn archive_segment(&mut self, agent_id: &AgentId, segment: &ArchiveSegment) -> (r: Result<
        (),
        CoreError,
    >)
        ensures
            r is Ok,
    {
        let key = agent_id.to_text();
        let mut a: Vec<ArchiveSegment> = match get_archive(&self.archives, key.as_str()) {
            Some(a) => a,
            None => Vec::new(),
        };
        let ghost before = segments_view(a@);
        assert(before =~= self.archived(*agent_id));
        a.push(segment.copy());
        assert(segments_view(a@) =~= before.push(segment@));
        put_archive(&mut self.archives, key.as_str(), a);
        assert forall|other: AgentId| other != *agent_id implies #[trigger] self.archived(other)
            == old(self).archived(other) by {
            lemma_other_key(other, *agent_id);
        }
        Ok(())
    }

    fn load_archives(&self, agent_id: &AgentId) -> (r: Result<Vec<ArchiveSegment>, CoreError>)
        ensures
            r is Ok,
    {
        let key = agent_id.to_text();
        let a: Vec<ArchiveSegment> = match get_archive(&self.archives, key.as_str()) {
            Some(a) => a,
            None => Vec::new(),
        };
        assert(segments_view(a@) =~= self.archived(*agent_id));
        Ok(sort_by_time(&a))
    }

    fn prune_archives(&mut self, agent_id: &AgentId, cutoff: &Timestamp) -> (r: Result<
        usize,
        CoreError,
    >)
        ensures
            r is Ok,
    {
        let key = agent_id.to_text();
        let a: Vec<ArchiveSegment> = match get_archive(&self.archives, key.as_str()) {
            Some(a) => a,
            None => {
                reveal(Seq::filter);
                assert(kept_since(self.archived(*agent_id), *cutoff) =~= self.archived(*agent_id));
                return Ok(0);
            },
        };
        let ghost all = segments_view(a@);
        let ghost keep = |x: SegmentView| cutoff.no_later(x.archived_at);
        let mut kept: Vec<ArchiveSegment> = Vec::new();
        let mut i: usize = 0;
        proof {
            reveal(Seq::filter);
            assert(all.take(0).filter(keep) =~= Seq::<SegmentView>::empty());
            assert(segments_view(kept@) =~= Seq::<SegmentView>::empty());
        }
        while i < a.len()
            invariant
                0 <= i <= a@.len(),
                all == segments_view(a@),
                keep == (|x: SegmentView| cutoff.no_later(x.archived_at)),
                segments_view(kept@) == all.take(i as int).filter(keep),
                kept@.len() <= i,
            decreases a@.len() - i,
        {
            let ghost before = segments_view(kept@);
            assert(all[i as int] == a@[i as int]@);
            proof {
                assert(all.take(i + 1) =~= all.take(i as int).push(all[i as int]));
                all.take(i as int).lemma_filter_push(all[i as int], keep);
            }
            if !expired(&a[i].archived_at, cutoff) {
                kept.push(a[i].copy());
                assert(segments_view(kept@) =~= before.push(all[i as int]));
            }
            i += 1;
        }
        assert(all.take(i as int) =~= all);
        let pruned: usize = a.len() - kept.len();
        put_archive(&mut self.archives, key.as_str(), kept);
        assert forall|other: AgentId| other != *agent_id implies #[trigger] self.archived(other)
            == old(self).archived(other) by {
            lemma_other_key(other, *agent_id);
        }
        Ok(pruned)
    }
}

/// Keeps conversations in files: one of lines for each agent, each line a
/// message, and one for each segment of its archive.
#[derive(Debug)]
pub struct JsonlSessionStore {
    /// The directory of the files.
    pub data_dir: String,
}

/// How the names of the files with an agent's archive begin.
pub open spec fn archive_prefix(agent_id: AgentId) -> Seq<char> {
    hyphenated(agent_id.uuid) + ".archive."@
}

/// The lines that hold messages: without the white space around them, and
/// without those that hold nothing else.
pub open spec fn filled_lines(text: Seq<char>) -> Seq<Seq<char>> {
    text_lines(text).map_values(|l: Seq<char>| trimmed(l)).filter(|l: Seq<char>| l.len() > 0)
}

/// The lines as they stand in a file, each with its line feed.
pub open spec fn written_lines(lines: Seq<Seq<char>>) -> Seq<char>
    decreases lines.len(),
{
    if lines.len() == 0 {
        Seq::empty()
    } else {
        written_lines(lines.drop_last()) + lines.last() + "\n"@
    }
}

impl JsonlSessionStore {
    /// A store with its files in `data_dir`.
    pub fn new(data_dir: String) -> (r: JsonlSessionStore)
        ensures
            r.data_dir == data_dir,
    {
        JsonlSessionStore { data_dir }
    }

    /// The name of the file with the conversation of an agent.
    pub fn file_name(&self, agent_id: &AgentId) -> (r: String)
        ensures
            r@ == hyphenated(agent_id.uuid) + ".jsonl"@,
    {
        let mut name = agent_id.to_text();
        name.append(".jsonl");
        name
    }

    /// The name of the file with a segment of an agent's archive; `segment` is
    /// the identity of the segment.
    pub fn archive_name(&self, agent_id: &AgentId, segment: &AgentId) -> (r: String)
        ensures
            r@ == archive_prefix(*agent_id) + hyphenated(segment.uuid) + ".json"@,
    {
        let mut name = agent_id.to_text();
        name.append(".archive.");
        let id = segment.to_text();
        name.append(id.as_str());
        name.append(".json");
        name
    }

    /// Whether a file holds a segment of an agent's archive, by its name.
    pub fn is_archive_of(&self, agent_id: &AgentId, name: &str) -> (r: bool)
        ensures
            r == (begins_with(name@, archive_prefix(*agent_id)) && ends_in(name@, ".json"@)),
    {
        let mut prefix = agent_id.to_text();
        prefix.append(".archive.");
        starts_with(name, prefix.as_str()) && ends_with(name, ".json")
    }

    /// The messages that a file holds, each as it was written.
    pub fn read_lines(&self, text: &str) -> (r: Vec<String>)
        ensures
            views(r@) == filled_lines(text@),
    {
        let all = lines(text);
        let ghost mapped = text_lines(text@).map_values(|l: Seq<char>| trimmed(l));
        let ghost keep = |l: Seq<char>| l.len() > 0;
        let mut out: Vec<String> = Vec::new();
        let mut i: usize = 0;
        proof {
            reveal(Seq::filter);
            assert(mapped.take(0).filter(keep) =~= Seq::<Seq<char>>::empty());
            assert(views(out@) =~= Seq::<Seq<char>>::empty());
        }
        while i < all.len()
            invariant
                0 <= i <= all@.len(),
                views(all@) == text_lines(text@),
                mapped == text_lines(text@).map_values(|l: Seq<char>| trimmed(l)),
                keep == (|l: Seq<char>| l.len() > 0),
                views(out@) == mapped.take(i as int).filter(keep),
            decreases all@.len() - i,
        {
            let ghost before = views(out@);
            assert(views(all@)[i as int] == all@[i as int]@);
            let line = trim(all[i].as_str());
            assert(line@ == mapped[i as int]);
            proof {
                assert(mapped.take(i + 1) =~= mapped.take(i as int).push(line@));
                mapped.take(i as int).lemma_filter_push(line@, keep);
            }
            if !line.as_str().is_empty() {
                out.push(line);
                assert(views(out@) =~= before.push(line@));
            }
            i += 1;
        }
        assert(mapped.take(i as int) =~= mapped);
        out
    }

    /// What to add to a file for some messages, each given as it is written.
    pub fn write_lines(&self, messages: &Vec<String>) -> (r: String)
        ensures
            r@ == written_lines(views(messages@)),
    {
        let ghost all = views(messages@);
        let mut out = "".to_owned();
        let mut i: usize = 0;
        proof {
            reveal_strlit("");
            assert(out@ =~= written_lines(all.take(0)));
        }
        while i < messages.len()
            invariant
                0 <= i <= messages@.len(),
                all == views(messages@),
                out@ == written_lines(all.take(i as int)),
            decreases messages@.len() - i,
        {
            assert(all[i as int] == messages@[i as int]@);
            assert(all.take(i + 1).drop_last() =~= all.take(i as int));
            out.append(messages[i].as_str());
            out.append("\n");
            i += 1;
        }
        assert(all.take(i as int) =~= all);
        out
    }
}

/// Whether a text can stand for a message in a file: it is one line, not
/// empty, without white space at its ends.
pub open spec fn is_message_line(l: Seq<char>) -> bool {
    &&& l.len() > 0
    &&& trimmed(l) == l
    &&& forall|i: int| 0 <= i < l.len() ==> #[trigger] l[i] != '\n'
}

proof fn lemma_written_first(lines: Seq<Seq<char>>)
    requires
        lines.len() > 0,
    ensures
        written_lines(lines) == lines[0] + "\n"@ + written_lines(lines.skip(1)),
    decreases lines.len(),
{
    if lines.len() == 1 {
        assert(lines.drop_last() =~= Seq::<Seq<char>>::empty());
        assert(lines.skip(1) =~= Seq::<Seq<char>>::empty());
        assert(lines.last() == lines[0]);
        assert(written_lines(lines) =~= lines[0] + "\n"@ + written_lines(lines.skip(1)));
    } else {
        lemma_written_first(lines.drop_last());
        assert(lines.drop_last().skip(1) =~= lines.skip(1).drop_last());
        assert(lines.skip(1).last() == lines.last());
        assert(lines.drop_last()[0] == lines[0]);
        assert(written_lines(lines) =~= lines[0] + "\n"@ + written_lines(lines.skip(1)));
    }
}

proof fn lemma_first_line(l: Seq<char>, rest: Seq<char>)
    requires
        is_message_line(l),
    ensures
        text_lines(l + "\n"@ + rest) == seq![without_cr(l)] + text_lines(rest),
{
    reveal_strlit("\n");
    let s = l + "\n"@ + rest;
    lemma_char_position(s, '\n', 0);
    assert(s[l.len() as int] == '\n');
    let i = char_position(s, '\n', 0)->0;
    if i < l.len() {
        assert(s[i] == l[i]);
    }
    assert(i == l.len());
    assert(s.take(i) =~= l);
    assert(s.skip(i + 1) =~= rest);
}

/// What a line written to a file by itself ends in is never a carriage
/// return: that would be white space.
proof fn lemma_no_cr(l: Seq<char>)
    requires
        is_message_line(l),
    ensures
        without_cr(l) == l,
{
    if l.last() == '\r' {
        lemma_trimmed_len(l);
        assert(false);
    }
}

proof fn lemma_trimmed_start_len(s: Seq<char>)
    ensures
        trimmed_start(s).len() <= s.len(),
        trimmed_start(s).len() == s.len() ==> trimmed_start(s) == s,
    decreases s.len(),
{
    if s.len() > 0 && is_space(s[0]) {
        lemma_trimmed_start_len(s.skip(1));
    }
}

proof fn lemma_trimmed_end_len(s: Seq<char>)
    ensures
        trimmed_end(s).len() <= s.len(),
    decreases s.len(),
{
    if s.len() > 0 && is_space(s.last()) {
        lemma_trimmed_end_len(s.drop_last());
    }
}

proof fn lemma_trimmed_len(l: Seq<char>)
    requires
        l.len() > 0,
        l.last() == '\r',
    ensures
        trimmed(l).len() < l.len(),
{
    lemma_trimmed_start_len(l);
    let t = trimmed_start(l);
    lemma_trimmed_end_len(t);
    if t == l {
        lemma_trimmed_end_len(l.drop_last());
    }
}

/// What is read of a file is what was written to it: message lines come back
/// one for one and in their order.
pub proof fn law_lines_read_as_written(lines: Seq<Seq<char>>)
    requires
        forall|i: int| 0 <= i < lines.len() ==> is_message_line(#[trigger] lines[i]),
    ensures
        filled_lines(written_lines(lines)) == lines,
    decreases lines.len(),
{
    let keep = |l: Seq<char>| l.len() > 0;
    let cut = |l: Seq<char>| trimmed(l);
    reveal(Seq::filter);
    if lines.len() == 0 {
        assert(text_lines(written_lines(lines)).map_values(cut) =~= Seq::<Seq<char>>::empty());
        assert(filled_lines(written_lines(lines)) =~= lines);
    } else {
        let l = lines[0];
        let rest = lines.skip(1);
        let more = text_lines(written_lines(rest));
        lemma_written_first(lines);
        lemma_first_line(l, written_lines(rest));
        lemma_no_cr(l);
        assert(forall|i: int| 0 <= i < rest.len() ==> #[trigger] rest[i] == lines[i + 1]);
        law_lines_read_as_written(rest);
        assert((seq![l] + more).map_values(cut) =~= seq![l] + more.map_values(cut));
        Seq::filter_distributes_over_add(seq![l], more.map_values(cut), keep);
        assert(seq![l].filter(keep) =~= seq![l]) by {
            assert(seq![l].drop_last() =~= Seq::<Seq<char>>::empty());
        }
        assert(seq![l] + rest =~= lines);
    }
}

/// Writing more to a file adds to what is read of it and changes nothing of
/// what was there.
pub proof fn law_lines_are_added(first: Seq<Seq<char>>, more: Seq<Seq<char>>)
    requires
        forall|i: int| 0 <= i < first.len() ==> is_message_line(#[trigger] first[i]),
        forall|i: int| 0 <= i < more.len() ==> is_message_line(#[trigger] more[i]),
    ensures
        filled_lines(written_lines(first) + written_lines(more)) == first + more,
{
    lemma_written_together(first, more);
    let all = first + more;
    assert forall|i: int| 0 <= i < all.len() implies is_message_line(#[trigger] all[i]) by {
        if i >= first.len() {
            assert(all[i] == more[i - first.len()]);
        } else {
            assert(all[i] == first[i]);
        }
    }
    law_lines_read_as_written(all);
}

proof fn lemma_written_together(first: Seq<Seq<char>>, more: Seq<Seq<char>>)
    ensures
        written_lines(first + more) == written_lines(first) + written_lines(more),
    decreases more.len(),
{
    if more.len() == 0 {
        assert(first + more =~= first);
        assert(written_lines(first) + written_lines(more) =~= written_lines(first));
    } else {
        lemma_written_together(first, more.drop_last());
        assert((first + more).drop_last() =~= first + more.drop_last());
        assert(written_lines(first + more) =~= written_lines(first) + written_lines(more));
    }
}

/// Pruning twice is pruning once: a second time with the same cutoff nothing
/// more goes.
pub proof fn law_pruning_is_done_once(s: Seq<SegmentView>, cutoff: Timestamp)
    ensures
        kept_since(kept_since(s, cutoff), cutoff) == kept_since(s, cutoff),
    decreases s.len(),
{
    let keep = |x: SegmentView| cutoff.no_later(x.archived_at);
    reveal(Seq::filter);
    if s.len() > 0 {
        law_pruning_is_done_once(s.drop_last(), cutoff);
        let t = s.drop_last().filter(keep);
        assert(s =~= s.drop_last().push(s.last()));
        s.drop_last().lemma_filter_push(s.last(), keep);
        if keep(s.last()) {
            t.lemma_filter_push(s.last(), keep);
        }
    }
}

/// Pruning drops exactly what was archived before the time, and keeps the rest
/// in its order.
pub proof fn law_only_what_is_old_is_dropped(
    s: Seq<SegmentView>,
    more: Seq<SegmentView>,
    cutoff: Timestamp,
    x: SegmentView,
)
    ensures
        kept_since(s, cutoff).contains(x) <==> s.contains(x) && cutoff.no_later(x.archived_at),
        kept_since(s + more, cutoff) == kept_since(s, cutoff) + kept_since(more, cutoff),
{
    let keep = |x: SegmentView| cutoff.no_later(x.archived_at);
    lemma_filtered(s, keep, x);
    Seq::filter_distributes_over_add(s, more, keep);
}

proof fn lemma_filtered(s: Seq<SegmentView>, keep: spec_fn(SegmentView) -> bool, x: SegmentView)
    ensures
        s.filter(keep).contains(x) <==> s.contains(x) && keep(x),
{
    if s.contains(x) && keep(x) {
        let i = choose|i: int| 0 <= i < s.len() && s[i] == x;
        s.lemma_filter_contains(keep, i);
    }
    if s.filter(keep).contains(x) {
        let i = choose|i: int| 0 <= i < s.filter(keep).len() && s.filter(keep)[i] == x;
        s.lemma_filter_pred(keep, i);
        s.lemma_filter_contains_rev(keep, x);
    }
}

/// What is put in order by time is all that was there, and nothing else.
pub proof fn law_order_keeps_every_segment(
    s: Seq<SegmentView>,
    r: Seq<SegmentView>,
    x: SegmentView,
    i: int,
    j: int,
)
    requires
        ordered_by_time(s, r),
    ensures
        s.contains(x) <==> r.contains(x),
        0 <= i < j < r.len() ==> r[i].archived_at.no_later(r[j].archived_at),
{
    let t = x.archived_at;
    let at = |y: SegmentView| y.archived_at == t;
    assert(archived_at(r, t) == archived_at(s, t));
    lemma_filtered(s, at, x);
    lemma_filtered(r, at, x);
}

/// Archives are kept for as long as was asked for; an age past all counting
/// stands for a year.
pub proof fn law_how_long_archives_are_kept(max_age: Span)
    ensures
        max_age.total() <= 9_223_372_036_854_775_807 * 1_000_000 ==> kept_age(max_age)
            == max_age.total(),
        max_age.total() > 9_223_372_036_854_775_807 * 1_000_000 ==> kept_age(max_age) == 365 * 86_400
            * 1_000_000_000,
{
}

/// Agents share no archive: a file is named for one of them only.
pub proof fn law_archives_have_one_owner(a: AgentId, b: AgentId, rest: Seq<char>)
    requires
        begins_with(archive_prefix(a) + rest, archive_prefix(b)),
    ensures
        a == b,
{
    law_identity_is_written_in_groups(a.uuid);
    law_identity_is_written_in_groups(b.uuid);
    let name = archive_prefix(a) + rest;
    let p = archive_prefix(b);
    assert(name.subrange(0, p.len() as int) == p);
    assert(hyphenated(a.uuid) =~= hyphenated(b.uuid)) by {
        assert forall|k: int| 0 <= k < 36 implies hyphenated(a.uuid)[k] == hyphenated(b.uuid)[k] by {
            assert(p[k] == hyphenated(b.uuid)[k]);
            assert(name[k] == hyphenated(a.uuid)[k]);
            assert(name.subrange(0, p.len() as int)[k] == name[k]);
        }
    }
    law_identities_have_their_own_text(a, b);
}

/// Lines that hold nothing are passed over, and what stands around a line is
/// left out.
#[verifier::rlimit(40)]
pub proof fn law_empty_lines_are_passed_over(line: Seq<char>, rest: Seq<char>)
    requires
        line.len() == 0 || line.last() != '\r',
        forall|i: int| 0 <= i < line.len() ==> #[trigger] line[i] != '\n',
    ensures
        filled_lines(line + seq!['\n'] + rest) == (if trimmed(line).len() == 0 {
            filled_lines(rest)
        } else {
            seq![trimmed(line)] + filled_lines(rest)
        }),
{
    law_lines_end_at_line_feeds(line, rest);
    let plain = |l: Seq<char>| trimmed(l);
    let full = |l: Seq<char>| l.len() > 0;
    let one = seq![trimmed(line)];
    let more = text_lines(rest).map_values(plain);
    assert((seq![line] + text_lines(rest)).map_values(plain) =~= one + more);
    Seq::filter_distributes_over_add(one, more, full);
    reveal(Seq::filter);
    reveal_with_fuel(Seq::filter, 2);
    assert(one.drop_last() =~= Seq::<Seq<char>>::empty());
    if full(trimmed(line)) {
        assert(one.filter(full) =~= one);
    } else {
        assert(one.filter(full) =~= Seq::<Seq<char>>::empty());
        assert(one.filter(full) + more.filter(full) =~= more.filter(full));
    }
}

} // verus!

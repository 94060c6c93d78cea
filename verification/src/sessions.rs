//! Session catalogue policy: newest-first listing, bounded case-insensitive
//! search, and the window of history events to send for one page.
use vstd::prelude::*;
use crate::text::{chars_of, trim, trimmed, lowercase, to_lowercase, string_from_chars};
use crate::state::{ModelSelection, PermissionPreset};

verus! {

/// At most this many search hits are returned.
pub const MAX_SEARCH_RESULTS: usize = 20;

/// Snippets are cut to this many characters.
pub const SNIPPET_CHARS: usize = 240;

/// Longest accepted search query, in characters.
pub const MAX_QUERY_CHARS: usize = 500;

#[derive(Clone, Debug)]
pub struct SessionSearchRecord {
    pub id: String,
    pub event_texts: Vec<String>,
}

#[derive(Clone, Copy, Debug, PartialEq, Eq, Structural)]
pub struct HistoryWindow {
    pub start: usize,
    pub end: usize,
    pub has_more: bool,
}

#[derive(Clone, Copy, Debug, PartialEq, Eq, Structural)]
pub enum SearchQueryError {
    Invalid,
}

/// One search hit: the session and a snippet of its first matching text.
#[derive(Clone, Debug)]
pub struct SearchHit {
    pub session_id: String,
    pub snippet: String,
}

/// The hits of one search and whether more sessions matched than returned.
#[derive(Clone, Debug)]
pub struct SearchOutcome {
    pub items: Vec<SearchHit>,
    pub has_more: bool,
}

// ---------------------------------------------------------------------------
// Snippets
// ---------------------------------------------------------------------------

/// The first `max` characters, with `…` appended when any were cut.
pub open spec fn truncated(input: Seq<char>, max: nat) -> Seq<char> {
    if input.len() > max { input.take(max as int).push('\u{2026}') } else { input }
}

pub fn truncate_chars(input: &str, max: usize) -> (r: String)
    ensures
        r@ == truncated(input@, max as nat),
{
    let v = chars_of(input);
    if v.len() <= max {
        return string_from_chars(&v);
    }
    let mut head: Vec<char> = Vec::new();
    let mut i: usize = 0;
    while i < max
        invariant
            i <= max < v@.len(),
            head@ == v@.take(i as int),
        decreases max - i,
    {
        head.push(v[i]);
        assert(head@ =~= v@.take(i + 1));
        i = i + 1;
    }
    head.push('\u{2026}');
    string_from_chars(&head)
}

// ---------------------------------------------------------------------------
// Queries
// ---------------------------------------------------------------------------

pub open spec fn has_nul(s: Seq<char>) -> bool {
    exists|i: int| 0 <= i < s.len() && s[i] == '\0'
}

/// A query is trimmed; blank, over-long or NUL-bearing queries are refused,
/// others are lowercased.
pub open spec fn normalize_query_spec(query: Seq<char>) -> Result<Seq<char>, SearchQueryError> {
    let q = trim(query);
    if q.len() == 0 || q.len() > MAX_QUERY_CHARS || has_nul(q) {
        Err(SearchQueryError::Invalid)
    } else {
        Ok(lowercase(q))
    }
}

/// Whether `needle` occurs in `hay`.
pub open spec fn contains_seq(hay: Seq<char>, needle: Seq<char>) -> bool {
    exists|i: int| 0 <= i && i + needle.len() <= hay.len() && #[trigger] hay.subrange(i, i + needle.len()) == needle
}

fn contains_vec(hay: &Vec<char>, needle: &Vec<char>) -> (r: bool)
    ensures
        r == contains_seq(hay@, needle@),
{
    if needle.len() > hay.len() {
        return false;
    }
    let last = hay.len() - needle.len();
    let mut i: usize = 0;
    loop
        invariant
            needle@.len() <= hay@.len(),
            last == hay@.len() - needle@.len(),
            i <= last,
            forall|j: int| 0 <= j < i ==> #[trigger] hay@.subrange(j, j + needle@.len()) != needle@,
        decreases last - i,
    {
        let mut k: usize = 0;
        let mut same = true;
        while k < needle.len()
            invariant
                i + needle@.len() <= hay@.len(),
                hay@.len() == hay.len(),
                needle@.len() == needle.len(),
                k <= needle@.len(),
                same == (forall|m: int| 0 <= m < k ==> hay@[i + m] == needle@[m]),
            decreases needle.len() - k,
        {
            if hay[i + k] != needle[k] {
                same = false;
            }
            k = k + 1;
        }
        if same {
            assert(hay@.subrange(i as int, i + needle@.len()) =~= needle@);
            return true;
        }
        assert(hay@.subrange(i as int, i + needle@.len()) != needle@) by {
            let m = choose|m: int| 0 <= m < needle@.len() && hay@[i + m] != needle@[m];
            assert(hay@.subrange(i as int, i + needle@.len())[m] != needle@[m]);
        }
        if i == last {
            return false;
        }
        i = i + 1;
    }
}

// ---------------------------------------------------------------------------
// Search
// ---------------------------------------------------------------------------

/// Index of the first text whose lowercase form contains `query`.
pub open spec fn first_hit(texts: Seq<String>, query: Seq<char>) -> Option<int>
    decreases texts.len(),
{
    if texts.len() == 0 {
        None
    } else if contains_seq(lowercase(texts[0]@), query) {
        Some(0)
    } else {
        match first_hit(texts.drop_first(), query) {
            Some(i) => Some(i + 1),
            None => None,
        }
    }
}

/// (session id, snippet) of every matching record, in record order.
pub open spec fn hits(records: Seq<SessionSearchRecord>, query: Seq<char>) -> Seq<(Seq<char>, Seq<char>)>
    decreases records.len(),
{
    if records.len() == 0 {
        Seq::empty()
    } else {
        let r = records.last();
        let prev = hits(records.drop_last(), query);
        match first_hit(r.event_texts@, query) {
            Some(i) => prev.push((r.id@, truncated(r.event_texts@[i]@, SNIPPET_CHARS as nat))),
            None => prev,
        }
    }
}

pub open spec fn hit_views(v: Seq<SearchHit>) -> Seq<(Seq<char>, Seq<char>)> {
    v.map_values(|h: SearchHit| (h.session_id@, h.snippet@))
}

pub proof fn lemma_hits_prefix(records: Seq<SessionSearchRecord>, query: Seq<char>, k: int)
    requires
        0 <= k <= records.len(),
    ensures
        hits(records.take(k), query).len() <= hits(records, query).len(),
        hits(records.take(k), query) == hits(records, query).take(hits(records.take(k), query).len() as int),
    decreases records.len() - k,
{
    if k < records.len() {
        lemma_hits_prefix(records, query, k + 1);
        assert(records.take(k + 1).drop_last() =~= records.take(k));
        let a = hits(records.take(k), query);
        let b = hits(records.take(k + 1), query);
        let all = hits(records, query);
        assert(b.take(a.len() as int) =~= a);
        assert(all.take(a.len() as int) =~= b.take(b.len() as int).take(a.len() as int));
    } else {
        assert(records.take(k) =~= records);
        assert(hits(records, query).take(hits(records, query).len() as int) =~= hits(records, query));
    }
}

fn find_hit(texts: &Vec<String>, query: &Vec<char>) -> (r: Option<usize>)
    ensures
        match r {
            Some(i) => first_hit(texts@, query@) == Some(i as int) && i < texts@.len(),
            None => first_hit(texts@, query@) is None,
        },
{
    let mut i: usize = 0;
    assert(texts@.skip(0) =~= texts@);
    while i < texts.len()
        invariant
            i <= texts@.len(),
            first_hit(texts@, query@) == match first_hit(texts@.skip(i as int), query@) {
                Some(j) => Some(j + i),
                None => None::<int>,
            },
        decreases texts.len() - i,
    {
        assert(texts@.skip(i as int).drop_first() =~= texts@.skip(i + 1));
        assert(texts@.skip(i as int)[0] == texts@[i as int]);
        let lowered = to_lowercase(texts[i].as_str());
        let lv = chars_of(lowered.as_str());
        if contains_vec(&lv, query) {
            return Some(i);
        }
        i = i + 1;
    }
    None
}

// ---------------------------------------------------------------------------
// History pages
// ---------------------------------------------------------------------------

/// Events that count as visible messages in a history page.
pub open spec fn visible(t: Option<&str>) -> bool {
    match t {
        Some(s) => s@ == "user/message"@ || s@ == "assistant/message"@ || s@ == "tool/result"@,
        None => false,
    }
}

/// Visible messages among `types[lo..hi]`.
pub open spec fn visible_count(types: Seq<Option<&str>>, lo: int, hi: int) -> nat
    decreases hi - lo,
{
    if lo >= hi {
        0
    } else {
        visible_count(types, lo + 1, hi) + if visible(types[lo]) { 1nat } else { 0nat }
    }
}

/// The event index a page ends at (exclusive): the requested sequence
/// number, capped at the next one, made relative to the first kept event
/// and capped at the number of events.
pub open spec fn window_end(len: nat, event_base_seq: u64, next_event_seq: u64, before_seq: Option<u64>) -> int {
    let end_seq = match before_seq {
        Some(b) => if b < next_event_seq { b } else { next_event_seq },
        None => next_event_seq,
    };
    let d: int = if end_seq > event_base_seq { end_seq - event_base_seq } else { 0 };
    if d < len { d } else { len as int }
}

fn is_visible(t: Option<&str>) -> (r: bool)
    ensures
        r == visible(t),
{
    match t {
        Some(s) => crate::text::str_eq(s, "user/message") || crate::text::str_eq(s, "assistant/message")
            || crate::text::str_eq(s, "tool/result"),
        None => false,
    }
}

// ---------------------------------------------------------------------------
// Listing order
// ---------------------------------------------------------------------------

/// Index `a` lists before index `b`: newer first, ties in input order.
pub open spec fn lists_before(keys: Seq<u64>, a: int, b: int) -> bool {
    keys[a] > keys[b] || (keys[a] == keys[b] && a < b)
}

/// `order` lists indices of `keys`, each before the next.
pub open spec fn newest_first(keys: Seq<u64>, order: Seq<usize>) -> bool {
    &&& forall|i: int| 0 <= i < order.len() ==> #[trigger] order[i] < keys.len()
    &&& forall|i: int, j: int| 0 <= i < j < order.len() ==> lists_before(keys, #[trigger] order[i] as int, #[trigger] order[j] as int)
}

/// Session listing and search policy.
pub struct SessionProcessor;

impl SessionProcessor {
    /// The listing order of sessions updated at `updated_at` (a missing
    /// time counts as 0): newest first, ties kept in input order. Every
    /// index appears once.
    pub fn list_order(updated_at: &Vec<u64>) -> (r: Vec<usize>)
        ensures
            r@.len() == updated_at@.len(),
            newest_first(updated_at@, r@),
    {
        let mut out: Vec<usize> = Vec::new();
        let mut i: usize = 0;
        while i < updated_at.len()
            invariant
                i <= updated_at@.len(),
                out@.len() == i,
                forall|k: int| 0 <= k < out@.len() ==> #[trigger] out@[k] < i,
                newest_first(updated_at@, out@),
            decreases updated_at.len() - i,
        {
            let key = updated_at[i];
            let mut p: usize = 0;
            while p < out.len() && updated_at[out[p]] >= key
                invariant
                    p <= out@.len(),
                    i < updated_at@.len(),
                    key == updated_at@[i as int],
                    forall|k: int| 0 <= k < out@.len() ==> #[trigger] out@[k] < i,
                    newest_first(updated_at@, out@),
                    forall|k: int| 0 <= k < p ==> updated_at@[#[trigger] out@[k] as int] >= key,
                decreases out.len() - p,
            {
                p = p + 1;
            }
            let ghost before = out@;
            out.insert(p, i);
            proof {
                assert(out@ == before.insert(p as int, i));
                assert forall|a: int, b: int| 0 <= a < b < out@.len() implies lists_before(
                    updated_at@,
                    #[trigger] out@[a] as int,
                    #[trigger] out@[b] as int,
                ) by {
                    if a < p && b == p {
                        assert(out@[a] == before[a]);
                    } else if a == p && b > p {
                        assert(out@[b] == before[b - 1]);
                        assert(updated_at@[before[p as int] as int] < key);
                        if b - 1 > p {
                            assert(lists_before(updated_at@, before[p as int] as int, before[b - 1] as int));
                        }
                    } else if a < p && b > p {
                        assert(out@[a] == before[a]);
                        assert(out@[b] == before[b - 1]);
                    } else if b < p {
                        assert(out@[a] == before[a]);
                        assert(out@[b] == before[b]);
                    } else {
                        assert(out@[a] == before[a - 1]);
                        assert(out@[b] == before[b - 1]);
                    }
                }
                assert forall|k: int| 0 <= k < out@.len() implies #[trigger] out@[k] < i + 1 by {
                    if k < p {
                        assert(out@[k] == before[k]);
                    } else if k > p {
                        assert(out@[k] == before[k - 1]);
                    }
                }
            }
            i = i + 1;
        }
        out
    }

    /// Normalize a search query.
    pub fn normalize_query(query: &str) -> (r: Result<String, SearchQueryError>)
        ensures
            match r {
                Ok(s) => normalize_query_spec(query@) == Ok::<Seq<char>, SearchQueryError>(s@),
                Err(e) => normalize_query_spec(query@) == Err::<Seq<char>, SearchQueryError>(e),
            },
    {
        let q = trimmed(query);
        let v = chars_of(q.as_str());
        if v.len() == 0 || v.len() > MAX_QUERY_CHARS {
            return Err(SearchQueryError::Invalid);
        }
        let mut i: usize = 0;
        while i < v.len()
            invariant
                i <= v@.len(),
                v@ == trim(query@),
                0 < v@.len() <= MAX_QUERY_CHARS,
                forall|j: int| 0 <= j < i ==> v@[j] != '\0',
            decreases v.len() - i,
        {
            if v[i] == '\0' {
                assert(v@[i as int] == '\0');
                return Err(SearchQueryError::Invalid);
            }
            i = i + 1;
        }
        Ok(to_lowercase(q.as_str()))
    }

    /// Search sessions: the first text of each record whose lowercase form
    /// contains `query` (which the caller has normalized), snippeted, at most
    /// `MAX_SEARCH_RESULTS` of them in record order.
    pub fn search(query: &str, records: Vec<SessionSearchRecord>) -> (r: SearchOutcome)
        ensures
            hit_views(r.items@) == hits(records@, query@).take(
                if hits(records@, query@).len() < MAX_SEARCH_RESULTS { hits(records@, query@).len() as int } else { MAX_SEARCH_RESULTS as int },
            ),
            r.has_more == (hits(records@, query@).len() > MAX_SEARCH_RESULTS),
    {
        let q = chars_of(query);
        let mut items: Vec<SearchHit> = Vec::new();
        let mut i: usize = 0;
        let mut stopped = false;
        while i < records.len() && !stopped
            invariant
                q@ == query@,
                i <= records@.len(),
                hit_views(items@) == hits(records@.take(i as int), query@),
                !stopped ==> items@.len() <= MAX_SEARCH_RESULTS,
                stopped ==> items@.len() == MAX_SEARCH_RESULTS + 1,
            decreases records.len() - i,
        {
            let rec = &records[i];
            assert(records@.take(i + 1).drop_last() =~= records@.take(i as int));
            assert(records@.take(i + 1).last() == records@[i as int]);
            match find_hit(&rec.event_texts, &q) {
                Some(k) => {
                    let snippet = truncate_chars(rec.event_texts[k].as_str(), SNIPPET_CHARS);
                    let hit = SearchHit { session_id: String::from_str(rec.id.as_str()), snippet };
                    let ghost before = items@;
                    items.push(hit);
                    assert(hit_views(items@) =~= hit_views(before).push((rec.id@, truncated(rec.event_texts@[k as int]@, SNIPPET_CHARS as nat))));
                    if items.len() > MAX_SEARCH_RESULTS {
                        stopped = true;
                    }
                },
                None => {},
            }
            i = i + 1;
        }
        proof {
            lemma_hits_prefix(records@, query@, i as int);
            if !stopped {
                assert(records@.take(i as int) =~= records@);
            }
        }
        let has_more = items.len() > MAX_SEARCH_RESULTS;
        let ghost full = items@;
        items.truncate(MAX_SEARCH_RESULTS);
        proof {
            let all = hits(records@, query@);
            if has_more {
                assert(hit_views(items@) =~= all.take(MAX_SEARCH_RESULTS as int));
            } else {
                assert(items@ =~= full);
            }
        }
        SearchOutcome { items, has_more }
    }

    /// The events `[start, end)` of one history page: the page ends before
    /// `before_seq` (or at the newest event) and reaches back over at most
    /// `max_messages` visible messages; `has_more` says older events exist.
    pub fn history_window(
        event_types: &[Option<&str>],
        event_base_seq: u64,
        next_event_seq: u64,
        before_seq: Option<u64>,
        max_messages: usize,
    ) -> (r: HistoryWindow)
        ensures
            r.end == window_end(event_types@.len(), event_base_seq, next_event_seq, before_seq),
            r.start <= r.end,
            visible_count(event_types@, r.start as int, r.end as int) <= max_messages,
            r.start == 0 || visible_count(event_types@, r.start as int, r.end as int) >= max_messages,
            forall|s: int| r.start < s <= r.end ==> visible_count(event_types@, s, r.end as int) < max_messages,
            r.has_more == (r.start > 0 || event_base_seq > 0),
    {
        let end_seq = match before_seq {
            Some(b) => if b < next_event_seq { b } else { next_event_seq },
            None => next_event_seq,
        };
        let d: u64 = if end_seq > event_base_seq { end_seq - event_base_seq } else { 0 };
        let len = event_types.len();
        let end: usize = if d >= len as u64 { len } else { d as usize };
        let mut start = end;
        let mut messages: usize = 0;
        while start > 0 && messages < max_messages
            invariant
                start <= end <= event_types@.len(),
                messages == visible_count(event_types@, start as int, end as int),
                messages <= max_messages,
                forall|s: int| start < s <= end ==> visible_count(event_types@, s, end as int) < max_messages,
            decreases start,
        {
            start = start - 1;
            if is_visible(event_types[start]) {
                messages = messages + 1;
            }
        }
        HistoryWindow { start, end, has_more: start > 0 || event_base_seq > 0 }
    }
}


// ---------------------------------------------------------------------------
// Laws
// ---------------------------------------------------------------------------

/// The listing order names every session exactly once.
pub proof fn law_listing_order_is_a_permutation(keys: Seq<u64>, order: Seq<usize>)
    requires
        order.len() == keys.len(),
        newest_first(keys, order),
    ensures
        order.no_duplicates(),
        forall|k: usize| k < keys.len() ==> #[trigger] order.contains(k),
{
    assert forall|i: int, j: int| 0 <= i < order.len() && 0 <= j < order.len() && i != j implies order[i] != order[j] by {
        if i < j {
            assert(lists_before(keys, order[i] as int, order[j] as int));
        } else {
            assert(lists_before(keys, order[j] as int, order[i] as int));
        }
    }
    let m = order.map_values(|x: usize| x as int);
    assert(m.no_duplicates()) by {
        assert forall|i: int, j: int| 0 <= i < m.len() && 0 <= j < m.len() && i != j implies m[i] != m[j] by {
            assert(order[i] != order[j]);
        }
    }
    m.unique_seq_to_set();
    let range = vstd::set_lib::set_int_range(0, keys.len() as int);
    vstd::set_lib::lemma_int_range(0, keys.len() as int);
    assert(m.to_set().subset_of(range)) by {
        assert forall|x: int| m.to_set().contains(x) implies range.contains(x) by {
            let i = choose|i: int| 0 <= i < m.len() && m[i] == x;
            assert(order[i] < keys.len());
        }
    }
    vstd::set_lib::lemma_len_subset(m.to_set(), range);
    vstd::set_lib::lemma_subset_equality(m.to_set(), range);
    assert forall|k: usize| k < keys.len() implies #[trigger] order.contains(k) by {
        assert(range.contains(k as int));
        assert(m.to_set().contains(k as int));
        let i = choose|i: int| 0 <= i < m.len() && m[i] == k as int;
        assert(order[i] == k);
    }
}

/// A snippet is at most its character budget plus the ellipsis.
pub proof fn law_snippets_are_bounded(input: Seq<char>, max: nat)
    ensures
        truncated(input, max).len() <= max + 1,
        input.len() <= max ==> truncated(input, max) == input,
{
}

/// How many of a session's held events a fork keeps: those up to and
/// including sequence number `at_seq` (all of them without one), where the
/// first held event has sequence number `base_seq`.
pub open spec fn fork_keep_spec(at_seq: Option<u64>, base_seq: u64, len: nat) -> nat {
    match at_seq {
        None => len,
        Some(s) => {
            let through: int = if s == u64::MAX { u64::MAX as int } else { s + 1 };
            let n: int = if through <= base_seq { 0 } else { through - base_seq };
            if n < len { n as nat } else { len }
        },
    }
}

/// The number of held events a fork at `at_seq` keeps.
pub fn fork_keep(at_seq: Option<u64>, base_seq: u64, len: usize) -> (r: usize)
    ensures
        r == fork_keep_spec(at_seq, base_seq, len as nat),
{
    match at_seq {
        None => len,
        Some(s) => {
            let through: u64 = if s == u64::MAX { u64::MAX } else { s + 1 };
            let n: u64 = if through <= base_seq { 0 } else { through - base_seq };
            if n < len as u64 { n as usize } else { len }
        },
    }
}

/// What a fork copies from its source session.
#[derive(Clone, Debug)]
pub struct ForkSource {
    pub cwd: String,
    pub agent_preset: Option<String>,
    pub title: Option<String>,
    pub model: ModelSelection,
    pub permission_preset: PermissionPreset,
    pub next_turn: u32,
}

/// The session record a fork creates, holding `kept_events` of the
/// source's events.
#[derive(Clone, Debug)]
pub struct ForkChild {
    pub session_id: String,
    pub parent_session_id: String,
    pub created_at: u64,
    pub updated_at: u64,
    pub running: bool,
    pub blank: bool,
    pub origin: Option<String>,
    pub source: ForkSource,
    pub kept_events: usize,
}

/// A fork that would keep no history is refused.
#[derive(Clone, Debug, PartialEq, Eq)]
pub struct ForkUnavailable {
    pub session_id: String,
}

/// The child record of a fork of `source_id` named `child_id` at `now_ms`,
/// or a refusal when the fork would keep no event. The child copies the
/// source's directory, preset, title, model, permission and turn counter, is
/// idle, not blank, and names its parent.
pub fn fork_child(source_id: String, source: ForkSource, child_id: String, now_ms: u64, kept_events: usize) -> (r: Result<ForkChild, ForkUnavailable>)
    ensures
        match r {
            Ok(c) => {
                &&& kept_events > 0
                &&& c.session_id == child_id
                &&& c.parent_session_id == source_id
                &&& c.created_at == now_ms
                &&& c.updated_at == now_ms
                &&& !c.running
                &&& !c.blank
                &&& c.origin is None
                &&& c.source == source
                &&& c.kept_events == kept_events
            },
            Err(e) => kept_events == 0 && e.session_id == source_id,
        },
{
    if kept_events == 0 {
        return Err(ForkUnavailable { session_id: source_id });
    }
    Ok(ForkChild {
        session_id: child_id,
        parent_session_id: source_id,
        created_at: now_ms,
        updated_at: now_ms,
        running: false,
        blank: false,
        origin: None,
        source,
        kept_events,
    })
}

/// Sequence number of the `k`-th held event.
pub open spec fn held_seq(base_seq: u64, k: int) -> int {
    base_seq + k
}

/// A fork keeps exactly the held events whose sequence number is at most
/// `at_seq`: the `k`-th held event (sequence `base_seq + k`) is kept
/// exactly when `base_seq + k <= at_seq`; without `at_seq` all are kept.
/// (A cut at `u64::MAX` saturates and keeps one event fewer.)
pub proof fn law_fork_keeps_events_up_to_the_cut(at_seq: Option<u64>, base_seq: u64, len: nat)
    ensures
        fork_keep_spec(at_seq, base_seq, len) <= len,
        at_seq is None ==> fork_keep_spec(at_seq, base_seq, len) == len,
        at_seq matches Some(s) ==> (s < u64::MAX ==> forall|k: int| 0 <= k < len ==>
            (k < fork_keep_spec(at_seq, base_seq, len) <==> #[trigger] held_seq(base_seq, k) <= s)),
{
}

} // verus!

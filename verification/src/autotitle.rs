//! Automatic session titles: what a session's event log says about its
//! title, the conversation sample a title is generated from, and the
//! decisions of one title step (fallback, reservation, acceptance, retry).
use vstd::prelude::*;
use crate::models::ModelRoute;
use crate::text::{is_blank, is_blank_str, chars_of, string_from_chars, owned};
use crate::titles::{excerpt, excerpt_spec, meaningful, meaningful_spec};

verus! {

/// Bytes of a message that go into an excerpt.
pub const EXCERPT_BYTES: usize = 1536;
/// Characters of the first user excerpt kept as the fallback title.
pub const FALLBACK_CHARS: usize = 48;
/// Provider attempts per session.
pub const ATTEMPTS: u32 = 3;

#[derive(Clone, Copy, Debug, PartialEq, Eq, Structural)]
pub enum TitlePhase {
    Pending,
    Retry,
    Completed,
    Exhausted,
}

/// The title-relevant part of one logged session event.
#[derive(Clone, Debug)]
pub enum TitleEventKind {
    /// A user message; `replaces_surface` marks a compaction replacement.
    UserMessage { content: String, replaces_surface: bool },
    AssistantMessage { content: String },
    /// A committed title; `fallback` when it was derived from the messages.
    SessionTitle { fallback: bool },
    TitleGeneration { attempt: u32, phase: TitlePhase, retry_at_ms: u64 },
    /// A turn ended or an agent delegation failed.
    TurnClosed,
    Other,
}

#[derive(Clone, Debug)]
pub struct TitleEvent {
    pub seq: u64,
    pub kind: TitleEventKind,
}

pub enum KindView {
    UserMessage(Seq<char>, bool),
    AssistantMessage(Seq<char>),
    SessionTitle(bool),
    TitleGeneration(u32, TitlePhase, u64),
    TurnClosed,
    Other,
}

pub struct EventView {
    pub seq: u64,
    pub kind: KindView,
}

impl View for TitleEvent {
    type V = EventView;

    open spec fn view(&self) -> EventView {
        EventView {
            seq: self.seq,
            kind: match &self.kind {
                TitleEventKind::UserMessage { content, replaces_surface } => KindView::UserMessage(content@, *replaces_surface),
                TitleEventKind::AssistantMessage { content } => KindView::AssistantMessage(content@),
                TitleEventKind::SessionTitle { fallback } => KindView::SessionTitle(*fallback),
                TitleEventKind::TitleGeneration { attempt, phase, retry_at_ms } =>
                    KindView::TitleGeneration(*attempt, *phase, *retry_at_ms),
                TitleEventKind::TurnClosed => KindView::TurnClosed,
                TitleEventKind::Other => KindView::Other,
            },
        }
    }
}

pub open spec fn event_views(v: Seq<TitleEvent>) -> Seq<EventView> {
    v.map_values(|e: TitleEvent| e@)
}

// ---------------------------------------------------------------------------
// Evidence in the log
// ---------------------------------------------------------------------------

/// Sequence number of the latest committed title.
pub open spec fn last_title_seq(evs: Seq<EventView>) -> Option<u64>
    decreases evs.len(),
{
    if evs.len() == 0 {
        None
    } else if evs.last().kind is SessionTitle {
        Some(evs.last().seq)
    } else {
        last_title_seq(evs.drop_last())
    }
}

/// The latest committed title came from a user or a provider, not from the
/// fallback.
pub open spec fn title_owned(evs: Seq<EventView>) -> bool
    decreases evs.len(),
{
    if evs.len() == 0 {
        false
    } else {
        match evs.last().kind {
            KindView::SessionTitle(fallback) => !fallback,
            _ => title_owned(evs.drop_last()),
        }
    }
}

/// The latest generation progress: attempt, phase and retry time.
pub open spec fn generation_state(evs: Seq<EventView>) -> (u32, Option<TitlePhase>, u64)
    decreases evs.len(),
{
    if evs.len() == 0 {
        (0, None, 0)
    } else {
        match evs.last().kind {
            KindView::TitleGeneration(a, p, r) => (a, Some(p), r),
            _ => generation_state(evs.drop_last()),
        }
    }
}

pub open spec fn turn_closed(evs: Seq<EventView>) -> bool {
    exists|i: int| 0 <= i < evs.len() && #[trigger] evs[i].kind is TurnClosed
}

fn latest_title_seq(events: &Vec<TitleEvent>) -> (r: Option<u64>)
    ensures
        r == last_title_seq(event_views(events@)),
{
    let ghost evs = event_views(events@);
    assert(evs.take(evs.len() as int) =~= evs);
    let mut i: usize = events.len();
    while i > 0
        invariant
            i <= events@.len(),
            evs == event_views(events@),
            last_title_seq(evs) == last_title_seq(evs.take(i as int)),
        decreases i,
    {
        let ghost t = evs.take(i as int);
        assert(t.drop_last() =~= evs.take(i - 1));
        assert(t.last() == events@[i - 1]@);
        match &events[i - 1].kind {
            TitleEventKind::SessionTitle { .. } => return Some(events[i - 1].seq),
            _ => {},
        }
        i = i - 1;
    }
    None
}

fn owned_title(events: &Vec<TitleEvent>) -> (r: bool)
    ensures
        r == title_owned(event_views(events@)),
{
    let ghost evs = event_views(events@);
    assert(evs.take(evs.len() as int) =~= evs);
    let mut i: usize = events.len();
    while i > 0
        invariant
            i <= events@.len(),
            evs == event_views(events@),
            title_owned(evs) == title_owned(evs.take(i as int)),
        decreases i,
    {
        let ghost t = evs.take(i as int);
        assert(t.drop_last() =~= evs.take(i - 1));
        assert(t.last() == events@[i - 1]@);
        match &events[i - 1].kind {
            TitleEventKind::SessionTitle { fallback } => return !*fallback,
            _ => {},
        }
        i = i - 1;
    }
    false
}

fn latest_generation(events: &Vec<TitleEvent>) -> (r: (u32, Option<TitlePhase>, u64))
    ensures
        r == generation_state(event_views(events@)),
{
    let ghost evs = event_views(events@);
    assert(evs.take(evs.len() as int) =~= evs);
    let mut i: usize = events.len();
    while i > 0
        invariant
            i <= events@.len(),
            evs == event_views(events@),
            generation_state(evs) == generation_state(evs.take(i as int)),
        decreases i,
    {
        let ghost t = evs.take(i as int);
        assert(t.drop_last() =~= evs.take(i - 1));
        assert(t.last() == events@[i - 1]@);
        match &events[i - 1].kind {
            TitleEventKind::TitleGeneration { attempt, phase, retry_at_ms } => return (*attempt, Some(*phase), *retry_at_ms),
            _ => {},
        }
        i = i - 1;
    }
    (0, None, 0)
}

fn any_turn_closed(events: &Vec<TitleEvent>) -> (r: bool)
    ensures
        r == turn_closed(event_views(events@)),
{
    let ghost evs = event_views(events@);
    let mut i: usize = 0;
    while i < events.len()
        invariant
            i <= events@.len(),
            evs == event_views(events@),
            forall|j: int| 0 <= j < i ==> !(#[trigger] evs[j].kind is TurnClosed),
        decreases events.len() - i,
    {
        assert(evs[i as int] == events@[i as int]@);
        match &events[i].kind {
            TitleEventKind::TurnClosed => {
                assert(evs[i as int].kind is TurnClosed);
                return true;
            },
            _ => {},
        }
        i = i + 1;
    }
    false
}


// ---------------------------------------------------------------------------
// The conversation sample
// ---------------------------------------------------------------------------

/// Which messages a sample looks for.
#[derive(Clone, Copy, Debug, PartialEq, Eq, Structural)]
pub enum Pick {
    /// A user message as typed (not a compaction replacement) with text.
    User,
    /// A user message as typed whose excerpt is meaningful.
    Useful,
    /// An assistant message with text.
    Assistant,
}

pub open spec fn picks(k: Pick, e: EventView) -> bool {
    match k {
        Pick::User => e.kind matches KindView::UserMessage(c, r) && !r && !is_blank(c),
        Pick::Useful => e.kind matches KindView::UserMessage(c, r) && !r && meaningful_spec(excerpt_spec(c, EXCERPT_BYTES as nat)),
        Pick::Assistant => e.kind matches KindView::AssistantMessage(c) && !is_blank(c),
    }
}

/// Index of the first event from `i` on that `k` picks.
pub open spec fn first_from(evs: Seq<EventView>, k: Pick, i: int) -> Option<int>
    decreases evs.len() - i,
{
    if i < 0 || i >= evs.len() {
        None
    } else if picks(k, evs[i]) {
        Some(i)
    } else {
        first_from(evs, k, i + 1)
    }
}

/// Index of the last event before `n` that `k` picks.
pub open spec fn last_before(evs: Seq<EventView>, k: Pick, n: int) -> Option<int>
    decreases n,
{
    if n <= 0 || n > evs.len() {
        None
    } else if picks(k, evs[n - 1]) {
        Some(n - 1)
    } else {
        last_before(evs, k, n - 1)
    }
}

pub open spec fn or_else(a: Option<int>, b: Option<int>) -> Option<int> {
    if a is Some { a } else { b }
}

/// The events a sample is made of: the first and the last user message
/// (meaningful ones preferred; the last only when it is another event),
/// then the latest assistant message if there is one.
pub open spec fn sample_events(evs: Seq<EventView>) -> Option<Seq<EventView>> {
    let first = or_else(first_from(evs, Pick::Useful, 0), first_from(evs, Pick::User, 0));
    let last = or_else(last_before(evs, Pick::Useful, evs.len() as int), last_before(evs, Pick::User, evs.len() as int));
    let assistant = last_before(evs, Pick::Assistant, evs.len() as int);
    match (first, last) {
        (Some(f), Some(l)) => {
            let a = seq![evs[f]];
            let b = if evs[l].seq != evs[f].seq { a.push(evs[l]) } else { a };
            Some(match assistant {
                Some(x) => b.push(evs[x]),
                None => b,
            })
        },
        _ => None,
    }
}

pub struct SampleAcc {
    pub lines: Seq<Seq<char>>,
    pub fallback: Seq<char>,
    pub seqs: Seq<u64>,
    pub useful: bool,
}

/// Lines `role: excerpt`, the fallback title (the first 48 characters of
/// the first non-empty user excerpt), the event seqs, and whether any user
/// excerpt is meaningful.
pub open spec fn accumulate(sel: Seq<EventView>) -> SampleAcc
    decreases sel.len(),
{
    if sel.len() == 0 {
        SampleAcc { lines: Seq::empty(), fallback: Seq::empty(), seqs: Seq::empty(), useful: false }
    } else {
        let prev = accumulate(sel.drop_last());
        let e = sel.last();
        match e.kind {
            KindView::UserMessage(c, _) => {
                let text = excerpt_spec(c, EXCERPT_BYTES as nat);
                SampleAcc {
                    lines: prev.lines.push("user: "@ + text),
                    fallback: if prev.fallback.len() == 0 {
                        if text.len() < FALLBACK_CHARS { text } else { text.take(FALLBACK_CHARS as int) }
                    } else {
                        prev.fallback
                    },
                    seqs: prev.seqs.push(e.seq),
                    useful: prev.useful || meaningful_spec(text),
                }
            },
            KindView::AssistantMessage(c) => {
                let text = excerpt_spec(c, EXCERPT_BYTES as nat);
                SampleAcc {
                    lines: prev.lines.push("assistant: "@ + text),
                    fallback: prev.fallback,
                    seqs: prev.seqs.push(e.seq),
                    useful: prev.useful,
                }
            },
            _ => prev,
        }
    }
}

/// Lines joined by newlines.
pub open spec fn join_lines(lines: Seq<Seq<char>>) -> Seq<char>
    decreases lines.len(),
{
    if lines.len() == 0 {
        Seq::empty()
    } else if lines.len() == 1 {
        lines[0]
    } else {
        join_lines(lines.drop_last()) + "\n"@ + lines.last()
    }
}

pub struct SampleView {
    pub input: Seq<char>,
    pub fallback: Seq<char>,
    pub seqs: Seq<u64>,
    pub meaningful: bool,
}

pub open spec fn title_sample_spec(evs: Seq<EventView>) -> Option<SampleView> {
    match sample_events(evs) {
        None => None,
        Some(sel) => {
            let acc = accumulate(sel);
            Some(SampleView { input: join_lines(acc.lines), fallback: acc.fallback, seqs: acc.seqs, meaningful: acc.useful })
        },
    }
}

/// The conversation excerpts a title is generated from.
#[derive(Clone, Debug)]
pub struct TitleSample {
    pub input: String,
    pub fallback: String,
    pub seqs: Vec<u64>,
    pub meaningful: bool,
}

impl View for TitleSample {
    type V = SampleView;

    open spec fn view(&self) -> SampleView {
        SampleView { input: self.input@, fallback: self.fallback@, seqs: self.seqs@, meaningful: self.meaningful }
    }
}

fn pick(k: Pick, e: &TitleEvent) -> (r: bool)
    ensures
        r == picks(k, e@),
{
    match (k, &e.kind) {
        (Pick::User, TitleEventKind::UserMessage { content, replaces_surface }) => !*replaces_surface && !is_blank_str(content.as_str()),
        (Pick::Useful, TitleEventKind::UserMessage { content, replaces_surface }) => {
            if *replaces_surface {
                false
            } else {
                let text = excerpt(content.as_str(), EXCERPT_BYTES);
                meaningful(text.as_str())
            }
        },
        (Pick::Assistant, TitleEventKind::AssistantMessage { content }) => !is_blank_str(content.as_str()),
        _ => false,
    }
}

fn find_first(events: &Vec<TitleEvent>, k: Pick) -> (r: Option<usize>)
    ensures
        match r {
            Some(i) => first_from(event_views(events@), k, 0) == Some(i as int) && i < events@.len(),
            None => first_from(event_views(events@), k, 0) is None,
        },
{
    let ghost evs = event_views(events@);
    let mut i: usize = 0;
    while i < events.len()
        invariant
            i <= events@.len(),
            evs == event_views(events@),
            first_from(evs, k, 0) == first_from(evs, k, i as int),
        decreases events.len() - i,
    {
        assert(evs[i as int] == events@[i as int]@);
        if pick(k, &events[i]) {
            return Some(i);
        }
        i = i + 1;
    }
    None
}

fn find_last(events: &Vec<TitleEvent>, k: Pick) -> (r: Option<usize>)
    ensures
        match r {
            Some(i) => last_before(event_views(events@), k, events@.len() as int) == Some(i as int) && i < events@.len(),
            None => last_before(event_views(events@), k, events@.len() as int) is None,
        },
{
    let ghost evs = event_views(events@);
    let mut n: usize = events.len();
    while n > 0
        invariant
            n <= events@.len(),
            evs == event_views(events@),
            last_before(evs, k, events@.len() as int) == last_before(evs, k, n as int),
        decreases n,
    {
        assert(evs[n - 1] == events@[n - 1]@);
        if pick(k, &events[n - 1]) {
            return Some(n - 1);
        }
        n = n - 1;
    }
    None
}

/// The sample of a session's log, when it has a user message to start from.
pub fn title_sample(events: &Vec<TitleEvent>) -> (r: Option<TitleSample>)
    ensures
        match r {
            Some(s) => title_sample_spec(event_views(events@)) == Some(s@),
            None => title_sample_spec(event_views(events@)) is None,
        },
{
    let ghost evs = event_views(events@);
    let first = match find_first(events, Pick::Useful) {
        Some(i) => Some(i),
        None => find_first(events, Pick::User),
    };
    let last = match find_last(events, Pick::Useful) {
        Some(i) => Some(i),
        None => find_last(events, Pick::User),
    };
    let assistant = find_last(events, Pick::Assistant);
    let (f, l) = match (first, last) {
        (Some(f), Some(l)) => (f, l),
        _ => return None,
    };
    let mut selected: Vec<usize> = Vec::new();
    selected.push(f);
    if events[l].seq != events[f].seq {
        selected.push(l);
    }
    match assistant {
        Some(a) => selected.push(a),
        None => {},
    }
    let ghost sel = sample_events(evs)->0;
    assert(sel.len() == selected@.len());
    assert(forall|j: int| 0 <= j < sel.len() ==> sel[j] == evs[selected@[j] as int]);
    assert(forall|j: int| 0 <= j < selected@.len() ==> #[trigger] selected@[j] < events@.len());
    let mut lines: Vec<String> = Vec::new();
    let mut fallback = String::new();
    let mut seqs: Vec<u64> = Vec::new();
    let mut useful = false;
    let mut j: usize = 0;
    while j < selected.len()
        invariant
            j <= selected@.len(),
            sel.len() == selected@.len(),
            evs == event_views(events@),
            forall|m: int| 0 <= m < sel.len() ==> sel[m] == evs[selected@[m] as int],
            forall|m: int| 0 <= m < selected@.len() ==> #[trigger] selected@[m] < events@.len(),
            crate::text::strs_view(lines@) == accumulate(sel.take(j as int)).lines,
            fallback@ == accumulate(sel.take(j as int)).fallback,
            seqs@ == accumulate(sel.take(j as int)).seqs,
            useful == accumulate(sel.take(j as int)).useful,
        decreases selected.len() - j,
    {
        let e = &events[selected[j]];
        assert(sel.take(j + 1).drop_last() =~= sel.take(j as int));
        assert(sel.take(j + 1).last() == e@);
        let ghost lb = lines@;
        match &e.kind {
            TitleEventKind::UserMessage { content, .. } => {
                let text = excerpt(content.as_str(), EXCERPT_BYTES);
                let mut line = owned("user: ");
                line.append(text.as_str());
                lines.push(line);
                if meaningful(text.as_str()) {
                    useful = true;
                }
                if fallback.unicode_len() == 0 {
                    let tv = chars_of(text.as_str());
                    let mut head: Vec<char> = Vec::new();
                    let mut k: usize = 0;
                    while k < tv.len() && k < FALLBACK_CHARS
                        invariant
                            k <= tv@.len(),
                            k <= FALLBACK_CHARS,
                            head@ == tv@.take(k as int),
                        decreases tv.len() - k,
                    {
                        head.push(tv[k]);
                        assert(head@ =~= tv@.take(k + 1));
                        k = k + 1;
                    }
                    proof {
                        if tv@.len() < FALLBACK_CHARS {
                            assert(tv@.take(tv@.len() as int) =~= tv@);
                        }
                    }
                    fallback = string_from_chars(&head);
                }
                seqs.push(e.seq);
                assert(crate::text::strs_view(lines@) =~= crate::text::strs_view(lb).push(line@));
            },
            TitleEventKind::AssistantMessage { content } => {
                let text = excerpt(content.as_str(), EXCERPT_BYTES);
                let mut line = owned("assistant: ");
                line.append(text.as_str());
                lines.push(line);
                seqs.push(e.seq);
                assert(crate::text::strs_view(lines@) =~= crate::text::strs_view(lb).push(line@));
            },
            _ => {},
        }
        j = j + 1;
    }
    assert(sel.take(sel.len() as int) =~= sel);
    let input = join(&lines);
    Some(TitleSample { input, fallback, seqs, meaningful: useful })
}

/// The lines joined by newlines.
fn join(lines: &Vec<String>) -> (r: String)
    ensures
        r@ == join_lines(crate::text::strs_view(lines@)),
{
    let ghost v = crate::text::strs_view(lines@);
    let mut out = String::new();
    let mut i: usize = 0;
    while i < lines.len()
        invariant
            i <= lines@.len(),
            v == crate::text::strs_view(lines@),
            out@ == join_lines(v.take(i as int)),
        decreases lines.len() - i,
    {
        assert(v.take(i + 1).drop_last() =~= v.take(i as int));
        assert(v.take(i + 1).last() == lines@[i as int]@);
        if i > 0 {
            out.append("\n");
        } else {
            assert(v.take(1)[0] == lines@[0]@);
        }
        out.append(lines[i].as_str());
        i = i + 1;
    }
    assert(v.take(v.len() as int) =~= v);
    out
}


// ---------------------------------------------------------------------------
// One title step
// ---------------------------------------------------------------------------

/// A title or progress event to commit to the session log.
#[derive(Clone, Debug)]
pub enum TitleCommit {
    /// A title; `provider` is the route that generated it, `None` for the
    /// fallback derived from the messages.
    Title { title: String, message_seqs: Vec<u64>, provider: Option<ModelRoute> },
    Progress { attempt: u32, phase: TitlePhase, retry_at_ms: u64 },
}

/// First part of a step, before any generation decision.
#[derive(Clone, Debug)]
pub enum TitlePlan {
    /// Nothing to do for this session now.
    Stop,
    /// Look again after this many milliseconds.
    Wait(u64),
    /// Commit the fallback title, reload the session, then plan generation.
    Fallback { commit: TitleCommit, sample: TitleSample },
    /// Plan generation from this sample.
    Sample(TitleSample),
}

/// Second part: whether to reserve an attempt and call the provider.
#[derive(Clone, Debug, PartialEq, Eq)]
pub enum GenerationPlan {
    Stop,
    Wait(u64),
    /// Commit the reservation, then request attempt `attempt`; the title
    /// seen now must still be the latest when the answer arrives.
    Request { attempt: u32, retry_at_ms: u64, expected_title: Option<u64> },
}

/// Why a provider request failed.
#[derive(Clone, Copy, Debug, PartialEq, Eq, Structural)]
pub struct TitleFailure {
    pub retryable: bool,
    pub retry_after_ms: u64,
}

/// Last part: what the provider's answer leads to.
#[derive(Clone, Debug)]
pub enum ResultPlan {
    /// The session changed under the request: drop the answer.
    Discard,
    /// Commit these events; then look again after the delay, if any.
    Commit { events: Vec<TitleCommit>, again_after_ms: Option<u64> },
}

pub enum CommitView {
    Title(Seq<char>, Seq<u64>, Option<(Seq<char>, Seq<char>, Option<Seq<char>>)>),
    Progress(u32, TitlePhase, u64),
}

pub open spec fn route_view(r: ModelRoute) -> (Seq<char>, Seq<char>, Option<Seq<char>>) {
    (r.provider@, r.model@, crate::text::opt_view(r.reasoning_effort))
}

impl View for TitleCommit {
    type V = CommitView;

    open spec fn view(&self) -> CommitView {
        match self {
            TitleCommit::Title { title, message_seqs, provider } => CommitView::Title(
                title@,
                message_seqs@,
                match provider {
                    Some(r) => Some(route_view(*r)),
                    None => None,
                },
            ),
            TitleCommit::Progress { attempt, phase, retry_at_ms } => CommitView::Progress(*attempt, *phase, *retry_at_ms),
        }
    }
}

pub enum TitlePlanView {
    Stop,
    Wait(u64),
    Fallback(CommitView, SampleView),
    Sample(SampleView),
}

impl View for TitlePlan {
    type V = TitlePlanView;

    open spec fn view(&self) -> TitlePlanView {
        match self {
            TitlePlan::Stop => TitlePlanView::Stop,
            TitlePlan::Wait(ms) => TitlePlanView::Wait(*ms),
            TitlePlan::Fallback { commit, sample } => TitlePlanView::Fallback(commit@, sample@),
            TitlePlan::Sample(sample) => TitlePlanView::Sample(sample@),
        }
    }
}

pub enum ResultPlanView {
    Discard,
    Commit(Seq<CommitView>, Option<u64>),
}

impl View for ResultPlan {
    type V = ResultPlanView;

    open spec fn view(&self) -> ResultPlanView {
        match self {
            ResultPlan::Discard => ResultPlanView::Discard,
            ResultPlan::Commit { events, again_after_ms } => ResultPlanView::Commit(
                events@.map_values(|c: TitleCommit| c@),
                *again_after_ms,
            ),
        }
    }
}

/// Busy sessions are looked at again after this long.
pub const BUSY_RETRY_MS: u64 = 2000;
/// How long a reservation holds before another attempt may start.
pub const RESERVATION_MS: u64 = 35000;
/// Longest wait for a scheduled retry in one step.
pub const MAX_WAIT_MS: u64 = 60000;
/// Cap on a provider's retry-after hint.
pub const MAX_RETRY_AFTER_MS: u64 = 86400000;
/// Base backoff per attempt.
pub const BACKOFF_MS: u64 = 5000;
/// Wait after a route change before trying again.
pub const ROUTE_CHANGE_RETRY_MS: u64 = 100;

/// The first part of a step. `route_busy` is `None` when the session is
/// gone, else whether any agent is running; `has_title` whether the
/// session shows a title; `events` the session's log if it could be read.
pub open spec fn plan_title_spec(route_busy: Option<bool>, has_title: bool, events: Option<Seq<EventView>>) -> TitlePlanView {
    match route_busy {
        None => TitlePlanView::Stop,
        Some(busy) => if busy && has_title {
            TitlePlanView::Wait(BUSY_RETRY_MS)
        } else {
            match events {
                None => TitlePlanView::Stop,
                Some(evs) => if title_owned(evs) {
                    TitlePlanView::Stop
                } else if last_title_seq(evs) is None && has_title {
                    // an inherited title of unknown ownership is kept
                    TitlePlanView::Stop
                } else {
                    match title_sample_spec(evs) {
                        None => TitlePlanView::Stop,
                        Some(sample) => if last_title_seq(evs) is None {
                            TitlePlanView::Fallback(CommitView::Title(sample.fallback, sample.seqs, None), sample)
                        } else {
                            TitlePlanView::Sample(sample)
                        },
                    }
                },
            }
        },
    }
}

fn copy_sample(s: &TitleSample) -> (r: TitleSample)
    ensures
        r@ == s@,
{
    let mut seqs: Vec<u64> = Vec::new();
    let mut i: usize = 0;
    while i < s.seqs.len()
        invariant
            i <= s.seqs@.len(),
            seqs@ == s.seqs@.take(i as int),
        decreases s.seqs.len() - i,
    {
        seqs.push(s.seqs[i]);
        assert(seqs@ =~= s.seqs@.take(i + 1));
        i = i + 1;
    }
    assert(s.seqs@.take(s.seqs@.len() as int) =~= s.seqs@);
    TitleSample { input: owned(s.input.as_str()), fallback: owned(s.fallback.as_str()), seqs, meaningful: s.meaningful }
}

pub fn plan_title(route_busy: Option<bool>, has_title: bool, events: Option<&Vec<TitleEvent>>) -> (r: TitlePlan)
    ensures
        r@ == plan_title_spec(route_busy, has_title, match events {
            Some(e) => Some(event_views(e@)),
            None => None,
        }),
{
    let busy = match route_busy {
        None => return TitlePlan::Stop,
        Some(b) => b,
    };
    if busy && has_title {
        return TitlePlan::Wait(BUSY_RETRY_MS);
    }
    let evs = match events {
        None => return TitlePlan::Stop,
        Some(e) => e,
    };
    if owned_title(evs) {
        return TitlePlan::Stop;
    }
    let last = latest_title_seq(evs);
    if last.is_none() && has_title {
        return TitlePlan::Stop;
    }
    let sample = match title_sample(evs) {
        None => return TitlePlan::Stop,
        Some(s) => s,
    };
    if last.is_none() {
        let copy = copy_sample(&sample);
        let commit = TitleCommit::Title { title: copy.fallback, message_seqs: copy.seqs, provider: None };
        TitlePlan::Fallback { commit, sample }
    } else {
        TitlePlan::Sample(sample)
    }
}

/// Whether the second part of a step reserves an attempt.
pub open spec fn requests_attempt(
    sample_meaningful: bool,
    busy: bool,
    evs: Seq<EventView>,
    now_ms: u64,
    model_available: bool,
) -> bool {
    plan_generation_spec(sample_meaningful, busy, evs, now_ms, model_available) is Request
}

/// The second part of a step, on the (possibly reloaded) log.
pub open spec fn plan_generation_spec(
    sample_meaningful: bool,
    busy: bool,
    evs: Seq<EventView>,
    now_ms: u64,
    model_available: bool,
) -> GenerationPlan {
    let (attempt, phase, retry_at) = generation_state(evs);
    if !sample_meaningful {
        GenerationPlan::Stop
    } else if busy {
        GenerationPlan::Wait(BUSY_RETRY_MS)
    } else if !turn_closed(evs) {
        GenerationPlan::Stop
    } else if attempt >= ATTEMPTS || phase == Some(TitlePhase::Completed) || phase == Some(TitlePhase::Exhausted) {
        GenerationPlan::Stop
    } else if retry_at > now_ms {
        GenerationPlan::Wait(if retry_at - now_ms < MAX_WAIT_MS { (retry_at - now_ms) as u64 } else { MAX_WAIT_MS })
    } else if !model_available {
        GenerationPlan::Stop
    } else {
        GenerationPlan::Request {
            attempt: (attempt + 1) as u32,
            retry_at_ms: (now_ms + RESERVATION_MS) as u64,
            expected_title: last_title_seq(evs),
        }
    }
}

pub fn plan_generation(
    sample_meaningful: bool,
    busy: bool,
    events: &Vec<TitleEvent>,
    now_ms: u64,
    model_available: bool,
) -> (r: GenerationPlan)
    requires
        requests_attempt(sample_meaningful, busy, event_views(events@), now_ms, model_available) ==> now_ms + RESERVATION_MS
            <= u64::MAX,
    ensures
        r == plan_generation_spec(sample_meaningful, busy, event_views(events@), now_ms, model_available),
{
    if !sample_meaningful {
        return GenerationPlan::Stop;
    }
    if busy {
        return GenerationPlan::Wait(BUSY_RETRY_MS);
    }
    if !any_turn_closed(events) {
        return GenerationPlan::Stop;
    }
    let (attempt, phase, retry_at) = latest_generation(events);
    let finished = match phase {
        Some(TitlePhase::Completed) => true,
        Some(TitlePhase::Exhausted) => true,
        _ => false,
    };
    if attempt >= ATTEMPTS || finished {
        return GenerationPlan::Stop;
    }
    if retry_at > now_ms {
        let d = retry_at - now_ms;
        return GenerationPlan::Wait(if d < MAX_WAIT_MS { d } else { MAX_WAIT_MS });
    }
    if !model_available {
        return GenerationPlan::Stop;
    }
    GenerationPlan::Request {
        attempt: attempt + 1,
        retry_at_ms: now_ms + RESERVATION_MS,
        expected_title: latest_title_seq(events),
    }
}

pub open spec fn progress(attempt: u32, phase: TitlePhase, retry_at_ms: u64) -> CommitView {
    CommitView::Progress(attempt, phase, retry_at_ms)
}

/// The backoff before retrying attempt `attempt`: five seconds per attempt,
/// or the provider's (capped) hint when that is longer.
pub open spec fn backoff(attempt: u32, retry_after_ms: u64) -> u64 {
    let base = BACKOFF_MS * attempt;
    let hint = if retry_after_ms < MAX_RETRY_AFTER_MS { retry_after_ms } else { MAX_RETRY_AFTER_MS };
    (if base > hint { base } else { hint as int }) as u64
}

/// The last part of a step, after the provider answered.
pub open spec fn plan_result_spec(
    current_route: Option<(Seq<char>, Seq<char>, Option<Seq<char>>)>,
    route: (Seq<char>, Seq<char>, Option<Seq<char>>),
    current: Option<Seq<EventView>>,
    expected_title: Option<u64>,
    attempt: u32,
    result: Result<Seq<char>, TitleFailure>,
    seqs: Seq<u64>,
    now_ms: u64,
) -> ResultPlanView {
    match (current_route, current) {
        (Some(cr), Some(evs)) => if title_owned(evs) || last_title_seq(evs) != expected_title
            || generation_state(evs).0 != attempt {
            ResultPlanView::Discard
        } else if cr != route {
            ResultPlanView::Commit(seq![progress(attempt, TitlePhase::Retry, now_ms)], Some(ROUTE_CHANGE_RETRY_MS))
        } else {
            match result {
                Ok(title) => ResultPlanView::Commit(
                    seq![CommitView::Title(title, seqs, Some(route)), progress(attempt, TitlePhase::Completed, 0)],
                    None,
                ),
                Err(f) => {
                    let retry = f.retryable && attempt < ATTEMPTS;
                    let delay = backoff(attempt, f.retry_after_ms);
                    if retry {
                        ResultPlanView::Commit(seq![progress(attempt, TitlePhase::Retry, (now_ms + delay) as u64)], Some(delay))
                    } else {
                        ResultPlanView::Commit(seq![progress(attempt, TitlePhase::Exhausted, 0)], None)
                    }
                },
            }
        },
        _ => ResultPlanView::Discard,
    }
}

fn copy_route(r: &ModelRoute) -> (c: ModelRoute)
    ensures
        route_view(c) == route_view(*r),
{
    ModelRoute {
        provider: owned(r.provider.as_str()),
        model: owned(r.model.as_str()),
        reasoning_effort: crate::text::copy_opt(&r.reasoning_effort),
    }
}

fn same_route(a: &ModelRoute, b: &ModelRoute) -> (r: bool)
    ensures
        r == (route_view(*a) == route_view(*b)),
{
    crate::text::str_eq(a.provider.as_str(), b.provider.as_str()) && crate::text::str_eq(a.model.as_str(), b.model.as_str())
        && crate::text::opt_eq(&a.reasoning_effort, &b.reasoning_effort)
}

pub fn plan_result(
    current_route: Option<&ModelRoute>,
    route: &ModelRoute,
    current: Option<&Vec<TitleEvent>>,
    expected_title: Option<u64>,
    attempt: u32,
    result: Result<String, TitleFailure>,
    seqs: Vec<u64>,
    now_ms: u64,
) -> (r: ResultPlan)
    requires
        (result matches Err(f) && f.retryable && attempt < ATTEMPTS) ==> now_ms + backoff(attempt, result->Err_0.retry_after_ms)
            <= u64::MAX,
    ensures
        r@ == plan_result_spec(
            match current_route {
                Some(c) => Some(route_view(*c)),
                None => None,
            },
            route_view(*route),
            match current {
                Some(e) => Some(event_views(e@)),
                None => None,
            },
            expected_title,
            attempt,
            match result {
                Ok(t) => Ok(t@),
                Err(f) => Err(f),
            },
            seqs@,
            now_ms,
        ),
{
    let cr = match current_route {
        None => return ResultPlan::Discard,
        Some(c) => c,
    };
    let evs = match current {
        None => return ResultPlan::Discard,
        Some(e) => e,
    };
    if owned_title(evs) || latest_title_seq(evs) != expected_title {
        return ResultPlan::Discard;
    }
    let (current_attempt, _, _) = latest_generation(evs);
    if current_attempt != attempt {
        return ResultPlan::Discard;
    }
    if !same_route(cr, route) {
        let mut events: Vec<TitleCommit> = Vec::new();
        events.push(TitleCommit::Progress { attempt, phase: TitlePhase::Retry, retry_at_ms: now_ms });
        let r = ResultPlan::Commit { events, again_after_ms: Some(ROUTE_CHANGE_RETRY_MS) };
        assert(r@ matches ResultPlanView::Commit(es, _) && es =~= seq![progress(attempt, TitlePhase::Retry, now_ms)]);
        return r;
    }
    match result {
        Ok(title) => {
            let mut events: Vec<TitleCommit> = Vec::new();
            events.push(TitleCommit::Title { title, message_seqs: seqs, provider: Some(copy_route(route)) });
            events.push(TitleCommit::Progress { attempt, phase: TitlePhase::Completed, retry_at_ms: 0 });
            let r = ResultPlan::Commit { events, again_after_ms: None };
            assert(r@ matches ResultPlanView::Commit(es, _) && es =~= seq![
                CommitView::Title(title@, seqs@, Some(route_view(*route))),
                progress(attempt, TitlePhase::Completed, 0),
            ]);
            r
        },
        Err(failure) => {
            let retry = failure.retryable && attempt < ATTEMPTS;
            let base: u64 = BACKOFF_MS * (attempt as u64);
            let hint: u64 = if failure.retry_after_ms < MAX_RETRY_AFTER_MS { failure.retry_after_ms } else { MAX_RETRY_AFTER_MS };
            let delay: u64 = if base > hint { base } else { hint };
            let mut events: Vec<TitleCommit> = Vec::new();
            if retry {
                events.push(TitleCommit::Progress { attempt, phase: TitlePhase::Retry, retry_at_ms: now_ms + delay });
                let r = ResultPlan::Commit { events, again_after_ms: Some(delay) };
                assert(r@ matches ResultPlanView::Commit(es, _) && es =~= seq![progress(attempt, TitlePhase::Retry, (now_ms + delay) as u64)]);
                r
            } else {
                events.push(TitleCommit::Progress { attempt, phase: TitlePhase::Exhausted, retry_at_ms: 0 });
                let r = ResultPlan::Commit { events, again_after_ms: None };
                assert(r@ matches ResultPlanView::Commit(es, _) && es =~= seq![progress(attempt, TitlePhase::Exhausted, 0)]);
                r
            }
        },
    }
}


// ---------------------------------------------------------------------------
// Laws
// ---------------------------------------------------------------------------

/// A user or provider title wins: once the latest title is owned, a step
/// neither titles the session nor accepts a provider's answer.
pub proof fn law_owned_titles_win(
    route_busy: Option<bool>,
    has_title: bool,
    evs: Seq<EventView>,
    current_route: Option<(Seq<char>, Seq<char>, Option<Seq<char>>)>,
    route: (Seq<char>, Seq<char>, Option<Seq<char>>),
    expected_title: Option<u64>,
    attempt: u32,
    result: Result<Seq<char>, TitleFailure>,
    seqs: Seq<u64>,
    now_ms: u64,
)
    requires
        title_owned(evs),
    ensures
        !(plan_title_spec(route_busy, has_title, Some(evs)) is Fallback),
        !(plan_title_spec(route_busy, has_title, Some(evs)) is Sample),
        plan_result_spec(current_route, route, Some(evs), expected_title, attempt, result, seqs, now_ms) is Discard,
{
}

/// At most `ATTEMPTS` provider attempts are ever reserved for a session.
pub proof fn law_attempts_are_bounded(sample_meaningful: bool, busy: bool, evs: Seq<EventView>, now_ms: u64, model_available: bool)
    ensures
        plan_generation_spec(sample_meaningful, busy, evs, now_ms, model_available) matches GenerationPlan::Request { attempt, .. }
            ==> attempt == generation_state(evs).0 + 1 && attempt <= ATTEMPTS,
{
}

/// A reservation still in force (a retry time in the future) is never
/// re-requested, so a crash during a request cannot reset it; a finished
/// or exhausted generation is never requested again.
pub proof fn law_reservations_block_requests(sample_meaningful: bool, busy: bool, evs: Seq<EventView>, now_ms: u64, model_available: bool)
    ensures
        generation_state(evs).2 > now_ms ==> !(plan_generation_spec(sample_meaningful, busy, evs, now_ms, model_available) is Request),
        (generation_state(evs).1 == Some(TitlePhase::Completed) || generation_state(evs).1 == Some(TitlePhase::Exhausted))
            ==> !(plan_generation_spec(sample_meaningful, busy, evs, now_ms, model_available) is Request),
        !sample_meaningful || busy ==> !(plan_generation_spec(sample_meaningful, busy, evs, now_ms, model_available) is Request),
{
}

/// An answer for a route the session no longer uses is never committed as
/// its title: the attempt is marked for retry instead.
pub proof fn law_route_change_discards_the_answer(
    current_route: (Seq<char>, Seq<char>, Option<Seq<char>>),
    route: (Seq<char>, Seq<char>, Option<Seq<char>>),
    evs: Seq<EventView>,
    expected_title: Option<u64>,
    attempt: u32,
    result: Result<Seq<char>, TitleFailure>,
    seqs: Seq<u64>,
    now_ms: u64,
)
    requires
        current_route != route,
    ensures
        plan_result_spec(Some(current_route), route, Some(evs), expected_title, attempt, result, seqs, now_ms) matches ResultPlanView::Commit(es, _)
            ==> es == seq![progress(attempt, TitlePhase::Retry, now_ms)],
{
}

} // verus!

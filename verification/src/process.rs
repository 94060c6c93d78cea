//! Process-runtime logic that does not touch the operating system: bounded
//! stream capture, UTF-8-safe finishing of a capture, the outcome of a
//! capture worker, and the credential-name scrubber for child environments.

use vstd::prelude::*;
use crate::text::owned;
use crate::jobs::{str_less, str_lt};
use crate::workspaces::{index_of, lemma_index_of, sorted_pos, lemma_sorted_pos, sorted_ids, set_insert, law_archive_keeps_the_set_sorted};
use crate::utf8tail::{capture_tail_start, capture_incomplete_tail_start, lossy_utf8, utf8_lossy, decodes_as, capture_kept};

verus! {

pub const DEFAULT_CAPTURE_LIMIT: usize = 262144;
pub const DEFAULT_TERMINATION_GRACE_MS: u64 = 2000;

/// Why the root process stopped.
#[derive(Clone, Copy, Debug, PartialEq, Eq, Structural)]
pub enum TerminationReason {
    Exited,
    Cancelled,
    TimedOut,
}

/// Portable Unix exit information. A non-zero code is still a normal result.
#[derive(Clone, Copy, Debug, PartialEq, Eq, Structural)]
pub struct ProcessStatus {
    pub success: bool,
    pub code: Option<i32>,
    pub signal: Option<i32>,
    pub core_dumped: bool,
}

/// One bounded stream capture.
#[derive(Clone, Debug, PartialEq, Eq)]
pub struct CapturedOutput {
    /// Valid UTF-8; a scalar cut by the byte cap is omitted.
    pub text: String,
    /// True when the byte cap or an incomplete terminal scalar removed bytes.
    pub truncated: bool,
    /// Total bytes drained from the pipe, including discarded bytes.
    pub bytes_read: u64,
}

/// Completed process result, including cancellation and timeout exits.
#[derive(Clone, Debug, PartialEq, Eq)]
pub struct ProcessOutput {
    pub pid: u32,
    pub status: ProcessStatus,
    pub termination: TerminationReason,
    pub stdout: CapturedOutput,
    pub stderr: CapturedOutput,
}

#[verifier::external_type_specification]
#[verifier::external_body]
pub struct ExIoError(std::io::Error);

#[derive(Debug)]
pub enum ProcessError {
    EmptyProgram,
    NoTokioRuntime,
    MissingPid,
    PidOutOfRange(u32),
    Spawn { program: String, source: std::io::Error },
    Io { operation: String, source: std::io::Error },
    SupervisorStopped,
    CaptureWorker { stream: String, message: String },
}

/// Stateless Unix process launcher.
#[derive(Clone, Copy, Debug, Default)]
pub struct ProcessRuntime;

impl ProcessRuntime {
    pub fn new() -> (r: Self)
        ensures
            r == ProcessRuntime,
    {
        ProcessRuntime
    }
}

/// A failure of process I/O during `operation`.
pub fn io_error(operation: &str, source: std::io::Error) -> (r: ProcessError)
    ensures
        r matches ProcessError::Io { operation: op, source: s } && op@ == operation@ && s == source,
{
    ProcessError::Io { operation: owned(operation), source }
}

/// The outcome of one capture worker: its own I/O result, or the message of
/// a worker that stopped before returning one.
pub fn capture_result(stream: &str, result: Result<Result<CapturedOutput, std::io::Error>, String>) -> (r: Result<CapturedOutput, ProcessError>)
    ensures
        match result {
            Ok(Ok(c)) => r matches Ok(x) && x == c,
            Ok(Err(e)) => r matches Err(ProcessError::Io { operation, source }) && operation@ == "reading process output"@ && source == e,
            Err(m) => r matches Err(ProcessError::CaptureWorker { stream: s, message }) && s@ == stream@ && message@ == m@,
        },
{
    match result {
        Ok(Ok(capture)) => Ok(capture),
        Ok(Err(source)) => Err(io_error("reading process output", source)),
        Err(message) => Err(ProcessError::CaptureWorker { stream: owned(stream), message }),
    }
}

// ---------------------------------------------------------------------------
// Bounded capture
// ---------------------------------------------------------------------------

/// State of one stream capture: the kept prefix and the total drained.
pub struct Capture {
    kept: Vec<u8>,
    bytes_read: u64,
    limit: usize,
}

pub struct CaptureView {
    pub kept: Seq<u8>,
    pub bytes_read: u64,
    pub limit: nat,
}

impl View for Capture {
    type V = CaptureView;

    closed spec fn view(&self) -> CaptureView {
        CaptureView { kept: self.kept@, bytes_read: self.bytes_read, limit: self.limit as nat }
    }
}

pub open spec fn sat_add_u64(a: u64, b: int) -> u64 {
    if a + b > u64::MAX { u64::MAX } else { (a + b) as u64 }
}

/// Feeding a chunk keeps bytes only while the cap has room.
pub open spec fn feed_spec(c: CaptureView, chunk: Seq<u8>) -> CaptureView {
    let room = if c.kept.len() >= c.limit { 0 } else { c.limit - c.kept.len() };
    let n = if chunk.len() < room { chunk.len() as int } else { room as int };
    CaptureView { kept: c.kept + chunk.take(n), bytes_read: sat_add_u64(c.bytes_read, chunk.len() as int), limit: c.limit }
}

/// Finishing decodes the kept bytes without a cut terminal scalar.
pub open spec fn finish_spec(c: CaptureView) -> (Seq<char>, bool, u64) {
    let (text, incomplete) = safe_lossy_spec(c.kept);
    (text, c.bytes_read > c.kept.len() || incomplete, c.bytes_read)
}

pub open spec fn safe_lossy_spec(bytes: Seq<u8>) -> (Seq<char>, bool) {
    match capture_tail_start(bytes) {
        Some(k) => (lossy_utf8(bytes.take(k)), true),
        None => (lossy_utf8(bytes), false),
    }
}

impl Capture {
    pub fn new(limit: usize) -> (r: Self)
        ensures
            r@ == (CaptureView { kept: Seq::empty(), bytes_read: 0, limit: limit as nat }),
    {
        Capture { kept: Vec::new(), bytes_read: 0, limit }
    }

    /// Account for one chunk read from the pipe.
    pub fn feed(&mut self, chunk: &[u8])
        ensures
            final(self)@ == feed_spec(old(self)@, chunk@),
    {
        let count = chunk.len();
        self.bytes_read = if (self.bytes_read as u128) + (count as u128) > u64::MAX as u128 {
            u64::MAX
        } else {
            self.bytes_read + count as u64
        };
        let remaining = self.limit.saturating_sub(self.kept.len());
        let n = if count < remaining { count } else { remaining };
        let ghost k0 = self.kept@;
        let ghost expected = feed_spec(old(self)@, chunk@);
        assert(expected.kept == k0 + chunk@.take(n as int));
        let mut i: usize = 0;
        while i < n
            invariant
                n <= chunk@.len(),
                i <= n,
                self.kept@ == k0 + chunk@.take(i as int),
                expected.kept == k0 + chunk@.take(n as int),
                self.bytes_read == expected.bytes_read,
                self.limit as nat == expected.limit,
            decreases n - i,
        {
            self.kept.push(chunk[i]);
            i = i + 1;
            assert(self.kept@ =~= k0 + chunk@.take(i as int));
        }
    }

    /// The final capture result.
    pub fn finish(self) -> (r: CapturedOutput)
        ensures
            (r.text@, r.truncated, r.bytes_read) == finish_spec(self@),
            decodes_as(capture_kept(self@.kept), r.text@),
    {
        let capped = self.bytes_read as u128 > self.kept.len() as u128;
        let bytes_read = self.bytes_read;
        let (text, incomplete) = utf8_safe_lossy(self.kept);
        CapturedOutput { text, truncated: capped || incomplete, bytes_read }
    }
}

/// Decode lossily, dropping a terminal possible-scalar prefix cut by the
/// cap; the flag says whether one was dropped.
pub fn utf8_safe_lossy(bytes: Vec<u8>) -> (r: (String, bool))
    ensures
        (r.0@, r.1) == safe_lossy_spec(bytes@),
        decodes_as(capture_kept(bytes@), r.0@),
{
    match capture_incomplete_tail_start(bytes.as_slice()) {
        Some(start) => {
            let mut kept = bytes;
            kept.truncate(start);
            (utf8_lossy(kept.as_slice()), true)
        },
        None => (utf8_lossy(bytes.as_slice()), false),
    }
}

/// A capture keeps the first `limit` bytes it reads and counts all of them.
pub proof fn law_capture_keeps_a_bounded_prefix(c: CaptureView, chunk: Seq<u8>)
    requires
        c.kept.len() <= c.limit,
    ensures
        feed_spec(c, chunk).kept.len() <= c.limit,
        feed_spec(c, chunk).kept == (c.kept + chunk).take(feed_spec(c, chunk).kept.len() as int),
        feed_spec(c, chunk).kept.len() == if (c.kept + chunk).len() < c.limit { (c.kept + chunk).len() as int } else { c.limit as int },
        feed_spec(c, chunk).bytes_read >= c.bytes_read,
{
    let f = feed_spec(c, chunk);
    assert(f.kept =~= (c.kept + chunk).take(f.kept.len() as int));
}

// ---------------------------------------------------------------------------
// Secret environment names
// ---------------------------------------------------------------------------

pub open spec fn ascii_upper(c: char) -> char {
    if 'a' <= c && c <= 'z' { ((c as u32) - 32) as char } else { c }
}

pub open spec fn upper(s: Seq<char>) -> Seq<char> {
    s.map_values(|c: char| ascii_upper(c))
}

pub open spec fn ascii_alnum(c: char) -> bool {
    ('a' <= c && c <= 'z') || ('A' <= c && c <= 'Z') || ('0' <= c && c <= '9')
}

/// Names that are credentials by themselves.
pub open spec fn exact_secret(n: Seq<char>) -> bool {
    ||| n == "AUTHORIZATION"@
    ||| n == "COOKIE"@
    ||| n == "GIT_ASKPASS"@
    ||| n == "SSH_ASKPASS"@
    ||| n == "SSH_AUTH_SOCK"@
    ||| n == "API_KEY"@
    ||| n == "PRIVATE_KEY"@
}

pub open spec fn ends_with(s: Seq<char>, suffix: Seq<char>) -> bool {
    suffix.len() <= s.len() && s.skip(s.len() - suffix.len()) == suffix
}

/// `w` occurs in `s` as a whole part between non-alphanumeric separators.
pub open spec fn has_part(s: Seq<char>, w: Seq<char>) -> bool {
    exists|i: int| #![trigger s.subrange(i, i + w.len())]
        0 <= i && i + w.len() <= s.len() && s.subrange(i, i + w.len()) == w
        && (i == 0 || !ascii_alnum(s[i - 1]))
        && (i + w.len() == s.len() || !ascii_alnum(s[i + w.len()]))
}

pub open spec fn secret_word_part(n: Seq<char>) -> bool {
    ||| has_part(n, "TOKEN"@)
    ||| has_part(n, "SECRET"@)
    ||| has_part(n, "PASSWORD"@)
    ||| has_part(n, "PASSWD"@)
    ||| has_part(n, "CREDENTIAL"@)
    ||| has_part(n, "CREDENTIALS"@)
}

/// Likely credential-bearing variable names, ASCII case-insensitively: the
/// exact names, an API/private key suffix, or a credential word separated
/// by punctuation.
pub open spec fn secret_name(name: Seq<char>) -> bool {
    let n = upper(name);
    exact_secret(n) || ends_with(n, "_API_KEY"@) || ends_with(n, "_PRIVATE_KEY"@) || secret_word_part(n)
}

fn to_upper(c: char) -> (r: char)
    ensures
        r == ascii_upper(c),
{
    match c {
        'a' => 'A',
        'b' => 'B',
        'c' => 'C',
        'd' => 'D',
        'e' => 'E',
        'f' => 'F',
        'g' => 'G',
        'h' => 'H',
        'i' => 'I',
        'j' => 'J',
        'k' => 'K',
        'l' => 'L',
        'm' => 'M',
        'n' => 'N',
        'o' => 'O',
        'p' => 'P',
        'q' => 'Q',
        'r' => 'R',
        's' => 'S',
        't' => 'T',
        'u' => 'U',
        'v' => 'V',
        'w' => 'W',
        'x' => 'X',
        'y' => 'Y',
        'z' => 'Z',
        _ => c,
    }
}

fn is_alnum(c: char) -> (r: bool)
    ensures
        r == ascii_alnum(c),
{
    ('a' <= c && c <= 'z') || ('A' <= c && c <= 'Z') || ('0' <= c && c <= '9')
}

fn seq_eq_at(s: &Vec<char>, i: usize, w: &Vec<char>) -> (r: bool)
    requires
        i + w@.len() <= s@.len(),
    ensures
        r == (s@.subrange(i as int, i + w@.len()) == w@),
{
    let mut k: usize = 0;
    while k < w.len()
        invariant
            i + w@.len() <= s@.len(),
            s@.len() == s.len(),
            k <= w@.len(),
            forall|m: int| 0 <= m < k ==> s@[i + m] == w@[m],
        decreases w.len() - k,
    {
        if s[i + k] != w[k] {
            assert(s@.subrange(i as int, i + w@.len())[k as int] != w@[k as int]);
            return false;
        }
        k = k + 1;
    }
    assert(s@.subrange(i as int, i + w@.len()) =~= w@);
    true
}

fn has_part_exec(s: &Vec<char>, word: &str) -> (r: bool)
    ensures
        r == has_part(s@, word@),
{
    let w = crate::text::chars_of(word);
    if w.len() > s.len() {
        return false;
    }
    let mut i: usize = 0;
    let last = s.len() - w.len();
    loop
        invariant
            w@ == word@,
            w@.len() <= s@.len(),
            w@.len() == w.len(),
            s@.len() == s.len(),
            last == s@.len() - w@.len(),
            i <= last,
            forall|j: int| 0 <= j < i ==> !(#[trigger] s@.subrange(j, j + w@.len()) == w@
                && (j == 0 || !ascii_alnum(s@[j - 1]))
                && (j + w@.len() == s@.len() || !ascii_alnum(s@[j + w@.len()]))),
        decreases last - i,
    {
        let left_ok = i == 0 || !is_alnum(s[i - 1]);
        let right_ok = i + w.len() == s.len() || !is_alnum(s[i + w.len()]);
        if left_ok && right_ok && seq_eq_at(s, i, &w) {
            return true;
        }
        if i == last {
            return false;
        }
        i = i + 1;
    }
}

fn ends_with_exec(s: &Vec<char>, suffix: &str) -> (r: bool)
    ensures
        r == ends_with(s@, suffix@),
{
    let w = crate::text::chars_of(suffix);
    if w.len() > s.len() {
        return false;
    }
    let start = s.len() - w.len();
    let r = seq_eq_at(s, start, &w);
    assert(s@.skip(s@.len() - w@.len()) =~= s@.subrange(start as int, start + w@.len()));
    r
}

fn eq_word(s: &Vec<char>, word: &str) -> (r: bool)
    ensures
        r == (s@ == word@),
{
    let w = crate::text::chars_of(word);
    if w.len() != s.len() {
        return false;
    }
    let r = seq_eq_at(s, 0, &w);
    assert(s@.subrange(0, w@.len() as int) =~= s@);
    r
}

/// Whether an environment variable name likely carries a credential.
pub fn is_secret_env_name(name: &str) -> (r: bool)
    ensures
        r == secret_name(name@),
{
    let chars = crate::text::chars_of(name);
    let mut n: Vec<char> = Vec::new();
    let mut i: usize = 0;
    while i < chars.len()
        invariant
            i <= chars@.len(),
            chars@ == name@,
            n@ == upper(chars@.take(i as int)),
        decreases chars.len() - i,
    {
        n.push(to_upper(chars[i]));
        i = i + 1;
        assert(n@ =~= upper(chars@.take(i as int)));
    }
    assert(chars@.take(chars@.len() as int) =~= chars@);
    if eq_word(&n, "AUTHORIZATION") || eq_word(&n, "COOKIE") || eq_word(&n, "GIT_ASKPASS")
        || eq_word(&n, "SSH_ASKPASS") || eq_word(&n, "SSH_AUTH_SOCK") || eq_word(&n, "API_KEY")
        || eq_word(&n, "PRIVATE_KEY") || ends_with_exec(&n, "_API_KEY") || ends_with_exec(&n, "_PRIVATE_KEY") {
        return true;
    }
    has_part_exec(&n, "TOKEN") || has_part_exec(&n, "SECRET") || has_part_exec(&n, "PASSWORD")
        || has_part_exec(&n, "PASSWD") || has_part_exec(&n, "CREDENTIAL") || has_part_exec(&n, "CREDENTIALS")
}

pub open spec fn env_names(env: Seq<(String, String)>) -> Seq<Seq<char>> {
    env.map_values(|p: (String, String)| p.0@)
}

/// Entries of `env` whose names are (`want == true`) or are not secrets,
/// in order.
pub open spec fn filter_env(env: Seq<(String, String)>, want: bool, n: int) -> Seq<(Seq<char>, Seq<char>)>
    decreases n,
{
    if n <= 0 {
        Seq::empty()
    } else {
        let prev = filter_env(env, want, n - 1);
        if secret_name(env[n - 1].0@) == want { prev.push((env[n - 1].0@, env[n - 1].1@)) } else { prev }
    }
}

pub open spec fn pairs_view(env: Seq<(String, String)>) -> Seq<(Seq<char>, Seq<char>)> {
    env.map_values(|p: (String, String)| (p.0@, p.1@))
}

/// A child environment: each name once, names in ascending code-point
/// order, as the host's name-ordered environment map holds them.
pub struct EnvMap {
    entries: Vec<(String, String)>,
}

/// The names of `env` ascend strictly.
pub open spec fn env_sorted(env: Seq<(String, String)>) -> bool {
    sorted_ids(env_names(env))
}

/// `env` with `name` set to `value`: an existing entry's value is
/// replaced, otherwise the entry goes before the first greater name.
pub open spec fn env_insert(env: Seq<(Seq<char>, Seq<char>)>, name: Seq<char>, value: Seq<char>) -> Seq<(Seq<char>, Seq<char>)> {
    let names = env.map_values(|p: (Seq<char>, Seq<char>)| p.0);
    let i = index_of(names, name);
    if i >= 0 { env.update(i, (name, value)) } else { env.insert(sorted_pos(names, name, 0), (name, value)) }
}

impl EnvMap {
    #[verifier::type_invariant]
    spec fn names_ascend(self) -> bool {
        env_sorted(self.entries@)
    }

    /// The entries, in name order.
    pub closed spec fn pairs(&self) -> Seq<(String, String)> {
        self.entries@
    }

    pub fn new() -> (r: Self)
        ensures
            r.pairs() == Seq::<(String, String)>::empty(),
    {
        let r = EnvMap { entries: Vec::new() };
        proof {
            assert(env_names(r.entries@) =~= Seq::<Seq<char>>::empty());
        }
        r
    }

    /// The entries, in name order.
    pub fn entries(&self) -> (r: &Vec<(String, String)>)
        ensures
            r@ == self.pairs(),
            env_sorted(r@),
    {
        proof {
            use_type_invariant(self);
        }
        &self.entries
    }

    /// The value set for `name`, if any.
    pub fn get(&self, name: &str) -> (r: Option<&str>)
        ensures
            match r {
                Some(v) => index_of(env_names(self.pairs()), name@) >= 0
                    && v@ == self.pairs()[index_of(env_names(self.pairs()), name@)].1@,
                None => index_of(env_names(self.pairs()), name@) < 0,
            },
    {
        let ghost names = env_names(self.entries@);
        proof {
            lemma_index_of(names, name@);
        }
        let mut i: usize = 0;
        while i < self.entries.len()
            invariant
                names == env_names(self.entries@),
                i <= self.entries@.len(),
                -1 <= index_of(names, name@) < names.len(),
                index_of(names, name@) >= 0 ==> names[index_of(names, name@)] == name@,
                index_of(names, name@) >= 0 ==> forall|j: int| 0 <= j < index_of(names, name@) ==> names[j] != name@,
                index_of(names, name@) < 0 ==> forall|j: int| 0 <= j < names.len() ==> names[j] != name@,
                forall|j: int| 0 <= j < i ==> names[j] != name@,
            decreases self.entries.len() - i,
        {
            assert(names[i as int] == self.entries@[i as int].0@);
            if crate::text::str_eq(self.entries[i].0.as_str(), name) {
                return Some(self.entries[i].1.as_str());
            }
            i = i + 1;
        }
        None
    }

    /// Set `name` to `value`, keeping names ascending and unique.
    pub fn insert(&mut self, name: String, value: String)
        ensures
            pairs_view(final(self).pairs()) == env_insert(pairs_view(old(self).pairs()), name@, value@),
    {
        proof {
            use_type_invariant(&*self);
        }
        let mut entries: Vec<(String, String)> = Vec::new();
        std::mem::swap(&mut entries, &mut self.entries);
        let ghost e0 = entries@;
        let ghost names = env_names(e0);
        let ghost pv = pairs_view(e0);
        assert(pv.map_values(|p: (Seq<char>, Seq<char>)| p.0) =~= names);
        proof {
            lemma_index_of(names, name@);
        }
        let mut i: usize = 0;
        let mut found = false;
        while i < entries.len()
            invariant_except_break
                !found,
            invariant
                e0 == entries@,
                names == env_names(e0),
                i <= e0.len(),
                -1 <= index_of(names, name@) < names.len(),
                index_of(names, name@) >= 0 ==> names[index_of(names, name@)] == name@,
                index_of(names, name@) >= 0 ==> forall|j: int| 0 <= j < index_of(names, name@) ==> names[j] != name@,
                index_of(names, name@) < 0 ==> forall|j: int| 0 <= j < names.len() ==> names[j] != name@,
                forall|j: int| 0 <= j < i ==> names[j] != name@,
            ensures
                found ==> i < e0.len() && names[i as int] == name@,
                !found ==> i >= e0.len(),
            decreases entries.len() - i,
        {
            assert(names[i as int] == e0[i as int].0@);
            if crate::text::str_eq(entries[i].0.as_str(), name.as_str()) {
                found = true;
                break;
            }
            i = i + 1;
        }
        if found {
            assert(index_of(names, name@) == i);
            let ghost nm = name@;
            let ghost vv = value@;
            entries.set(i, (name, value));
            proof {
                assert(pairs_view(entries@) =~= pv.update(i as int, (nm, vv)));
                assert(env_names(entries@) =~= names);
            }
            self.entries = entries;
        } else {
            assert(index_of(names, name@) < 0);
            assert(!names.contains(name@));
            proof {
                lemma_sorted_pos(names, name@, 0);
            }
            let mut k: usize = 0;
            while k < entries.len() && !str_less(name.as_str(), entries[k].0.as_str())
                invariant
                    e0 == entries@,
                    names == env_names(e0),
                    k <= e0.len(),
                    sorted_pos(names, name@, 0) == sorted_pos(names, name@, k as int),
                decreases entries.len() - k,
            {
                assert(names[k as int] == e0[k as int].0@);
                k = k + 1;
            }
            proof {
                if k < e0.len() {
                    assert(names[k as int] == e0[k as int].0@);
                }
            }
            let ghost nm = name@;
            let ghost vv = value@;
            entries.insert(k, (name, value));
            proof {
                assert(pairs_view(entries@) =~= pv.insert(k as int, (nm, vv)));
                assert(env_names(entries@) =~= names.insert(k as int, nm));
                assert(set_insert(names, nm) == names.insert(k as int, nm));
                law_archive_keeps_the_set_sorted(names, nm);
            }
            self.entries = entries;
        }
    }
}

/// Names in `upto` kept by the filter come before every later name.
proof fn lemma_filter_sorted(env: Seq<(String, String)>, want: bool, n: int)
    requires
        env_sorted(env),
        0 <= n <= env.len(),
    ensures
        sorted_ids(filter_env(env, want, n).map_values(|p: (Seq<char>, Seq<char>)| p.0)),
        forall|i: int, m: int| 0 <= i < filter_env(env, want, n).len() && n <= m < env.len()
            ==> str_lt(#[trigger] filter_env(env, want, n)[i].0, #[trigger] env[m].0@),
    decreases n,
{
    let f = filter_env(env, want, n);
    let fk = f.map_values(|p: (Seq<char>, Seq<char>)| p.0);
    if n > 0 {
        lemma_filter_sorted(env, want, n - 1);
        let prev = filter_env(env, want, n - 1);
        let pk = prev.map_values(|p: (Seq<char>, Seq<char>)| p.0);
        assert forall|i: int, m: int| 0 <= i < f.len() && n <= m < env.len() implies str_lt(#[trigger] f[i].0, #[trigger] env[m].0@) by {
            if i < prev.len() {
                assert(f[i] == prev[i]);
            } else {
                assert(f[i].0 == env[n - 1].0@);
                assert(env_names(env)[n - 1] == env[n - 1].0@);
                assert(env_names(env)[m] == env[m].0@);
            }
        }
        assert forall|i: int, j: int| 0 <= i < j < fk.len() implies str_lt(#[trigger] fk[i], #[trigger] fk[j]) by {
            if j < prev.len() {
                assert(fk[i] == pk[i] && fk[j] == pk[j]);
            } else {
                assert(fk[i] == prev[i].0);
                assert(fk[j] == env[n - 1].0@);
            }
        }
    } else {
        assert(fk =~= Seq::<Seq<char>>::empty());
    }
}

/// Remove likely credential-bearing variables, returning the removed names
/// in ascending order.
pub fn scrub_secret_env(env: &mut EnvMap) -> (removed: Vec<String>)
    ensures
        pairs_view(final(env).pairs()) == filter_env(old(env).pairs(), false, old(env).pairs().len() as int),
        removed@.map_values(|s: String| s@) == filter_env(old(env).pairs(), true, old(env).pairs().len() as int).map_values(|p: (Seq<char>, Seq<char>)| p.0),
        sorted_ids(removed@.map_values(|s: String| s@)),
{
    proof {
        use_type_invariant(&*env);
    }
    let mut entries: Vec<(String, String)> = Vec::new();
    std::mem::swap(&mut entries, &mut env.entries);
    let ghost e0 = entries@;
    proof {
        lemma_filter_sorted(e0, false, e0.len() as int);
        lemma_filter_sorted(e0, true, e0.len() as int);
    }
    let mut kept: Vec<(String, String)> = Vec::new();
    let mut removed: Vec<String> = Vec::new();
    let mut i: usize = 0;
    while i < entries.len()
        invariant
            i <= entries@.len(),
            entries@ == e0,
            pairs_view(kept@) == filter_env(e0, false, i as int),
            removed@.map_values(|s: String| s@) == filter_env(e0, true, i as int).map_values(|p: (Seq<char>, Seq<char>)| p.0),
        decreases entries.len() - i,
    {
        let ghost rb = removed@;
        let secret = is_secret_env_name(entries[i].0.as_str());
        if secret {
            removed.push(entries[i].0.clone());
            proof {
                assert(filter_env(e0, true, i + 1) == filter_env(e0, true, i as int).push((e0[i as int].0@, e0[i as int].1@)));
                assert(filter_env(e0, true, i + 1).map_values(|p: (Seq<char>, Seq<char>)| p.0) =~= filter_env(e0, true, i as int).map_values(|p: (Seq<char>, Seq<char>)| p.0).push(e0[i as int].0@));
                assert(removed@.map_values(|s: String| s@) =~= rb.map_values(|s: String| s@).push(e0[i as int].0@));
            }
        } else {
            kept.push((entries[i].0.clone(), entries[i].1.clone()));
        }
        proof {
            assert(pairs_view(kept@) =~= filter_env(e0, false, i + 1));
            assert(removed@.map_values(|s: String| s@) =~= filter_env(e0, true, i + 1).map_values(|p: (Seq<char>, Seq<char>)| p.0));
        }
        i = i + 1;
    }
    proof {
        let fk = filter_env(e0, false, e0.len() as int);
        assert(env_names(kept@) =~= fk.map_values(|p: (Seq<char>, Seq<char>)| p.0));
    }
    env.entries = kept;
    removed
}

/// Secret detection ignores ASCII case: a name is a secret exactly when its
/// uppercase form is.
pub proof fn law_secret_names_ignore_ascii_case(name: Seq<char>)
    ensures
        secret_name(name) == secret_name(upper(name)),
{
    assert forall|i: int| 0 <= i < name.len() implies ascii_upper(ascii_upper(name[i])) == ascii_upper(name[i]) by {
        let c = name[i];
        if 'a' <= c && c <= 'z' {
            assert(!('a' <= ascii_upper(c) && ascii_upper(c) <= 'z'));
        }
    }
    assert(upper(upper(name)) =~= upper(name));
}

/// Scrubbing partitions the first `n` entries: each is kept or removed, never
/// both; kept names are not secrets, removed names are.
pub proof fn law_scrub_partitions_environment(env: Seq<(String, String)>, n: int)
    requires
        0 <= n <= env.len(),
    ensures
        filter_env(env, false, n).len() + filter_env(env, true, n).len() == n,
        forall|i: int| 0 <= i < filter_env(env, false, n).len() ==> !secret_name(#[trigger] filter_env(env, false, n)[i].0),
        forall|i: int| 0 <= i < filter_env(env, true, n).len() ==> secret_name(#[trigger] filter_env(env, true, n)[i].0),
    decreases n,
{
    if n > 0 {
        law_scrub_partitions_environment(env, n - 1);
        let k = filter_env(env, false, n - 1);
        let r = filter_env(env, true, n - 1);
        assert forall|i: int| 0 <= i < filter_env(env, false, n).len() implies !secret_name(#[trigger] filter_env(env, false, n)[i].0) by {
            if i < k.len() {
                assert(filter_env(env, false, n)[i] == k[i]);
            }
        }
        assert forall|i: int| 0 <= i < filter_env(env, true, n).len() implies secret_name(#[trigger] filter_env(env, true, n)[i].0) by {
            if i < r.len() {
                assert(filter_env(env, true, n)[i] == r[i]);
            }
        }
    }
}

}

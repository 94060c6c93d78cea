//! Conversation titles: validating a model's title output, cutting a
//! byte-bounded excerpt of a message, and deciding whether a user message
//! says enough to name a conversation after.
use vstd::prelude::*;
use crate::text::{chars_of, is_whitespace, is_ws, is_blank, string_from_chars, str_eq, lowercase, to_lowercase};

verus! {

/// Character classes that get stripped from the ends of a text.
#[derive(Clone, Copy, Debug, PartialEq, Eq, Structural)]
pub enum CharClass {
    /// `char::is_whitespace`.
    Whitespace,
    /// Straight and curly double quotes and the apostrophe.
    TitleQuote,
    /// ASCII punctuation and the full-width `。，！？`.
    Punctuation,
}

pub open spec fn ascii_punct(c: char) -> bool {
    let u = c as u32;
    (33 <= u <= 47) || (58 <= u <= 64) || (91 <= u <= 96) || (123 <= u <= 126)
}

pub open spec fn in_class(k: CharClass, c: char) -> bool {
    match k {
        CharClass::Whitespace => is_ws(c),
        CharClass::TitleQuote => c == '"' || c == '\'' || c == '\u{201c}' || c == '\u{201d}',
        CharClass::Punctuation => ascii_punct(c) || c == '\u{3002}' || c == '\u{ff0c}' || c == '\u{ff01}'
            || c == '\u{ff1f}',
    }
}

fn char_in_class(k: CharClass, c: char) -> (r: bool)
    ensures
        r == in_class(k, c),
{
    match k {
        CharClass::Whitespace => is_whitespace(c),
        CharClass::TitleQuote => c == '"' || c == '\'' || c == '\u{201c}' || c == '\u{201d}',
        CharClass::Punctuation => {
            let u = c as u32;
            (33 <= u && u <= 47) || (58 <= u && u <= 64) || (91 <= u && u <= 96) || (123 <= u && u <= 126)
                || c == '\u{3002}' || c == '\u{ff0c}' || c == '\u{ff01}' || c == '\u{ff1f}'
        },
    }
}

/// Number of leading characters of class `k`.
pub open spec fn lead_in(s: Seq<char>, k: CharClass) -> nat
    decreases s.len(),
{
    if s.len() > 0 && in_class(k, s[0]) {
        1 + lead_in(s.drop_first(), k)
    } else {
        0
    }
}

/// Number of trailing characters of class `k`.
pub open spec fn trail_in(s: Seq<char>, k: CharClass) -> nat
    decreases s.len(),
{
    if s.len() > 0 && in_class(k, s.last()) {
        1 + trail_in(s.drop_last(), k)
    } else {
        0
    }
}

/// `trim_matches`: `s` without its leading and trailing characters of class `k`.
pub open spec fn strip(s: Seq<char>, k: CharClass) -> Seq<char> {
    if lead_in(s, k) == s.len() {
        Seq::empty()
    } else {
        s.subrange(lead_in(s, k) as int, s.len() - trail_in(s, k))
    }
}

pub proof fn lemma_lead_in(s: Seq<char>, k: CharClass)
    ensures
        lead_in(s, k) <= s.len(),
        lead_in(s, k) < s.len() ==> !in_class(k, s[lead_in(s, k) as int]),
        forall|i: int| 0 <= i < lead_in(s, k) ==> in_class(k, #[trigger] s[i]),
    decreases s.len(),
{
    if s.len() > 0 && in_class(k, s[0]) {
        lemma_lead_in(s.drop_first(), k);
        assert forall|i: int| 0 <= i < lead_in(s, k) implies in_class(k, #[trigger] s[i]) by {
            if i > 0 {
                assert(s[i] == s.drop_first()[i - 1]);
            }
        }
    }
}

pub proof fn lemma_trail_in(s: Seq<char>, k: CharClass)
    ensures
        trail_in(s, k) <= s.len(),
        trail_in(s, k) < s.len() ==> !in_class(k, s[s.len() - trail_in(s, k) - 1]),
        forall|i: int| s.len() - trail_in(s, k) <= i < s.len() ==> in_class(k, #[trigger] s[i]),
    decreases s.len(),
{
    if s.len() > 0 && in_class(k, s.last()) {
        lemma_trail_in(s.drop_last(), k);
        assert forall|i: int| s.len() - trail_in(s, k) <= i < s.len() implies in_class(k, #[trigger] s[i]) by {
            if i < s.len() - 1 {
                assert(s[i] == s.drop_last()[i]);
            }
        }
    }
}

/// A copy of `v[a..b]`.
fn slice_vec(v: &Vec<char>, a: usize, b: usize) -> (r: Vec<char>)
    requires
        a <= b <= v@.len(),
    ensures
        r@ == v@.subrange(a as int, b as int),
{
    let mut r: Vec<char> = Vec::new();
    let mut i: usize = a;
    while i < b
        invariant
            a <= i <= b <= v@.len(),
            r@ == v@.subrange(a as int, i as int),
        decreases b - i,
    {
        r.push(v[i]);
        assert(r@ =~= v@.subrange(a as int, i + 1));
        i = i + 1;
    }
    r
}

/// Strip the characters of class `k` from both ends of `v`.
pub fn strip_class(v: &Vec<char>, k: CharClass) -> (r: Vec<char>)
    ensures
        r@ == strip(v@, k),
{
    proof {
        lemma_lead_in(v@, k);
        lemma_trail_in(v@, k);
    }
    let mut a: usize = 0;
    while a < v.len() && char_in_class(k, v[a])
        invariant
            a <= lead_in(v@, k),
            lead_in(v@, k) <= v@.len(),
            lead_in(v@, k) < v@.len() ==> !in_class(k, v@[lead_in(v@, k) as int]),
            forall|i: int| 0 <= i < lead_in(v@, k) ==> in_class(k, #[trigger] v@[i]),
        decreases v.len() - a,
    {
        a = a + 1;
    }
    if a == v.len() {
        return Vec::new();
    }
    let mut t: usize = 0;
    while t < v.len() && char_in_class(k, v[v.len() - 1 - t])
        invariant
            t <= trail_in(v@, k),
            trail_in(v@, k) <= v@.len(),
            trail_in(v@, k) < v@.len() ==> !in_class(k, v@[v@.len() - trail_in(v@, k) - 1]),
            forall|i: int| v@.len() - trail_in(v@, k) <= i < v@.len() ==> in_class(k, #[trigger] v@[i]),
        decreases v.len() - t,
    {
        t = t + 1;
    }
    // the first char outside the class is not in the trailing run
    assert(!in_class(k, v@[a as int]));
    assert(a < v.len() - t);
    slice_vec(v, a, v.len() - t)
}

// ---------------------------------------------------------------------------
// Title validation
// ---------------------------------------------------------------------------

/// `char::is_control`: the C0 and C1 control characters.
pub open spec fn is_control(c: char) -> bool {
    c <= '\u{1f}' || ('\u{7f}' <= c && c <= '\u{9f}')
}

/// The title text left after trimming whitespace, then quotes, then whitespace.
pub open spec fn title_text(output: Seq<char>) -> Seq<char> {
    strip(strip(strip(output, CharClass::Whitespace), CharClass::TitleQuote), CharClass::Whitespace)
}

/// A model's title output, if it is usable: non-empty, at most 80
/// characters, no control characters, and not starting like markup.
pub open spec fn valid_title(output: Seq<char>) -> Option<Seq<char>> {
    let t = title_text(output);
    if t.len() == 0 || t.len() > 80 || (exists|i: int| 0 <= i < t.len() && is_control(#[trigger] t[i]))
        || t[0] == '#' || t[0] == '`' || t[0] == '{' || t[0] == '[' {
        None
    } else {
        Some(t)
    }
}

pub fn validate_title(output: &str) -> (r: Option<String>)
    ensures
        match r {
            Some(s) => valid_title(output@) == Some(s@),
            None => valid_title(output@) is None,
        },
{
    let v = chars_of(output);
    let a = strip_class(&v, CharClass::Whitespace);
    let b = strip_class(&a, CharClass::TitleQuote);
    let t = strip_class(&b, CharClass::Whitespace);
    if t.len() == 0 || t.len() > 80 {
        return None;
    }
    let mut i: usize = 0;
    while i < t.len()
        invariant
            i <= t@.len(),
            t@ == title_text(output@),
            0 < t@.len() <= 80,
            forall|j: int| 0 <= j < i ==> !is_control(#[trigger] t@[j]),
        decreases t.len() - i,
    {
        let c = t[i];
        if c <= '\u{1f}' || ('\u{7f}' <= c && c <= '\u{9f}') {
            assert(is_control(t@[i as int]));
            return None;
        }
        i = i + 1;
    }
    let c = t[0];
    if c == '#' || c == '`' || c == '{' || c == '[' {
        return None;
    }
    Some(string_from_chars(&t))
}

// ---------------------------------------------------------------------------
// Excerpts
// ---------------------------------------------------------------------------

/// Bytes of `c` in UTF-8.
pub open spec fn utf8_len(c: char) -> nat {
    let u = c as u32;
    if u < 0x80 { 1 } else if u < 0x800 { 2 } else if u < 0x10000 { 3 } else { 4 }
}

/// How many leading characters of `s` fit in `budget` UTF-8 bytes.
pub open spec fn fitting(s: Seq<char>, budget: nat) -> nat
    decreases s.len(),
{
    if s.len() > 0 && utf8_len(s[0]) <= budget {
        1 + fitting(s.drop_first(), (budget - utf8_len(s[0])) as nat)
    } else {
        0
    }
}

/// `split_whitespace().join(" ")`: whitespace runs become one space, and
/// leading and trailing whitespace goes.
pub open spec fn squash(s: Seq<char>) -> Seq<char>
    decreases s.len(),
{
    if s.len() == 0 {
        Seq::empty()
    } else {
        let q = s.drop_last();
        let c = s.last();
        if is_ws(c) {
            squash(q)
        } else if q.len() > 0 && is_ws(q.last()) && !is_blank(q) {
            squash(q).push(' ').push(c)
        } else {
            squash(q).push(c)
        }
    }
}

/// The excerpt of `text` that fits in `bytes` bytes (cut at a character
/// boundary), with its whitespace squashed.
pub open spec fn excerpt_spec(text: Seq<char>, bytes: nat) -> Seq<char> {
    squash(text.take(fitting(text, bytes) as int))
}

pub proof fn lemma_squash_empty_iff_blank(s: Seq<char>)
    ensures
        (squash(s).len() == 0) <==> is_blank(s),
    decreases s.len(),
{
    if s.len() > 0 {
        let q = s.drop_last();
        lemma_squash_empty_iff_blank(q);
        if is_blank(s) {
            assert(is_blank(q)) by {
                assert forall|i: int| 0 <= i < q.len() implies is_ws(#[trigger] q[i]) by {
                    assert(q[i] == s[i]);
                }
            }
        } else if is_ws(s.last()) {
            assert(!is_blank(q)) by {
                let j = choose|j: int| 0 <= j < s.len() && !is_ws(#[trigger] s[j]);
                assert(j < q.len());
                assert(q[j] == s[j]);
            }
        }
    }
}

pub fn utf8_width_of(c: char) -> (r: usize)
    ensures
        r == utf8_len(c),
{
    let u = c as u32;
    if u < 0x80 {
        1
    } else if u < 0x800 {
        2
    } else if u < 0x10000 {
        3
    } else {
        4
    }
}

/// Squash the whitespace of `v`.
fn squash_vec(v: &Vec<char>) -> (r: Vec<char>)
    ensures
        r@ == squash(v@),
{
    let mut out: Vec<char> = Vec::new();
    let mut i: usize = 0;
    while i < v.len()
        invariant
            i <= v@.len(),
            out@ == squash(v@.take(i as int)),
        decreases v.len() - i,
    {
        let c = v[i];
        let ghost q = v@.take(i as int);
        assert(v@.take(i + 1).drop_last() =~= q);
        if !is_whitespace(c) {
            if i > 0 && is_whitespace(v[i - 1]) && out.len() > 0 {
                proof {
                    lemma_squash_empty_iff_blank(q);
                }
                out.push(' ');
                out.push(c);
            } else {
                proof {
                    lemma_squash_empty_iff_blank(q);
                }
                out.push(c);
            }
        }
        i = i + 1;
    }
    assert(v@.take(v@.len() as int) =~= v@);
    out
}

/// The leading characters of `text` that fit in `bytes` UTF-8 bytes, with
/// whitespace runs squashed to single spaces.
pub fn excerpt(text: &str, bytes: usize) -> (r: String)
    ensures
        r@ == excerpt_spec(text@, bytes as nat),
{
    let v = chars_of(text);
    let mut n: usize = 0;
    let mut budget: usize = bytes;
    assert(v@.skip(0) =~= v@);
    while n < v.len() && utf8_width_of(v[n]) <= budget
        invariant
            n <= v@.len(),
            fitting(v@, bytes as nat) == n + fitting(v@.skip(n as int), budget as nat),
        decreases v.len() - n,
    {
        let w = utf8_width_of(v[n]);
        assert(v@.skip(n as int).drop_first() =~= v@.skip(n + 1));
        budget = budget - w;
        n = n + 1;
    }
    let head = slice_vec(&v, 0, n);
    assert(head@ =~= v@.take(n as int));
    let s = squash_vec(&head);
    string_from_chars(&s)
}

// ---------------------------------------------------------------------------
// Meaningful messages
// ---------------------------------------------------------------------------

/// Replies too short to say what a conversation is about.
pub open spec fn trivial_reply(t: Seq<char>) -> bool {
    ||| t == "hi"@
    ||| t == "hello"@
    ||| t == "ok"@
    ||| t == "thanks"@
    ||| t == "continue"@
    ||| t == "你好"@
    ||| t == "您好"@
    ||| t == "好的"@
    ||| t == "继续"@
    ||| t == "谢谢"@
}

/// The text `meaningful` lowercases: trimmed, then stripped of punctuation.
pub open spec fn meaningful_core(text: Seq<char>) -> Seq<char> {
    strip(strip(text, CharClass::Whitespace), CharClass::Punctuation)
}

/// Whether a user message says enough to title a conversation after: its
/// lowercased core is non-empty and not a trivial reply.
pub open spec fn meaningful_spec(text: Seq<char>) -> bool {
    lowercase(meaningful_core(text)).len() > 0 && !trivial_reply(lowercase(meaningful_core(text)))
}

/// Decide on an already lowercased core: it must be non-empty and not a
/// trivial reply.
pub fn is_meaningful_lowered(lowered: &str) -> (r: bool)
    ensures
        r == (lowered@.len() > 0 && !trivial_reply(lowered@)),
{
    if lowered.unicode_len() == 0 {
        return false;
    }
    let trivial = str_eq(lowered, "hi") || str_eq(lowered, "hello") || str_eq(lowered, "ok") || str_eq(
        lowered,
        "thanks",
    ) || str_eq(lowered, "continue") || str_eq(lowered, "你好") || str_eq(lowered, "您好") || str_eq(
        lowered,
        "好的",
    ) || str_eq(lowered, "继续") || str_eq(lowered, "谢谢");
    !trivial
}

/// Whether a user message says enough to title a conversation after.
pub fn meaningful(text: &str) -> (r: bool)
    ensures
        r == meaningful_spec(text@),
{
    let v = chars_of(text);
    let a = strip_class(&v, CharClass::Whitespace);
    let b = strip_class(&a, CharClass::Punctuation);
    let core = string_from_chars(&b);
    let lowered = to_lowercase(core.as_str());
    is_meaningful_lowered(lowered.as_str())
}


// ---------------------------------------------------------------------------
// Laws
// ---------------------------------------------------------------------------

/// Bytes of `s` in UTF-8.
pub open spec fn utf8_bytes(s: Seq<char>) -> nat
    decreases s.len(),
{
    if s.len() == 0 { 0 } else { utf8_bytes(s.drop_last()) + utf8_len(s.last()) }
}

pub proof fn lemma_bytes_cons(c: char, t: Seq<char>)
    ensures
        utf8_bytes(seq![c] + t) == utf8_len(c) + utf8_bytes(t),
    decreases t.len(),
{
    if t.len() > 0 {
        assert((seq![c] + t).drop_last() =~= seq![c] + t.drop_last());
        assert((seq![c] + t).last() == t.last());
        lemma_bytes_cons(c, t.drop_last());
        assert(utf8_bytes(seq![c] + t) == utf8_bytes(seq![c] + t.drop_last()) + utf8_len(t.last()));
        assert(utf8_bytes(t) == utf8_bytes(t.drop_last()) + utf8_len(t.last()));
    } else {
        assert(seq![c] + t =~= seq![c]);
        assert(seq![c].drop_last() =~= Seq::<char>::empty());
        assert(utf8_bytes(seq![c]) == utf8_bytes(Seq::<char>::empty()) + utf8_len(c));
        assert(utf8_bytes(t) == 0);
    }
}

pub proof fn lemma_fitting_prefix_fits(s: Seq<char>, budget: nat)
    ensures
        fitting(s, budget) <= s.len(),
        utf8_bytes(s.take(fitting(s, budget) as int)) <= budget,
    decreases s.len(),
{
    if s.len() > 0 && utf8_len(s[0]) <= budget {
        let rest = s.drop_first();
        let b2 = (budget - utf8_len(s[0])) as nat;
        lemma_fitting_prefix_fits(rest, b2);
        let k: int = fitting(rest, b2) as int;
        assert(s.take(k + 1) =~= seq![s[0]] + rest.take(k));
        lemma_bytes_cons(s[0], rest.take(k));
    } else {
        assert(s.take(0) =~= Seq::<char>::empty());
    }
}

pub proof fn lemma_squash_bytes(s: Seq<char>)
    ensures
        utf8_bytes(squash(s)) + (if s.len() > 0 && is_ws(s.last()) && !is_blank(s) { 1nat } else { 0nat })
            <= utf8_bytes(s),
    decreases s.len(),
{
    if s.len() > 0 {
        let q = s.drop_last();
        let c = s.last();
        lemma_squash_bytes(q);
        let sq = squash(q);
        assert(utf8_len(c) >= 1);
        assert(utf8_bytes(s) == utf8_bytes(q) + utf8_len(c));
        if is_ws(c) {
            assert(squash(s) == sq);
        } else if q.len() > 0 && is_ws(q.last()) && !is_blank(q) {
            let a = sq.push(' ');
            assert(a.push(c).drop_last() =~= a);
            assert(a.drop_last() =~= sq);
            assert(utf8_len(' ') == 1);
            assert(utf8_bytes(a) == utf8_bytes(sq) + 1);
            assert(utf8_bytes(a.push(c)) == utf8_bytes(a) + utf8_len(c));
            assert(squash(s) == a.push(c));
        } else {
            assert(sq.push(c).drop_last() =~= sq);
            assert(utf8_bytes(sq.push(c)) == utf8_bytes(sq) + utf8_len(c));
            assert(squash(s) == sq.push(c));
        }
    }
}

/// An excerpt never exceeds its byte budget.
pub proof fn law_excerpt_fits_its_budget(text: Seq<char>, bytes: nat)
    ensures
        utf8_bytes(excerpt_spec(text, bytes)) <= bytes,
{
    lemma_fitting_prefix_fits(text, bytes);
    lemma_squash_bytes(text.take(fitting(text, bytes) as int));
}

/// An accepted title is non-empty, at most 80 characters, free of control
/// characters, does not open like markup, and has no surrounding
/// whitespace or quotes.
pub proof fn law_valid_titles_are_bounded(output: Seq<char>)
    ensures
        valid_title(output) matches Some(t) ==> {
            &&& 0 < t.len() <= 80
            &&& forall|i: int| 0 <= i < t.len() ==> !is_control(#[trigger] t[i])
            &&& t[0] != '#' && t[0] != '`' && t[0] != '{' && t[0] != '['
            &&& !is_ws(t[0]) && !is_ws(t.last())
        },
{
    let a = strip(strip(output, CharClass::Whitespace), CharClass::TitleQuote);
    let t = strip(a, CharClass::Whitespace);
    lemma_lead_in(a, CharClass::Whitespace);
    lemma_trail_in(a, CharClass::Whitespace);
    if t.len() > 0 {
        let lo = lead_in(a, CharClass::Whitespace);
        let hi = a.len() - trail_in(a, CharClass::Whitespace);
        assert(t[0] == a[lo as int]);
        assert(t.last() == a[hi - 1]);
    }
}

} // verus!

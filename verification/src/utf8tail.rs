//! Detection of a UTF-8 scalar cut at the end of a byte buffer, and the
//! lossy decoding of the complete part.

use vstd::prelude::*;
use vstd::utf8::{valid_utf8, decode_utf8};

verus! {

/// A continuation byte `10xxxxxx`.
pub open spec fn is_cont(b: u8) -> bool {
    0x80 <= b <= 0xbf
}

/// Width of the scalar that a valid lead byte starts, `None` for bytes that
/// never start a well-formed scalar.
pub open spec fn utf8_width_spec(b: u8) -> Option<nat> {
    if b <= 0x7f {
        Some(1)
    } else if 0xc2 <= b <= 0xdf {
        Some(2)
    } else if 0xe0 <= b <= 0xef {
        Some(3)
    } else if 0xf0 <= b <= 0xf4 {
        Some(4)
    } else {
        None
    }
}

pub fn is_utf8_continuation(b: u8) -> (r: bool)
    ensures
        r == is_cont(b),
{
    assert((b & 0xc0 == 0x80) == (0x80 <= b && b <= 0xbf)) by (bit_vector);
    b & 0xc0 == 0x80
}

pub fn utf8_width(b: u8) -> (r: Option<usize>)
    ensures
        match r {
            Some(w) => utf8_width_spec(b) == Some(w as nat),
            None => utf8_width_spec(b) is None,
        },
{
    if b <= 0x7f {
        Some(1)
    } else if 0xc2 <= b && b <= 0xdf {
        Some(2)
    } else if 0xe0 <= b && b <= 0xef {
        Some(3)
    } else if 0xf0 <= b && b <= 0xf4 {
        Some(4)
    } else {
        None
    }
}

/// Number of trailing continuation bytes.
pub open spec fn trailing_cont(b: Seq<u8>) -> nat
    decreases b.len(),
{
    if b.len() > 0 && is_cont(b.last()) {
        1 + trailing_cont(b.drop_last())
    } else {
        0
    }
}

/// Start of a terminal lead byte whose scalar is still missing bytes, as the
/// job output buffers hold it back.
pub open spec fn job_tail_start(b: Seq<u8>) -> Option<int> {
    let c = b.len() - trailing_cont(b);
    if c == b.len() {
        if b.len() > 0 && utf8_width_spec(b.last()) is Some && utf8_width_spec(b.last())->0 > 1 {
            Some(b.len() - 1)
        } else {
            None
        }
    } else if c == 0 {
        None
    } else if utf8_width_spec(b[c - 1]) is None {
        None
    } else if b.len() - (c - 1) < utf8_width_spec(b[c - 1])->0 {
        Some(c - 1)
    } else {
        None
    }
}

/// The first two bytes of `t` can still begin a well-formed scalar.
pub open spec fn possible_prefix(t: Seq<u8>) -> bool {
    if t.len() < 2 {
        true
    } else if t[0] == 0xe0 {
        0xa0 <= t[1] <= 0xbf
    } else if t[0] == 0xed {
        0x80 <= t[1] <= 0x9f
    } else if t[0] == 0xf0 {
        0x90 <= t[1] <= 0xbf
    } else if t[0] == 0xf4 {
        0x80 <= t[1] <= 0x8f
    } else {
        is_cont(t[1])
    }
}

/// Start of a terminal byte sequence that is still a possible prefix of a
/// valid UTF-8 scalar, as process capture drops it. Invalid bytes earlier
/// in the buffer do not matter.
pub open spec fn capture_tail_start(b: Seq<u8>) -> Option<int> {
    let c = b.len() - trailing_cont(b);
    if c == b.len() {
        job_tail_start(b)
    } else if job_tail_start(b) is Some && possible_prefix(b.subrange(c - 1, b.len() as int)) {
        job_tail_start(b)
    } else {
        None
    }
}

pub proof fn lemma_trailing_cont(b: Seq<u8>)
    ensures
        trailing_cont(b) <= b.len(),
        forall|i: int| b.len() - trailing_cont(b) <= i < b.len() ==> is_cont(#[trigger] b[i]),
        trailing_cont(b) < b.len() ==> !is_cont(b[b.len() - trailing_cont(b) - 1]),
    decreases b.len(),
{
    if b.len() > 0 && is_cont(b.last()) {
        lemma_trailing_cont(b.drop_last());
        assert forall|i: int| b.len() - trailing_cont(b) <= i < b.len() implies is_cont(#[trigger] b[i]) by {
            if i < b.len() - 1 {
                assert(b[i] == b.drop_last()[i]);
            }
        }
    }
}

/// A held-back tail is short: a lead byte of a multi-byte scalar followed by
/// fewer continuation bytes than that scalar needs.
pub proof fn law_tail_is_an_incomplete_scalar(b: Seq<u8>)
    ensures
        job_tail_start(b) matches Some(k) ==> {
            &&& 0 <= k < b.len()
            &&& utf8_width_spec(b[k]) is Some
            &&& b.len() - k < utf8_width_spec(b[k])->0
            &&& b.len() - k <= 3
            &&& forall|i: int| k < i < b.len() ==> is_cont(#[trigger] b[i])
        },
        capture_tail_start(b) is Some ==> capture_tail_start(b) == job_tail_start(b),
{
    lemma_trailing_cont(b);
}

fn trailing_cont_count(b: &[u8]) -> (n: usize)
    ensures
        n == trailing_cont(b@),
        n <= b@.len(),
{
    proof { lemma_trailing_cont(b@); }
    let mut n: usize = 0;
    while n < b.len() && is_utf8_continuation(b[b.len() - 1 - n])
        invariant
            n <= b@.len(),
            n <= trailing_cont(b@),
            trailing_cont(b@) <= b@.len(),
            forall|i: int| b@.len() - trailing_cont(b@) <= i < b@.len() ==> is_cont(#[trigger] b@[i]),
            trailing_cont(b@) < b@.len() ==> !is_cont(b@[b@.len() - trailing_cont(b@) - 1]),
        decreases b.len() - n,
    {
        n = n + 1;
    }
    n
}

/// Where a job buffer's complete text ends, if a scalar is cut at the end.
pub fn job_incomplete_tail_start(b: &[u8]) -> (r: Option<usize>)
    ensures
        match r {
            Some(k) => job_tail_start(b@) == Some(k as int),
            None => job_tail_start(b@) is None,
        },
{
    let t = trailing_cont_count(b);
    let c = b.len() - t;
    if c == b.len() {
        if b.len() == 0 {
            return None;
        }
        let lead = b.len() - 1;
        return match utf8_width(b[lead]) {
            Some(w) => if w > 1 { Some(lead) } else { None },
            None => None,
        };
    }
    if c == 0 {
        return None;
    }
    let lead = c - 1;
    match utf8_width(b[lead]) {
        None => None,
        Some(w) => if b.len() - lead < w { Some(lead) } else { None },
    }
}

pub fn is_possible_utf8_prefix(t: &[u8]) -> (r: bool)
    ensures
        r == possible_prefix(t@),
{
    if t.len() < 2 {
        return true;
    }
    let second = t[1];
    let first = t[0];
    if first == 0xe0 {
        0xa0 <= second && second <= 0xbf
    } else if first == 0xed {
        0x80 <= second && second <= 0x9f
    } else if first == 0xf0 {
        0x90 <= second && second <= 0xbf
    } else if first == 0xf4 {
        0x80 <= second && second <= 0x8f
    } else {
        is_utf8_continuation(second)
    }
}

fn suffix_bytes(b: &[u8], start: usize) -> (r: Vec<u8>)
    requires
        start <= b@.len(),
    ensures
        r@ == b@.subrange(start as int, b@.len() as int),
{
    let mut r: Vec<u8> = Vec::new();
    let mut i = start;
    while i < b.len()
        invariant
            start <= i <= b@.len(),
            r@ == b@.subrange(start as int, i as int),
        decreases b.len() - i,
    {
        r.push(b[i]);
        i = i + 1;
        assert(r@ =~= b@.subrange(start as int, i as int));
    }
    r
}

/// Where a capture's complete text ends, if a possible scalar prefix is cut
/// at the end.
pub fn capture_incomplete_tail_start(b: &[u8]) -> (r: Option<usize>)
    ensures
        match r {
            Some(k) => capture_tail_start(b@) == Some(k as int),
            None => capture_tail_start(b@) is None,
        },
{
    let t = trailing_cont_count(b);
    let c = b.len() - t;
    let tail = job_incomplete_tail_start(b);
    if c == b.len() {
        return tail;
    }
    match tail {
        None => None,
        Some(lead) => {
            let rest = suffix_bytes(b, c - 1);
            if is_possible_utf8_prefix(rest.as_slice()) { Some(lead) } else { None }
        },
    }
}

/// Text decoded from `bytes`: valid UTF-8 comes back as its characters.
pub open spec fn decodes_as(bytes: Seq<u8>, text: Seq<char>) -> bool {
    valid_utf8(bytes) ==> text == decode_utf8(bytes)
}

/// The bytes a capture keeps: all but a terminal possible-scalar prefix.
pub open spec fn capture_kept(bytes: Seq<u8>) -> Seq<u8> {
    match capture_tail_start(bytes) {
        Some(k) => bytes.take(k),
        None => bytes,
    }
}

/// What `String::from_utf8_lossy` yields for a byte sequence.
pub uninterp spec fn lossy_utf8(bytes: Seq<u8>) -> Seq<char>;

/// `String::from_utf8_lossy(bytes).into_owned()`. Its result depends on the
/// bytes alone; valid UTF-8 decodes unchanged (invalid sequences become
/// U+FFFD, which is not stated further here).
#[verifier::external_body]
pub(crate) fn utf8_lossy(bytes: &[u8]) -> (r: String)
    ensures
        r@ == lossy_utf8(bytes@),
        valid_utf8(bytes@) ==> r@ == decode_utf8(bytes@),
{
    String::from_utf8_lossy(bytes).into_owned()
}

}

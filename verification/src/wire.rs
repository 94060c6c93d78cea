//! Wire helpers shared by the RPC adapters: blank-field checks, slash
//! command recognition, directory-name validation, stream ids and prompt
//! fingerprints.
use vstd::prelude::*;
use crate::text::{concat3, decimal, dec, is_blank, is_blank_str, chars_of, str_eq, owned, trail_ws, trail_ws_count, string_from_chars, uppercase, to_uppercase};

verus! {

#[derive(Clone, Debug, PartialEq, Eq)]
pub enum WireError {
    BadRequest { message: String },
}

pub enum WireErrorView {
    BadRequest(Seq<char>),
}

impl View for WireError {
    type V = WireErrorView;

    open spec fn view(&self) -> WireErrorView {
        match self {
            WireError::BadRequest { message } => WireErrorView::BadRequest(message@),
        }
    }
}

/// Refuse a blank field value; the message names the field.
pub fn nonempty(value: String, field: &str) -> (r: Result<String, WireError>)
    ensures
        is_blank(value@) ==> (r matches Err(e) && e@ == WireErrorView::BadRequest(field@ + " must not be blank"@)),
        !is_blank(value@) ==> (r matches Ok(v) && v@ == value@),
{
    if is_blank_str(value.as_str()) {
        let mut message = owned(field);
        message.append(" must not be blank");
        Err(WireError::BadRequest { message })
    } else {
        Ok(value)
    }
}

// ---------------------------------------------------------------------------
// Slash commands
// ---------------------------------------------------------------------------

/// What follows `command` on a line that invokes it: the command must be
/// followed by nothing or by a space, tab, newline or carriage return.
pub open spec fn command_rest(line: Seq<char>, command: Seq<char>) -> Option<Seq<char>> {
    if command.len() <= line.len() && line.take(command.len() as int) == command {
        let rest = line.skip(command.len() as int);
        if rest.len() == 0 || rest[0] == ' ' || rest[0] == '\t' || rest[0] == '\n' || rest[0] == '\r' {
            Some(rest)
        } else {
            None
        }
    } else {
        None
    }
}

fn command_input<'a>(line: &'a str, command: &str) -> (r: Option<&'a str>)
    ensures
        match r {
            Some(rest) => command_rest(line@, command@) == Some(rest@),
            None => command_rest(line@, command@) is None,
        },
{
    let v = chars_of(line);
    let c = chars_of(command);
    if c.len() > v.len() {
        return None;
    }
    let mut i: usize = 0;
    while i < c.len()
        invariant
            v@ == line@,
            c@ == command@,
            c@.len() <= v@.len(),
            i <= c@.len(),
            forall|k: int| 0 <= k < i ==> v@[k] == c@[k],
        decreases c.len() - i,
    {
        if v[i] != c[i] {
            assert(v@.take(c@.len() as int)[i as int] != c@[i as int]);
            return None;
        }
        i = i + 1;
    }
    assert(v@.take(c@.len() as int) =~= c@);
    if c.len() < v.len() {
        let n = v[c.len()];
        if !(n == ' ' || n == '\t' || n == '\n' || n == '\r') {
            assert(line@.skip(c@.len() as int)[0] == n);
            return None;
        }
    }
    let rest = line.substring_char(c.len(), v.len());
    assert(rest@ =~= line@.skip(c@.len() as int));
    Some(rest)
}

/// The argument text of a `/permission` line.
pub fn permission_command_input(line: &str) -> (r: Option<&str>)
    ensures
        match r {
            Some(rest) => command_rest(line@, "/permission"@) == Some(rest@),
            None => command_rest(line@, "/permission"@) is None,
        },
{
    command_input(line, "/permission")
}

/// The argument text of a `/plan` line.
pub fn plan_command_input(line: &str) -> (r: Option<&str>)
    ensures
        match r {
            Some(rest) => command_rest(line@, "/plan"@) == Some(rest@),
            None => command_rest(line@, "/plan"@) is None,
        },
{
    command_input(line, "/plan")
}

// ---------------------------------------------------------------------------
// Directory names
// ---------------------------------------------------------------------------

/// The kind of one path component.
#[derive(Clone, Copy, Debug, PartialEq, Eq, Structural)]
pub enum ComponentKind {
    Prefix,
    RootDir,
    CurDir,
    ParentDir,
    Normal,
}

/// The kinds of the components `Path::components` yields for a path.
pub uninterp spec fn component_kinds(path: Seq<char>) -> Seq<ComponentKind>;

/// `Path::components`, each component mapped to its kind; nothing more is
/// claimed of the result than its name.
#[verifier::external_body]
fn path_component_kinds(path: &str) -> (r: Vec<ComponentKind>)
    ensures
        r@ == component_kinds(path@),
{
    std::path::Path::new(path).components().map(|c| match c {
        std::path::Component::Prefix(_) => ComponentKind::Prefix,
        std::path::Component::RootDir => ComponentKind::RootDir,
        std::path::Component::CurDir => ComponentKind::CurDir,
        std::path::Component::ParentDir => ComponentKind::ParentDir,
        std::path::Component::Normal(_) => ComponentKind::Normal,
    }).collect()
}

pub open spec fn has_separator_or_nul(name: Seq<char>) -> bool {
    exists|i: int| 0 <= i < name.len() && (name[i] == '/' || name[i] == '\\' || name[i] == '\0')
}

/// Whether `std::path::is_separator` takes `c` for a separator on the
/// platform the library was built for.
pub uninterp spec fn path_separator(c: char) -> bool;

/// `std::path::is_separator`: true for the separators of the platform the
/// library was built for (`/`, and on Windows also `\`).
#[verifier::external_body]
fn is_path_separator(c: char) -> (r: bool)
    ensures
        r == path_separator(c),
{
    std::path::is_separator(c)
}

/// Win32 refuses control characters and `<>:"|?*` in file names.
pub open spec fn win32_forbidden(c: char) -> bool {
    c < ' ' || c == '<' || c == '>' || c == ':' || c == '"' || c == '|' || c == '?' || c == '*'
}

/// Position of the first `.` at or after `k`, or the length.
pub open spec fn dot_pos(s: Seq<char>, k: int) -> int
    decreases s.len() - k,
{
    if k < 0 || k >= s.len() {
        s.len() as int
    } else if s[k] == '.' {
        k
    } else {
        dot_pos(s, k + 1)
    }
}

/// The part of a name before its first `.`, without trailing whitespace.
pub open spec fn name_stem(s: Seq<char>) -> Seq<char> {
    let head = s.take(dot_pos(s, 0));
    head.take(head.len() - trail_ws(head))
}

/// A serial-port or printer number: 1-9 or a superscript one to three.
pub open spec fn device_digit(c: char) -> bool {
    ('1' <= c && c <= '9') || c == '\u{b9}' || c == '\u{b2}' || c == '\u{b3}'
}

/// The Win32 device aliases, given in upper case.
pub open spec fn win32_device(u: Seq<char>) -> bool {
    ||| u == seq!['C', 'O', 'N']
    ||| u == seq!['P', 'R', 'N']
    ||| u == seq!['A', 'U', 'X']
    ||| u == seq!['N', 'U', 'L']
    ||| u == seq!['C', 'O', 'N', 'I', 'N', '$']
    ||| u == seq!['C', 'O', 'N', 'O', 'U', 'T', '$']
    ||| (u.len() == 4 && ((u[0] == 'C' && u[1] == 'O' && u[2] == 'M') || (u[0] == 'L' && u[1] == 'P' && u[2] == 'T'))
        && device_digit(u[3]))
}

/// The names Windows accepts besides the common rules: no trailing `.` or
/// space, no forbidden character, and no device alias before the first `.`,
/// whatever its case.
pub open spec fn win32_name_ok(name: Seq<char>) -> bool {
    &&& !(name.len() > 0 && (name.last() == '.' || name.last() == ' '))
    &&& forall|i: int| 0 <= i < name.len() ==> !win32_forbidden(#[trigger] name[i])
    &&& !win32_device(uppercase(name_stem(name)))
}

/// A name for a new directory: not blank, no separator or NUL, a single
/// normal path component, and where the platform takes `\` for a
/// separator (Windows), a name Win32 accepts as is.
pub open spec fn valid_directory_name_spec(name: Seq<char>) -> bool {
    &&& !is_blank(name)
    &&& !has_separator_or_nul(name)
    &&& component_kinds(name) == seq![ComponentKind::Normal]
    &&& (path_separator('\\') ==> win32_name_ok(name))
}

fn is_win32_device(u: &Vec<char>) -> (r: bool)
    ensures
        r == win32_device(u@),
{
    let n = u.len();
    let three = n == 3 && ((u[0] == 'C' && u[1] == 'O' && u[2] == 'N') || (u[0] == 'P' && u[1] == 'R' && u[2] == 'N')
        || (u[0] == 'A' && u[1] == 'U' && u[2] == 'X') || (u[0] == 'N' && u[1] == 'U' && u[2] == 'L'));
    let conin = n == 6 && u[0] == 'C' && u[1] == 'O' && u[2] == 'N' && u[3] == 'I' && u[4] == 'N' && u[5] == '$';
    let conout = n == 7 && u[0] == 'C' && u[1] == 'O' && u[2] == 'N' && u[3] == 'O' && u[4] == 'U' && u[5] == 'T' && u[6] == '$';
    let port = n == 4 && ((u[0] == 'C' && u[1] == 'O' && u[2] == 'M') || (u[0] == 'L' && u[1] == 'P' && u[2] == 'T'))
        && (('1' <= u[3] && u[3] <= '9') || u[3] == '\u{b9}' || u[3] == '\u{b2}' || u[3] == '\u{b3}');
    proof {
        if n == 3 {
            assert(three <==> (u@ =~= seq!['C', 'O', 'N'] || u@ =~= seq!['P', 'R', 'N'] || u@ =~= seq!['A', 'U', 'X'] || u@ =~= seq!['N', 'U', 'L']));
        }
        if n == 6 {
            assert(conin <==> u@ =~= seq!['C', 'O', 'N', 'I', 'N', '$']);
        }
        if n == 7 {
            assert(conout <==> u@ =~= seq!['C', 'O', 'N', 'O', 'U', 'T', '$']);
        }
    }
    three || conin || conout || port
}

fn check_win32_name(name: &str) -> (r: bool)
    ensures
        r == win32_name_ok(name@),
{
    let v = chars_of(name);
    if v.len() > 0 {
        let last = v[v.len() - 1];
        if last == '.' || last == ' ' {
            return false;
        }
    }
    let mut i: usize = 0;
    while i < v.len()
        invariant
            i <= v@.len(),
            v@ == name@,
            forall|k: int| 0 <= k < i ==> !win32_forbidden(#[trigger] v@[k]),
        decreases v.len() - i,
    {
        let c = v[i];
        if c < ' ' || c == '<' || c == '>' || c == ':' || c == '"' || c == '|' || c == '?' || c == '*' {
            assert(win32_forbidden(v@[i as int]));
            return false;
        }
        i = i + 1;
    }
    let mut head: Vec<char> = Vec::new();
    let mut k: usize = 0;
    while k < v.len() && v[k] != '.'
        invariant
            k <= v@.len(),
            head@ == v@.take(k as int),
            dot_pos(v@, 0) == dot_pos(v@, k as int),
        decreases v.len() - k,
    {
        head.push(v[k]);
        k = k + 1;
        assert(head@ =~= v@.take(k as int));
    }
    let t = trail_ws_count(&head);
    proof {
        crate::text::lemma_trail_ws(head@);
    }
    let mut stem: Vec<char> = Vec::new();
    let mut j: usize = 0;
    while j < head.len() - t
        invariant
            t <= head@.len(),
            j <= head@.len() - t,
            stem@ == head@.take(j as int),
        decreases head.len() - t - j,
    {
        stem.push(head[j]);
        j = j + 1;
        assert(stem@ =~= head@.take(j as int));
    }
    assert(stem@ == name_stem(name@));
    let upper = to_uppercase(string_from_chars(&stem).as_str());
    let u = chars_of(upper.as_str());
    !is_win32_device(&u)
}

pub fn valid_directory_name(name: &str) -> (r: bool)
    ensures
        r == valid_directory_name_spec(name@),
{
    if is_blank_str(name) {
        return false;
    }
    let v = chars_of(name);
    let mut i: usize = 0;
    while i < v.len()
        invariant
            i <= v@.len(),
            v@ == name@,
            forall|k: int| 0 <= k < i ==> !(v@[k] == '/' || v@[k] == '\\' || v@[k] == '\0'),
        decreases v.len() - i,
    {
        let c = v[i];
        if c == '/' || c == '\\' || c == '\0' {
            assert(v@[i as int] == c);
            return false;
        }
        i = i + 1;
    }
    let kinds = path_component_kinds(name);
    let single = kinds.len() == 1 && kinds[0] == ComponentKind::Normal;
    assert(single <==> kinds@ =~= seq![ComponentKind::Normal]);
    if !single {
        return false;
    }
    if is_path_separator('\\') {
        check_win32_name(name)
    } else {
        true
    }
}

// ---------------------------------------------------------------------------
// Stream ids
// ---------------------------------------------------------------------------

/// `{prefix}-{now_ms}-{ordinal}`.
pub open spec fn stream_id_text(prefix: Seq<char>, now_ms: u64, ordinal: u64) -> Seq<char> {
    prefix + "-"@ + dec(now_ms as nat) + "-"@ + dec(ordinal as nat)
}

/// The stream id minted from a prefix, the clock and the next ordinal.
pub fn stream_id(prefix: &str, now_ms: u64, ordinal: u64) -> (r: String)
    ensures
        r@ == stream_id_text(prefix@, now_ms, ordinal),
{
    let t = decimal(now_ms);
    let o = decimal(ordinal);
    let mut r = concat3(prefix, "-", t.as_str());
    r.append("-");
    r.append(o.as_str());
    r
}

// ---------------------------------------------------------------------------
// Prompt fingerprints
// ---------------------------------------------------------------------------

/// The SHA-256 digest of `data`.
pub uninterp spec fn sha256(data: Seq<u8>) -> Seq<u8>;

/// `sha2::Sha256::digest`: the 32-byte SHA-256 digest.
#[verifier::external_body]
fn sha256_digest(data: &[u8]) -> (r: Vec<u8>)
    ensures
        r@ == sha256(data@),
        r@.len() == 32,
{
    <sha2::Sha256 as sha2::Digest>::digest(data).to_vec()
}

pub open spec fn hex_char(n: nat) -> char {
    if n < 10 { ((n + 48) as u8) as char } else { ((n - 10 + 97) as u8) as char }
}

/// Lowercase hexadecimal, two digits per byte, high nibble first.
pub open spec fn hex(bytes: Seq<u8>) -> Seq<char>
    decreases bytes.len(),
{
    if bytes.len() == 0 {
        Seq::empty()
    } else {
        hex(bytes.drop_last()).push(hex_char((bytes.last() / 16) as nat)).push(hex_char((bytes.last() % 16) as nat))
    }
}

fn hex_digit(n: u8) -> (c: char)
    requires
        n < 16,
    ensures
        c == hex_char(n as nat),
{
    match n {
        0 => '0',
        1 => '1',
        2 => '2',
        3 => '3',
        4 => '4',
        5 => '5',
        6 => '6',
        7 => '7',
        8 => '8',
        9 => '9',
        10 => 'a',
        11 => 'b',
        12 => 'c',
        13 => 'd',
        14 => 'e',
        _ => 'f',
    }
}

/// Lowercase hex of `bytes`.
pub fn hex_lower(bytes: &[u8]) -> (r: String)
    ensures
        r@ == hex(bytes@),
{
    let mut out = String::new();
    let mut i: usize = 0;
    while i < bytes.len()
        invariant
            i <= bytes@.len(),
            out@ == hex(bytes@.take(i as int)),
        decreases bytes.len() - i,
    {
        let b = bytes[i];
        assert(bytes@.take(i + 1).drop_last() =~= bytes@.take(i as int));
        crate::text::push_char(&mut out, hex_digit(b / 16));
        crate::text::push_char(&mut out, hex_digit(b % 16));
        i = i + 1;
    }
    assert(bytes@.take(bytes@.len() as int) =~= bytes@);
    out
}

/// The fingerprint of a prompt's canonical JSON encoding: the lowercase
/// hex SHA-256 digest, 64 characters.
pub fn fingerprint_hex(encoded: &[u8]) -> (r: String)
    ensures
        r@ == hex(sha256(encoded@)),
        r@.len() == 64,
{
    let digest = sha256_digest(encoded);
    let r = hex_lower(digest.as_slice());
    proof {
        lemma_hex_len(digest@);
    }
    r
}

pub proof fn lemma_hex_len(bytes: Seq<u8>)
    ensures
        hex(bytes).len() == 2 * bytes.len(),
    decreases bytes.len(),
{
    if bytes.len() > 0 {
        lemma_hex_len(bytes.drop_last());
    }
}

} // verus!

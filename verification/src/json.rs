//! A minimal scanner for the Teams `meetingUpdate` JSON payloads, and the
//! redaction of Teams credentials from diagnostic text.
//!
//! It tolerates missing fields and field order but does not validate JSON.

use vstd::prelude::*;
use crate::text::{chars_of, find_from, matches_at, occurs_at, push_char, spec_find};

verus! {

// ---------------------------------------------------------------------------
// Shared scanning model
// ---------------------------------------------------------------------------

/// White space as `u8::is_ascii_whitespace` defines it.
pub open spec fn is_json_space(c: char) -> bool {
    c == ' ' || c == '\t' || c == '\n' || c == '\u{C}' || c == '\r'
}

/// The first index at or after `i` that is not JSON white space.
pub open spec fn skip_space(s: Seq<char>, i: int) -> int
    decreases s.len() - i,
{
    if 0 <= i < s.len() && is_json_space(s[i]) {
        skip_space(s, i + 1)
    } else {
        i
    }
}

/// The index just after the string whose body starts at `i`: the position
/// after the closing quote, a backslash always escaping the next character
/// (or the end of `s` when the string is unterminated).
pub open spec fn string_end(s: Seq<char>, i: int) -> int
    decreases s.len() - i,
{
    if i < 0 || i >= s.len() {
        i
    } else if s[i] == '\\' && i + 1 < s.len() {
        string_end(s, i + 2)
    } else if s[i] == '"' {
        i + 1
    } else {
        string_end(s, i + 1)
    }
}

/// Skipping a string never moves backwards or past the end.
pub proof fn lemma_string_end_bounds(s: Seq<char>, i: int)
    requires
        0 <= i <= s.len(),
    ensures
        i <= string_end(s, i) <= s.len(),
    decreases s.len() - i,
{
    if i < s.len() {
        if s[i] == '\\' && i + 1 < s.len() {
            lemma_string_end_bounds(s, i + 2);
        } else if s[i] != '"' {
            lemma_string_end_bounds(s, i + 1);
        }
    }
}

/// The first index at or after `i` that is not JSON white space.
fn skip_space_exec(s: &Vec<char>, i: usize) -> (r: usize)
    requires
        i <= s@.len(),
    ensures
        r == skip_space(s@, i as int),
        i <= r <= s@.len(),
{
    let n = s.len();
    let mut j = i;
    while j < n && (s[j] == ' ' || s[j] == '\t' || s[j] == '\n' || s[j] == '\u{C}' || s[j]
        == '\r')
        invariant
            n == s@.len(),
            i <= j <= n,
            skip_space(s@, i as int) == skip_space(s@, j as int),
        decreases n - j,
    {
        j = j + 1;
    }
    j
}

/// The index just after the string whose body starts at `i`.
fn string_end_exec(s: &Vec<char>, i: usize) -> (r: usize)
    requires
        i <= s@.len(),
    ensures
        r == string_end(s@, i as int),
        i <= r <= s@.len(),
{
    let n = s.len();
    let mut j = i;
    while j < n
        invariant
            n == s@.len(),
            i <= j <= n,
            string_end(s@, i as int) == string_end(s@, j as int),
        decreases n - j,
    {
        if s[j] == '\\' && j + 1 < n {
            j = j + 2;
        } else if s[j] == '"' {
            return j + 1;
        } else {
            j = j + 1;
        }
    }
    j
}

// ---------------------------------------------------------------------------
// Object values
// ---------------------------------------------------------------------------

/// The index of the `}` that closes the object, scanning from `i` at brace
/// depth `depth`, outside or inside a string and after a backslash or not.
pub open spec fn object_close(s: Seq<char>, i: int, depth: int, in_str: bool, esc: bool) -> Option<
    int,
>
    decreases s.len() - i,
{
    if i < 0 || i >= s.len() {
        None
    } else if esc {
        object_close(s, i + 1, depth, in_str, false)
    } else if in_str {
        if s[i] == '\\' {
            object_close(s, i + 1, depth, true, true)
        } else if s[i] == '"' {
            object_close(s, i + 1, depth, false, false)
        } else {
            object_close(s, i + 1, depth, true, false)
        }
    } else if s[i] == '"' {
        object_close(s, i + 1, depth, true, false)
    } else if s[i] == '{' {
        object_close(s, i + 1, depth + 1, false, false)
    } else if s[i] == '}' {
        if depth - 1 == 0 {
            Some(i)
        } else {
            object_close(s, i + 1, depth - 1, false, false)
        }
    } else {
        object_close(s, i + 1, depth, false, false)
    }
}

/// `"key":`.
pub open spec fn key_needle(key: Seq<char>) -> Seq<char> {
    seq!['"'] + key + seq!['"', ':']
}

/// Where the body of the object value of `key` lies: after the first
/// `"key":` and optional white space there must be a `{`; the body runs
/// from after it to before its matching `}`.
pub open spec fn spec_object_span(json: Seq<char>, key: Seq<char>) -> Option<(int, int)> {
    match spec_find(json, key_needle(key), 0) {
        None => None,
        Some(k) => {
            let start = skip_space(json, k + key_needle(key).len());
            if start >= json.len() || json[start] != '{' {
                None
            } else {
                match object_close(json, start, 0, false, false) {
                    Some(end) => Some((start + 1, end)),
                    None => None,
                }
            }
        },
    }
}

/// The body (between the outer braces) of the object value of `key`.
pub open spec fn spec_extract_object(json: Seq<char>, key: Seq<char>) -> Option<Seq<char>> {
    match spec_object_span(json, key) {
        Some((from, to)) => Some(json.subrange(from, to)),
        None => None,
    }
}

/// The index of the `}` closing the object that opens at `start`.
fn object_close_exec(s: &Vec<char>, start: usize) -> (r: Option<usize>)
    requires
        start < s@.len(),
        s@[start as int] == '{',
    ensures
        r matches Some(e) ==> start < e < s@.len() && object_close(s@, start as int, 0, false, false)
            == Some(e as int),
        r is None ==> object_close(s@, start as int, 0, false, false) is None,
{
    let n = s.len();
    // The opening brace.
    let mut i = start + 1;
    let mut depth: usize = 1;
    let mut in_str = false;
    let mut esc = false;
    assert(object_close(s@, start as int, 0, false, false) == object_close(
        s@,
        i as int,
        1,
        false,
        false,
    ));
    while i < n
        invariant
            n == s@.len(),
            start < i <= n,
            1 <= depth <= i - start,
            object_close(s@, start as int, 0, false, false) == object_close(
                s@,
                i as int,
                depth as int,
                in_str,
                esc,
            ),
        decreases n - i,
    {
        let b = s[i];
        if esc {
            esc = false;
        } else if in_str {
            if b == '\\' {
                esc = true;
            } else if b == '"' {
                in_str = false;
            }
        } else if b == '"' {
            in_str = true;
        } else if b == '{' {
            depth = depth + 1;
        } else if b == '}' {
            if depth - 1 == 0 {
                return Some(i);
            }
            depth = depth - 1;
        }
        i = i + 1;
    }
    None
}

/// Where the body of the object value of `key` lies in `json`.
fn object_span(json: &Vec<char>, key: &Vec<char>) -> (r: Option<(usize, usize)>)
    ensures
        r matches Some((a, b)) ==> a <= b <= json@.len() && spec_object_span(json@, key@) == Some(
            (a as int, b as int),
        ),
        r is None ==> spec_object_span(json@, key@) is None,
{
    let mut needle: Vec<char> = Vec::new();
    needle.push('"');
    let mut t: usize = 0;
    while t < key.len()
        invariant
            t <= key@.len(),
            needle@ == seq!['"'] + key@.subrange(0, t as int),
        decreases key@.len() - t,
    {
        needle.push(key[t]);
        assert(key@.subrange(0, t + 1) =~= key@.subrange(0, t as int).push(key@[t as int]));
        t = t + 1;
    }
    needle.push('"');
    needle.push(':');
    assert(key@.subrange(0, key@.len() as int) =~= key@);
    assert(needle@ =~= key_needle(key@));
    match find_from(json, &needle, 0) {
        None => None,
        Some(k) => {
            let jn = json.len();
            assert(k + needle@.len() <= jn);
            let start = skip_space_exec(json, k + needle.len());
            assert(start == skip_space(json@, k + key_needle(key@).len()));
            if start >= json.len() || json[start] != '{' {
                return None;
            }
            match object_close_exec(json, start) {
                Some(end) => Some((start + 1, end)),
                None => None,
            }
        },
    }
}

/// Find `"key":` followed by a `{...}` object value and return the text
/// between the object's outer braces. Strings are skipped and brace depth
/// tracked so nested objects are returned whole.
pub fn extract_object_value<'a>(json: &'a str, key: &str) -> (r: Option<&'a str>)
    ensures
        r is Some <==> spec_extract_object(json@, key@) is Some,
        r matches Some(body) ==> body@ == spec_extract_object(json@, key@)->0,
{
    let cj = chars_of(json);
    let ck = chars_of(key);
    match object_span(&cj, &ck) {
        Some((from, to)) => Some(json.substring_char(from, to)),
        None => None,
    }
}

// ---------------------------------------------------------------------------
// Boolean fields
// ---------------------------------------------------------------------------

/// `"field"`.
pub open spec fn quoted(field: Seq<char>) -> Seq<char> {
    seq!['"'] + field + seq!['"']
}

/// A value ends at `j`: at the end of `s`, or before white space, `,`, `}`
/// or `]`.
pub open spec fn value_ends_at(s: Seq<char>, j: int) -> bool {
    j >= s.len() || is_json_space(s[j]) || s[j] == ',' || s[j] == '}' || s[j] == ']'
}

/// The bare boolean literal that starts at `j`, if any: `true` or `false`
/// followed by the end of the value.
pub open spec fn bool_literal_at(s: Seq<char>, j: int) -> Option<bool> {
    if occurs_at(s, "true"@, j) && value_ends_at(s, j + "true"@.len()) {
        Some(true)
    } else if occurs_at(s, "false"@, j) && value_ends_at(s, j + "false"@.len()) {
        Some(false)
    } else {
        None
    }
}

/// Scanning `s` from `i` at bracket depth `depth` (`{`/`[` open, `}`/`]`
/// close, strings skipped): the value of the first key `kq` at depth 0 that
/// is followed by `:`, if that value is a bare `true` or `false`.
pub open spec fn bool_field_scan(s: Seq<char>, kq: Seq<char>, i: int, depth: int) -> Option<bool>
    decreases s.len() - i,
{
    if i < 0 || i >= s.len() {
        None
    } else if s[i] == '{' || s[i] == '[' {
        bool_field_scan(s, kq, i + 1, depth + 1)
    } else if s[i] == '}' || s[i] == ']' {
        bool_field_scan(s, kq, i + 1, depth - 1)
    } else if s[i] == '"' {
        let j = skip_space(s, i + kq.len());
        if depth == 0 && occurs_at(s, kq, i) && j < s.len() && s[j] == ':' {
            bool_literal_at(s, skip_space(s, j + 1))
        } else {
            proof {
                lemma_string_end_bounds(s, i + 1);
            }
            bool_field_scan(s, kq, string_end(s, i + 1), depth)
        }
    } else {
        bool_field_scan(s, kq, i + 1, depth)
    }
}

/// The value of `"field":true` or `"field":false` at the top level of `obj`.
pub open spec fn spec_bool_field(obj: Seq<char>, field: Seq<char>) -> Option<bool> {
    bool_field_scan(obj, quoted(field), 0, 0)
}

/// Whether a value ends at `j`.
fn value_ends_exec(s: &Vec<char>, j: usize) -> (r: bool)
    ensures
        r == value_ends_at(s@, j as int),
{
    if j >= s.len() {
        return true;
    }
    let c = s[j];
    c == ' ' || c == '\t' || c == '\n' || c == '\u{C}' || c == '\r' || c == ',' || c == '}' || c
        == ']'
}

/// The bare boolean literal that starts at `j`, if any.
fn bool_literal_exec(s: &Vec<char>, j: usize) -> (r: Option<bool>)
    ensures
        r == bool_literal_at(s@, j as int),
{
    let n = s.len();
    let t = chars_of("true");
    let f = chars_of("false");
    if matches_at(s, &t, j) {
        assert(j + t@.len() <= n);
        if value_ends_exec(s, j + t.len()) {
            return Some(true);
        }
    }
    if matches_at(s, &f, j) {
        assert(j + f@.len() <= n);
        if value_ends_exec(s, j + f.len()) {
            return Some(false);
        }
    }
    None
}

/// The value of the top-level key `kq` of `s`, if it is a boolean literal.
fn bool_field_exec(s: &Vec<char>, kq: &Vec<char>) -> (r: Option<bool>)
    ensures
        r == bool_field_scan(s@, kq@, 0, 0),
{
    let n = s.len();
    let mut opens: usize = 0;
    let mut closes: usize = 0;
    let mut i: usize = 0;
    while i < n
        invariant
            n == s@.len(),
            i <= n,
            opens + closes <= i,
            bool_field_scan(s@, kq@, 0, 0) == bool_field_scan(
                s@,
                kq@,
                i as int,
                opens - closes,
            ),
        decreases n - i,
    {
        let c = s[i];
        if c == '{' || c == '[' {
            opens = opens + 1;
            i = i + 1;
        } else if c == '}' || c == ']' {
            closes = closes + 1;
            i = i + 1;
        } else if c == '"' {
            if opens == closes {
                if matches_at(s, kq, i) {
                    let j = skip_space_exec(s, i + kq.len());
                    if j < n && s[j] == ':' {
                        let v = skip_space_exec(s, j + 1);
                        return bool_literal_exec(s, v);
                    }
                }
            }
            i = string_end_exec(s, i + 1);
        } else {
            i = i + 1;
        }
    }
    None
}

/// Find `"field":true` or `"field":false` (white space allowed around the
/// colon) at the top level of `obj`: `None` when absent there or when the
/// value is not a bare boolean literal (one followed by the end of `obj`,
/// white space, `,`, `}` or `]`).
pub fn find_bool_field(obj: &str, field: &str) -> (r: Option<bool>)
    ensures
        r == spec_bool_field(obj@, field@),
{
    let s = chars_of(obj);
    let f = chars_of(field);
    let mut kq: Vec<char> = Vec::new();
    kq.push('"');
    let mut t: usize = 0;
    while t < f.len()
        invariant
            t <= f@.len(),
            kq@ == seq!['"'] + f@.subrange(0, t as int),
        decreases f@.len() - t,
    {
        kq.push(f[t]);
        assert(f@.subrange(0, t + 1) =~= f@.subrange(0, t as int).push(f@[t as int]));
        t = t + 1;
    }
    kq.push('"');
    assert(f@.subrange(0, f@.len() as int) =~= f@);
    assert(kq@ =~= quoted(field@));
    bool_field_exec(&s, &kq)
}

// ---------------------------------------------------------------------------
// meetingUpdate payloads
// ---------------------------------------------------------------------------

/// The part of `meetingUpdate.meetingState` that is used. Both fields are
/// optional: Teams sometimes pushes events without them, and no state is
/// invented then.
#[derive(Debug, PartialEq, Eq, Clone, Copy)]
pub struct MeetingUpdate {
    pub in_meeting: Option<bool>,
    pub is_muted: Option<bool>,
}

impl Default for MeetingUpdate {
    fn default() -> (r: MeetingUpdate)
        ensures
            r.in_meeting is None,
            r.is_muted is None,
    {
        MeetingUpdate { in_meeting: None, is_muted: None }
    }
}

/// `isInMeeting` and `isMuted` at the top level of the `meetingState`
/// object of a payload; both absent without such an object.
pub open spec fn spec_meeting_update(json: Seq<char>) -> (Option<bool>, Option<bool>) {
    match spec_extract_object(json, "meetingState"@) {
        None => (None, None),
        Some(state) => (
            spec_bool_field(state, "isInMeeting"@),
            spec_bool_field(state, "isMuted"@),
        ),
    }
}

/// Extract `meetingState.{isInMeeting,isMuted}` from a Teams
/// `meetingUpdate` JSON payload. Bracket-aware, so `isMuted` is never
/// picked up from a sibling object.
pub fn parse_meeting_update(json: &str) -> (r: MeetingUpdate)
    ensures
        (r.in_meeting, r.is_muted) == spec_meeting_update(json@),
{
    match extract_object_value(json, "meetingState") {
        None => MeetingUpdate { in_meeting: None, is_muted: None },
        Some(state) => MeetingUpdate {
            in_meeting: find_bool_field(state, "isInMeeting"),
            is_muted: find_bool_field(state, "isMuted"),
        },
    }
}

/// `meetingPermissions.canPair`: Teams' signal that the client may send a
/// `pair` action. `None` when the object or the field is absent.
pub open spec fn spec_can_pair(json: Seq<char>) -> Option<bool> {
    match spec_extract_object(json, "meetingPermissions"@) {
        None => None,
        Some(perms) => spec_bool_field(perms, "canPair"@),
    }
}

/// Read `meetingPermissions.canPair` out of a Teams `meetingUpdate` payload.
pub fn parse_can_pair(json: &str) -> (r: Option<bool>)
    ensures
        r == spec_can_pair(json@),
{
    match extract_object_value(json, "meetingPermissions") {
        None => None,
        Some(perms) => find_bool_field(perms, "canPair"),
    }
}

// ---------------------------------------------------------------------------
// Credential redaction
// ---------------------------------------------------------------------------

/// JSON white space: space, tab, line feed or carriage return.
pub open spec fn is_json_blank(c: char) -> bool {
    c == ' ' || c == '\t' || c == '\n' || c == '\r'
}

/// The first index at or after `i` that is not JSON white space.
pub open spec fn skip_blank(s: Seq<char>, i: int) -> int
    decreases s.len() - i,
{
    if 0 <= i < s.len() && is_json_blank(s[i]) {
        skip_blank(s, i + 1)
    } else {
        i
    }
}

/// The first index at or after `i` holding `&` (or the end of `s`).
pub open spec fn skip_to_amp(s: Seq<char>, i: int) -> int
    decreases s.len() - i,
{
    if 0 <= i < s.len() && s[i] != '&' {
        skip_to_amp(s, i + 1)
    } else {
        i
    }
}

/// Skipping blanks never moves backwards or past the end.
pub proof fn lemma_skip_blank_bounds(s: Seq<char>, i: int)
    requires
        0 <= i <= s.len(),
    ensures
        i <= skip_blank(s, i) <= s.len(),
    decreases s.len() - i,
{
    if i < s.len() && is_json_blank(s[i]) {
        lemma_skip_blank_bounds(s, i + 1);
    }
}

/// Skipping to the next `&` never moves backwards or past the end.
pub proof fn lemma_skip_to_amp_bounds(s: Seq<char>, i: int)
    requires
        0 <= i <= s.len(),
    ensures
        i <= skip_to_amp(s, i) <= s.len(),
    decreases s.len() - i,
{
    if i < s.len() && s[i] != '&' {
        lemma_skip_to_amp_bounds(s, i + 1);
    }
}

/// `s[i..]` with credentials redacted: the string value of every
/// `"tokenRefresh"` key (JSON white space allowed around its colon) becomes
/// `"<redacted>"`, and the value of every `token=` query parameter (after
/// `?` or `&`, up to the next `&`) becomes `<redacted>`. Everything else is
/// kept.
pub open spec fn redact_from(s: Seq<char>, i: int) -> Seq<char>
    decreases s.len() - i,
{
    if i < 0 || i >= s.len() {
        Seq::empty()
    } else if occurs_at(s, "\"tokenRefresh\""@, i) {
        proof {
            reveal_strlit("\"tokenRefresh\"");
            lemma_skip_blank_bounds(s, i + "\"tokenRefresh\""@.len());
        }
        let j = skip_blank(s, i + "\"tokenRefresh\""@.len());
        let colon = j < s.len() && s[j] == ':';
        proof {
            lemma_skip_blank_bounds(s, if colon { j + 1 } else { j });
        }
        let k = skip_blank(s, if colon { j + 1 } else { j });
        let head = "\"tokenRefresh\""@ + if colon {
            seq![':']
        } else {
            Seq::empty()
        };
        if k < s.len() && s[k] == '"' {
            proof {
                lemma_string_end_bounds(s, k + 1);
            }
            head + "\"<redacted>\""@ + redact_from(s, string_end(s, k + 1))
        } else {
            head + redact_from(s, k)
        }
    } else if (s[i] == '?' || s[i] == '&') && occurs_at(s, "token="@, i + 1) {
        proof {
            reveal_strlit("token=");
            lemma_skip_to_amp_bounds(s, i + 1 + "token="@.len());
        }
        seq![s[i]] + "token=<redacted>"@ + redact_from(s, skip_to_amp(s, i + 1 + "token="@.len()))
    } else {
        seq![s[i]] + redact_from(s, i + 1)
    }
}

/// Whether `s` holds no credential that `redact_from` would rewrite: no
/// quoted `"tokenRefresh"` key and no `token=` right after a `?` or `&`.
pub open spec fn has_no_credentials(s: Seq<char>) -> bool {
    &&& forall|i: int| !occurs_at(s, "\"tokenRefresh\""@, i)
    &&& forall|i: int|
        0 <= i < s.len() && (s[i] == '?' || s[i] == '&') ==> !occurs_at(s, "token="@, i + 1)
}

/// Text that holds no credentials passes through redaction unchanged.
pub proof fn lemma_redact_keeps_plain_text(s: Seq<char>)
    requires
        has_no_credentials(s),
    ensures
        redact_from(s, 0) == s,
{
    lemma_redact_keeps_suffix(s, s.len() as int);
    assert(s.subrange(0, s.len() as int) =~= s);
}

/// The last `i` characters of credential-free text pass through unchanged.
proof fn lemma_redact_keeps_suffix(s: Seq<char>, i: int)
    requires
        has_no_credentials(s),
        0 <= i <= s.len(),
    ensures
        redact_from(s, s.len() - i) == s.subrange(s.len() - i, s.len() as int),
    decreases i,
{
    let k = s.len() - i;
    if i == 0 {
        assert(s.subrange(k, s.len() as int) =~= Seq::<char>::empty());
    } else {
        lemma_redact_keeps_suffix(s, i - 1);
        assert(!occurs_at(s, "\"tokenRefresh\""@, k));
        assert(s.subrange(k, s.len() as int) =~= seq![s[k]] + s.subrange(k + 1, s.len() as int));
    }
}

/// Two texts that agree from `a` and from `b` on.
pub open spec fn same_tail(s1: Seq<char>, a: int, s2: Seq<char>, b: int) -> bool {
    &&& 0 <= a <= s1.len()
    &&& 0 <= b <= s2.len()
    &&& s1.skip(a) == s2.skip(b)
}

proof fn lemma_same_tail_char(s1: Seq<char>, a: int, s2: Seq<char>, b: int)
    requires
        same_tail(s1, a, s2, b),
    ensures
        s1.len() - a == s2.len() - b,
        a < s1.len() ==> s1[a] == s2[b],
{
    assert(s1.skip(a).len() == s2.skip(b).len());
    if a < s1.len() {
        assert(s1.skip(a)[0] == s2.skip(b)[0]);
    }
}

proof fn lemma_same_tail_advance(s1: Seq<char>, a: int, s2: Seq<char>, b: int, d: int)
    requires
        same_tail(s1, a, s2, b),
        0 <= d <= s1.len() - a,
    ensures
        same_tail(s1, a + d, s2, b + d),
{
    lemma_same_tail_char(s1, a, s2, b);
    assert forall|t: int| 0 <= t < s1.len() - (a + d) implies #[trigger] s1.skip(a + d)[t] == s2.skip(b + d)[t] by {
        assert(s1.skip(a)[d + t] == s2.skip(b)[d + t]);
    }
    assert(s1.skip(a + d) =~= s2.skip(b + d));
}

proof fn lemma_same_tail_occurs(s1: Seq<char>, a: int, s2: Seq<char>, b: int, pat: Seq<char>)
    requires
        same_tail(s1, a, s2, b),
    ensures
        occurs_at(s1, pat, a) == occurs_at(s2, pat, b),
{
    lemma_same_tail_char(s1, a, s2, b);
    if a + pat.len() <= s1.len() {
        assert forall|t: int| 0 <= t < pat.len() implies #[trigger] s1[a + t] == s2[b + t] by {
            assert(s1.skip(a)[t] == s2.skip(b)[t]);
        }
        if occurs_at(s1, pat, a) {
            assert(s2.subrange(b, b + pat.len()) =~= s1.subrange(a, a + pat.len()));
        }
        if occurs_at(s2, pat, b) {
            assert(s2.subrange(b, b + pat.len()) =~= s1.subrange(a, a + pat.len()));
        }
    }
}

proof fn lemma_same_tail_skip_blank(s1: Seq<char>, a: int, s2: Seq<char>, b: int)
    requires
        same_tail(s1, a, s2, b),
    ensures
        skip_blank(s1, a) - a == skip_blank(s2, b) - b,
    decreases s1.len() - a,
{
    lemma_same_tail_char(s1, a, s2, b);
    if a < s1.len() {
        if is_json_blank(s1[a]) {
            lemma_same_tail_advance(s1, a, s2, b, 1);
            lemma_same_tail_skip_blank(s1, a + 1, s2, b + 1);
        }
    }
}

proof fn lemma_same_tail_skip_to_amp(s1: Seq<char>, a: int, s2: Seq<char>, b: int)
    requires
        same_tail(s1, a, s2, b),
    ensures
        skip_to_amp(s1, a) - a == skip_to_amp(s2, b) - b,
    decreases s1.len() - a,
{
    lemma_same_tail_char(s1, a, s2, b);
    if a < s1.len() {
        if s1[a] != '&' {
            lemma_same_tail_advance(s1, a, s2, b, 1);
            lemma_same_tail_skip_to_amp(s1, a + 1, s2, b + 1);
        }
    }
}

proof fn lemma_same_tail_string_end(s1: Seq<char>, a: int, s2: Seq<char>, b: int)
    requires
        same_tail(s1, a, s2, b),
    ensures
        string_end(s1, a) - a == string_end(s2, b) - b,
    decreases s1.len() - a,
{
    lemma_same_tail_char(s1, a, s2, b);
    if a < s1.len() {
        if s1[a] == '\\' && a + 1 < s1.len() {
            lemma_same_tail_advance(s1, a, s2, b, 2);
            lemma_same_tail_string_end(s1, a + 2, s2, b + 2);
        } else if s1[a] != '"' {
            lemma_same_tail_advance(s1, a, s2, b, 1);
            lemma_same_tail_string_end(s1, a + 1, s2, b + 1);
        }
    }
}

/// Redaction looks only forward: it depends on nothing before where it
/// starts.
pub proof fn lemma_redact_depends_on_tail(s1: Seq<char>, a: int, s2: Seq<char>, b: int)
    requires
        same_tail(s1, a, s2, b),
    ensures
        redact_from(s1, a) == redact_from(s2, b),
    decreases s1.len() - a,
{
    reveal_strlit("\"tokenRefresh\"");
    reveal_strlit("token=");
    lemma_same_tail_char(s1, a, s2, b);
    if a < s1.len() {
        let tr = "\"tokenRefresh\""@;
        lemma_same_tail_occurs(s1, a, s2, b, tr);
        if occurs_at(s1, tr, a) {
            lemma_same_tail_advance(s1, a, s2, b, 14);
            lemma_same_tail_skip_blank(s1, a + 14, s2, b + 14);
            lemma_skip_blank_bounds(s1, a + 14);
            let j1 = skip_blank(s1, a + 14);
            let j2 = skip_blank(s2, b + 14);
            lemma_same_tail_advance(s1, a, s2, b, j1 - a);
            lemma_same_tail_char(s1, j1, s2, j2);
            let colon = j1 < s1.len() && s1[j1] == ':';
            let c1 = if colon { j1 + 1 } else { j1 };
            let c2 = if colon { j2 + 1 } else { j2 };
            lemma_same_tail_advance(s1, a, s2, b, c1 - a);
            lemma_same_tail_skip_blank(s1, c1, s2, c2);
            lemma_skip_blank_bounds(s1, c1);
            let k1 = skip_blank(s1, c1);
            let k2 = skip_blank(s2, c2);
            lemma_same_tail_advance(s1, a, s2, b, k1 - a);
            lemma_same_tail_char(s1, k1, s2, k2);
            if k1 < s1.len() && s1[k1] == '"' {
                lemma_same_tail_advance(s1, a, s2, b, k1 + 1 - a);
                lemma_same_tail_string_end(s1, k1 + 1, s2, k2 + 1);
                lemma_string_end_bounds(s1, k1 + 1);
                let e1 = string_end(s1, k1 + 1);
                lemma_same_tail_advance(s1, a, s2, b, e1 - a);
                lemma_redact_depends_on_tail(s1, e1, s2, b + (e1 - a));
            } else {
                lemma_redact_depends_on_tail(s1, k1, s2, k2);
            }
        } else {
            lemma_same_tail_advance(s1, a, s2, b, 1);
            lemma_same_tail_occurs(s1, a + 1, s2, b + 1, "token="@);
            if (s1[a] == '?' || s1[a] == '&') && occurs_at(s1, "token="@, a + 1) {
                lemma_same_tail_advance(s1, a, s2, b, 7);
                lemma_same_tail_skip_to_amp(s1, a + 7, s2, b + 7);
                lemma_skip_to_amp_bounds(s1, a + 7);
                let e1 = skip_to_amp(s1, a + 7);
                lemma_same_tail_advance(s1, a, s2, b, e1 - a);
                lemma_redact_depends_on_tail(s1, e1, s2, b + (e1 - a));
            } else {
                lemma_redact_depends_on_tail(s1, a + 1, s2, b + 1);
            }
        }
    }
}

/// A credential-free text `p` before a credential passes through unchanged,
/// and redaction goes on at the first character after it. The character that
/// follows `p` is taken with it, so that no credential ends there.
proof fn lemma_redact_prefix(p: Seq<char>, rest: Seq<char>)
    requires
        rest.len() > 0,
        rest[0] == '"' || rest[0] == '?' || rest[0] == '&',
        has_no_credentials(p.push(rest[0])),
    ensures
        redact_from(p + rest, 0) == p + redact_from(p + rest, p.len() as int),
{
    lemma_redact_prefix_from(p, rest, p.len() as int);
    assert(p.subrange(0, p.len() as int) =~= p);
}

proof fn lemma_redact_prefix_from(p: Seq<char>, rest: Seq<char>, m: int)
    requires
        rest.len() > 0,
        rest[0] == '"' || rest[0] == '?' || rest[0] == '&',
        has_no_credentials(p.push(rest[0])),
        0 <= m <= p.len(),
    ensures
        redact_from(p + rest, p.len() - m) == p.subrange(p.len() - m, p.len() as int)
            + redact_from(p + rest, p.len() as int),
    decreases m,
{
    let s = p + rest;
    let q = p.push(rest[0]);
    let i = p.len() - m;
    let tr = "\"tokenRefresh\""@;
    let tp = "token="@;
    reveal_strlit("\"tokenRefresh\"");
    reveal_strlit("token=");
    if m == 0 {
        assert(p.subrange(i, p.len() as int) =~= Seq::<char>::empty());
    } else {
        lemma_redact_prefix_from(p, rest, m - 1);
        assert forall|t: int| 0 <= t <= p.len() implies #[trigger] s[t] == q[t] by {}
        if occurs_at(s, tr, i) {
            if i + 14 <= q.len() {
                assert(q.subrange(i, i + 14) =~= s.subrange(i, i + 14));
                assert(occurs_at(q, tr, i));
            } else {
                assert(s[i + (p.len() - i)] == s.subrange(i, i + 14)[p.len() - i]);
            }
            assert(false);
        }
        if (s[i] == '?' || s[i] == '&') && occurs_at(s, tp, i + 1) {
            if i + 7 <= q.len() {
                assert(q.subrange(i + 1, i + 7) =~= s.subrange(i + 1, i + 7));
                assert(occurs_at(q, tp, i + 1));
            } else {
                assert(s[i + 1 + (p.len() - i - 1)] == s.subrange(i + 1, i + 7)[p.len() - i - 1]);
            }
            assert(false);
        }
        assert(p.subrange(i, p.len() as int) =~= seq![p[i]] + p.subrange(i + 1, p.len() as int));
    }
}

proof fn lemma_skip_blank_run(s: Seq<char>, i: int, n: int)
    requires
        0 <= i <= n < s.len(),
        forall|t: int| i <= t < n ==> is_json_blank(#[trigger] s[t]),
        !is_json_blank(s[n]),
    ensures
        skip_blank(s, i) == n,
    decreases n - i,
{
    if i < n {
        lemma_skip_blank_run(s, i + 1, n);
    }
}

proof fn lemma_skip_to_amp_run(s: Seq<char>, i: int, n: int)
    requires
        0 <= i <= n <= s.len(),
        forall|t: int| i <= t < n ==> #[trigger] s[t] != '&',
        n == s.len() || s[n] == '&',
    ensures
        skip_to_amp(s, i) == n,
    decreases n - i,
{
    if i < n {
        lemma_skip_to_amp_run(s, i + 1, n);
    }
}

proof fn lemma_string_end_run(s: Seq<char>, i: int, n: int)
    requires
        0 <= i <= n < s.len(),
        forall|t: int| i <= t < n ==> #[trigger] s[t] != '"' && s[t] != '\\',
        s[n] == '"',
    ensures
        string_end(s, i) == n + 1,
    decreases n - i,
{
    if i < n {
        lemma_string_end_run(s, i + 1, n);
    }
}

/// A character other than `"` and `=` ends no credential.
proof fn lemma_no_credentials_push(p: Seq<char>, c: char)
    requires
        has_no_credentials(p),
        c != '"',
        c != '=',
    ensures
        has_no_credentials(p.push(c)),
{
    reveal_strlit("\"tokenRefresh\"");
    reveal_strlit("token=");
    let tr = "\"tokenRefresh\""@;
    let tp = "token="@;
    let q = p.push(c);
    assert forall|i: int| !occurs_at(q, tr, i) by {
        if occurs_at(q, tr, i) {
            if i + 14 <= p.len() {
                assert(p.subrange(i, i + 14) =~= q.subrange(i, i + 14));
                assert(occurs_at(p, tr, i));
            } else {
                assert(q[i + (p.len() - i)] == q.subrange(i, i + 14)[p.len() - i]);
            }
        }
    }
    assert forall|i: int| 0 <= i < q.len() && (q[i] == '?' || q[i] == '&') implies !occurs_at(
        q,
        tp,
        i + 1,
    ) by {
        if occurs_at(q, tp, i + 1) {
            if i + 7 <= p.len() {
                assert(p.subrange(i + 1, i + 7) =~= q.subrange(i + 1, i + 7));
                assert(p[i] == q[i]);
                assert(occurs_at(p, tp, i + 1));
            } else {
                assert(q[i + 1 + (p.len() - i - 1)] == q.subrange(i + 1, i + 7)[p.len() - i - 1]);
            }
        }
    }
}

/// At `?token=` or `&token=`, redaction writes the separator and
/// `token=<redacted>` and goes on at the next `&` (or the end).
proof fn lemma_redact_query_token_at(s: Seq<char>, n: int, e: int)
    requires
        0 <= n,
        n + 7 <= e <= s.len(),
        s[n] == '?' || s[n] == '&',
        occurs_at(s, "token="@, n + 1),
        forall|t: int| n + 7 <= t < e ==> #[trigger] s[t] != '&',
        e == s.len() || s[e] == '&',
    ensures
        redact_from(s, n) == seq![s[n]] + "token=<redacted>"@ + redact_from(s, e),
{
    reveal_strlit("\"tokenRefresh\"");
    reveal_strlit("token=");
    assert(!occurs_at(s, "\"tokenRefresh\""@, n)) by {
        if occurs_at(s, "\"tokenRefresh\""@, n) {
            assert(s.subrange(n, n + 14)[0] == s[n]);
        }
    }
    lemma_skip_to_amp_run(s, n + 7, e);
}

/// What redaction makes of a `token=` query parameter after credential-free
/// text `p`: its value, up to the next `&`, becomes `<redacted>`, and the
/// rest is redacted on its own.
pub proof fn lemma_redact_query_token(p: Seq<char>, sep: char, v: Seq<char>, q: Seq<char>)
    requires
        sep == '?' || sep == '&',
        has_no_credentials(p),
        !v.contains('&'),
        q.len() == 0 || q[0] == '&',
    ensures
        redact_from(p + seq![sep] + "token="@ + v + q, 0) == p + seq![sep] + "token=<redacted>"@
            + redact_from(q, 0),
{
    reveal_strlit("token=");
    let tp = "token="@;
    let rest = seq![sep] + tp + v + q;
    let s = p + seq![sep] + tp + v + q;
    assert(s =~= p + rest);
    let n = p.len() as int;
    let e = n + 7 + v.len();
    lemma_no_credentials_push(p, sep);
    assert(rest[0] == sep);
    lemma_redact_prefix(p, rest);
    assert(s[n] == sep);
    assert(occurs_at(s, tp, n + 1)) by {
        assert(s.subrange(n + 1, n + 7) =~= tp);
    }
    assert forall|t: int| n + 7 <= t < e implies #[trigger] s[t] != '&' by {
        assert(s[t] == v[t - n - 7]);
    }
    if q.len() > 0 {
        assert(s[e] == q[0]);
    }
    assert(s.skip(e) =~= q);
    assert(q.skip(0) =~= q);
    lemma_redact_query_token_at(s, n, e);
    lemma_redact_depends_on_tail(s, e, q, 0);
}

/// Redaction hides the value of a `token=` query parameter: two texts that
/// differ only in that value are redacted alike.
pub proof fn lemma_redact_hides_query_token(
    p: Seq<char>,
    sep: char,
    v1: Seq<char>,
    v2: Seq<char>,
    q: Seq<char>,
)
    requires
        sep == '?' || sep == '&',
        has_no_credentials(p),
        !v1.contains('&'),
        !v2.contains('&'),
        q.len() == 0 || q[0] == '&',
    ensures
        redact_from(p + seq![sep] + "token="@ + v1 + q, 0) == redact_from(
            p + seq![sep] + "token="@ + v2 + q,
            0,
        ),
{
    lemma_redact_query_token(p, sep, v1, q);
    lemma_redact_query_token(p, sep, v2, q);
}

/// At a `"tokenRefresh"` key with JSON white space around its colon and a
/// string value without quotes or backslashes, redaction writes
/// `"tokenRefresh":"<redacted>"` and goes on after the closing quote.
proof fn lemma_redact_token_refresh_at(s: Seq<char>, n: int, j: int, k: int, e: int)
    requires
        0 <= n,
        n + 14 <= j < k < e < s.len(),
        occurs_at(s, "\"tokenRefresh\""@, n),
        forall|t: int| n + 14 <= t < j ==> is_json_blank(#[trigger] s[t]),
        s[j] == ':',
        forall|t: int| j + 1 <= t < k ==> is_json_blank(#[trigger] s[t]),
        s[k] == '"',
        forall|t: int| k + 1 <= t < e ==> #[trigger] s[t] != '"' && s[t] != '\\',
        s[e] == '"',
    ensures
        redact_from(s, n) == "\"tokenRefresh\":\"<redacted>\""@ + redact_from(s, e + 1),
{
    reveal_strlit("\"tokenRefresh\"");
    reveal_strlit("\"<redacted>\"");
    reveal_strlit("\"tokenRefresh\":\"<redacted>\"");
    let tr = "\"tokenRefresh\""@;
    lemma_skip_blank_run(s, n + 14, j);
    lemma_skip_blank_run(s, j + 1, k);
    lemma_string_end_run(s, k + 1, e);
    assert(redact_from(s, n) == tr + seq![':'] + "\"<redacted>\""@ + redact_from(s, e + 1));
    assert(tr + seq![':'] + "\"<redacted>\""@ =~= "\"tokenRefresh\":\"<redacted>\""@);
}

/// What redaction makes of a `"tokenRefresh"` key with a string value after
/// credential-free text `p`: whatever JSON white space stands around the
/// colon, the pair becomes `"tokenRefresh":"<redacted>"`, and the rest is
/// redacted on its own. (`p` must not end in `"tokenRefresh`, which would
/// make a key of its own with the first quote that follows.)
pub proof fn lemma_redact_token_refresh(
    p: Seq<char>,
    w1: Seq<char>,
    w2: Seq<char>,
    v: Seq<char>,
    q: Seq<char>,
)
    requires
        has_no_credentials(p.push('"')),
        forall|t: int| 0 <= t < w1.len() ==> is_json_blank(#[trigger] w1[t]),
        forall|t: int| 0 <= t < w2.len() ==> is_json_blank(#[trigger] w2[t]),
        !v.contains('"'),
        !v.contains('\\'),
    ensures
        redact_from(
            p + "\"tokenRefresh\""@ + w1 + seq![':'] + w2 + seq!['"'] + v + seq!['"'] + q,
            0,
        ) == p + "\"tokenRefresh\":\"<redacted>\""@ + redact_from(q, 0),
{
    reveal_strlit("\"tokenRefresh\"");
    let tr = "\"tokenRefresh\""@;
    let tail = seq!['"'] + v + seq!['"'] + q;
    let rest = tr + w1 + seq![':'] + w2 + tail;
    let s = p + tr + w1 + seq![':'] + w2 + seq!['"'] + v + seq!['"'] + q;
    assert(s =~= p + rest);
    let n = p.len() as int;
    let j = n + 14 + w1.len();
    let k = j + 1 + w2.len();
    let e = k + 1 + v.len();
    assert(rest[0] == '"');
    lemma_redact_prefix(p, rest);
    assert(occurs_at(s, tr, n)) by {
        assert(s.subrange(n, n + 14) =~= tr);
    }
    assert forall|t: int| n + 14 <= t < j implies is_json_blank(#[trigger] s[t]) by {
        assert(s[t] == w1[t - n - 14]);
    }
    assert(s[j] == ':');
    assert forall|t: int| j + 1 <= t < k implies is_json_blank(#[trigger] s[t]) by {
        assert(s[t] == w2[t - j - 1]);
    }
    assert(s.skip(k) =~= tail);
    assert forall|t: int| k + 1 <= t < e implies #[trigger] s[t] != '"' && s[t] != '\\' by {
        assert(s[t] == s.skip(k)[t - k]);
        assert(tail[t - k] == v[t - k - 1]);
    }
    assert(s[k] == s.skip(k)[0]);
    assert(s[e] == s.skip(k)[e - k]);
    assert(s.skip(e + 1) =~= q);
    assert(q.skip(0) =~= q);
    lemma_redact_token_refresh_at(s, n, j, k, e);
    lemma_redact_depends_on_tail(s, e + 1, q, 0);
}

/// Redaction hides the value of `"tokenRefresh"`, whatever JSON white space
/// stands around its colon: two texts that differ only in that value are
/// redacted alike.
pub proof fn lemma_redact_hides_token_refresh(
    p: Seq<char>,
    w1: Seq<char>,
    w2: Seq<char>,
    v1: Seq<char>,
    v2: Seq<char>,
    q: Seq<char>,
)
    requires
        has_no_credentials(p.push('"')),
        forall|t: int| 0 <= t < w1.len() ==> is_json_blank(#[trigger] w1[t]),
        forall|t: int| 0 <= t < w2.len() ==> is_json_blank(#[trigger] w2[t]),
        !v1.contains('"'),
        !v1.contains('\\'),
        !v2.contains('"'),
        !v2.contains('\\'),
    ensures
        redact_from(
            p + "\"tokenRefresh\""@ + w1 + seq![':'] + w2 + seq!['"'] + v1 + seq!['"'] + q,
            0,
        ) == redact_from(
            p + "\"tokenRefresh\""@ + w1 + seq![':'] + w2 + seq!['"'] + v2 + seq!['"'] + q,
            0,
        ),
{
    lemma_redact_token_refresh(p, w1, w2, v1, q);
    lemma_redact_token_refresh(p, w1, w2, v2, q);
}

/// Redacts Teams credentials from a string before it is written to the
/// diagnostic log: the `tokenRefresh` JSON value and the `token=` URL query
/// parameter. Only the exact quoted key is matched.
pub fn redact_secrets(s: &str) -> (r: String)
    ensures
        r@ == redact_from(s@, 0),
{
    let c = chars_of(s);
    let tr = chars_of("\"tokenRefresh\"");
    let tp = chars_of("token=");
    proof {
        reveal_strlit("\"tokenRefresh\"");
        reveal_strlit("token=");
    }
    let n = c.len();
    let mut out = String::new();
    let mut i: usize = 0;
    while i < n
        invariant
            n == c@.len(),
            c@ == s@,
            tr@ == "\"tokenRefresh\""@,
            tp@ == "token="@,
            tr@.len() == 14,
            tp@.len() == 6,
            i <= n,
            redact_from(s@, 0) == out@ + redact_from(s@, i as int),
        decreases n - i,
    {
        let ghost before = out@;
        let ghost i0 = i;
        if matches_at(&c, &tr, i) {
            out.append("\"tokenRefresh\"");
            let mut j = i + 14;
            while j < n && (c[j] == ' ' || c[j] == '\t' || c[j] == '\n' || c[j] == '\r')
                invariant
                    n == c@.len(),
                    i + 14 <= j <= n,
                    skip_blank(s@, i + 14) == skip_blank(s@, j as int),
                    c@ == s@,
                decreases n - j,
            {
                j = j + 1;
            }
            let colon = j < n && c[j] == ':';
            if colon {
                push_char(&mut out, ':');
                j = j + 1;
            }
            let ghost j1 = j;
            while j < n && (c[j] == ' ' || c[j] == '\t' || c[j] == '\n' || c[j] == '\r')
                invariant
                    n == c@.len(),
                    j1 <= j <= n,
                    skip_blank(s@, j1 as int) == skip_blank(s@, j as int),
                    c@ == s@,
                decreases n - j,
            {
                j = j + 1;
            }
            assert(out@ =~= before + "\"tokenRefresh\""@ + if colon {
                seq![':']
            } else {
                Seq::empty()
            });
            if j < n && c[j] == '"' {
                out.append("\"<redacted>\"");
                i = string_end_exec(&c, j + 1);
            } else {
                i = j;
            }
            assert(before + redact_from(s@, i0 as int) =~= out@ + redact_from(s@, i as int));
        } else if (c[i] == '?' || c[i] == '&') && matches_at(&c, &tp, i + 1) {
            push_char(&mut out, c[i]);
            out.append("token=<redacted>");
            let mut j = i + 7;
            while j < n && c[j] != '&'
                invariant
                    n == c@.len(),
                    i + 7 <= j <= n,
                    skip_to_amp(s@, i + 7) == skip_to_amp(s@, j as int),
                    c@ == s@,
                decreases n - j,
            {
                j = j + 1;
            }
            i = j;
        } else {
            push_char(&mut out, c[i]);
            i = i + 1;
        }
    }
    out
}

} // verus!

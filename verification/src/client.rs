//! Decisions of the Microsoft Teams Local API client: the connection path,
//! the upgrade handshake, the frames it answers, the messages it reads, and
//! the reconnect backoff. The socket work itself happens in the caller.
//!
//! The client sends exactly one kind of action, a `pair` request, at most
//! once per connection and only when Teams advertises `canPair:true`.

use vstd::prelude::*;
use vstd::utf8::{decode_utf8, encode_utf8, encode_utf8_decode_utf8, valid_utf8};
use crate::text::{
    chars_of, find_from, occurs_at, push_char, spec_find, is_first_occurrence,
    lemma_spec_find_first,
};
use crate::teams::{is_unicode_whitespace, skip_run, skip_while_ws, slice_chars};
use crate::websocket::{build_masked_frame, spec_masked_frame};

verus! {

/// TCP port of the Teams Local API on the loopback interface.
pub const TEAMS_PORT: u16 = 8124;

/// Largest receive buffer (and assembled fragmented message) accepted
/// before the connection is cycled.
pub const MAX_RECV_BUFFER: usize = 65536;

/// Reconnect backoff bounds, in milliseconds.
pub const INITIAL_BACKOFF_MS: u32 = 1000;

pub const MAX_BACKOFF_MS: u32 = 30000;

/// The version this client reports to Teams.
pub const APP_VERSION: &'static str = "0.1.0";

// ---------------------------------------------------------------------------
// Connection path and messages
// ---------------------------------------------------------------------------

/// The upgrade path: the client's identity, then `&token=...` when a
/// non-empty token is held.
pub open spec fn spec_pair_path(token: Option<Seq<char>>) -> Seq<char> {
    "/?protocol-version=2.0.0&manufacturer=HotMic&device=PC&app=HotMic&app-version="@ + APP_VERSION@
        + match token {
        Some(t) => if t.len() > 0 {
            "&token="@ + t
        } else {
            Seq::empty()
        },
        None => Seq::empty(),
    }
}

/// Path and query of the WebSocket upgrade request to Teams.
pub fn build_pair_path(token: Option<&str>) -> (r: String)
    ensures
        r@ == spec_pair_path(
            match token {
                Some(t) => Some(t@),
                None => None,
            },
        ),
{
    let mut p = "/?protocol-version=2.0.0&manufacturer=HotMic&device=PC&app=HotMic&app-version=".to_owned();
    p.append(APP_VERSION);
    match token {
        Some(t) => {
            if !t.is_empty() {
                p.append("&token=");
                p.append(t);
            } else {
                assert(p@ =~= p@ + Seq::<char>::empty());
            }
        },
        None => {
            assert(p@ =~= p@ + Seq::<char>::empty());
        },
    }
    p
}

/// The value of the first `"tokenRefresh"` key when it is followed (white
/// space allowed) by `:` and a quoted string: the text up to the next `"`.
pub open spec fn spec_token_refresh(json: Seq<char>) -> Option<Seq<char>> {
    match spec_find(json, "\"tokenRefresh\""@, 0) {
        None => None,
        Some(k) => {
            let a = skip_while_ws(json, k + "\"tokenRefresh\""@.len(), true);
            if a < json.len() && json[a] == ':' {
                let b = skip_while_ws(json, a + 1, true);
                if b < json.len() && json[b] == '"' {
                    match spec_find(json, seq!['"'], b + 1) {
                        Some(e) => Some(json.subrange(b + 1, e)),
                        None => None,
                    }
                } else {
                    None
                }
            } else {
                None
            }
        },
    }
}

proof fn lemma_skip_ws_run(s: Seq<char>, i: int, n: int)
    requires
        0 <= i <= n < s.len(),
        forall|t: int| i <= t < n ==> is_unicode_whitespace(#[trigger] s[t]),
        !is_unicode_whitespace(s[n]),
    ensures
        skip_while_ws(s, i, true) == n,
    decreases n - i,
{
    if i < n {
        lemma_skip_ws_run(s, i + 1, n);
    }
}

/// The token of a `"tokenRefresh"` message is its whole quoted value: after
/// text `p` that holds no such key (and does not end in `"tokenRefresh`,
/// which would make a key with the quote that follows), a key followed by
/// white space, a colon, white space and a string `v` without quotes gives
/// exactly `v`, whatever its length and whatever follows.
pub proof fn lemma_token_refresh_is_whole_value(
    p: Seq<char>,
    w1: Seq<char>,
    w2: Seq<char>,
    v: Seq<char>,
    q: Seq<char>,
)
    requires
        forall|i: int| !occurs_at(p.push('"'), "\"tokenRefresh\""@, i),
        forall|t: int| 0 <= t < w1.len() ==> is_unicode_whitespace(#[trigger] w1[t]),
        forall|t: int| 0 <= t < w2.len() ==> is_unicode_whitespace(#[trigger] w2[t]),
        !v.contains('"'),
    ensures
        spec_token_refresh(
            p + "\"tokenRefresh\""@ + w1 + seq![':'] + w2 + seq!['"'] + v + seq!['"'] + q,
        ) == Some(v),
{
    reveal_strlit("\"tokenRefresh\"");
    let tr = "\"tokenRefresh\""@;
    let tail = seq!['"'] + v + seq!['"'] + q;
    let s = p + tr + w1 + seq![':'] + w2 + seq!['"'] + v + seq!['"'] + q;
    assert(s =~= p + tr + w1 + seq![':'] + w2 + tail);
    let pq = p.push('"');
    let n = p.len() as int;
    let a = n + 14 + w1.len();
    let b = a + 1 + w2.len();
    let e = b + 1 + v.len();
    assert forall|t: int| 0 <= t <= n implies #[trigger] s[t] == pq[t] by {}
    assert(occurs_at(s, tr, n)) by {
        assert(s.subrange(n, n + 14) =~= tr);
    }
    assert forall|i: int| 0 <= i < n implies !occurs_at(s, tr, i) by {
        if occurs_at(s, tr, i) {
            if i + 14 <= pq.len() {
                assert(pq.subrange(i, i + 14) =~= s.subrange(i, i + 14));
                assert(occurs_at(pq, tr, i));
            } else {
                assert(s[i + (n - i)] == s.subrange(i, i + 14)[n - i]);
            }
            assert(false);
        }
    }
    assert(is_first_occurrence(s, tr, 0, n));
    lemma_spec_find_first(s, tr, 0, n);
    assert forall|t: int| n + 14 <= t < a implies is_unicode_whitespace(#[trigger] s[t]) by {
        assert(s[t] == w1[t - n - 14]);
    }
    assert(s[a] == ':');
    lemma_skip_ws_run(s, n + 14, a);
    assert forall|t: int| a + 1 <= t < b implies is_unicode_whitespace(#[trigger] s[t]) by {
        assert(s[t] == w2[t - a - 1]);
    }
    assert(s.skip(b) =~= tail);
    assert(s[b] == s.skip(b)[0]);
    assert(s[b] == '"');
    lemma_skip_ws_run(s, a + 1, b);
    let quote = seq!['"'];
    assert forall|j: int| b + 1 <= j < e implies !occurs_at(s, quote, j) by {
        assert(s[j] == s.skip(b)[j - b]);
        assert(tail[j - b] == v[j - b - 1]);
        if occurs_at(s, quote, j) {
            assert(s.subrange(j, j + 1)[0] == s[j]);
        }
    }
    assert(s[e] == s.skip(b)[e - b]);
    assert(occurs_at(s, quote, e)) by {
        assert(s.subrange(e, e + 1) =~= quote);
    }
    assert(is_first_occurrence(s, quote, b + 1, e));
    lemma_spec_find_first(s, quote, b + 1, e);
    assert forall|t: int| 0 <= t < v.len() implies #[trigger] s.subrange(b + 1, e)[t] == v[t] by {
        assert(s[b + 1 + t] == s.skip(b)[1 + t]);
    }
    assert(s.subrange(b + 1, e) =~= v);
}

/// The token in a `{"tokenRefresh":"<token>"}` message from Teams.
pub fn extract_token_refresh(json: &str) -> (r: Option<String>)
    ensures
        r is Some <==> spec_token_refresh(json@) is Some,
        r matches Some(t) ==> t@ == spec_token_refresh(json@)->0,
{
    let c = chars_of(json);
    let key = chars_of("\"tokenRefresh\"");
    let k = match find_from(&c, &key, 0) {
        Some(k) => k,
        None => {
            return None;
        },
    };
    let cn = c.len();
    assert(k + key@.len() <= cn);
    let a = skip_run(&c, k + key.len(), true);
    if !(a < c.len() && c[a] == ':') {
        return None;
    }
    let b = skip_run(&c, a + 1, true);
    if !(b < c.len() && c[b] == '"') {
        return None;
    }
    let mut quote: Vec<char> = Vec::new();
    quote.push('"');
    assert(quote@ =~= seq!['"']);
    match find_from(&c, &quote, b + 1) {
        Some(e) => {
            let v = slice_chars(&c, b + 1, e);
            let mut out = String::new();
            let mut i: usize = 0;
            while i < v.len()
                invariant
                    i <= v@.len(),
                    out@ == v@.subrange(0, i as int),
                decreases v@.len() - i,
            {
                push_char(&mut out, v[i]);
                assert(v@.subrange(0, i + 1) =~= v@.subrange(0, i as int).push(v@[i as int]));
                i = i + 1;
            }
            assert(v@.subrange(0, v@.len() as int) =~= v@);
            Some(out)
        },
        None => None,
    }
}

/// Whether `needle` occurs in `hay` at `i`.
fn bytes_match_at(hay: &[u8], needle: &[u8], i: usize) -> (r: bool)
    ensures
        r == occurs_at(hay@, needle@, i as int),
{
    let n = hay.len();
    let m = needle.len();
    if i > n || m > n - i {
        return false;
    }
    let mut k: usize = 0;
    while k < m
        invariant
            m == needle@.len(),
            n == hay@.len(),
            i + m <= n,
            k <= m,
            forall|j: int| 0 <= j < k ==> hay@[i + j] == needle@[j],
        decreases m - k,
    {
        if hay[i + k] != needle[k] {
            assert(hay@.subrange(i as int, i + m)[k as int] != needle@[k as int]);
            return false;
        }
        k = k + 1;
    }
    assert(hay@.subrange(i as int, i + m) =~= needle@);
    true
}

/// The first position of a non-empty `needle` in `haystack`.
pub fn find_subslice(haystack: &[u8], needle: &[u8]) -> (r: Option<usize>)
    ensures
        needle@.len() == 0 ==> r is None,
        needle@.len() > 0 ==> (r matches Some(k) ==> is_first_occurrence(haystack@, needle@, 0, k as int)),
        needle@.len() > 0 ==> (r is None <==> forall|j: int| !occurs_at(haystack@, needle@, j)),
{
    let n = haystack.len();
    let m = needle.len();
    if m == 0 || n < m {
        return None;
    }
    let mut i: usize = 0;
    while i <= n - m
        invariant
            n == haystack@.len(),
            m == needle@.len(),
            0 < m <= n,
            i <= n - m + 1,
            forall|j: int| 0 <= j < i ==> !occurs_at(haystack@, needle@, j),
        decreases n - m + 1 - i,
    {
        if bytes_match_at(haystack, needle, i) {
            return Some(i);
        }
        i = i + 1;
    }
    None
}

/// The `str` that `v` encodes, when `v` is valid UTF-8.
///
/// Trusted: calls `std::str::from_utf8`, which the documentation says
/// succeeds exactly on valid UTF-8 and then returns a string slice over the
/// same bytes.
#[verifier::external_body]
pub(crate) fn utf8_str(v: &[u8]) -> (r: Option<&str>)
    ensures
        r is Some <==> valid_utf8(v@),
        r matches Some(s) ==> encode_utf8(s@) == v@,
{
    std::str::from_utf8(v).ok()
}

/// Teams accepted the upgrade when the response head is UTF-8 text whose
/// first line starts with `HTTP/1.1 101`.
pub open spec fn spec_upgrade_accepted(head: Seq<u8>) -> bool {
    valid_utf8(head) && occurs_at(decode_utf8(head), "HTTP/1.1 101"@, 0)
}

/// Whether an HTTP response head (before its blank line) accepts the
/// WebSocket upgrade.
pub fn upgrade_accepted(head: &[u8]) -> (r: bool)
    ensures
        r == spec_upgrade_accepted(head@),
{
    match utf8_str(head) {
        None => false,
        Some(text) => {
            proof {
                encode_utf8_decode_utf8(text@);
            }
            let c = chars_of(text);
            let status = chars_of("HTTP/1.1 101");
            crate::text::matches_at(&c, &status, 0)
        },
    }
}

/// Build a masked pong frame (FIN=1, opcode=0xA) carrying `payload`, the
/// answer to a ping.
pub fn ws_build_pong_frame(payload: &[u8], mask_key: [u8; 4]) -> (r: Vec<u8>)
    ensures
        r@ == spec_masked_frame(0x8A, payload@, mask_key@),
{
    build_masked_frame(0x8A, payload, mask_key)
}

// ---------------------------------------------------------------------------
// Client state
// ---------------------------------------------------------------------------

/// Where the connection to Teams stands.
#[derive(Clone, Copy, PartialEq, Eq, Debug, Structural)]
pub enum ConnState {
    /// No socket open: between attempts or not started.
    Idle,
    /// Waiting for the TCP connection.
    Connecting,
    /// HTTP upgrade request sent; waiting for `101 Switching Protocols`.
    Upgrading,
    /// Receiving WebSocket frames.
    Open,
}

/// What the client knows and remembers between socket events.
pub struct ClientState {
    pub conn: ConnState,
    /// Bytes received and not yet consumed.
    pub recv_buf: Vec<u8>,
    /// Last `meetingState.isMuted` observed.
    pub is_muted: bool,
    /// Last `meetingState.isInMeeting` observed.
    pub in_meeting: bool,
    /// A complete meeting state arrived on this connection.
    pub meeting_state_seen: bool,
    /// Delay before the next reconnect attempt.
    pub backoff_ms: u32,
    /// A reconnect is already scheduled for the current disconnect.
    pub reconnect_pending: bool,
    /// The pairing token Teams granted, if any.
    pub token: Option<String>,
    /// The fragmented data message being assembled.
    pub fragment_buf: Vec<u8>,
    /// Opcode of the fragmented message in progress.
    pub fragment_opcode: Option<u8>,
    /// A `pair` action went out on this connection.
    pub pair_sent: bool,
}

/// The client state with sequences in place of buffers and strings.
pub struct ClientModel {
    pub conn: ConnState,
    pub recv_buf: Seq<u8>,
    pub is_muted: bool,
    pub in_meeting: bool,
    pub meeting_state_seen: bool,
    pub backoff_ms: nat,
    pub reconnect_pending: bool,
    pub token: Option<Seq<char>>,
    pub fragment_buf: Seq<u8>,
    pub fragment_opcode: Option<u8>,
    pub pair_sent: bool,
}

/// An optional string as an optional character sequence.
pub open spec fn option_string_view(o: Option<String>) -> Option<Seq<char>> {
    match o {
        Some(s) => Some(s@),
        None => None,
    }
}

impl View for ClientState {
    type V = ClientModel;

    open spec fn view(&self) -> ClientModel {
        ClientModel {
            conn: self.conn,
            recv_buf: self.recv_buf@,
            is_muted: self.is_muted,
            in_meeting: self.in_meeting,
            meeting_state_seen: self.meeting_state_seen,
            backoff_ms: self.backoff_ms as nat,
            reconnect_pending: self.reconnect_pending,
            token: option_string_view(self.token),
            fragment_buf: self.fragment_buf@,
            fragment_opcode: self.fragment_opcode,
            pair_sent: self.pair_sent,
        }
    }
}

impl ClientModel {
    /// The backoff stays within its bounds, and a fragment buffer is only in
    /// use while a fragmented message is in progress.
    pub open spec fn wf(self) -> bool {
        &&& INITIAL_BACKOFF_MS <= self.backoff_ms <= MAX_BACKOFF_MS
        &&& self.fragment_opcode is None ==> self.fragment_buf.len() == 0
    }

    /// The Local API mute state: known only on an open connection after a
    /// complete meeting state; muted only while in a meeting.
    pub open spec fn local_api_muted(self) -> Option<bool> {
        if self.conn == ConnState::Open && self.meeting_state_seen {
            Some(self.in_meeting && self.is_muted)
        } else {
            None
        }
    }

    /// The state once the connection is dropped: nothing received, no
    /// fragment, no live meeting state, no pair sent. Backoff, pending
    /// reconnect and token are kept.
    pub open spec fn disconnected(self) -> ClientModel {
        ClientModel {
            conn: ConnState::Idle,
            recv_buf: Seq::empty(),
            is_muted: false,
            in_meeting: false,
            meeting_state_seen: false,
            fragment_buf: Seq::empty(),
            fragment_opcode: None,
            pair_sent: false,
            ..self
        }
    }
}

/// Scheduling a reconnect: the connection is dropped; unless a reconnect is
/// already pending, the current backoff is the delay to arm and the backoff
/// doubles up to its cap.
pub open spec fn spec_schedule_reconnect(m: ClientModel) -> (ClientModel, Option<nat>) {
    if m.reconnect_pending {
        (m.disconnected(), None)
    } else {
        (
            ClientModel {
                backoff_ms: if 2 * m.backoff_ms > MAX_BACKOFF_MS {
                    MAX_BACKOFF_MS as nat
                } else {
                    2 * m.backoff_ms
                },
                reconnect_pending: true,
                ..m.disconnected()
            },
            Some(m.backoff_ms),
        )
    }
}

/// What handling a text message asks of the caller.
pub struct TextOutcome {
    /// A new token to store.
    pub new_token: Option<String>,
    /// The stored token is stale and must be deleted.
    pub delete_token: bool,
    /// Send the `pair` action now.
    pub send_pair: bool,
}

pub struct TextOutcomeModel {
    pub new_token: Option<Seq<char>>,
    pub delete_token: bool,
    pub send_pair: bool,
}

impl View for TextOutcome {
    type V = TextOutcomeModel;

    open spec fn view(&self) -> TextOutcomeModel {
        TextOutcomeModel {
            new_token: option_string_view(self.new_token),
            delete_token: self.delete_token,
            send_pair: self.send_pair,
        }
    }
}

/// Handling a text message from Teams: a `tokenRefresh` replaces the token;
/// `meetingState` fields update the meeting flags (leaving a meeting clears
/// the mute flag, and both fields together make the state complete); and
/// `canPair:true`, when no pair went out on this connection yet, asks for a
/// `pair` action after discarding any token held (it is stale).
pub open spec fn spec_handle_text(m: ClientModel, text: Seq<char>) -> (ClientModel, TextOutcomeModel) {
    let refreshed = spec_token_refresh(text);
    let token = match refreshed {
        Some(t) => Some(t),
        None => m.token,
    };
    let update = crate::json::spec_meeting_update(text);
    let in_meeting = match update.0 {
        Some(b) => b,
        None => m.in_meeting,
    };
    let is_muted = if update.0 == Some(false) {
        false
    } else {
        match update.1 {
            Some(b) => b,
            None => m.is_muted,
        }
    };
    let send_pair = !m.pair_sent && crate::json::spec_can_pair(text) == Some(true);
    let delete_token = send_pair && token is Some;
    (
        ClientModel {
            token: if send_pair { None } else { token },
            in_meeting,
            is_muted,
            meeting_state_seen: m.meeting_state_seen || (update.0 is Some && update.1 is Some),
            ..m
        },
        TextOutcomeModel { new_token: refreshed, delete_token, send_pair },
    )
}

/// What a complete frame asks of the caller.
pub enum FrameAction {
    /// Nothing to do.
    Nothing,
    /// A text message was handled.
    Text(TextOutcome),
    /// Answer a ping with a pong carrying this payload.
    Pong(Vec<u8>),
    /// Teams closed the connection: acknowledge, then reconnect.
    Close,
    /// Protocol error: reconnect.
    Reconnect,
}

pub enum FrameActionModel {
    Nothing,
    Text(TextOutcomeModel),
    Pong(Seq<u8>),
    Close,
    Reconnect,
}

impl View for FrameAction {
    type V = FrameActionModel;

    open spec fn view(&self) -> FrameActionModel {
        match self {
            FrameAction::Nothing => FrameActionModel::Nothing,
            FrameAction::Text(o) => FrameActionModel::Text(o@),
            FrameAction::Pong(p) => FrameActionModel::Pong(p@),
            FrameAction::Close => FrameActionModel::Close,
            FrameAction::Reconnect => FrameActionModel::Reconnect,
        }
    }
}

/// A complete data message: only text (opcode 0x1) that is valid UTF-8 is
/// handled; binary messages and invalid text are ignored.
pub open spec fn spec_dispatch(m: ClientModel, opcode: u8, data: Seq<u8>) -> (ClientModel, FrameActionModel) {
    if opcode == 1 && valid_utf8(data) {
        let (next, out) = spec_handle_text(m, decode_utf8(data));
        (next, FrameActionModel::Text(out))
    } else {
        (m, FrameActionModel::Nothing)
    }
}

/// Handling one complete frame. A continuation (0x0) extends the fragmented
/// message in progress, and its final fragment delivers the whole message;
/// a continuation without a message in progress, or one that grows it past
/// the limit, is a protocol error. Text and binary frames (0x1, 0x2) are
/// delivered when final and start a fragmented message otherwise. A ping
/// (0x9) is answered with a pong; a close (0x8) ends the connection; other
/// opcodes are ignored.
pub open spec fn spec_handle_frame(m: ClientModel, fin: bool, opcode: u8, payload: Seq<u8>) -> (
    ClientModel,
    FrameActionModel,
) {
    if opcode == 0 {
        match m.fragment_opcode {
            None => (m, FrameActionModel::Reconnect),
            Some(start) => if m.fragment_buf.len() + payload.len() > MAX_RECV_BUFFER {
                (m, FrameActionModel::Reconnect)
            } else if fin {
                spec_dispatch(
                    ClientModel { fragment_buf: Seq::empty(), fragment_opcode: None, ..m },
                    start,
                    m.fragment_buf + payload,
                )
            } else {
                (ClientModel { fragment_buf: m.fragment_buf + payload, ..m }, FrameActionModel::Nothing)
            },
        }
    } else if opcode == 1 || opcode == 2 {
        if fin {
            spec_dispatch(m, opcode, payload)
        } else {
            (
                ClientModel { fragment_buf: payload, fragment_opcode: Some(opcode), ..m },
                FrameActionModel::Nothing,
            )
        }
    } else if opcode == 9 {
        (m, FrameActionModel::Pong(payload))
    } else if opcode == 8 {
        (m, FrameActionModel::Close)
    } else {
        (m, FrameActionModel::Nothing)
    }
}

/// What the bytes received so far hold.
pub enum FrameStep {
    /// Not a whole frame yet.
    NeedMore,
    /// A malformed frame: the connection must be cycled.
    Malformed,
    /// A complete frame, already removed from the receive buffer.
    Frame { fin: bool, opcode: u8, payload: Vec<u8> },
}

/// How the upgrade handshake stands.
#[derive(Clone, Copy, PartialEq, Eq, Debug, Structural)]
pub enum UpgradeStep {
    /// The response head is not complete yet.
    Incomplete,
    /// Teams refused the upgrade: the connection must be cycled.
    Rejected,
    /// The connection is open; the backoff was reset.
    Accepted,
}

/// The blank line that ends an HTTP response head.
pub open spec fn head_terminator() -> Seq<u8> {
    seq![13u8, 10u8, 13u8, 10u8]
}

/// A copy of `data[from..]`.
fn copy_from(data: &[u8], from: usize) -> (r: Vec<u8>)
    requires
        from <= data@.len(),
    ensures
        r@ == data@.skip(from as int),
{
    let n = data.len();
    let mut out: Vec<u8> = Vec::new();
    let mut i: usize = from;
    while i < n
        invariant
            n == data@.len(),
            from <= i <= n,
            out@ == data@.subrange(from as int, i as int),
        decreases n - i,
    {
        out.push(data[i]);
        assert(data@.subrange(from as int, i + 1) =~= data@.subrange(from as int, i as int).push(
            data@[i as int],
        ));
        i = i + 1;
    }
    assert(data@.subrange(from as int, n as int) =~= data@.skip(from as int));
    out
}

impl ClientState {
    /// A client that has not connected yet, holding a stored token if any.
    pub fn new(token: Option<String>) -> (s: Self)
        ensures
            s@.wf(),
            s@ == (ClientModel {
                conn: ConnState::Idle,
                recv_buf: Seq::empty(),
                is_muted: false,
                in_meeting: false,
                meeting_state_seen: false,
                backoff_ms: INITIAL_BACKOFF_MS as nat,
                reconnect_pending: false,
                token: option_string_view(token),
                fragment_buf: Seq::empty(),
                fragment_opcode: None,
                pair_sent: false,
            }),
    {
        ClientState {
            conn: ConnState::Idle,
            recv_buf: Vec::new(),
            is_muted: false,
            in_meeting: false,
            meeting_state_seen: false,
            backoff_ms: INITIAL_BACKOFF_MS,
            reconnect_pending: false,
            token,
            fragment_buf: Vec::new(),
            fragment_opcode: None,
            pair_sent: false,
        }
    }

    /// The mute state reported by the Local API, when it is authoritative.
    pub fn local_api_muted(&self) -> (r: Option<bool>)
        ensures
            r == self@.local_api_muted(),
    {
        if self.conn == ConnState::Open && self.meeting_state_seen {
            Some(self.in_meeting && self.is_muted)
        } else {
            None
        }
    }

    /// Forget everything tied to the current connection.
    pub fn reset_connection(&mut self)
        requires
            old(self)@.wf(),
        ensures
            final(self)@ == old(self)@.disconnected(),
            final(self)@.wf(),
            final(self)@.local_api_muted() is None,
    {
        self.conn = ConnState::Idle;
        self.recv_buf = Vec::new();
        self.fragment_buf = Vec::new();
        self.fragment_opcode = None;
        self.is_muted = false;
        self.in_meeting = false;
        self.meeting_state_seen = false;
        self.pair_sent = false;
    }

    /// Drop the connection and schedule a reconnect. Returns the delay to
    /// arm, or `None` when a reconnect is already pending for this
    /// disconnect (several socket events often report one drop); the backoff
    /// then stays as it is. Otherwise the backoff doubles, up to its cap.
    pub fn schedule_reconnect(&mut self) -> (delay: Option<u32>)
        requires
            old(self)@.wf(),
        ensures
            final(self)@.wf(),
            final(self)@ == spec_schedule_reconnect(old(self)@).0,
            (match delay {
                Some(d) => Some(d as nat),
                None => None,
            }) == spec_schedule_reconnect(old(self)@).1,
    {
        self.reset_connection();
        if self.reconnect_pending {
            return None;
        }
        let delay = self.backoff_ms;
        let doubled = self.backoff_ms * 2;
        self.backoff_ms = if doubled > MAX_BACKOFF_MS {
            MAX_BACKOFF_MS
        } else {
            doubled
        };
        self.reconnect_pending = true;
        Some(delay)
    }

    /// The reconnect timer fired: no reconnect is pending any more, and a
    /// connection attempt is due if none is open.
    pub fn reconnect_timer_fired(&mut self) -> (connect: bool)
        ensures
            final(self)@ == (ClientModel { reconnect_pending: false, ..old(self)@ }),
            connect == (old(self).conn == ConnState::Idle),
    {
        self.reconnect_pending = false;
        self.conn == ConnState::Idle
    }

    /// A socket was opened and a connection attempt started.
    pub fn connect_started(&mut self)
        ensures
            final(self)@ == (ClientModel {
                conn: ConnState::Connecting,
                recv_buf: Seq::empty(),
                ..old(self)@
            }),
    {
        self.recv_buf = Vec::new();
        self.conn = ConnState::Connecting;
    }

    /// The HTTP upgrade request went out.
    pub fn upgrade_sent(&mut self)
        ensures
            final(self)@ == (ClientModel { conn: ConnState::Upgrading, ..old(self)@ }),
    {
        self.conn = ConnState::Upgrading;
    }

    /// The `pair` action went out.
    pub fn pair_sent_ok(&mut self)
        ensures
            final(self)@ == (ClientModel { pair_sent: true, ..old(self)@ }),
    {
        self.pair_sent = true;
    }

    /// The receive buffer reached its limit; the connection must be cycled.
    pub fn recv_buffer_full(&self) -> (r: bool)
        ensures
            r == (self.recv_buf@.len() >= MAX_RECV_BUFFER),
    {
        self.recv_buf.len() >= MAX_RECV_BUFFER
    }

    /// Append received bytes.
    pub fn receive(&mut self, data: &[u8])
        ensures
            final(self)@ == (ClientModel { recv_buf: old(self)@.recv_buf + data@, ..old(self)@ }),
    {
        let ghost start = self.recv_buf@;
        let n = data.len();
        let mut i: usize = 0;
        while i < n
            invariant
                n == data@.len(),
                i <= n,
                self.recv_buf@ == start + data@.subrange(0, i as int),
                self@ == (ClientModel { recv_buf: self.recv_buf@, ..old(self)@ }),
            decreases n - i,
        {
            self.recv_buf.push(data[i]);
            assert(data@.subrange(0, i + 1) =~= data@.subrange(0, i as int).push(data@[i as int]));
            i = i + 1;
        }
        assert(data@.subrange(0, n as int) =~= data@);
    }

    /// Handle a text message from Teams.
    pub fn handle_text(&mut self, text: &str) -> (r: TextOutcome)
        requires
            old(self)@.wf(),
        ensures
            (final(self)@, r@) == spec_handle_text(old(self)@, text@),
            final(self)@.wf(),
    {
        let refreshed = extract_token_refresh(text);
        match &refreshed {
            Some(t) => {
                self.token = Some(t.clone());
            },
            None => {},
        }
        let update = crate::json::parse_meeting_update(text);
        match update.is_muted {
            Some(b) => {
                self.is_muted = b;
            },
            None => {},
        }
        match update.in_meeting {
            Some(b) => {
                self.in_meeting = b;
                if !b {
                    self.is_muted = false;
                }
            },
            None => {},
        }
        if update.in_meeting.is_some() && update.is_muted.is_some() {
            self.meeting_state_seen = true;
        }
        let mut delete_token = false;
        let mut send_pair = false;
        if !self.pair_sent {
            match crate::json::parse_can_pair(text) {
                Some(true) => {
                    if self.token.is_some() {
                        self.token = None;
                        delete_token = true;
                    }
                    send_pair = true;
                },
                _ => {},
            }
        }
        TextOutcome { new_token: refreshed, delete_token, send_pair }
    }

    /// A complete data message arrived.
    fn dispatch_data(&mut self, opcode: u8, data: &[u8]) -> (r: FrameAction)
        requires
            old(self)@.wf(),
        ensures
            (final(self)@, r@) == spec_dispatch(old(self)@, opcode, data@),
            final(self)@.wf(),
    {
        if opcode != 1 {
            return FrameAction::Nothing;
        }
        match utf8_str(data) {
            Some(text) => {
                proof {
                    encode_utf8_decode_utf8(text@);
                }
                FrameAction::Text(self.handle_text(text))
            },
            None => FrameAction::Nothing,
        }
    }

    /// Handle one complete frame from Teams.
    pub fn handle_frame(&mut self, fin: bool, opcode: u8, payload: Vec<u8>) -> (r: FrameAction)
        requires
            old(self)@.wf(),
        ensures
            (final(self)@, r@) == spec_handle_frame(old(self)@, fin, opcode, payload@),
            final(self)@.wf(),
    {
        if opcode == 0 {
            match self.fragment_opcode {
                None => FrameAction::Reconnect,
                Some(start) => {
                    if self.fragment_buf.len() > MAX_RECV_BUFFER || payload.len() > MAX_RECV_BUFFER
                        - self.fragment_buf.len() {
                        return FrameAction::Reconnect;
                    }
                    let ghost before = self.fragment_buf@;
                    let n = payload.len();
                    let mut i: usize = 0;
                    while i < n
                        invariant
                            n == payload@.len(),
                            i <= n,
                            self.fragment_buf@ == before + payload@.subrange(0, i as int),
                            self@ == (ClientModel { fragment_buf: self.fragment_buf@, ..old(self)@ }),
                        decreases n - i,
                    {
                        self.fragment_buf.push(payload[i]);
                        assert(payload@.subrange(0, i + 1) =~= payload@.subrange(0, i as int).push(
                            payload@[i as int],
                        ));
                        i = i + 1;
                    }
                    assert(payload@.subrange(0, n as int) =~= payload@);
                    if fin {
                        let mut assembled: Vec<u8> = Vec::new();
                        std::mem::swap(&mut assembled, &mut self.fragment_buf);
                        self.fragment_opcode = None;
                        self.dispatch_data(start, assembled.as_slice())
                    } else {
                        FrameAction::Nothing
                    }
                },
            }
        } else if opcode == 1 || opcode == 2 {
            if fin {
                self.dispatch_data(opcode, payload.as_slice())
            } else {
                self.fragment_buf = payload;
                self.fragment_opcode = Some(opcode);
                FrameAction::Nothing
            }
        } else if opcode == 9 {
            FrameAction::Pong(payload)
        } else if opcode == 8 {
            FrameAction::Close
        } else {
            FrameAction::Nothing
        }
    }

    /// Take the next complete frame off the receive buffer, if there is one.
    pub fn take_frame(&mut self) -> (r: FrameStep)
        ensures
            match crate::websocket::spec_parse_frame(old(self).recv_buf@) {
                crate::websocket::FrameParseModel::Need(_) => r is NeedMore && final(self)@ == old(self)@,
                crate::websocket::FrameParseModel::Error => r is Malformed && final(self)@ == old(self)@,
                crate::websocket::FrameParseModel::Frame { fin, opcode, payload, consumed } => {
                    &&& r matches FrameStep::Frame { fin: f, opcode: o, payload: p } && f == fin && o
                        == opcode && p@ == payload
                    &&& final(self)@ == (ClientModel {
                        recv_buf: old(self)@.recv_buf.skip(consumed as int),
                        ..old(self)@
                    })
                },
            },
    {
        match crate::websocket::ws_parse_frame(self.recv_buf.as_slice()) {
            crate::websocket::WsFrameParse::Need(_) => FrameStep::NeedMore,
            crate::websocket::WsFrameParse::Error => FrameStep::Malformed,
            crate::websocket::WsFrameParse::Frame { fin, opcode, payload, consumed } => {
                let rest = copy_from(self.recv_buf.as_slice(), consumed);
                self.recv_buf = rest;
                FrameStep::Frame { fin, opcode, payload }
            },
        }
    }

    /// Try to complete the upgrade handshake from the bytes received: once
    /// the response head has arrived, accept the connection if Teams
    /// switched protocols, dropping the head from the buffer and resetting
    /// the backoff.
    pub fn finish_upgrade(&mut self) -> (r: UpgradeStep)
        requires
            old(self)@.wf(),
        ensures
            final(self)@.wf(),
            (forall|j: int| !occurs_at(old(self).recv_buf@, head_terminator(), j)) ==> r
                == UpgradeStep::Incomplete && final(self)@ == old(self)@,
            (exists|j: int| occurs_at(old(self).recv_buf@, head_terminator(), j)) ==> {
                let pos = spec_find(old(self).recv_buf@, head_terminator(), 0)->0;
                if spec_upgrade_accepted(old(self).recv_buf@.subrange(0, pos)) {
                    &&& r == UpgradeStep::Accepted
                    &&& final(self)@ == (ClientModel {
                        conn: ConnState::Open,
                        recv_buf: old(self)@.recv_buf.skip(pos + 4),
                        backoff_ms: INITIAL_BACKOFF_MS as nat,
                        ..old(self)@
                    })
                } else {
                    r == UpgradeStep::Rejected && final(self)@ == old(self)@
                }
            },
    {
        let term: Vec<u8> = vec![13u8, 10u8, 13u8, 10u8];
        assert(term@ =~= head_terminator());
        match find_subslice(self.recv_buf.as_slice(), term.as_slice()) {
            None => UpgradeStep::Incomplete,
            Some(pos) => {
                proof {
                    crate::text::lemma_spec_find_first(self.recv_buf@, head_terminator(), 0, pos as int);
                }
                if !upgrade_accepted(&self.recv_buf.as_slice()[0..pos]) {
                    return UpgradeStep::Rejected;
                }
                let bl = self.recv_buf.len();
                assert(pos + 4 <= bl);
                let rest = copy_from(self.recv_buf.as_slice(), pos + 4);
                self.recv_buf = rest;
                self.conn = ConnState::Open;
                self.backoff_ms = INITIAL_BACKOFF_MS;
                UpgradeStep::Accepted
            },
        }
    }
}


// ---------------------------------------------------------------------------
// Socket events and outgoing frames
// ---------------------------------------------------------------------------

/// Winsock network event bits (`FD_*`).
pub const FD_READ: u32 = 0x01;

pub const FD_WRITE: u32 = 0x02;

pub const FD_CONNECT: u32 = 0x10;

pub const FD_CLOSE: u32 = 0x20;

/// What a socket notification asks of the client.
#[derive(Clone, Copy, PartialEq, Eq, Debug, Structural)]
pub enum SocketEvent {
    /// An error or a close: drop the connection and reconnect.
    Reconnect,
    /// The TCP connection is up: send the upgrade request.
    Connected,
    /// Data can be read.
    Readable,
    /// Nothing to do.
    Ignore,
}

/// The action for a socket notification whose low word is the `FD_*` event
/// and whose high word is the Winsock error: an error reconnects (unless it
/// is about writing), as does a close.
pub open spec fn spec_socket_event(bits: u32) -> SocketEvent {
    let event = bits % 0x10000;
    let err = bits / 0x10000;
    if err != 0 && event != FD_WRITE {
        SocketEvent::Reconnect
    } else if event == FD_CONNECT {
        SocketEvent::Connected
    } else if event == FD_READ {
        SocketEvent::Readable
    } else if event == FD_CLOSE {
        SocketEvent::Reconnect
    } else {
        SocketEvent::Ignore
    }
}

/// A notification that carries a Winsock error reconnects, unless the error
/// is about writing; the connection counts as up, and data as readable, only
/// on an error-free `FD_CONNECT` or `FD_READ`; a close always reconnects.
pub proof fn lemma_socket_errors_reconnect(bits: u32)
    ensures
        bits / 0x10000 != 0 && bits % 0x10000 != FD_WRITE ==> spec_socket_event(bits)
            == SocketEvent::Reconnect,
        spec_socket_event(bits) == SocketEvent::Connected ==> bits / 0x10000 == 0 && bits
            % 0x10000 == FD_CONNECT,
        spec_socket_event(bits) == SocketEvent::Readable ==> bits / 0x10000 == 0 && bits
            % 0x10000 == FD_READ,
        bits % 0x10000 == FD_CLOSE ==> spec_socket_event(bits) == SocketEvent::Reconnect,
        bits / 0x10000 == 0 && bits % 0x10000 == FD_CONNECT ==> spec_socket_event(bits)
            == SocketEvent::Connected,
{
}

/// Decode a socket notification.
pub fn socket_event_action(bits: u32) -> (r: SocketEvent)
    ensures
        r == spec_socket_event(bits),
        bits / 0x10000 != 0 && bits % 0x10000 != FD_WRITE ==> r == SocketEvent::Reconnect,
        r == SocketEvent::Connected ==> bits / 0x10000 == 0 && bits % 0x10000 == FD_CONNECT,
        r == SocketEvent::Readable ==> bits / 0x10000 == 0 && bits % 0x10000 == FD_READ,
        bits % 0x10000 == FD_CLOSE ==> r == SocketEvent::Reconnect,
{
    proof {
        lemma_socket_errors_reconnect(bits);
    }
    let event = bits & 0xFFFF;
    let err = (bits >> 16) & 0xFFFF;
    assert(bits & 0xFFFF == bits % 0x10000) by (bit_vector);
    assert((bits >> 16) & 0xFFFF == bits / 0x10000) by (bit_vector);
    if err != 0 && event != FD_WRITE {
        SocketEvent::Reconnect
    } else if event == FD_CONNECT {
        SocketEvent::Connected
    } else if event == FD_READ {
        SocketEvent::Readable
    } else if event == FD_CLOSE {
        SocketEvent::Reconnect
    } else {
        SocketEvent::Ignore
    }
}

/// The one action this client ever sends: a request to pair, which makes
/// Teams show its Allow banner.
pub const PAIR_ACTION: &'static str = "{\"action\":\"pair\",\"parameters\":{},\"requestId\":1}";

/// The masked text frame carrying the `pair` action.
pub fn pair_action_frame(mask_key: [u8; 4]) -> (r: Vec<u8>)
    ensures
        r@ == crate::websocket::spec_text_frame(encode_utf8(PAIR_ACTION@), mask_key@),
{
    crate::websocket::ws_build_text_frame(PAIR_ACTION.as_bytes(), mask_key)
}

// ---------------------------------------------------------------------------
// Laws
// ---------------------------------------------------------------------------

/// Several notifications for one disconnect arm a single reconnect: once a
/// reconnect is scheduled, scheduling again asks for no timer and leaves the
/// backoff as it is.
pub proof fn lemma_reconnect_scheduled_once(m: ClientModel)
    ensures
        spec_schedule_reconnect(spec_schedule_reconnect(m).0).1 is None,
        spec_schedule_reconnect(spec_schedule_reconnect(m).0).0.backoff_ms == spec_schedule_reconnect(
            m,
        ).0.backoff_ms,
{
}

/// The backoff never exceeds its cap, however many reconnects happen.
pub proof fn lemma_backoff_bounded(m: ClientModel)
    requires
        m.wf(),
    ensures
        spec_schedule_reconnect(m).0.wf(),
        spec_schedule_reconnect(m).0.backoff_ms <= MAX_BACKOFF_MS,
{
}

/// At most one `pair` action per connection: once a pair went out, no text
/// message asks for another until the connection is dropped.
pub proof fn lemma_pair_once_per_connection(m: ClientModel, text: Seq<char>)
    requires
        m.pair_sent,
    ensures
        !spec_handle_text(m, text).1.send_pair,
        spec_handle_text(m, text).0.pair_sent,
        !m.disconnected().pair_sent,
{
}

/// A `pair` request always comes with the stored token discarded, so the
/// next connection pairs from scratch.
pub proof fn lemma_pair_discards_token(m: ClientModel, text: Seq<char>)
    ensures
        spec_handle_text(m, text).1.send_pair ==> spec_handle_text(m, text).0.token is None,
{
}

/// Once Teams reports that the meeting ended, the Local API no longer says
/// muted.
pub proof fn lemma_leaving_meeting_unmutes(m: ClientModel, text: Seq<char>)
    requires
        crate::json::spec_meeting_update(text).0 == Some(false),
    ensures
        spec_handle_text(m, text).0.local_api_muted() != Some(true),
{
}

/// A dropped connection gives up the Local API state, so the mute decision
/// falls back to the other sources at once.
pub proof fn lemma_disconnect_forgets_mute_state(m: ClientModel)
    ensures
        m.disconnected().local_api_muted() is None,
        spec_schedule_reconnect(m).0.local_api_muted() is None,
{
}
} // verus!

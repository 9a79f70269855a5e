//! RFC 6455 WebSocket framing: the client handshake, masked client frames
//! and an incremental frame parser.

use vstd::prelude::*;

verus! {

// ---------------------------------------------------------------------------
// Byte-level model
// ---------------------------------------------------------------------------

/// `256^k`.
pub open spec fn pow256(k: nat) -> nat
    decreases k,
{
    if k == 0 {
        1
    } else {
        256 * pow256((k - 1) as nat)
    }
}

/// The number that `bytes` encode, most significant byte first.
pub open spec fn be_value(bytes: Seq<u8>) -> nat
    decreases bytes.len(),
{
    if bytes.len() == 0 {
        0
    } else {
        be_value(bytes.drop_last()) * 256 + bytes.last() as nat
    }
}

/// The `k` low-order bytes of `n`, most significant first.
pub open spec fn be_bytes(n: nat, k: nat) -> Seq<u8>
    decreases k,
{
    if k == 0 {
        Seq::empty()
    } else {
        be_bytes(n / 256, (k - 1) as nat).push((n % 256) as u8)
    }
}

/// `data` XOR-ed with the repeating four-byte `key`. Masking and unmasking
/// are the same operation.
pub open spec fn apply_mask(data: Seq<u8>, key: Seq<u8>) -> Seq<u8> {
    Seq::new(data.len(), |i: int| data[i] ^ key[i % 4])
}

/// The payload-length field of a frame header, with the mask bit set:
/// 7 bits, or the marker 126 and 16 bits, or the marker 127 and 64 bits.
pub open spec fn masked_length_field(len: nat) -> Seq<u8> {
    if len < 126 {
        seq![(0x80 + len) as u8]
    } else if len <= 0xFFFF {
        seq![0xFEu8] + be_bytes(len, 2)
    } else {
        seq![0xFFu8] + be_bytes(len, 8)
    }
}

/// A single masked client frame whose first header byte is `first`.
pub open spec fn spec_masked_frame(first: u8, payload: Seq<u8>, key: Seq<u8>) -> Seq<u8> {
    seq![first] + masked_length_field(payload.len()) + key + apply_mask(payload, key)
}

/// A single-frame masked client text message (FIN=1, opcode=0x1).
pub open spec fn spec_text_frame(payload: Seq<u8>, key: Seq<u8>) -> Seq<u8> {
    spec_masked_frame(0x81, payload, key)
}

/// An empty masked close frame (FIN=1, opcode=0x8).
pub open spec fn spec_close_frame(key: Seq<u8>) -> Seq<u8> {
    seq![0x88u8, 0x80u8] + key
}

// ---------------------------------------------------------------------------
// Parse results
// ---------------------------------------------------------------------------

/// Result of an incremental frame-parse attempt.
#[derive(Debug, PartialEq, Eq)]
pub enum WsFrameParse {
    /// Need at least this many more bytes appended to the buffer before
    /// another parse attempt can succeed.
    Need(usize),
    /// A complete frame; `consumed` bytes from the start of the buffer made
    /// it up.
    Frame { fin: bool, opcode: u8, payload: Vec<u8>, consumed: usize },
    /// The frame is malformed.
    Error,
}

/// What a parse attempt means, with the payload as a sequence.
pub enum FrameParseModel {
    Need(nat),
    Frame { fin: bool, opcode: u8, payload: Seq<u8>, consumed: nat },
    Error,
}

impl View for WsFrameParse {
    type V = FrameParseModel;

    open spec fn view(&self) -> FrameParseModel {
        match self {
            WsFrameParse::Need(n) => FrameParseModel::Need(*n as nat),
            WsFrameParse::Frame { fin, opcode, payload, consumed } => FrameParseModel::Frame {
                fin: *fin,
                opcode: *opcode,
                payload: payload@,
                consumed: *consumed as nat,
            },
            WsFrameParse::Error => FrameParseModel::Error,
        }
    }
}

/// Length of the header up to the mask key: 2, or 4 with a 16-bit length,
/// or 10 with a 64-bit length.
pub open spec fn length_header_size(len7: nat) -> nat {
    if len7 == 126 {
        4
    } else if len7 == 127 {
        10
    } else {
        2
    }
}

/// The payload length that a header announces; its size is
/// `length_header_size(len7)`.
pub open spec fn announced_length(buf: Seq<u8>, len7: nat) -> nat {
    if len7 == 126 {
        be_value(buf.subrange(2, 4))
    } else if len7 == 127 {
        be_value(buf.subrange(2, 10))
    } else {
        len7
    }
}

/// The meaning of the bytes at the start of `buf` as one WebSocket frame.
///
/// FIN is the top bit of the first byte and the opcode its low nibble; the
/// mask flag is the top bit of the second byte and the 7-bit length the rest.
/// Control frames (opcode >= 8) must have FIN set and a 7-bit length of at
/// most 125. A length that cannot be held in memory is an error.
pub open spec fn spec_parse_frame(buf: Seq<u8>) -> FrameParseModel {
    if buf.len() < 2 {
        FrameParseModel::Need((2 - buf.len()) as nat)
    } else {
        let fin = buf[0] >= 0x80;
        let opcode = (buf[0] % 16) as u8;
        let is_control = opcode >= 8;
        let masked = buf[1] >= 0x80;
        let len7 = (buf[1] % 128) as nat;
        let ext = length_header_size(len7);
        if is_control && !fin {
            FrameParseModel::Error
        } else if is_control && len7 > 125 {
            FrameParseModel::Error
        } else if buf.len() < ext {
            FrameParseModel::Need((ext - buf.len()) as nat)
        } else if masked && buf.len() < ext + 4 {
            FrameParseModel::Need((ext + 4 - buf.len()) as nat)
        } else {
            let header = if masked { ext + 4 } else { ext };
            let len = announced_length(buf, len7);
            let total = header + len;
            if len > usize::MAX || total > usize::MAX {
                FrameParseModel::Error
            } else if buf.len() < total {
                FrameParseModel::Need((total - buf.len()) as nat)
            } else {
                let raw = buf.subrange(header as int, total as int);
                let payload = if masked {
                    apply_mask(raw, buf.subrange(ext as int, ext + 4 as int))
                } else {
                    raw
                };
                FrameParseModel::Frame { fin, opcode, payload, consumed: total }
            }
        }
    }
}

// ---------------------------------------------------------------------------
// Lemmas
// ---------------------------------------------------------------------------

/// Writing `n` into `k` bytes and reading them back gives `n`, when it fits.
pub proof fn lemma_be_bytes_value(n: nat, k: nat)
    requires
        n < pow256(k),
    ensures
        be_bytes(n, k).len() == k,
        be_value(be_bytes(n, k)) == n,
    decreases k,
{
    if k > 0 {
        assert(n / 256 < pow256((k - 1) as nat));
        lemma_be_bytes_value(n / 256, (k - 1) as nat);
        let s = be_bytes(n, k);
        assert(s.drop_last() =~= be_bytes(n / 256, (k - 1) as nat));
    }
}

/// Masking twice with the same key restores the data.
pub proof fn lemma_mask_involutive(data: Seq<u8>, key: Seq<u8>)
    ensures
        apply_mask(apply_mask(data, key), key) =~= data,
{
    assert forall|i: int| 0 <= i < data.len() implies apply_mask(apply_mask(data, key), key)[i]
        == data[i] by {
        let b = data[i];
        let k = key[i % 4];
        assert((b ^ k) ^ k == b) by (bit_vector);
    }
}

/// A text frame built by this client parses back as one complete final text
/// frame carrying the same payload and spanning the whole buffer.
pub proof fn lemma_text_frame_round_trip(payload: Seq<u8>, key: Seq<u8>)
    requires
        key.len() == 4,
        payload.len() + 14 <= usize::MAX,
    ensures
        spec_parse_frame(spec_text_frame(payload, key)) == (FrameParseModel::Frame {
            fin: true,
            opcode: 1,
            payload: payload,
            consumed: spec_text_frame(payload, key).len(),
        }),
{
    let len = payload.len();
    let f = spec_text_frame(payload, key);
    let field = masked_length_field(len);
    lemma_mask_involutive(payload, key);
    assert(f[0] == 0x81u8);
    assert(f[1] == field[0]);
    let ext: nat = if len < 126 {
        2
    } else if len <= 0xFFFF {
        4
    } else {
        10
    };
    if len < 126 {
        assert(field.len() == 1);
        assert(f[1] % 128 == len);
    } else if len <= 0xFFFF {
        reveal_with_fuel(pow256, 3);
        lemma_be_bytes_value(len, 2);
        assert(field.len() == 3);
        assert(f.subrange(2, 4) =~= be_bytes(len, 2));
    } else {
        lemma_pow256_bound(8);
        lemma_be_bytes_value(len, 8);
        assert(field.len() == 9);
        assert(f.subrange(2, 10) =~= be_bytes(len, 8));
    }
    assert(f.len() == ext + 4 + len);
    assert(f.subrange(ext as int, ext + 4 as int) =~= key);
    assert(f.subrange(ext + 4 as int, ext + 4 + len as int) =~= apply_mask(payload, key));
}

/// A close frame built by this client parses back as a complete final close
/// frame with an empty payload.
pub proof fn lemma_close_frame_round_trip(key: Seq<u8>)
    requires
        key.len() == 4,
    ensures
        spec_parse_frame(spec_close_frame(key)) == (FrameParseModel::Frame {
            fin: true,
            opcode: 8,
            payload: Seq::empty(),
            consumed: 6,
        }),
{
    let f = spec_close_frame(key);
    assert(f.subrange(2, 6) =~= key);
    assert(f.subrange(6, 6) =~= Seq::<u8>::empty());
    assert(apply_mask(Seq::<u8>::empty(), key) =~= Seq::<u8>::empty());
}

/// A complete frame depends only on the bytes it consumed, which the buffer
/// holds: any buffer that starts with those bytes (the frame cut to them, or
/// the frame with more bytes after it) parses as the same frame.
pub proof fn lemma_frame_depends_on_its_bytes(buf: Seq<u8>, other: Seq<u8>)
    requires
        spec_parse_frame(buf) is Frame,
        spec_parse_frame(buf)->consumed <= other.len(),
        other.subrange(0, spec_parse_frame(buf)->consumed as int) == buf.subrange(
            0,
            spec_parse_frame(buf)->consumed as int,
        ),
    ensures
        spec_parse_frame(buf)->consumed <= buf.len(),
        spec_parse_frame(other) == spec_parse_frame(buf),
{
    let c = spec_parse_frame(buf)->consumed as int;
    assert forall|t: int| 0 <= t < c implies #[trigger] other[t] == buf[t] by {
        assert(other.subrange(0, c)[t] == buf.subrange(0, c)[t]);
    }
    assert(c >= 2);
    assert(other[0] == buf[0]);
    assert(other[1] == buf[1]);
    let len7 = (buf[1] % 128) as nat;
    let ext = length_header_size(len7) as int;
    let masked = buf[1] >= 0x80;
    let header = if masked { ext + 4 } else { ext };
    if len7 == 126 {
        assert(other.subrange(2, 4) =~= buf.subrange(2, 4));
    } else if len7 == 127 {
        assert(other.subrange(2, 10) =~= buf.subrange(2, 10));
    }
    assert(announced_length(other, len7) == announced_length(buf, len7));
    assert(other.subrange(header, c) =~= buf.subrange(header, c));
    if masked {
        assert(other.subrange(ext, ext + 4) =~= buf.subrange(ext, ext + 4));
    }
}

/// Appending fewer than the `n` bytes that a parse asked for leaves a
/// buffer that still needs more: no frame and no error yet.
proof fn lemma_need_stays_need_with(buf: Seq<u8>, more: Seq<u8>)
    requires
        spec_parse_frame(buf) is Need,
        more.len() < spec_parse_frame(buf)->0,
    ensures
        spec_parse_frame(buf + more) is Need,
{
    let s = buf + more;
    let m = buf.len() as int;
    assert forall|t: int| 0 <= t < m implies #[trigger] s[t] == buf[t] by {}
    if m >= 2 {
        assert(s[0] == buf[0]);
        assert(s[1] == buf[1]);
        let len7 = (buf[1] % 128) as nat;
        let ext = length_header_size(len7) as int;
        if m >= ext {
            if len7 == 126 {
                assert(s.subrange(2, 4) =~= buf.subrange(2, 4));
            } else if len7 == 127 {
                assert(s.subrange(2, 10) =~= buf.subrange(2, 10));
            }
            assert(announced_length(s, len7) == announced_length(buf, len7));
        }
    }
}

/// A parse that asks for `n` more bytes asks for at least one, and no buffer
/// with fewer than `n` bytes appended parses as a frame or an error.
pub proof fn lemma_need_stays_need(buf: Seq<u8>)
    requires
        spec_parse_frame(buf) is Need,
    ensures
        spec_parse_frame(buf)->0 >= 1,
        forall|more: Seq<u8>|
            more.len() < spec_parse_frame(buf)->0 ==> #[trigger] spec_parse_frame(buf + more) is Need,
{
    assert forall|more: Seq<u8>| more.len() < spec_parse_frame(buf)->0 implies #[trigger] spec_parse_frame(
        buf + more,
    ) is Need by {
        lemma_need_stays_need_with(buf, more);
    }
}

/// An unmasked frame as a server sends it, with first header byte `first`:
/// the payload length in 7 bits, or the marker 126 and the length as a
/// big-endian 16-bit number, or the marker 127 and a big-endian 64-bit
/// number; then the payload.
pub open spec fn spec_unmasked_frame(first: u8, payload: Seq<u8>) -> Seq<u8> {
    let len = payload.len();
    if len < 126 {
        seq![first, len as u8] + payload
    } else if len <= 0xFFFF {
        seq![first, 0x7Eu8, (len / 256) as u8, (len % 256) as u8] + payload
    } else {
        seq![first, 0x7Fu8] + be_bytes(len, 8) + payload
    }
}

/// A server's unmasked data frame of any length parses as one complete frame
/// with its FIN bit, its opcode and its payload, spanning the whole buffer.
pub proof fn lemma_unmasked_frame_round_trip(first: u8, payload: Seq<u8>)
    requires
        first % 16 < 8,
        payload.len() + 10 <= usize::MAX,
    ensures
        spec_parse_frame(spec_unmasked_frame(first, payload)) == (FrameParseModel::Frame {
            fin: first >= 0x80,
            opcode: (first % 16) as u8,
            payload: payload,
            consumed: spec_unmasked_frame(first, payload).len(),
        }),
{
    let len = payload.len();
    let f = spec_unmasked_frame(first, payload);
    assert(f[0] == first);
    if len < 126 {
        assert(f[1] == len as u8);
        assert(f.len() == 2 + len);
        assert(f.subrange(2, 2 + len as int) =~= payload);
    } else if len <= 0xFFFF {
        let hi = (len / 256) as u8;
        let lo = (len % 256) as u8;
        assert(f[1] == 0x7Eu8);
        let h = f.subrange(2, 4);
        assert(h =~= seq![hi, lo]);
        assert(h.drop_last() =~= seq![hi]);
        assert(seq![hi].drop_last() =~= Seq::<u8>::empty());
        assert(be_value(Seq::<u8>::empty()) == 0);
        assert(seq![hi].last() == hi);
        assert(be_value(seq![hi]) == hi as nat);
        assert(h.last() == lo);
        assert(be_value(h) == hi as nat * 256 + lo as nat);
        assert(hi as nat * 256 + lo as nat == len);
        assert(f.len() == 4 + len);
        assert(f.subrange(4, 4 + len as int) =~= payload);
    } else {
        lemma_pow256_bound(8);
        lemma_be_bytes_value(len, 8);
        assert(f[1] == 0x7Fu8);
        assert(f.subrange(2, 10) =~= be_bytes(len, 8));
        assert(f.len() == 10 + len);
        assert(f.subrange(10, 10 + len as int) =~= payload);
    }
}

// ---------------------------------------------------------------------------
// Executable code
// ---------------------------------------------------------------------------

/// HTTP/1.1 GET upgrade request. The caller supplies the Sec-WebSocket-Key
/// (16 random bytes, base64-encoded) and the path including query string.
pub fn ws_handshake_request(host: &str, path: &str, key_b64: &str) -> (r: String)
    ensures
        r@ == "GET "@ + path@ + " HTTP/1.1\r\nHost: "@ + host@
            + "\r\nUpgrade: websocket\r\nConnection: Upgrade\r\nSec-WebSocket-Key: "@ + key_b64@
            + "\r\nSec-WebSocket-Version: 13\r\n\r\n"@,
{
    let mut r = "GET ".to_owned();
    r.append(path);
    r.append(" HTTP/1.1\r\nHost: ");
    r.append(host);
    r.append("\r\nUpgrade: websocket\r\nConnection: Upgrade\r\nSec-WebSocket-Key: ");
    r.append(key_b64);
    r.append("\r\nSec-WebSocket-Version: 13\r\n\r\n");
    r
}

/// Appends the `k` low-order bytes of `n`, most significant first.
fn push_be_bytes(out: &mut Vec<u8>, n: u64, k: usize)
    requires
        k <= 8,
    ensures
        final(out)@ == old(out)@ + be_bytes(n as nat, k as nat),
    decreases k,
{
    if k > 0 {
        push_be_bytes(out, n / 256, k - 1);
        out.push((n % 256) as u8);
        proof {
            assert(be_bytes(n as nat, k as nat) == be_bytes((n / 256) as nat, (k - 1) as nat).push(
                (n % 256) as u8,
            ));
        }
    }
}

/// Appends `data` XOR-ed with the repeating `key`.
fn push_masked(out: &mut Vec<u8>, data: &[u8], key: [u8; 4])
    ensures
        final(out)@ == old(out)@ + apply_mask(data@, key@),
{
    let ghost start = out@;
    let n = data.len();
    let mut i: usize = 0;
    while i < n
        invariant
            n == data@.len(),
            i <= n,
            out@ == start + apply_mask(data@.subrange(0, i as int), key@),
        decreases n - i,
    {
        let k: usize = i & 3;
        assert(i & 3 == i % 4) by (bit_vector);
        out.push(data[i] ^ key[k]);
        proof {
            assert(apply_mask(data@.subrange(0, i + 1), key@) =~= apply_mask(
                data@.subrange(0, i as int),
                key@,
            ).push(data@[i as int] ^ key@[(i % 4) as int]));
        }
        i = i + 1;
    }
    assert(data@.subrange(0, n as int) =~= data@);
}

/// A masked client frame with the given first header byte.
pub(crate) fn build_masked_frame(first: u8, payload: &[u8], mask_key: [u8; 4]) -> (r: Vec<u8>)
    ensures
        r@ == spec_masked_frame(first, payload@, mask_key@),
{
    let mut out: Vec<u8> = Vec::new();
    out.push(first);
    let len = payload.len();
    if len < 126 {
        out.push(0x80 | (len as u8));
        assert(0x80 | (len as u8) == (0x80 + len) as u8) by (bit_vector)
            requires
                len < 126,
        ;
    } else if len <= 0xFFFF {
        // mask bit + 16-bit length marker
        out.push(0xFE);
        push_be_bytes(&mut out, len as u64, 2);
    } else {
        // mask bit + 64-bit length marker
        out.push(0xFF);
        push_be_bytes(&mut out, len as u64, 8);
    }
    assert(out@ =~= seq![first] + masked_length_field(len as nat));
    let ghost header = out@;
    out.push(mask_key[0]);
    out.push(mask_key[1]);
    out.push(mask_key[2]);
    out.push(mask_key[3]);
    assert(out@ =~= header + mask_key@);
    push_masked(&mut out, payload, mask_key);
    assert(out@ =~= spec_masked_frame(first, payload@, mask_key@));
    out
}

/// Build a single-frame masked client text message (FIN=1, opcode=0x1).
/// The mask key is supplied by the caller.
pub fn ws_build_text_frame(payload: &[u8], mask_key: [u8; 4]) -> (r: Vec<u8>)
    ensures
        r@ == spec_text_frame(payload@, mask_key@),
{
    build_masked_frame(0x81, payload, mask_key)
}

/// Build a masked close frame with no payload (FIN=1, opcode=0x8).
pub fn ws_build_close_frame(mask_key: [u8; 4]) -> (r: Vec<u8>)
    ensures
        r@ == spec_close_frame(mask_key@),
{
    let mut out: Vec<u8> = Vec::new();
    out.push(0x88);
    out.push(0x80);
    out.push(mask_key[0]);
    out.push(mask_key[1]);
    out.push(mask_key[2]);
    out.push(mask_key[3]);
    assert(out@ =~= spec_close_frame(mask_key@));
    out
}


/// `pow256` grows with its exponent, and eight bytes span the `u64` range.
proof fn lemma_pow256_bound(k: nat)
    requires
        k <= 8,
    ensures
        pow256(k) <= pow256(8),
        pow256(8) == 0x1_0000_0000_0000_0000,
    decreases 8 - k,
{
    reveal_with_fuel(pow256, 9);
    if k < 8 {
        lemma_pow256_bound(k + 1);
    }
}

/// The number stored big-endian in `buf[from..to]`, at most eight bytes.
fn read_be(buf: &[u8], from: usize, to: usize) -> (v: u64)
    requires
        from <= to <= buf@.len(),
        to - from <= 8,
    ensures
        v == be_value(buf@.subrange(from as int, to as int)),
{
    let mut v: u64 = 0;
    let mut k: usize = from;
    assert(buf@.subrange(from as int, from as int) =~= Seq::<u8>::empty());
    while k < to
        invariant
            from <= k <= to <= buf@.len(),
            to - from <= 8,
            v == be_value(buf@.subrange(from as int, k as int)),
            v < pow256((k - from) as nat),
        decreases to - k,
    {
        proof {
            lemma_pow256_bound((k + 1 - from) as nat);
            assert(pow256((k + 1 - from) as nat) == 256 * pow256((k - from) as nat));
            assert(buf@.subrange(from as int, k + 1).drop_last() =~= buf@.subrange(
                from as int,
                k as int,
            ));
        }
        v = v * 256 + (buf[k] as u64);
        k = k + 1;
    }
    v
}

/// A copy of `data`.
fn copy_bytes(data: &[u8]) -> (r: Vec<u8>)
    ensures
        r@ == data@,
{
    let mut out: Vec<u8> = Vec::new();
    let n = data.len();
    let mut i: usize = 0;
    while i < n
        invariant
            n == data@.len(),
            i <= n,
            out@ == data@.subrange(0, i as int),
        decreases n - i,
    {
        out.push(data[i]);
        assert(data@.subrange(0, i + 1) =~= data@.subrange(0, i as int).push(data@[i as int]));
        i = i + 1;
    }
    assert(data@.subrange(0, n as int) =~= data@);
    out
}

/// Incrementally parse one WebSocket frame from the start of `buf`. Frames
/// from a server are unmasked; masked input is accepted too.
pub fn ws_parse_frame(buf: &[u8]) -> (r: WsFrameParse)
    ensures
        r@ == spec_parse_frame(buf@),
{
    let n = buf.len();
    if n < 2 {
        return WsFrameParse::Need(2 - n);
    }
    let b0 = buf[0];
    let b1 = buf[1];
    let fin = (b0 & 0x80) != 0;
    let opcode = b0 & 0x0F;
    let masked = (b1 & 0x80) != 0;
    let len7 = b1 & 0x7F;
    proof {
        assert(((b0 & 0x80) != 0) == (b0 >= 0x80)) by (bit_vector);
        assert(b0 & 0x0F == b0 % 16) by (bit_vector);
        assert(((b1 & 0x80) != 0) == (b1 >= 0x80)) by (bit_vector);
        assert(b1 & 0x7F == b1 % 128) by (bit_vector);
    }
    // Control frames (opcodes >= 0x8) must not be fragmented and must carry
    // at most 125 payload bytes.
    let is_control = opcode >= 0x8;
    if is_control && !fin {
        return WsFrameParse::Error;
    }
    if is_control && len7 > 125 {
        return WsFrameParse::Error;
    }
    let ext: usize = if len7 == 126 {
        4
    } else if len7 == 127 {
        10
    } else {
        2
    };
    if n < ext {
        return WsFrameParse::Need(ext - n);
    }
    let payload_len: u64 = if len7 == 126 || len7 == 127 {
        read_be(buf, 2, ext)
    } else {
        len7 as u64
    };
    if masked && n < ext + 4 {
        return WsFrameParse::Need(ext + 4 - n);
    }
    let header: usize = if masked { ext + 4 } else { ext };
    if payload_len > (usize::MAX as u64) {
        return WsFrameParse::Error;
    }
    let plen = payload_len as usize;
    let total = match header.checked_add(plen) {
        Some(t) => t,
        None => {
            return WsFrameParse::Error;
        },
    };
    if n < total {
        return WsFrameParse::Need(total - n);
    }
    let raw = &buf[header..total];
    let payload = if masked {
        let key = [buf[ext], buf[ext + 1], buf[ext + 2], buf[ext + 3]];
        let mut out: Vec<u8> = Vec::new();
        push_masked(&mut out, raw, key);
        assert(key@ =~= buf@.subrange(ext as int, ext + 4));
        assert(out@ =~= apply_mask(raw@, key@));
        out
    } else {
        copy_bytes(raw)
    };
    WsFrameParse::Frame { fin, opcode, payload, consumed: total }
}

} // verus!

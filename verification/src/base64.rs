//! Base64 encoding (RFC 4648, standard alphabet, with padding), used for the
//! `Sec-WebSocket-Key` header.

use vstd::prelude::*;
use crate::text::push_char;

verus! {

/// The character for a 6-bit value: `A`-`Z`, `a`-`z`, `0`-`9`, `+`, `/`.
pub open spec fn spec_b64_char(v: int) -> char {
    if v < 26 {
        (65 + v) as char
    } else if v < 52 {
        (97 + (v - 26)) as char
    } else if v < 62 {
        (48 + (v - 52)) as char
    } else if v == 62 {
        '+'
    } else {
        '/'
    }
}

/// The four output characters for a 24-bit group `n`, of which only the
/// first `sextets` are data; the rest are `=` padding.
#[verifier::opaque]
pub open spec fn spec_b64_group(n: int, sextets: int) -> Seq<char> {
    seq![
        spec_b64_char((n / 0x40000) % 64),
        spec_b64_char((n / 0x1000) % 64),
        if sextets > 2 { spec_b64_char((n / 64) % 64) } else { '=' },
        if sextets > 3 { spec_b64_char(n % 64) } else { '=' },
    ]
}

/// Base64 of `s`: each group of three bytes becomes four characters; a final
/// group of one or two bytes is padded with `==` or `=`.
pub open spec fn spec_base64(s: Seq<u8>) -> Seq<char>
    decreases s.len(),
{
    if s.len() == 0 {
        Seq::empty()
    } else if s.len() == 1 {
        spec_b64_group(s[0] * 0x10000, 2)
    } else if s.len() == 2 {
        spec_b64_group(s[0] * 0x10000 + s[1] * 0x100, 3)
    } else {
        spec_b64_group(s[0] * 0x10000 + s[1] * 0x100 + s[2], 4) + spec_base64(s.skip(3))
    }
}

/// The encoding is four characters for every started group of three bytes.
pub proof fn lemma_base64_len(s: Seq<u8>)
    ensures
        spec_base64(s).len() == 4 * ((s.len() + 2) / 3),
    decreases s.len(),
{
    reveal(spec_base64);
    reveal(spec_b64_group);
    if s.len() > 2 {
        lemma_base64_len(s.skip(3));
    }
}

/// The encoding ends in `==` exactly when one byte is left over after the
/// groups of three, and in a single `=` when two are.
pub proof fn lemma_base64_padding(s: Seq<u8>)
    ensures
        s.len() % 3 == 1 ==> spec_base64(s).len() >= 2 && spec_base64(s).last() == '='
            && spec_base64(s)[spec_base64(s).len() - 2] == '=',
        s.len() % 3 == 2 ==> spec_base64(s).len() >= 2 && spec_base64(s).last() == '='
            && spec_base64(s)[spec_base64(s).len() - 2] != '=',
        s.len() % 3 == 0 ==> spec_base64(s).len() == 0 || spec_base64(s).last() != '=',
    decreases s.len(),
{
    reveal(spec_base64);
    reveal(spec_b64_group);
    if s.len() > 2 {
        lemma_base64_padding(s.skip(3));
        lemma_base64_len(s.skip(3));
    }
}

/// Encoding works group by group: when `a` is whole groups of three bytes,
/// the encoding of `a` followed by `b` is the encoding of `a` followed by
/// the encoding of `b`.
pub proof fn lemma_base64_concat(a: Seq<u8>, b: Seq<u8>)
    requires
        a.len() % 3 == 0,
    ensures
        spec_base64(a + b) == spec_base64(a) + spec_base64(b),
    decreases a.len(),
{
    if a.len() == 0 {
        assert(a + b =~= b);
        assert(spec_base64(a) + spec_base64(b) =~= spec_base64(b));
    } else {
        let ab = a + b;
        assert(ab[0] == a[0] && ab[1] == a[1] && ab[2] == a[2]);
        assert(ab.skip(3) =~= a.skip(3) + b);
        lemma_base64_concat(a.skip(3), b);
        let g = spec_b64_group(a[0] * 0x10000 + a[1] * 0x100 + a[2], 4);
        assert(spec_base64(ab) == g + spec_base64(a.skip(3) + b));
        assert(spec_base64(a) == g + spec_base64(a.skip(3)));
        assert(g + (spec_base64(a.skip(3)) + spec_base64(b)) =~= (g + spec_base64(a.skip(3)))
            + spec_base64(b));
    }
}

/// The character for a 6-bit value.
fn b64_char(v: u32) -> (c: char)
    requires
        v < 64,
    ensures
        c == spec_b64_char(v as int),
{
    if v < 26 {
        ((65 + v) as u8) as char
    } else if v < 52 {
        ((97 + (v - 26)) as u8) as char
    } else if v < 62 {
        ((48 + (v - 52)) as u8) as char
    } else if v == 62 {
        '+'
    } else {
        '/'
    }
}

/// Appends the characters for the 24-bit group `n`, with `sextets` of them
/// carrying data and the rest `=`.
fn push_group(out: &mut String, n: u32, sextets: u32)
    requires
        n < 0x1000000,
        2 <= sextets <= 4,
    ensures
        final(out)@ == old(out)@ + spec_b64_group(n as int, sextets as int),
{
    proof {
        assert((n >> 18) & 0x3F == (n / 0x40000) % 64) by (bit_vector);
        assert((n >> 12) & 0x3F == (n / 0x1000) % 64) by (bit_vector);
        assert((n >> 6) & 0x3F == (n / 64) % 64) by (bit_vector);
        assert(n & 0x3F == n % 64) by (bit_vector);
    }
    reveal(spec_b64_group);
    let ghost start = out@;
    push_char(out, b64_char((n >> 18) & 0x3F));
    push_char(out, b64_char((n >> 12) & 0x3F));
    if sextets > 2 {
        push_char(out, b64_char((n >> 6) & 0x3F));
    } else {
        push_char(out, '=');
    }
    if sextets > 3 {
        push_char(out, b64_char(n & 0x3F));
    } else {
        push_char(out, '=');
    }
    assert(out@ =~= start + spec_b64_group(n as int, sextets as int));
}

/// One step of the encoding: the first group of three bytes, then the rest.
proof fn lemma_base64_step(s: Seq<u8>, i: int)
    requires
        0 <= i <= s.len(),
    ensures
        s.len() - i >= 3 ==> spec_base64(s.skip(i)) == spec_b64_group(
            s[i] * 0x10000 + s[i + 1] * 0x100 + s[i + 2],
            4,
        ) + spec_base64(s.skip(i + 3)),
        s.len() - i == 2 ==> spec_base64(s.skip(i)) == spec_b64_group(
            s[i] * 0x10000 + s[i + 1] * 0x100,
            3,
        ),
        s.len() - i == 1 ==> spec_base64(s.skip(i)) == spec_b64_group(s[i] * 0x10000, 2),
        s.len() - i == 0 ==> spec_base64(s.skip(i)) == Seq::<char>::empty(),
{
    reveal(spec_base64);
    let rest = s.skip(i);
    if s.len() - i >= 3 {
        assert(rest.skip(3) =~= s.skip(i + 3));
    }
}

/// Base64 (RFC 4648) of `input`, padded with `=`.
pub fn base64_encode(input: &[u8]) -> (r: String)
    ensures
        r@ == spec_base64(input@),
        r@.len() == 4 * ((input@.len() + 2) / 3),
{
    let mut out = String::new();
    let len = input.len();
    let mut i: usize = 0;
    assert(input@.skip(0) =~= input@);
    while len - i >= 3
        invariant
            len == input@.len(),
            i <= len,
            spec_base64(input@) == out@ + spec_base64(input@.skip(i as int)),
        decreases len - i,
    {
        let n: u32 = (input[i] as u32) * 0x10000 + (input[i + 1] as u32) * 0x100 + (input[i
            + 2] as u32);
        proof {
            lemma_base64_step(input@, i as int);
        }
        let ghost before = out@;
        push_group(&mut out, n, 4);
        assert(out@ + spec_base64(input@.skip(i + 3)) =~= before + spec_base64(
            input@.skip(i as int),
        ));
        i = i + 3;
    }
    proof {
        lemma_base64_step(input@, i as int);
    }
    let rem = len - i;
    if rem == 1 {
        let n: u32 = (input[i] as u32) * 0x10000;
        push_group(&mut out, n, 2);
    } else if rem == 2 {
        let n: u32 = (input[i] as u32) * 0x10000 + (input[i + 1] as u32) * 0x100;
        push_group(&mut out, n, 3);
    } else {
        assert(out@ =~= out@ + Seq::<char>::empty());
    }
    proof {
        lemma_base64_len(input@);
    }
    out
}

} // verus!

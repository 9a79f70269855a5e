//! Registry helpers: the `LastUsedTimeStop` value and UTF-16 strings for
//! wide-character system calls.

use vstd::prelude::*;
use crate::text::chars_of;

verus! {

/// The little-endian value of `bytes`.
pub open spec fn le_value(bytes: Seq<u8>) -> nat
    decreases bytes.len(),
{
    if bytes.len() == 0 {
        0
    } else {
        bytes[0] as nat + 256 * le_value(bytes.drop_first())
    }
}

/// A little-endian number is zero exactly when all of its bytes are.
pub proof fn lemma_le_value_zero(bytes: Seq<u8>)
    ensures
        (le_value(bytes) == 0) <==> (forall|i: int| 0 <= i < bytes.len() ==> bytes[i] == 0),
    decreases bytes.len(),
{
    if bytes.len() > 0 {
        lemma_le_value_zero(bytes.drop_first());
        if le_value(bytes) == 0 {
            assert forall|i: int| 0 <= i < bytes.len() implies bytes[i] == 0 by {
                if i > 0 {
                    assert(bytes.drop_first()[i - 1] == bytes[i]);
                }
            }
        }
        if forall|i: int| 0 <= i < bytes.len() ==> bytes[i] == 0 {
            assert forall|i: int| 0 <= i < bytes.drop_first().len() implies bytes.drop_first()[i]
                == 0 by {
                assert(bytes[i + 1] == 0);
            }
        }
    }
}

/// A `LastUsedTimeStop` value means "in use right now" when it is exactly
/// eight bytes (as reported by `size`, with the buffer holding them) and
/// their little-endian value is 0; any real FILETIME means released.
pub open spec fn spec_in_use(bytes: Seq<u8>, size: int) -> bool {
    size == 8 && bytes.len() >= 8 && le_value(bytes.subrange(0, 8)) == 0
}

/// Parses `LastUsedTimeStop` bytes. `0` means the device is in use right
/// now; other values mean it was released; the wrong size means not in use.
pub fn parse_in_use(bytes: &[u8], size: usize) -> (r: bool)
    ensures
        r == spec_in_use(bytes@, size as int),
{
    if size != 8 || bytes.len() < 8 {
        return false;
    }
    let mut i: usize = 0;
    let mut all_zero = true;
    while i < 8
        invariant
            8 <= bytes@.len(),
            i <= 8,
            all_zero == (forall|j: int| 0 <= j < i ==> bytes@[j] == 0),
        decreases 8 - i,
    {
        if bytes[i] != 0 {
            all_zero = false;
        }
        i = i + 1;
    }
    proof {
        let head = bytes@.subrange(0, 8);
        lemma_le_value_zero(head);
        assert(all_zero == (forall|j: int| 0 <= j < head.len() ==> head[j] == 0)) by {
            if all_zero {
                assert forall|j: int| 0 <= j < head.len() implies head[j] == 0 by {
                    assert(head[j] == bytes@[j]);
                }
            } else {
                let j = choose|j: int| 0 <= j < 8 && bytes@[j] != 0;
                assert(head[j] == bytes@[j]);
            }
        }
    }
    all_zero
}

/// The UTF-16 code units of one character: itself below U+10000, otherwise
/// a high and a low surrogate.
pub open spec fn utf16_units(c: char) -> Seq<u16> {
    let v = c as u32;
    if v < 0x10000 {
        seq![v as u16]
    } else {
        let u = v - 0x10000;
        seq![(0xD800 + u / 0x400) as u16, (0xDC00 + u % 0x400) as u16]
    }
}

/// UTF-16 encoding of a character sequence.
pub open spec fn utf16(s: Seq<char>) -> Seq<u16>
    decreases s.len(),
{
    if s.len() == 0 {
        Seq::empty()
    } else {
        utf16(s.drop_last()) + utf16_units(s.last())
    }
}

/// Each 16-bit unit as two bytes, low byte first.
pub open spec fn utf16_le_bytes(units: Seq<u16>) -> Seq<u8>
    decreases units.len(),
{
    if units.len() == 0 {
        Seq::empty()
    } else {
        utf16_le_bytes(units.drop_last()) + seq![
            (units.last() % 256) as u8,
            (units.last() / 256) as u8,
        ]
    }
}

/// UTF-16 of `s` followed by a null terminator, for wide-character calls.
pub fn wide_chars(s: &str) -> (r: Vec<u16>)
    ensures
        r@ == utf16(s@).push(0),
{
    let chars = chars_of(s);
    let n = chars.len();
    let mut out: Vec<u16> = Vec::new();
    let mut i: usize = 0;
    while i < n
        invariant
            n == chars@.len(),
            chars@ == s@,
            i <= n,
            out@ == utf16(s@.subrange(0, i as int)),
        decreases n - i,
    {
        let c = chars[i];
        let v = c as u32;
        proof {
            vstd::utf8::char_is_scalar(c);
        }
        let ghost before = out@;
        if v < 0x10000 {
            out.push(v as u16);
        } else {
            let u = v - 0x10000;
            out.push((0xD800 + u / 0x400) as u16);
            out.push((0xDC00 + u % 0x400) as u16);
        }
        proof {
            assert(s@.subrange(0, i + 1).drop_last() =~= s@.subrange(0, i as int));
            assert(out@ =~= before + utf16_units(c));
        }
        i = i + 1;
    }
    assert(s@.subrange(0, n as int) =~= s@);
    out.push(0);
    out
}

/// UTF-16-LE bytes of `s` with a trailing UTF-16 null terminator, as the
/// data of a `REG_SZ` registry value.
pub fn wide_bytes(s: &str) -> (r: Vec<u8>)
    ensures
        r@ == utf16_le_bytes(utf16(s@).push(0)),
{
    let w = wide_chars(s);
    let mut bytes: Vec<u8> = Vec::new();
    let n = w.len();
    let mut i: usize = 0;
    while i < n
        invariant
            n == w@.len(),
            i <= n,
            bytes@ == utf16_le_bytes(w@.subrange(0, i as int)),
        decreases n - i,
    {
        let u = w[i];
        bytes.push((u % 256) as u8);
        bytes.push((u / 256) as u8);
        proof {
            assert(w@.subrange(0, i + 1).drop_last() =~= w@.subrange(0, i as int));
        }
        i = i + 1;
    }
    assert(w@.subrange(0, n as int) =~= w@);
    bytes
}


/// The UTF-16 text of a tray tooltip for a buffer of `capacity` units: as
/// much of `tip` as fits before a null terminator.
pub fn tip_units(tip: &str, capacity: usize) -> (r: Vec<u16>)
    requires
        capacity >= 1,
    ensures
        r@ == utf16(tip@).take(
            if utf16(tip@).len() < capacity - 1 {
                utf16(tip@).len() as int
            } else {
                capacity - 1
            },
        ).push(0),
        r@.len() <= capacity,
{
    let w = wide_chars(tip);
    let full = w.len() - 1;
    let n = if full < capacity - 1 {
        full
    } else {
        capacity - 1
    };
    let mut out: Vec<u16> = Vec::new();
    let mut i: usize = 0;
    while i < n
        invariant
            n <= full,
            full + 1 == w@.len(),
            w@ == utf16(tip@).push(0),
            i <= n,
            out@ == utf16(tip@).take(i as int),
        decreases n - i,
    {
        out.push(w[i]);
        assert(utf16(tip@).take(i + 1) =~= utf16(tip@).take(i as int).push(w@[i as int]));
        i = i + 1;
    }
    out.push(0);
    out
}

/// A program path in double quotes, as a Run-key command line.
pub fn quote_command(path: &str) -> (r: String)
    ensures
        r@ == seq!['"'] + path@ + seq!['"'],
{
    let mut r = String::new();
    crate::text::push_char(&mut r, '"');
    r.append(path);
    crate::text::push_char(&mut r, '"');
    assert(r@ =~= seq!['"'] + path@ + seq!['"']);
    r
}
} // verus!

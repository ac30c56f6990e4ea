//! Text: UTF-8 as the file stores it, and UTF-16 as string columns hold it.

use vstd::prelude::*;

verus! {

/// Whether `byte` goes on a character that an earlier byte began.
pub open spec fn is_continuation(byte: u8) -> bool {
    0x80 <= byte <= 0xBF
}

/// The character at the front of `bytes`, as its number, and the number of
/// bytes that spell it. `None` where the bytes do not start with a
/// well-formed character: a stray or missing continuation byte, a spelling
/// longer than the number needs, a surrogate, or a number above 0x10FFFF.
pub open spec fn utf8_first(bytes: Seq<u8>) -> Option<(u32, nat)> {
    if bytes.len() == 0 {
        None
    } else if bytes[0] < 0x80 {
        Some((bytes[0] as u32, 1nat))
    } else if 0xC2 <= bytes[0] <= 0xDF {
        if bytes.len() >= 2 && is_continuation(bytes[1]) {
            Some((((bytes[0] - 0xC0) * 64 + (bytes[1] - 0x80)) as u32, 2nat))
        } else {
            None
        }
    } else if 0xE0 <= bytes[0] <= 0xEF {
        if bytes.len() >= 3 && is_continuation(bytes[1]) && is_continuation(bytes[2]) {
            let scalar = (bytes[0] - 0xE0) * 4096 + (bytes[1] - 0x80) * 64 + (bytes[2] - 0x80);
            if scalar < 0x800 || (0xD800 <= scalar <= 0xDFFF) {
                None
            } else {
                Some((scalar as u32, 3nat))
            }
        } else {
            None
        }
    } else if 0xF0 <= bytes[0] <= 0xF4 {
        if bytes.len() >= 4 && is_continuation(bytes[1]) && is_continuation(bytes[2])
            && is_continuation(bytes[3]) {
            let scalar = (bytes[0] - 0xF0) * 262144 + (bytes[1] - 0x80) * 4096 + (bytes[2] - 0x80)
                * 64 + (bytes[3] - 0x80);
            if scalar < 0x10000 || scalar > 0x10FFFF {
                None
            } else {
                Some((scalar as u32, 4nat))
            }
        } else {
            None
        }
    } else {
        None
    }
}

/// The bytes of the UTF-16 units of a character, each unit low byte first:
/// one unit for a character below 0x10000, two surrogates for one above.
pub open spec fn utf16_bytes(scalar: u32) -> Seq<u8> {
    if scalar < 0x10000 {
        seq![(scalar % 256) as u8, (scalar / 256) as u8]
    } else {
        let rest = scalar - 0x10000;
        let high = 0xD800 + rest / 1024;
        let low = 0xDC00 + rest % 1024;
        seq![(high % 256) as u8, (high / 256) as u8, (low % 256) as u8, (low / 256) as u8]
    }
}

/// `front` before what `back` holds, where it holds something.
pub open spec fn prepend(front: Seq<u8>, back: Option<Seq<u8>>) -> Option<Seq<u8>> {
    match back {
        None => None,
        Some(rest) => Some(front + rest),
    }
}

/// The UTF-16 form of the UTF-8 text `bytes`, each unit low byte first, or
/// `None` where `bytes` is not well-formed UTF-8.
pub open spec fn utf8_to_utf16(bytes: Seq<u8>) -> Option<Seq<u8>>
    decreases bytes.len(),
{
    if bytes.len() == 0 {
        Some(Seq::empty())
    } else {
        match utf8_first(bytes) {
            None => None,
            Some((scalar, length)) => if length < 1 || length > bytes.len() {
                None
            } else {
                prepend(utf16_bytes(scalar), utf8_to_utf16(bytes.skip(length as int)))
            },
        }
    }
}

/// Whether every byte is below 128.
pub open spec fn is_ascii(bytes: Seq<u8>) -> bool {
    forall|i: int| 0 <= i < bytes.len() ==> bytes[i] < 128
}

/// Whether every byte of `bytes` is below 128.
pub fn check_ascii(bytes: &[u8]) -> (ascii: bool)
    ensures
        ascii == is_ascii(bytes@),
{
    let mut i: usize = 0;
    while i < bytes.len()
        invariant
            i <= bytes@.len(),
            forall|k: int| 0 <= k < i ==> bytes@[k] < 128,
        decreases bytes@.len() - i,
    {
        if bytes[i] >= 128 {
            return false;
        }
        i = i + 1;
    }
    true
}

fn continues(bytes: &[u8], at: usize) -> (yes: bool)
    ensures
        yes == (at < bytes@.len() && is_continuation(bytes@[at as int])),
{
    at < bytes.len() && bytes[at] >= 0x80 && bytes[at] <= 0xBF
}

/// Reads the character that starts at `pos`.
fn read_scalar(bytes: &[u8], pos: usize) -> (res: Option<(u32, usize)>)
    requires
        pos < bytes@.len(),
    ensures
        match res {
            Some((scalar, length)) => utf8_first(bytes@.skip(pos as int)) == Some(
                (scalar, length as nat),
            ) && 1 <= length && pos + length <= bytes@.len() && scalar <= 0x10FFFF,
            None => utf8_first(bytes@.skip(pos as int)) is None,
        },
{
    let len: usize = bytes.len();
    let ghost rest = bytes@.skip(pos as int);
    let first: u32 = bytes[pos] as u32;
    proof {
        assert(rest[0] == bytes@[pos as int]);
        if pos + 1 < len {
            assert(rest[1] == bytes@[pos + 1]);
        }
        if pos + 2 < len {
            assert(rest[2] == bytes@[pos + 2]);
        }
        if pos + 3 < len {
            assert(rest[3] == bytes@[pos + 3]);
        }
    }
    if first < 0x80 {
        Some((first, 1))
    } else if 0xC2 <= first && first <= 0xDF {
        if len - pos >= 2 && continues(bytes, pos + 1) {
            Some(((first - 0xC0) * 64 + (bytes[pos + 1] as u32 - 0x80), 2))
        } else {
            None
        }
    } else if 0xE0 <= first && first <= 0xEF {
        if len - pos >= 3 && continues(bytes, pos + 1) && continues(bytes, pos + 2) {
            let scalar: u32 = (first - 0xE0) * 4096 + (bytes[pos + 1] as u32 - 0x80) * 64 + (
            bytes[pos + 2] as u32 - 0x80);
            if scalar < 0x800 || (0xD800 <= scalar && scalar <= 0xDFFF) {
                None
            } else {
                Some((scalar, 3))
            }
        } else {
            None
        }
    } else if 0xF0 <= first && first <= 0xF4 {
        if len - pos >= 4 && continues(bytes, pos + 1) && continues(bytes, pos + 2) && continues(
            bytes,
            pos + 3,
        ) {
            let scalar: u32 = (first - 0xF0) * 262144 + (bytes[pos + 1] as u32 - 0x80) * 4096 + (
            bytes[pos + 2] as u32 - 0x80) * 64 + (bytes[pos + 3] as u32 - 0x80);
            if scalar < 0x10000 || scalar > 0x10FFFF {
                None
            } else {
                Some((scalar, 4))
            }
        } else {
            None
        }
    } else {
        None
    }
}

/// Appends the bytes of the UTF-16 units of a character.
fn push_utf16(out: &mut Vec<u8>, scalar: u32)
    requires
        scalar <= 0x10FFFF,
    ensures
        final(out)@ == old(out)@ + utf16_bytes(scalar),
{
    if scalar < 0x10000 {
        out.push((scalar % 256) as u8);
        out.push((scalar / 256) as u8);
    } else {
        let rest: u32 = scalar - 0x10000;
        let high: u32 = 0xD800 + rest / 1024;
        let low: u32 = 0xDC00 + rest % 1024;
        out.push((high % 256) as u8);
        out.push((high / 256) as u8);
        out.push((low % 256) as u8);
        out.push((low / 256) as u8);
    }
    assert(out@ =~= old(out)@ + utf16_bytes(scalar));
}

/// Turns UTF-8 text into UTF-16, each unit low byte first. `None` where the
/// text is not well-formed UTF-8.
pub fn transcode_utf16(bytes: &[u8]) -> (res: Option<Vec<u8>>)
    ensures
        match res {
            Some(units) => utf8_to_utf16(bytes@) == Some(units@),
            None => utf8_to_utf16(bytes@) is None,
        },
{
    let len: usize = bytes.len();
    let mut out: Vec<u8> = Vec::new();
    let mut pos: usize = 0;
    proof {
        assert(bytes@.skip(0) =~= bytes@);
        assert(prepend(out@, utf8_to_utf16(bytes@)) == utf8_to_utf16(bytes@)) by {
            if let Some(all) = utf8_to_utf16(bytes@) {
                assert(out@ + all =~= all);
            }
        }
    }
    while pos < len
        invariant
            pos <= len == bytes@.len(),
            utf8_to_utf16(bytes@) == prepend(out@, utf8_to_utf16(bytes@.skip(pos as int))),
        decreases len - pos,
    {
        let ghost before = out@;
        let ghost here = bytes@.skip(pos as int);
        match read_scalar(bytes, pos) {
            None => {
                return None;
            },
            Some((scalar, length)) => {
                push_utf16(&mut out, scalar);
                proof {
                    assert(here.skip(length as int) =~= bytes@.skip(pos + length));
                    let tail = utf8_to_utf16(bytes@.skip(pos + length));
                    assert(utf8_to_utf16(here) == prepend(utf16_bytes(scalar), tail));
                    if let Some(rest) = tail {
                        assert(before + (utf16_bytes(scalar) + rest) =~= (before + utf16_bytes(
                            scalar,
                        )) + rest);
                    }
                }
                pos = pos + length;
            },
        }
    }
    proof {
        assert(bytes@.skip(pos as int).len() == 0);
        assert(out@ + Seq::<u8>::empty() =~= out@);
    }
    Some(out)
}

} // verus!

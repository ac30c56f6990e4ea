//! Variable-length integers: seven bits to a byte, least significant group
//! first, the top bit of a byte saying that another byte follows.

use vstd::prelude::*;

verus! {

/// The number spelt at the front of `data` in at most `limit` bytes, and how
/// many bytes spell it. `None` where the bytes end, or `limit` is reached,
/// before a byte without the top bit.
pub open spec fn uleb128(data: Seq<u8>, limit: nat) -> Option<(nat, nat)>
    decreases limit,
{
    if limit == 0 || data.len() == 0 {
        None
    } else if data[0] < 128 {
        Some((data[0] as nat, 1nat))
    } else {
        match uleb128(data.skip(1), (limit - 1) as nat) {
            None => None,
            Some((value, length)) => Some(((data[0] - 128) as nat + 128 * value, length + 1)),
        }
    }
}

/// The 64-bit number spelt at the front of `data`, and how many bytes spell
/// it. `None` where it is not complete after ten bytes or exceeds 64 bits.
pub open spec fn uleb64(data: Seq<u8>) -> Option<(u64, nat)> {
    match uleb128(data, 10) {
        Some((value, length)) if value <= u64::MAX => Some((value as u64, length)),
        _ => None,
    }
}

/// The signed number that the zigzag pattern `u` stands for: even patterns
/// for zero and above, odd ones for the numbers below.
pub open spec fn zigzag(u: u64) -> i64 {
    if u % 2 == 0 {
        (u / 2) as i64
    } else {
        (-(u / 2) - 1) as i64
    }
}

fn read_uleb128_limited(data: &[u8], pos: usize, limit: u8) -> (res: Option<(u64, usize)>)
    requires
        pos <= data@.len(),
    ensures
        match res {
            Some((value, length)) => uleb128(data@.skip(pos as int), limit as nat) == Some(
                (value as nat, length as nat),
            ),
            None => match uleb128(data@.skip(pos as int), limit as nat) {
                None => true,
                Some((value, length)) => value > u64::MAX,
            },
        },
        res matches Some((value, length)) ==> 1 <= length <= limit && pos + length <= data@.len(),
    decreases limit,
{
    if limit == 0 || pos >= data.len() {
        return None;
    }
    let byte: u8 = data[pos];
    proof {
        assert(data@.skip(pos as int)[0] == byte);
        assert(data@.skip(pos as int).skip(1) =~= data@.skip(pos + 1));
    }
    if byte < 128 {
        return Some((byte as u64, 1));
    }
    match read_uleb128_limited(data, pos + 1, limit - 1) {
        None => None,
        Some((value, length)) => {
            if value > (u64::MAX - 127) / 128 {
                None
            } else {
                Some(((byte - 128) as u64 + 128 * value, length + 1))
            }
        },
    }
}

/// Reads the 64-bit number that starts at `pos`: the number and how many
/// bytes spell it.
pub fn read_uleb64(data: &[u8], pos: usize) -> (res: Option<(u64, usize)>)
    requires
        pos <= data@.len(),
    ensures
        match res {
            Some((value, length)) => uleb64(data@.skip(pos as int)) == Some(
                (value, length as nat),
            ),
            None => uleb64(data@.skip(pos as int)) is None,
        },
        res matches Some((value, length)) ==> 1 <= length <= 10 && pos + length <= data@.len(),
{
    read_uleb128_limited(data, pos, 10)
}

/// The signed number of a zigzag pattern.
pub fn zigzag_decode(u: u64) -> (v: i64)
    ensures
        v == zigzag(u),
{
    if u % 2 == 0 {
        (u / 2) as i64
    } else {
        -((u / 2) as i64) - 1
    }
}

} // verus!

//! Version-4-shaped UUID text from a SplitMix64 generator. The seed mixes
//! the clock, the process id and a per-process counter; reading those is the
//! caller's, the arithmetic and the layout are here.

use vstd::prelude::*;
use vstd::wrapping::u64_specs;
use crate::funcs::{hex_lower, hex_lower_x};
use crate::text::string_of;

verus! {

/// The SplitMix64 increment.
pub open spec fn gamma() -> u64 {
    0x9E37_79B9_7F4A_7C15
}

/// The SplitMix64 output function.
pub open spec fn mix(z: u64) -> u64 {
    let z1 = u64_specs::wrapping_mul(z ^ (z >> 30u64), 0xBF58_476D_1CE4_E5B9u64);
    let z2 = u64_specs::wrapping_mul(z1 ^ (z1 >> 27u64), 0x94D0_49BB_1331_11EBu64);
    z2 ^ (z2 >> 31u64)
}

/// The seed: the nanoseconds, the process id shifted up, and the counter
/// spread by the increment.
pub open spec fn seed_of(nanos: u64, pid: u64, count: u64) -> u64 {
    nanos ^ u64_specs::wrapping_shl(pid, 32) ^ u64_specs::wrapping_mul(count, gamma())
}

/// Byte `i` (little-endian) of `x`.
pub open spec fn le_byte(x: u64, i: u64) -> u8 {
    ((x >> (8 * i)) & 0xff) as u8
}

/// The sixteen bytes: two generator outputs, little-endian, with the
/// version (4) and variant (RFC 4122) bits set.
pub open spec fn uuid_bytes(seed: u64) -> Seq<u8> {
    let s1 = u64_specs::wrapping_add(seed, gamma());
    let s2 = u64_specs::wrapping_add(s1, gamma());
    let a = mix(s1);
    let b = mix(s2);
    let raw = Seq::new(16, |i: int| if i < 8 { le_byte(a, i as u64) } else { le_byte(b, (i - 8) as u64) });
    raw.update(6, (raw[6] & 0x0F) | 0x40).update(8, (raw[8] & 0x3F) | 0x80)
}

/// Two lower-case hexadecimal digits per byte, with `-` after the 4th, 6th,
/// 8th and 10th byte.
pub open spec fn uuid_text(bytes: Seq<u8>) -> Seq<char> {
    Seq::new(36, |k: int| {
        let (i, hi) = if k < 8 {
            (k / 2, k % 2 == 0)
        } else if k < 13 {
            ((k - 1) / 2, (k - 1) % 2 == 0)
        } else if k < 18 {
            ((k - 2) / 2, (k - 2) % 2 == 0)
        } else if k < 23 {
            ((k - 3) / 2, (k - 3) % 2 == 0)
        } else {
            ((k - 4) / 2, (k - 4) % 2 == 0)
        };
        if k == 8 || k == 13 || k == 18 || k == 23 {
            '-'
        } else if hi {
            hex_lower((bytes[i] / 16) as nat)
        } else {
            hex_lower((bytes[i] % 16) as nat)
        }
    })
}

fn mix_x(z: u64) -> (r: u64)
    ensures
        r == mix(z),
{
    let z1 = (z ^ (z >> 30u64)).wrapping_mul(0xBF58_476D_1CE4_E5B9u64);
    let z2 = (z1 ^ (z1 >> 27u64)).wrapping_mul(0x94D0_49BB_1331_11EBu64);
    z2 ^ (z2 >> 31u64)
}

/// The UUID text of the generator seeded from `nanos` (the clock), `pid`
/// and `count` (how many were made before in this process).
pub fn uuid_from(nanos: u64, pid: u64, count: u64) -> (r: String)
    ensures
        r@ == uuid_text(uuid_bytes(seed_of(nanos, pid, count))),
{
    let seed = nanos ^ pid.wrapping_shl(32) ^ count.wrapping_mul(0x9E37_79B9_7F4A_7C15u64);
    let s1 = seed.wrapping_add(0x9E37_79B9_7F4A_7C15u64);
    let s2 = s1.wrapping_add(0x9E37_79B9_7F4A_7C15u64);
    let a = mix_x(s1);
    let b = mix_x(s2);
    let ghost bytes = uuid_bytes(seed);
    let mut raw: Vec<u8> = Vec::new();
    let mut i: u64 = 0;
    while i < 16
        invariant
            i <= 16,
            raw.len() == i,
            a == mix(u64_specs::wrapping_add(seed, gamma())),
            b == mix(u64_specs::wrapping_add(u64_specs::wrapping_add(seed, gamma()), gamma())),
            forall|j: int| 0 <= j < i ==> raw@[j] == (if j < 8 { le_byte(a, j as u64) } else { le_byte(b, (j - 8) as u64) }),
        decreases 16 - i,
    {
        let v: u8 = if i < 8 { ((a >> (8 * i)) & 0xff) as u8 } else { ((b >> (8 * (i - 8))) & 0xff) as u8 };
        raw.push(v);
        i += 1;
    }
    let b6 = (raw[6] & 0x0F) | 0x40;
    raw.set(6, b6);
    let b8 = (raw[8] & 0x3F) | 0x80;
    raw.set(8, b8);
    assert(raw@ =~= bytes);
    let mut out: Vec<char> = Vec::new();
    let mut k: usize = 0;
    while k < 16
        invariant
            k <= 16,
            raw@ == bytes,
            raw.len() == 16,
            out.len() == 2 * k + (if k > 4 { 1int } else { 0int }) + (if k > 6 { 1int } else { 0int })
                + (if k > 8 { 1int } else { 0int }) + (if k > 10 { 1int } else { 0int }),
            forall|m: int| 0 <= m < out.len() ==> out@[m] == uuid_text(bytes)[m],
        decreases 16 - k,
    {
        if k == 4 || k == 6 || k == 8 || k == 10 {
            out.push('-');
        }
        let byte = raw[k];
        out.push(hex_lower_x((byte / 16) as u32));
        out.push(hex_lower_x((byte % 16) as u32));
        k += 1;
    }
    assert(out@ =~= uuid_text(bytes));
    string_of(&out)
}

} // verus!

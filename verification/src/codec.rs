//! The compact binary encoding of integers used by the chunk format:
//! signed integers are zigzag-mapped to unsigned ones, which are written as
//! little-endian base-128 varints of at most ten bytes.

use vstd::prelude::*;

verus! {

/// The varint encoding of `n`: seven bits per byte, least significant group
/// first, the high bit set on every byte but the last.
pub open spec fn varint(n: nat) -> Seq<u8>
    decreases n,
{
    if n < 128 {
        seq![n as u8]
    } else {
        seq![(n % 128 + 128) as u8] + varint(n / 128)
    }
}

/// One more than the largest value that can start at byte `i` of a ten-byte
/// varint holding a 64-bit value.
pub open spec fn varint_room(i: nat) -> nat {
    if i == 0 {
        0x1_0000_0000_0000_0000
    } else if i == 1 {
        0x200_0000_0000_0000
    } else if i == 2 {
        0x4_0000_0000_0000
    } else if i == 3 {
        0x800_0000_0000
    } else if i == 4 {
        0x10_0000_0000
    } else if i == 5 {
        0x2000_0000
    } else if i == 6 {
        0x40_0000
    } else if i == 7 {
        0x8000
    } else if i == 8 {
        0x100
    } else if i == 9 {
        2
    } else {
        0
    }
}

/// Reads a varint from `bytes` at position `at`, the byte there being byte
/// `i` of the varint. Gives the value and the position behind the varint, or
/// `None` where the bytes run out, the varint runs past ten bytes, or its
/// tenth byte holds more than the one bit that is left of 64.
pub open spec fn varint_at(bytes: Seq<u8>, at: int, i: nat) -> Option<(nat, int)>
    decreases 10 - i,
{
    if i >= 10 || at < 0 || at >= bytes.len() {
        None
    } else if bytes[at] < 128 {
        if i == 9 && bytes[at] > 1 {
            None
        } else {
            Some((bytes[at] as nat, at + 1))
        }
    } else {
        match varint_at(bytes, at + 1, i + 1) {
            Some((v, next)) => Some(((bytes[at] - 128 + 128 * v) as nat, next)),
            None => None,
        }
    }
}

/// The zigzag mapping: 0, -1, 1, -2, 2, ... to 0, 1, 2, 3, 4, ...
pub open spec fn zigzag(v: int) -> nat {
    if v >= 0 {
        (2 * v) as nat
    } else {
        (-2 * v - 1) as nat
    }
}

/// The inverse of `zigzag`.
pub open spec fn unzigzag(n: nat) -> int {
    if n % 2 == 0 {
        n as int / 2
    } else {
        -(n as int / 2) - 1
    }
}

/// A varint is between one and ten bytes long when its value fits 64 bits.
pub proof fn lemma_varint_len(n: nat, i: nat)
    requires
        i <= 9,
        n < varint_room(i),
    ensures
        1 <= varint(n).len() <= 10 - i,
    decreases n,
{
    if n >= 128 {
        lemma_varint_len(n / 128, i + 1);
    }
}

/// What was written as a varint is read back, wherever it stands among
/// other bytes.
pub proof fn lemma_varint_round_trip(bytes: Seq<u8>, at: int, i: nat, n: nat)
    requires
        i <= 9,
        n < varint_room(i),
        0 <= at,
        at + varint(n).len() <= bytes.len(),
        bytes.subrange(at, at + varint(n).len()) == varint(n),
    ensures
        varint_at(bytes, at, i) == Some((n, at + varint(n).len())),
    decreases n,
{
    let enc = varint(n);
    let len = enc.len() as int;
    assert(bytes[at] == bytes.subrange(at, at + len)[0]);
    if n >= 128 {
        let rest = varint(n / 128);
        assert(enc == seq![(n % 128 + 128) as u8] + rest);
        assert(bytes.subrange(at + 1, at + 1 + rest.len()) =~= rest) by {
            assert forall|k: int| 0 <= k < rest.len() implies bytes[at + 1 + k] == rest[k] by {
                assert(bytes[at + 1 + k] == bytes.subrange(at, at + len)[k + 1]);
            }
        }
        lemma_varint_round_trip(bytes, at + 1, i + 1, n / 128);
    }
}

/// The zigzag mapping loses nothing, and a 64-bit signed integer maps to a
/// 64-bit unsigned one.
pub proof fn lemma_zigzag_round_trip(v: int)
    ensures
        unzigzag(zigzag(v)) == v,
        i64::MIN <= v <= i64::MAX ==> zigzag(v) <= u64::MAX,
{
}

/// Zigzag-maps a signed integer.
pub fn zigzag_i64(v: i64) -> (n: u64)
    ensures
        n == zigzag(v as int),
{
    if v >= 0 {
        (v as u64) * 2
    } else {
        ((-(v + 1)) as u64) * 2 + 1
    }
}

/// Undoes the zigzag mapping.
pub fn unzigzag_u64(n: u64) -> (v: i64)
    ensures
        v == unzigzag(n as nat),
{
    if n % 2 == 0 {
        (n / 2) as i64
    } else {
        -((n / 2) as i64) - 1
    }
}

/// Appends the varint encoding of `n` to `out`.
pub fn write_varint(out: &mut Vec<u8>, n: u64)
    ensures
        final(out)@ == old(out)@ + varint(n as nat),
{
    let mut rest: u64 = n;
    while rest >= 128
        invariant
            out@ + varint(rest as nat) == old(out)@ + varint(n as nat),
        decreases rest,
    {
        let ghost before = out@;
        let low: u8 = (rest % 128) as u8 + 128;
        out.push(low);
        proof {
            assert(varint(rest as nat) == seq![low] + varint((rest / 128) as nat));
            assert(before.push(low) + varint((rest / 128) as nat) =~= before + varint(
                rest as nat,
            ));
        }
        rest = rest / 128;
    }
    let ghost before = out@;
    out.push(rest as u8);
    assert(before.push(rest as u8) =~= before + varint(rest as nat));
}

/// Reads the varint that starts at `at`, returning its value and the
/// position behind it.
pub fn read_varint(data: &[u8], at: usize) -> (r: Option<(u64, usize)>)
    ensures
        match r {
            Some((v, next)) => varint_at(data@, at as int, 0) == Some((v as nat, next as int))
                && at < next <= data@.len(),
            None => varint_at(data@, at as int, 0).is_none(),
        },
{
    read_varint_from(data, at, 0)
}

/// Reads a varint whose byte `i` stands at `at`.
fn read_varint_from(data: &[u8], at: usize, i: u8) -> (r: Option<(u64, usize)>)
    requires
        i <= 10,
    ensures
        match r {
            Some((v, next)) => varint_at(data@, at as int, i as nat) == Some((v as nat, next as int))
                && v < varint_room(i as nat) && at < next <= data@.len(),
            None => varint_at(data@, at as int, i as nat).is_none(),
        },
    decreases 10 - i,
{
    if i >= 10 || at >= data.len() {
        return None;
    }
    let byte: u8 = data[at];
    if byte < 128 {
        if i == 9 && byte > 1 {
            None
        } else {
            Some((byte as u64, at + 1))
        }
    } else {
        match read_varint_from(data, at + 1, i + 1) {
            Some((v, next)) => Some(((byte - 128) as u64 + 128 * v, next)),
            None => None,
        }
    }
}

} // verus!

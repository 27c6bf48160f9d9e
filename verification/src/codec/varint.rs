//! Base-128 variable-length integers, least significant group first.

use vstd::prelude::*;

verus! {

/// The bytes that encode `v`: seven bits per byte, low group first, the top
/// bit set on every byte but the last.
pub open spec fn varint_bytes(v: u64) -> Seq<u8>
    decreases v,
{
    if v < 128 {
        seq![v as u8]
    } else {
        seq![(v % 128 + 128) as u8] + varint_bytes(v / 128)
    }
}

/// Exclusive bound on the value that may still follow once `depth` bytes of a
/// varint have been read: ten bytes carry at most 64 bits.
pub open spec fn varint_room(depth: nat) -> int
    decreases 9 - depth,
{
    if depth >= 9 {
        2
    } else {
        128 * varint_room(depth + 1)
    }
}

/// Reads a varint from the front of `s`, `depth` bytes of it having been read
/// already. Gives the value and the number of bytes taken, or `None` where the
/// bytes end early, run past ten bytes, or overflow 64 bits. Encodings with
/// redundant zero groups are accepted.
pub open spec fn parse_varint_from(s: Seq<u8>, depth: nat) -> Option<(nat, nat)>
    decreases s.len(),
{
    if s.len() == 0 || depth >= 10 {
        None
    } else if s[0] < 128 {
        if depth == 9 && s[0] >= 2 {
            None
        } else {
            Some((s[0] as nat, 1nat))
        }
    } else {
        match parse_varint_from(s.skip(1), depth + 1) {
            Some((hi, n)) => Some((((s[0] - 128) + 128 * hi) as nat, n + 1)),
            None => None,
        }
    }
}

/// Reads a varint from the front of `s`.
pub open spec fn parse_varint(s: Seq<u8>) -> Option<(nat, nat)> {
    parse_varint_from(s, 0)
}

/// The concrete values of `varint_room`.
pub proof fn lemma_varint_room(depth: nat)
    ensures
        depth >= 9 ==> varint_room(depth) == 2,
        depth < 9 ==> varint_room(depth) == 128 * varint_room(depth + 1),
        depth < 9 ==> 256 <= varint_room(depth),
        varint_room(depth) <= 0x1_0000_0000_0000_0000,
        varint_room(0) == 0x1_0000_0000_0000_0000,
{
    reveal_with_fuel(varint_room, 11);
}

/// What a successful read promises: the value fits the room left, and the
/// bytes taken are at least one and lie inside `s`.
pub proof fn lemma_parse_varint_bounds(s: Seq<u8>, depth: nat)
    ensures
        match parse_varint_from(s, depth) {
            Some((v, n)) => v < varint_room(depth) && 1 <= n <= s.len() && n <= 10 - depth,
            None => true,
        },
    decreases s.len(),
{
    lemma_varint_room(depth);
    if s.len() == 0 || depth >= 10 {
    } else if s[0] < 128 {
    } else {
        lemma_parse_varint_bounds(s.skip(1), depth + 1);
    }
}

/// Reading back what was written: the encoding of `v`, whatever follows it,
/// parses to `v` and takes exactly the bytes of the encoding.
pub proof fn lemma_parse_varint_bytes(v: u64, rest: Seq<u8>, depth: nat)
    requires
        depth <= 9,
        v < varint_room(depth),
    ensures
        parse_varint_from(varint_bytes(v) + rest, depth) == Some(
            (v as nat, varint_bytes(v).len()),
        ),
    decreases v,
{
    lemma_varint_room(depth);
    let s = varint_bytes(v) + rest;
    if v < 128 {
        assert(s[0] == v as u8);
    } else {
        assert(s[0] == (v % 128 + 128) as u8);
        assert(s.skip(1) =~= varint_bytes(v / 128) + rest);
        lemma_parse_varint_bytes(v / 128, rest, depth + 1);
    }
}

/// Appends the encoding of `value` to `buf`.
pub fn write_varint(buf: &mut Vec<u8>, value: u64)
    ensures
        final(buf)@ == old(buf)@ + varint_bytes(value),
{
    let mut v: u64 = value;
    while v >= 128
        invariant
            buf@ + varint_bytes(v) == old(buf)@ + varint_bytes(value),
        decreases v,
    {
        let ghost before = buf@;
        buf.push((v % 128 + 128) as u8);
        assert(buf@ + varint_bytes(v / 128) =~= before + varint_bytes(v));
        v = v / 128;
    }
    let ghost before = buf@;
    buf.push(v as u8);
    assert(buf@ =~= before + varint_bytes(v));
}

/// Reads a varint at `pos`, `depth` bytes of it having been read already.
fn read_varint_from(buf: &[u8], pos: usize, depth: u8) -> (r: Option<(u64, usize)>)
    requires
        pos <= buf.len(),
        depth <= 10,
    ensures
        match parse_varint_from(buf@.skip(pos as int), depth as nat) {
            Some((v, n)) => r == Some((v as u64, (pos + n) as usize)) && v < varint_room(
                depth as nat,
            ) && 1 <= n && pos + n <= buf.len(),
            None => r is None,
        },
    decreases buf.len() - pos,
{
    proof {
        lemma_varint_room(depth as nat);
        lemma_parse_varint_bounds(buf@.skip(pos as int), depth as nat);
    }
    if pos >= buf.len() || depth >= 10 {
        return None;
    }
    let b: u8 = buf[pos];
    assert(buf@.skip(pos as int)[0] == b);
    if b < 128 {
        if depth == 9 && b >= 2 {
            None
        } else {
            Some((b as u64, pos + 1))
        }
    } else {
        assert(buf@.skip(pos as int).skip(1) =~= buf@.skip(pos + 1));
        match read_varint_from(buf, pos + 1, depth + 1) {
            Some((hi, next)) => {
                Some(((b - 128) as u64 + 128 * hi, next))
            },
            None => None,
        }
    }
}

/// Reads a varint at `pos` of `buf`: the value and the position after it.
pub fn read_varint(buf: &[u8], pos: usize) -> (r: Option<(u64, usize)>)
    requires
        pos <= buf.len(),
    ensures
        match parse_varint(buf@.skip(pos as int)) {
            Some((v, n)) => r == Some((v as u64, (pos + n) as usize)) && v <= u64::MAX && 1 <= n
                && pos + n <= buf.len(),
            None => r is None,
        },
{
    proof {
        lemma_varint_room(0);
    }
    read_varint_from(buf, pos, 0)
}

} // verus!

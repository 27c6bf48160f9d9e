//! One field of a message: a key, which holds the field's number and the
//! kind of its value, and the value itself.

use crate::codec::varint::{
    lemma_parse_varint_bounds, lemma_parse_varint_bytes, lemma_varint_room, parse_varint,
    read_varint, varint_bytes, write_varint,
};
use vstd::prelude::*;

verus! {

/// Field numbers lie between 1 and this bound, so that a key fits 32 bits.
pub const MAX_FIELD_NUMBER: u32 = 0x1FFF_FFFF;

/// How a field's value is laid out.
#[derive(Clone, Copy, Debug, PartialEq, Eq, Structural)]
pub enum WireKind {
    /// One varint.
    Varint,
    /// Eight bytes.
    Fixed64,
    /// A varint length, then that many bytes.
    Bytes,
    /// Four bytes.
    Fixed32,
    /// Fields up to the key that ends the group.
    Group,
}

/// The code that ends a group. It stands in a key and starts no value.
pub const END_GROUP: u8 = 4;

/// How deep values may nest: a value inside as many groups as this is not
/// read.
pub const NESTING_LIMIT: u8 = 100;

/// The number that stands for a kind in a key's low three bits.
pub open spec fn wire_code(kind: WireKind) -> nat {
    match kind {
        WireKind::Varint => 0,
        WireKind::Fixed64 => 1,
        WireKind::Bytes => 2,
        WireKind::Fixed32 => 5,
        WireKind::Group => 3,
    }
}

/// A field as plain values. `value` is the varint of a `Varint` field and 0
/// otherwise; `payload` holds the bytes of the other kinds (of a group, all of
/// it through its closing key) and is empty for a `Varint` field.
pub ghost struct FieldView {
    pub number: nat,
    pub kind: WireKind,
    pub value: nat,
    pub payload: Seq<u8>,
}

/// A field found in a buffer: its payload is the buffer from `start` to `end`,
/// and the next field begins at `end`.
#[derive(Clone, Copy, Debug)]
pub struct Field {
    pub number: u32,
    pub kind: WireKind,
    pub value: u64,
    pub start: usize,
    pub end: usize,
}

impl Field {
    /// The field as plain values, its payload taken from `buf`.
    pub open spec fn view_in(&self, buf: Seq<u8>) -> FieldView {
        FieldView {
            number: self.number as nat,
            kind: self.kind,
            value: self.value as nat,
            payload: buf.subrange(self.start as int, self.end as int),
        }
    }
}

/// Reads a key from the front of `s`: the field's number, the code of its
/// kind, and the bytes that the key takes. `None` where the key is no varint,
/// exceeds 32 bits, names field 0, or holds a code above 5.
pub open spec fn parse_key(s: Seq<u8>) -> Option<(nat, nat, nat)> {
    match parse_varint(s) {
        Some((key, n)) => if key > u32::MAX || key / 8 == 0 || key % 8 > 5 {
            None
        } else {
            Some((key / 8, key % 8, n))
        },
        None => None,
    }
}

/// Reads a value that is no group from the front of `body`, for a field whose
/// key gave `number` and `code`: the field and the bytes that the value takes.
pub open spec fn parse_plain_value(number: nat, code: nat, body: Seq<u8>) -> Option<
    (FieldView, nat),
> {
    if code == 0 {
        match parse_varint(body) {
            Some((v, n)) => Some(
                (FieldView { number, kind: WireKind::Varint, value: v, payload: Seq::empty() }, n),
            ),
            None => None,
        }
    } else if code == 1 {
        if body.len() < 8 {
            None
        } else {
            Some(
                (
                    FieldView {
                        number,
                        kind: WireKind::Fixed64,
                        value: 0,
                        payload: body.subrange(0, 8),
                    },
                    8nat,
                ),
            )
        }
    } else if code == 2 {
        match parse_varint(body) {
            Some((len, n)) => if len > body.len() - n {
                None
            } else {
                Some(
                    (
                        FieldView {
                            number,
                            kind: WireKind::Bytes,
                            value: 0,
                            payload: body.subrange(n as int, (n + len) as int),
                        },
                        n + len,
                    ),
                )
            },
            None => None,
        }
    } else if code == 5 {
        if body.len() < 4 {
            None
        } else {
            Some(
                (
                    FieldView {
                        number,
                        kind: WireKind::Fixed32,
                        value: 0,
                        payload: body.subrange(0, 4),
                    },
                    4nat,
                ),
            )
        }
    } else {
        None
    }
}

/// The bytes that a value of any kind takes at the front of `body`, with
/// `budget` levels of nesting left. `None` where the value is malformed or
/// the budget is spent.
pub open spec fn skip_value(number: nat, code: nat, body: Seq<u8>, budget: nat) -> Option<nat>
    decreases body.len(), 1nat,
{
    if budget == 0 {
        None
    } else if code == 3 {
        skip_group(number, body, budget)
    } else {
        match parse_plain_value(number, code, body) {
            Some((_, n)) => Some(n),
            None => None,
        }
    }
}

/// The bytes that the rest of group `number` takes at the front of `body`:
/// fields of any number, then the key that ends group `number`. `None` where a
/// field inside is malformed, lies deeper than the budget allows, or the
/// closing key is missing or names another group.
pub open spec fn skip_group(number: nat, body: Seq<u8>, budget: nat) -> Option<nat>
    decreases body.len(), 0nat,
{
    if budget == 0 {
        None
    } else {
        match parse_key(body) {
            Some((inner, code, n)) => if code == 4 {
                if inner == number {
                    Some(n)
                } else {
                    None
                }
            } else if 1 <= n <= body.len() {
                match skip_value(inner, code, body.skip(n as int), (budget - 1) as nat) {
                    Some(m) => if n + m <= body.len() {
                        match skip_group(number, body.skip((n + m) as int), budget) {
                            Some(rest) => Some(n + m + rest),
                            None => None,
                        }
                    } else {
                        None
                    },
                    None => None,
                }
            } else {
                None
            },
            None => None,
        }
    }
}

/// Reads the value of a field whose key gave `number` and `code`, from the
/// front of `body`: the field and the bytes that the value takes.
pub open spec fn parse_field_value(number: nat, code: nat, body: Seq<u8>) -> Option<
    (FieldView, nat),
> {
    if code == 3 {
        match skip_group(number, body, NESTING_LIMIT as nat) {
            Some(n) => Some(
                (
                    FieldView {
                        number,
                        kind: WireKind::Group,
                        value: 0,
                        payload: body.subrange(0, n as int),
                    },
                    n,
                ),
            ),
            None => None,
        }
    } else {
        parse_plain_value(number, code, body)
    }
}

/// Reads one field from the front of `s`: the field and the number of bytes it
/// takes. `None` where the key is none, is the key that ends a group, or where
/// the value is cut short or malformed.
pub open spec fn parse_field(s: Seq<u8>) -> Option<(FieldView, nat)> {
    match parse_key(s) {
        Some((number, code, n)) => match parse_field_value(number, code, s.skip(n as int)) {
            Some((f, m)) => Some((f, n + m)),
            None => None,
        },
        None => None,
    }
}

/// A key that was read takes at least one byte and lies inside `s`.
pub proof fn lemma_parse_key_bounds(s: Seq<u8>)
    ensures
        match parse_key(s) {
            Some((number, code, n)) => 1 <= n <= s.len() && 1 <= number <= MAX_FIELD_NUMBER
                && code <= 5,
            None => true,
        },
{
    lemma_parse_varint_bounds(s, 0);
}

/// A value that is no group lies inside `body`.
pub proof fn lemma_parse_plain_value_bounds(number: nat, code: nat, body: Seq<u8>)
    ensures
        match parse_plain_value(number, code, body) {
            Some((f, n)) => n <= body.len() && f.number == number,
            None => true,
        },
{
    lemma_parse_varint_bounds(body, 0);
}

/// A value that was passed over lies inside `body`.
pub proof fn lemma_skip_value_bounds(number: nat, code: nat, body: Seq<u8>, budget: nat)
    ensures
        match skip_value(number, code, body, budget) {
            Some(n) => n <= body.len(),
            None => true,
        },
    decreases body.len(), 1nat,
{
    if budget == 0 {
    } else if code == 3 {
        lemma_skip_group_bounds(number, body, budget);
    } else {
        lemma_parse_plain_value_bounds(number, code, body);
    }
}

/// A group that was passed over takes at least its closing key and lies
/// inside `body`.
pub proof fn lemma_skip_group_bounds(number: nat, body: Seq<u8>, budget: nat)
    ensures
        match skip_group(number, body, budget) {
            Some(n) => 1 <= n <= body.len(),
            None => true,
        },
    decreases body.len(), 0nat,
{
    lemma_parse_key_bounds(body);
    if budget > 0 {
        match parse_key(body) {
            Some((inner, code, n)) => {
                if code != 4 {
                    let after = body.skip(n as int);
                    lemma_skip_value_bounds(inner, code, after, (budget - 1) as nat);
                    match skip_value(inner, code, after, (budget - 1) as nat) {
                        Some(m) => {
                            lemma_skip_group_bounds(number, body.skip((n + m) as int), budget);
                        },
                        None => {},
                    }
                }
            },
            None => {},
        }
    }
}

/// A field that was read takes at least one byte and lies inside `s`.
pub proof fn lemma_parse_field_bounds(s: Seq<u8>)
    ensures
        match parse_field(s) {
            Some((f, n)) => 1 <= n <= s.len() && 1 <= f.number <= MAX_FIELD_NUMBER,
            None => true,
        },
{
    lemma_parse_key_bounds(s);
    match parse_key(s) {
        Some((number, code, n)) => {
            let body = s.skip(n as int);
            lemma_parse_plain_value_bounds(number, code, body);
            lemma_skip_group_bounds(number, body, NESTING_LIMIT as nat);
        },
        None => {},
    }
}

/// The bytes of a key.
pub open spec fn key_bytes(number: u32, kind: WireKind) -> Seq<u8> {
    varint_bytes((number * 8 + wire_code(kind)) as u64)
}

/// The bytes of a `Varint` field.
pub open spec fn varint_field_bytes(number: u32, value: u64) -> Seq<u8> {
    key_bytes(number, WireKind::Varint) + varint_bytes(value)
}

/// The bytes of a `Bytes` field.
pub open spec fn bytes_field_bytes(number: u32, payload: Seq<u8>) -> Seq<u8> {
    key_bytes(number, WireKind::Bytes) + varint_bytes(payload.len() as u64) + payload
}

/// A written `Varint` field reads back as itself, whatever follows it.
pub proof fn lemma_parse_varint_field(number: u32, value: u64, rest: Seq<u8>)
    requires
        1 <= number <= MAX_FIELD_NUMBER,
    ensures
        parse_field(varint_field_bytes(number, value) + rest) == Some(
            (
                FieldView {
                    number: number as nat,
                    kind: WireKind::Varint,
                    value: value as nat,
                    payload: Seq::empty(),
                },
                varint_field_bytes(number, value).len(),
            ),
        ),
{
    lemma_varint_room(0);
    let key = (number * 8) as u64;
    let s = varint_field_bytes(number, value) + rest;
    assert(s =~= varint_bytes(key) + (varint_bytes(value) + rest));
    lemma_parse_varint_bytes(key, varint_bytes(value) + rest, 0);
    assert(s.skip(varint_bytes(key).len() as int) =~= varint_bytes(value) + rest);
    lemma_parse_varint_bytes(value, rest, 0);
}

/// A written `Bytes` field reads back as itself, whatever follows it.
pub proof fn lemma_parse_bytes_field(number: u32, payload: Seq<u8>, rest: Seq<u8>)
    requires
        1 <= number <= MAX_FIELD_NUMBER,
        payload.len() <= u64::MAX,
    ensures
        parse_field(bytes_field_bytes(number, payload) + rest) == Some(
            (
                FieldView { number: number as nat, kind: WireKind::Bytes, value: 0, payload },
                bytes_field_bytes(number, payload).len(),
            ),
        ),
{
    lemma_varint_room(0);
    let key = (number * 8 + 2) as u64;
    let len = payload.len() as u64;
    let s = bytes_field_bytes(number, payload) + rest;
    let body = varint_bytes(len) + (payload + rest);
    assert(s =~= varint_bytes(key) + body);
    lemma_parse_varint_bytes(key, body, 0);
    assert(s.skip(varint_bytes(key).len() as int) =~= body);
    lemma_parse_varint_bytes(len, payload + rest, 0);
    let n = varint_bytes(len).len();
    assert(body.subrange(n as int, n + len) =~= payload);
}

/// Appends the key of field `number` with kind `kind`.
fn write_key(buf: &mut Vec<u8>, number: u32, kind: WireKind)
    requires
        1 <= number <= MAX_FIELD_NUMBER,
    ensures
        final(buf)@ == old(buf)@ + key_bytes(number, kind),
{
    let code: u64 = match kind {
        WireKind::Varint => 0,
        WireKind::Fixed64 => 1,
        WireKind::Bytes => 2,
        WireKind::Fixed32 => 5,
        WireKind::Group => 3,
    };
    write_varint(buf, number as u64 * 8 + code);
}

/// Appends a `Varint` field.
pub fn write_varint_field(buf: &mut Vec<u8>, number: u32, value: u64)
    requires
        1 <= number <= MAX_FIELD_NUMBER,
    ensures
        final(buf)@ == old(buf)@ + varint_field_bytes(number, value),
{
    write_key(buf, number, WireKind::Varint);
    write_varint(buf, value);
    assert(buf@ =~= old(buf)@ + varint_field_bytes(number, value));
}

/// Appends a `Bytes` field that holds `payload`.
pub fn write_bytes_field(buf: &mut Vec<u8>, number: u32, payload: &[u8])
    requires
        1 <= number <= MAX_FIELD_NUMBER,
    ensures
        final(buf)@ == old(buf)@ + bytes_field_bytes(number, payload@),
{
    write_key(buf, number, WireKind::Bytes);
    write_varint(buf, payload.len() as u64);
    let ghost head = buf@;
    let mut i: usize = 0;
    while i < payload.len()
        invariant
            i <= payload.len(),
            buf@ == head + payload@.subrange(0, i as int),
        decreases payload.len() - i,
    {
        buf.push(payload[i]);
        i = i + 1;
        assert(buf@ =~= head + payload@.subrange(0, i as int));
    }
    assert(buf@ =~= old(buf)@ + bytes_field_bytes(number, payload@));
}

/// Reads the key at `pos` of `buf`: the field's number, the code of its
/// kind, and the position after the key.
pub fn read_key(buf: &[u8], pos: usize) -> (r: Option<(u32, u8, usize)>)
    requires
        pos <= buf.len(),
    ensures
        match parse_key(buf@.skip(pos as int)) {
            Some((number, code, n)) => r == Some((number as u32, code as u8, (pos + n) as usize))
                && 1 <= number <= MAX_FIELD_NUMBER && code <= 5 && 1 <= n && pos + n
                <= buf.len(),
            None => r is None,
        },
{
    proof {
        lemma_parse_key_bounds(buf@.skip(pos as int));
    }
    match read_varint(buf, pos) {
        Some((key, at)) => {
            if key > 0xFFFF_FFFF || key / 8 == 0 || key % 8 > 5 {
                None
            } else {
                Some(((key / 8) as u32, (key % 8) as u8, at))
            }
        },
        None => None,
    }
}

/// Reads at `at` of `buf` the value, no group, of a field whose key gave
/// `number` and `code`.
fn read_plain_value(buf: &[u8], at: usize, number: u32, code: u8) -> (r: Option<Field>)
    requires
        at <= buf.len(),
    ensures
        match parse_plain_value(number as nat, code as nat, buf@.skip(at as int)) {
            Some((fv, n)) => r matches Some(f) && f.view_in(buf@) == fv && at <= f.start <= f.end
                <= buf.len() && f.end == at + n,
            None => r is None,
        },
{
    let ghost body = buf@.skip(at as int);
    if code == 0 {
        match read_varint(buf, at) {
            Some((value, end)) => {
                let f = Field { number, kind: WireKind::Varint, value, start: end, end };
                assert(f.view_in(buf@).payload =~= Seq::<u8>::empty());
                Some(f)
            },
            None => None,
        }
    } else if code == 1 {
        if buf.len() - at < 8 {
            None
        } else {
            let f = Field { number, kind: WireKind::Fixed64, value: 0, start: at, end: at + 8 };
            assert(f.view_in(buf@).payload =~= body.subrange(0, 8));
            Some(f)
        }
    } else if code == 2 {
        match read_varint(buf, at) {
            Some((len, start)) => {
                if len > (buf.len() - start) as u64 {
                    None
                } else {
                    let end: usize = start + len as usize;
                    let f = Field { number, kind: WireKind::Bytes, value: 0, start, end };
                    assert(f.view_in(buf@).payload =~= body.subrange(
                        start - at,
                        start - at + len,
                    ));
                    Some(f)
                }
            },
            None => None,
        }
    } else if code == 5 {
        if buf.len() - at < 4 {
            None
        } else {
            let f = Field { number, kind: WireKind::Fixed32, value: 0, start: at, end: at + 4 };
            assert(f.view_in(buf@).payload =~= body.subrange(0, 4));
            Some(f)
        }
    } else {
        None
    }
}

/// Passes over the value at `at` of `buf`, of a field whose key gave `number`
/// and `code`: the position after it.
fn skip_value_at(buf: &[u8], at: usize, number: u32, code: u8, budget: u8) -> (r: Option<usize>)
    requires
        at <= buf.len(),
    ensures
        match skip_value(number as nat, code as nat, buf@.skip(at as int), budget as nat) {
            Some(n) => r == Some((at + n) as usize) && at + n <= buf.len(),
            None => r is None,
        },
    decreases budget, 1nat,
{
    proof {
        lemma_skip_value_bounds(number as nat, code as nat, buf@.skip(at as int), budget as nat);
    }
    if budget == 0 {
        None
    } else if code == 3 {
        skip_group_at(buf, at, number, budget)
    } else {
        match read_plain_value(buf, at, number, code) {
            Some(f) => Some(f.end),
            None => None,
        }
    }
}

/// Passes over the rest of group `number` from `start` of `buf`: the position
/// after the key that ends it.
fn skip_group_at(buf: &[u8], start: usize, number: u32, budget: u8) -> (r: Option<usize>)
    requires
        start <= buf.len(),
    ensures
        match skip_group(number as nat, buf@.skip(start as int), budget as nat) {
            Some(n) => r == Some((start + n) as usize) && 1 <= n && start + n <= buf.len(),
            None => r is None,
        },
    decreases budget, 0nat,
{
    proof {
        lemma_skip_group_bounds(number as nat, buf@.skip(start as int), budget as nat);
    }
    if budget == 0 {
        return None;
    }
    let mut pos: usize = start;
    loop
        invariant
            start <= pos <= buf.len(),
            budget >= 1,
            skip_group(number as nat, buf@.skip(start as int), budget as nat) == (match skip_group(
                number as nat,
                buf@.skip(pos as int),
                budget as nat,
            ) {
                Some(n) => Some((pos - start + n) as nat),
                None => None,
            }),
        decreases buf.len() - pos,
    {
        let ghost body = buf@.skip(pos as int);
        let (inner, code, at) = match read_key(buf, pos) {
            Some(key) => key,
            None => {
                return None;
            },
        };
        if code == END_GROUP {
            if inner == number {
                return Some(at);
            } else {
                return None;
            }
        }
        assert(body.skip(at - pos) =~= buf@.skip(at as int));
        let end = match skip_value_at(buf, at, inner, code, budget - 1) {
            Some(end) => end,
            None => {
                return None;
            },
        };
        assert(body.skip(end - pos) =~= buf@.skip(end as int));
        pos = end;
    }
}

/// Reads the field that begins at `pos` of `buf`.
pub fn read_field(buf: &[u8], pos: usize) -> (r: Option<Field>)
    requires
        pos <= buf.len(),
    ensures
        match parse_field(buf@.skip(pos as int)) {
            Some((fv, n)) => r matches Some(f) && f.view_in(buf@) == fv && pos <= f.start <= f.end
                <= buf.len() && f.end == pos + n && 1 <= n,
            None => r is None,
        },
{
    let ghost s = buf@.skip(pos as int);
    proof {
        lemma_parse_field_bounds(s);
    }
    let (number, code, at) = match read_key(buf, pos) {
        Some(key) => key,
        None => {
            return None;
        },
    };
    let ghost body = s.skip(at - pos);
    assert(body =~= buf@.skip(at as int));
    if code == 3 {
        match skip_group_at(buf, at, number, NESTING_LIMIT) {
            Some(end) => {
                let f = Field { number, kind: WireKind::Group, value: 0, start: at, end };
                assert(f.view_in(buf@).payload =~= body.subrange(0, end - at));
                Some(f)
            },
            None => None,
        }
    } else {
        read_plain_value(buf, at, number, code)
    }
}

} // verus!

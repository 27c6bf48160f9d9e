//! The two messages of the matchmaking protocol.
//!
//! A message is a run of fields. The join request holds the player's id
//! (field 1, text) and trophies (field 2, 32-bit integer); the match-found
//! response holds the opponent's id (field 1, text), the opponent's trophies
//! (field 2, 32-bit integer) and the room's id (field 3, text). A field with
//! an empty text or the integer 0 is not written. A reader takes fields in
//! any order, lets a later value replace an earlier one, and passes over
//! fields with other numbers.

use crate::codec::field::{
    bytes_field_bytes, lemma_parse_bytes_field, lemma_parse_field_bounds,
    lemma_parse_varint_field, parse_field, read_field, varint_field_bytes, write_bytes_field,
    write_varint_field, Field, FieldView, WireKind,
};
use crate::event::{MatchFound, MatchFoundView, MatchRequest, MatchRequestView};
use vstd::prelude::*;
use vstd::utf8::{
    decode_utf8, encode_utf8, encode_utf8_decode_utf8, encode_utf8_valid_utf8, valid_utf8,
};

verus! {

/// The varint that carries a 32-bit integer: the integer itself, or for a
/// negative one its two's complement in 64 bits.
pub open spec fn int32_to_wire(t: int) -> nat {
    if t >= 0 {
        t as nat
    } else {
        (0x1_0000_0000_0000_0000 + t) as nat
    }
}

/// The 32-bit integer that a varint carries: its low 32 bits, read as two's
/// complement.
pub open spec fn int32_from_wire(v: nat) -> int {
    let low = v % 0x1_0000_0000;
    if low >= 0x8000_0000 {
        low - 0x1_0000_0000
    } else {
        low as int
    }
}

/// The text that a field carries, where it is a `Bytes` field of valid UTF-8.
pub open spec fn field_text(f: FieldView) -> Option<Seq<char>> {
    if f.kind == WireKind::Bytes && valid_utf8(f.payload) {
        Some(decode_utf8(f.payload))
    } else {
        None
    }
}

/// The 32-bit integer that a field carries, where it is a `Varint` field.
pub open spec fn field_int32(f: FieldView) -> Option<int> {
    if f.kind == WireKind::Varint {
        Some(int32_from_wire(f.value))
    } else {
        None
    }
}

/// The bytes of a text field: nothing for the empty text.
pub open spec fn text_field_bytes(number: u32, text: Seq<char>) -> Seq<u8> {
    if text.len() == 0 {
        Seq::empty()
    } else {
        bytes_field_bytes(number, encode_utf8(text))
    }
}

/// The bytes of a 32-bit integer field: nothing for 0.
pub open spec fn int32_field_bytes(number: u32, t: int) -> Seq<u8> {
    if t == 0 {
        Seq::empty()
    } else {
        varint_field_bytes(number, int32_to_wire(t) as u64)
    }
}

/// The frame of a join request.
pub open spec fn join_request_bytes(r: MatchRequestView) -> Seq<u8> {
    text_field_bytes(1, r.player_id) + int32_field_bytes(2, r.trophies)
}

/// The frame of a match-found response.
pub open spec fn match_found_bytes(m: MatchFoundView) -> Seq<u8> {
    text_field_bytes(1, m.opponent_id) + int32_field_bytes(2, m.opponent_trophies)
        + text_field_bytes(3, m.room_id)
}

/// The join request with every field at its default.
pub open spec fn empty_join_request() -> MatchRequestView {
    MatchRequestView { player_id: Seq::empty(), trophies: 0 }
}

/// The match-found response with every field at its default.
pub open spec fn empty_match_found() -> MatchFoundView {
    MatchFoundView { opponent_id: Seq::empty(), opponent_trophies: 0, room_id: Seq::empty() }
}

/// Takes one field into a join request. `None` where a known field has the
/// wrong kind or holds invalid text.
pub open spec fn join_request_with(acc: MatchRequestView, f: FieldView) -> Option<
    MatchRequestView,
> {
    if f.number == 1 {
        match field_text(f) {
            Some(text) => Some(MatchRequestView { player_id: text, ..acc }),
            None => None,
        }
    } else if f.number == 2 {
        match field_int32(f) {
            Some(t) => Some(MatchRequestView { trophies: t, ..acc }),
            None => None,
        }
    } else {
        Some(acc)
    }
}

/// Takes one field into a match-found response. `None` where a known field
/// has the wrong kind or holds invalid text.
pub open spec fn match_found_with(acc: MatchFoundView, f: FieldView) -> Option<MatchFoundView> {
    if f.number == 1 {
        match field_text(f) {
            Some(text) => Some(MatchFoundView { opponent_id: text, ..acc }),
            None => None,
        }
    } else if f.number == 2 {
        match field_int32(f) {
            Some(t) => Some(MatchFoundView { opponent_trophies: t, ..acc }),
            None => None,
        }
    } else if f.number == 3 {
        match field_text(f) {
            Some(text) => Some(MatchFoundView { room_id: text, ..acc }),
            None => None,
        }
    } else {
        Some(acc)
    }
}

/// Reads the fields of `s` into the join request `acc`.
pub open spec fn parse_join_request_from(s: Seq<u8>, acc: MatchRequestView) -> Option<
    MatchRequestView,
>
    decreases s.len(),
{
    if s.len() == 0 {
        Some(acc)
    } else {
        match parse_field(s) {
            Some((f, n)) => match join_request_with(acc, f) {
                Some(next) => if 1 <= n <= s.len() {
                    parse_join_request_from(s.skip(n as int), next)
                } else {
                    None
                },
                None => None,
            },
            None => None,
        }
    }
}

/// Reads the fields of `s` into the match-found response `acc`.
pub open spec fn parse_match_found_from(s: Seq<u8>, acc: MatchFoundView) -> Option<
    MatchFoundView,
>
    decreases s.len(),
{
    if s.len() == 0 {
        Some(acc)
    } else {
        match parse_field(s) {
            Some((f, n)) => match match_found_with(acc, f) {
                Some(next) => if 1 <= n <= s.len() {
                    parse_match_found_from(s.skip(n as int), next)
                } else {
                    None
                },
                None => None,
            },
            None => None,
        }
    }
}

/// The join request that a frame holds, if it is one.
pub open spec fn parse_join_request(frame: Seq<u8>) -> Option<MatchRequestView> {
    parse_join_request_from(frame, empty_join_request())
}

/// The match-found response that a frame holds, if it is one.
pub open spec fn parse_match_found(frame: Seq<u8>) -> Option<MatchFoundView> {
    parse_match_found_from(frame, empty_match_found())
}

/// A 32-bit integer survives the wire.
pub proof fn lemma_int32_wire(t: i32)
    ensures
        int32_to_wire(t as int) <= u64::MAX,
        int32_from_wire(int32_to_wire(t as int)) == t,
{
}

/// `String::from_utf8` of the standard library: it gives a string exactly
/// when the bytes are valid UTF-8, and the string then holds the characters
/// that the bytes encode.
#[verifier::external_body]
fn string_from_utf8(bytes: Vec<u8>) -> (r: Option<String>)
    ensures
        r is Some <==> valid_utf8(bytes@),
        r matches Some(s) ==> s@ == decode_utf8(bytes@),
{
    match String::from_utf8(bytes) {
        Ok(s) => Some(s),
        Err(_) => None,
    }
}

fn widen_int32(t: i32) -> (v: u64)
    ensures
        v == int32_to_wire(t as int),
{
    if t >= 0 {
        t as u64
    } else {
        u64::MAX - ((-(t + 1)) as u64)
    }
}

fn narrow_int32(v: u64) -> (t: i32)
    ensures
        t == int32_from_wire(v as nat),
{
    let low: u64 = v % 0x1_0000_0000;
    if low >= 0x8000_0000 {
        (low as i64 - 0x1_0000_0000) as i32
    } else {
        low as i32
    }
}

fn write_text_field(buf: &mut Vec<u8>, number: u32, text: &str)
    requires
        1 <= number <= 3,
    ensures
        final(buf)@ == old(buf)@ + text_field_bytes(number, text@),
{
    if text.is_empty() {
        assert(buf@ =~= old(buf)@ + text_field_bytes(number, text@));
    } else {
        write_bytes_field(buf, number, text.as_bytes());
    }
}

fn write_int32_field(buf: &mut Vec<u8>, number: u32, t: i32)
    requires
        1 <= number <= 3,
    ensures
        final(buf)@ == old(buf)@ + int32_field_bytes(number, t as int),
{
    if t == 0 {
        assert(buf@ =~= old(buf)@ + int32_field_bytes(number, t as int));
    } else {
        write_varint_field(buf, number, widen_int32(t));
    }
}

/// The text of a field that was read from `buf`.
fn read_text(buf: &[u8], f: &Field) -> (r: Option<String>)
    requires
        f.start <= f.end <= buf.len(),
    ensures
        match field_text(f.view_in(buf@)) {
            Some(text) => r matches Some(s) && s@ == text,
            None => r is None,
        },
{
    match f.kind {
        WireKind::Bytes => {
            let mut payload: Vec<u8> = Vec::new();
            let mut i: usize = f.start;
            while i < f.end
                invariant
                    f.start <= i <= f.end <= buf.len(),
                    payload@ == buf@.subrange(f.start as int, i as int),
                decreases f.end - i,
            {
                payload.push(buf[i]);
                i = i + 1;
                assert(payload@ =~= buf@.subrange(f.start as int, i as int));
            }
            string_from_utf8(payload)
        },
        _ => None,
    }
}

/// The 32-bit integer of a field.
fn read_int32(f: &Field) -> (r: Option<i32>)
    ensures
        forall|buf: Seq<u8>|
            match #[trigger] field_int32(f.view_in(buf)) {
                Some(t) => r == Some(t as i32) && t == t as i32,
                None => r is None,
            },
{
    match f.kind {
        WireKind::Varint => Some(narrow_int32(f.value)),
        _ => None,
    }
}

/// Encodes a join request as one frame.
pub fn encode(request: &MatchRequest) -> (frame: Vec<u8>)
    ensures
        frame@ == join_request_bytes(request@),
{
    let mut frame: Vec<u8> = Vec::new();
    write_text_field(&mut frame, 1, request.player_id.as_str());
    write_int32_field(&mut frame, 2, request.trophies);
    assert(frame@ =~= join_request_bytes(request@));
    frame
}

/// Encodes a match-found response as one frame.
pub fn encode_match_found(found: &MatchFound) -> (frame: Vec<u8>)
    ensures
        frame@ == match_found_bytes(found@),
{
    let mut frame: Vec<u8> = Vec::new();
    write_text_field(&mut frame, 1, found.opponent_id.as_str());
    write_int32_field(&mut frame, 2, found.opponent_trophies);
    write_text_field(&mut frame, 3, found.room_id.as_str());
    assert(frame@ =~= match_found_bytes(found@));
    frame
}

/// Decodes a frame as a match-found response. `None`, and never a failure,
/// where the frame is none.
pub fn decode(frame: &[u8]) -> (r: Option<MatchFound>)
    ensures
        match parse_match_found(frame@) {
            Some(m) => r matches Some(found) && found@ == m,
            None => r is None,
        },
{
    let mut found = MatchFound {
        opponent_id: String::new(),
        opponent_trophies: 0,
        room_id: String::new(),
    };
    let mut pos: usize = 0;
    assert(frame@.skip(0) =~= frame@);
    while pos < frame.len()
        invariant
            pos <= frame.len(),
            parse_match_found(frame@) == parse_match_found_from(frame@.skip(pos as int), found@),
        decreases frame.len() - pos,
    {
        let ghost s = frame@.skip(pos as int);
        let f = match read_field(frame, pos) {
            Some(f) => f,
            None => {
                return None;
            },
        };
        if f.number == 1 {
            match read_text(frame, &f) {
                Some(text) => {
                    found.opponent_id = text;
                },
                None => {
                    return None;
                },
            }
        } else if f.number == 2 {
            match read_int32(&f) {
                Some(t) => {
                    found.opponent_trophies = t;
                },
                None => {
                    return None;
                },
            }
        } else if f.number == 3 {
            match read_text(frame, &f) {
                Some(text) => {
                    found.room_id = text;
                },
                None => {
                    return None;
                },
            }
        }
        assert(s.skip(f.end - pos) =~= frame@.skip(f.end as int));
        pos = f.end;
    }
    Some(found)
}

/// Decodes a frame as a join request, the inverse of `encode`. `None` where
/// the frame is none.
pub fn decode_join_request(frame: &[u8]) -> (r: Option<MatchRequest>)
    ensures
        match parse_join_request(frame@) {
            Some(m) => r matches Some(request) && request@ == m,
            None => r is None,
        },
{
    let mut request = MatchRequest { player_id: String::new(), trophies: 0 };
    let mut pos: usize = 0;
    assert(frame@.skip(0) =~= frame@);
    while pos < frame.len()
        invariant
            pos <= frame.len(),
            parse_join_request(frame@) == parse_join_request_from(
                frame@.skip(pos as int),
                request@,
            ),
        decreases frame.len() - pos,
    {
        let ghost s = frame@.skip(pos as int);
        let f = match read_field(frame, pos) {
            Some(f) => f,
            None => {
                return None;
            },
        };
        if f.number == 1 {
            match read_text(frame, &f) {
                Some(text) => {
                    request.player_id = text;
                },
                None => {
                    return None;
                },
            }
        } else if f.number == 2 {
            match read_int32(&f) {
                Some(t) => {
                    request.trophies = t;
                },
                None => {
                    return None;
                },
            }
        }
        assert(s.skip(f.end - pos) =~= frame@.skip(f.end as int));
        pos = f.end;
    }
    Some(request)
}

/// A written text field, whatever follows it, reads back as a field with that
/// number and text, and takes exactly its own bytes.
pub proof fn lemma_parse_text_field(number: u32, text: Seq<char>, rest: Seq<u8>)
    requires
        1 <= number <= 3,
        text.len() > 0,
        encode_utf8(text).len() <= usize::MAX,
    ensures
        ({
            let s = text_field_bytes(number, text) + rest;
            let n = text_field_bytes(number, text).len();
            &&& 1 <= n <= s.len()
            &&& s.skip(n as int) == rest
            &&& parse_field(s) matches Some((f, m))
            &&& m == n
            &&& f.number == number
            &&& field_text(f) == Some(text)
        }),
{
    let payload = encode_utf8(text);
    let s = text_field_bytes(number, text) + rest;
    let n = text_field_bytes(number, text).len();
    lemma_parse_bytes_field(number, payload, rest);
    lemma_parse_field_bounds(s);
    encode_utf8_valid_utf8(text);
    encode_utf8_decode_utf8(text);
    assert(s.skip(n as int) =~= rest);
}

/// A written integer field, whatever follows it, reads back as a field with
/// that number and integer, and takes exactly its own bytes.
pub proof fn lemma_parse_int32_field(number: u32, t: i32, rest: Seq<u8>)
    requires
        1 <= number <= 3,
        t != 0,
    ensures
        ({
            let s = int32_field_bytes(number, t as int) + rest;
            let n = int32_field_bytes(number, t as int).len();
            &&& 1 <= n <= s.len()
            &&& s.skip(n as int) == rest
            &&& parse_field(s) matches Some((f, m))
            &&& m == n
            &&& f.number == number
            &&& field_int32(f) == Some(t as int)
        }),
{
    let s = int32_field_bytes(number, t as int) + rest;
    let n = int32_field_bytes(number, t as int).len();
    lemma_int32_wire(t);
    lemma_parse_varint_field(number, int32_to_wire(t as int) as u64, rest);
    lemma_parse_field_bounds(s);
    assert(s.skip(n as int) =~= rest);
}

/// Encoding a join request and decoding the frame as a join request gives
/// the request back: the player's id and the trophies, exactly.
pub proof fn lemma_join_request_round_trip(request: MatchRequest)
    requires
        encode_utf8(request@.player_id).len() <= usize::MAX,
    ensures
        parse_join_request(join_request_bytes(request@)) == Some(request@),
{
    let r = request@;
    let none = Seq::<u8>::empty();
    let tail = int32_field_bytes(2, r.trophies);
    let mid = MatchRequestView { player_id: r.player_id, trophies: 0 };
    assert(parse_join_request_from(none, r) == Some(r));
    assert(parse_join_request_from(tail, mid) == Some(r)) by {
        if r.trophies != 0 {
            lemma_parse_int32_field(2, request.trophies, none);
            assert(tail + none =~= tail);
        } else {
            assert(mid == r);
        }
    }
    assert(parse_join_request_from(join_request_bytes(r), empty_join_request()) == Some(r)) by {
        if r.player_id.len() > 0 {
            lemma_parse_text_field(1, r.player_id, tail);
        } else {
            assert(join_request_bytes(r) =~= tail);
            assert(mid.player_id =~= empty_join_request().player_id);
        }
    }
}

/// Decoding the frame of a match-found response gives back exactly the fields
/// that were written: the opponent's id and trophies and the room's id.
pub proof fn lemma_match_found_round_trip(found: MatchFound)
    requires
        encode_utf8(found@.opponent_id).len() <= usize::MAX,
        encode_utf8(found@.room_id).len() <= usize::MAX,
    ensures
        parse_match_found(match_found_bytes(found@)) == Some(found@),
{
    let m = found@;
    let none = Seq::<u8>::empty();
    let room = text_field_bytes(3, m.room_id);
    let tail = int32_field_bytes(2, m.opponent_trophies) + room;
    let first = MatchFoundView {
        opponent_id: m.opponent_id,
        opponent_trophies: 0,
        room_id: Seq::empty(),
    };
    let second = MatchFoundView {
        opponent_id: m.opponent_id,
        opponent_trophies: m.opponent_trophies,
        room_id: Seq::empty(),
    };
    assert(parse_match_found_from(none, m) == Some(m));
    assert(parse_match_found_from(room, second) == Some(m)) by {
        if m.room_id.len() > 0 {
            lemma_parse_text_field(3, m.room_id, none);
            assert(room + none =~= room);
        } else {
            assert(second.room_id =~= m.room_id);
        }
    }
    assert(parse_match_found_from(tail, first) == Some(m)) by {
        if m.opponent_trophies != 0 {
            lemma_parse_int32_field(2, found.opponent_trophies, room);
        } else {
            assert(tail =~= room);
            assert(first == second);
        }
    }
    assert(parse_match_found_from(match_found_bytes(m), empty_match_found()) == Some(m)) by {
        assert(match_found_bytes(m) =~= text_field_bytes(1, m.opponent_id) + tail);
        if m.opponent_id.len() > 0 {
            lemma_parse_text_field(1, m.opponent_id, tail);
        } else {
            assert(match_found_bytes(m) =~= tail);
            assert(first.opponent_id =~= empty_match_found().opponent_id);
        }
    }
}

/// The empty frame is a match-found response with every field at its
/// default, and a frame that ends inside a field is none.
pub proof fn lemma_match_found_edge_frames(cut: Seq<u8>)
    requires
        cut.len() > 0,
        parse_field(cut) is None,
    ensures
        parse_match_found(Seq::empty()) == Some(empty_match_found()),
        parse_match_found(cut) is None,
{
}

} // verus!

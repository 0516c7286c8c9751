//! The wire form of one value and of one keyed entry.
use vstd::prelude::*;
use vstd::bytes::*;
use vstd::slice::{slice_subrange, slice_to_vec};
use vstd::utf8::{decode_utf8, encode_utf8, valid_utf8};

use crate::format::error::{Error, ErrorView};
use crate::format::values::Sha1;
use crate::format::{tag_of, Key, Value, ValueView};

verus! {

broadcast use vstd::utf8::group_utf8_lib;

/// Relies on `String::from_utf8`: it accepts exactly the valid UTF-8 byte
/// strings and decodes them, and rejects every other byte string.
pub assume_specification[ String::from_utf8 ](vec: Vec<u8>) -> (r: Result<
    String,
    std::string::FromUtf8Error,
>)
    ensures
        match r {
            Ok(s) => valid_utf8(vec@) && s@ == decode_utf8(vec@),
            Err(_) => !valid_utf8(vec@),
        },
;

/// The bytes that follow the type tag of a value.
pub open spec fn payload_bytes(v: ValueView) -> Seq<u8> {
    match v {
        ValueView::U8(x) => seq![x],
        ValueView::U16(x) => spec_u16_to_le_bytes(x),
        ValueView::U32(x) => spec_u32_to_le_bytes(x),
        ValueView::U64(x) => spec_u64_to_le_bytes(x),
        ValueView::ShortString(s) => seq![encode_utf8(s).len() as u8] + encode_utf8(s),
        ValueView::LongString(s) => spec_u16_to_le_bytes(encode_utf8(s).len() as u16) + encode_utf8(
            s,
        ),
        ValueView::Binary(b) => spec_u32_to_le_bytes(b.len() as u32) + b,
        ValueView::Bool(b) => seq![if b { 1u8 } else { 0u8 }],
        ValueView::Float(bits) => spec_u32_to_le_bytes(bits),
        ValueView::Sha1(h) => h,
    }
}

/// A value on the wire: its type tag, then its payload.
pub open spec fn value_bytes(v: ValueView) -> Seq<u8> {
    seq![tag_of(v)] + payload_bytes(v)
}

/// An entry on the wire: the key, little-endian, then the value.
pub open spec fn entry_bytes(k: u32, v: ValueView) -> Seq<u8> {
    spec_u32_to_le_bytes(k) + value_bytes(v)
}

/// Whether every length of the value fits the width the wire gives it.
pub open spec fn encodable(v: ValueView) -> bool {
    match v {
        ValueView::ShortString(s) => encode_utf8(s).len() <= 0xff,
        ValueView::LongString(s) => encode_utf8(s).len() <= 0xffff,
        ValueView::Binary(b) => b.len() <= 0xffff_ffff,
        ValueView::Sha1(h) => h.len() == 20,
        _ => true,
    }
}

/// Decodes a string payload of `n` bytes that follow `skip` length bytes.
pub open spec fn parse_text(b: Seq<u8>, skip: int, n: int) -> Result<(Seq<char>, nat), ErrorView> {
    if b.len() < skip + n {
        Err(ErrorView::UnexpectedEof)
    } else if !valid_utf8(b.subrange(skip, skip + n)) {
        Err(ErrorView::InvalidUtf8)
    } else {
        Ok((decode_utf8(b.subrange(skip, skip + n)), (skip + n) as nat))
    }
}

/// Decodes the payload of a value of type `tag` from the front of `b`:
/// the value and the number of bytes it took.
pub open spec fn parse_payload(tag: u8, b: Seq<u8>) -> Result<(ValueView, nat), ErrorView> {
    if tag == 0 {
        if b.len() < 1 {
            Err(ErrorView::UnexpectedEof)
        } else {
            Ok((ValueView::U8(b[0]), 1))
        }
    } else if tag == 1 {
        if b.len() < 2 {
            Err(ErrorView::UnexpectedEof)
        } else {
            Ok((ValueView::U16(spec_u16_from_le_bytes(b.subrange(0, 2))), 2))
        }
    } else if tag == 2 {
        if b.len() < 4 {
            Err(ErrorView::UnexpectedEof)
        } else {
            Ok((ValueView::U32(spec_u32_from_le_bytes(b.subrange(0, 4))), 4))
        }
    } else if tag == 3 {
        if b.len() < 8 {
            Err(ErrorView::UnexpectedEof)
        } else {
            Ok((ValueView::U64(spec_u64_from_le_bytes(b.subrange(0, 8))), 8))
        }
    } else if tag == 4 {
        if b.len() < 1 {
            Err(ErrorView::UnexpectedEof)
        } else {
            match parse_text(b, 1, b[0] as int) {
                Ok((s, n)) => Ok((ValueView::ShortString(s), n)),
                Err(e) => Err(e),
            }
        }
    } else if tag == 5 {
        if b.len() < 2 {
            Err(ErrorView::UnexpectedEof)
        } else {
            match parse_text(b, 2, spec_u16_from_le_bytes(b.subrange(0, 2)) as int) {
                Ok((s, n)) => Ok((ValueView::LongString(s), n)),
                Err(e) => Err(e),
            }
        }
    } else if tag == 6 {
        if b.len() < 4 {
            Err(ErrorView::UnexpectedEof)
        } else {
            let n = spec_u32_from_le_bytes(b.subrange(0, 4)) as int;
            if b.len() < 4 + n {
                Err(ErrorView::UnexpectedEof)
            } else {
                Ok((ValueView::Binary(b.subrange(4, 4 + n)), (4 + n) as nat))
            }
        }
    } else if tag == 7 {
        if b.len() < 1 {
            Err(ErrorView::UnexpectedEof)
        } else if b[0] == 0 {
            Ok((ValueView::Bool(false), 1))
        } else if b[0] == 1 {
            Ok((ValueView::Bool(true), 1))
        } else {
            Err(ErrorView::InvalidBoolean(b[0]))
        }
    } else if tag == 8 {
        if b.len() < 4 {
            Err(ErrorView::UnexpectedEof)
        } else {
            Ok((ValueView::Float(spec_u32_from_le_bytes(b.subrange(0, 4))), 4))
        }
    } else if tag == 9 {
        if b.len() < 20 {
            Err(ErrorView::UnexpectedEof)
        } else {
            Ok((ValueView::Sha1(b.subrange(0, 20)), 20))
        }
    } else {
        Err(ErrorView::InvalidDataType(tag))
    }
}

/// Decodes a tagged value from the front of `b`.
pub open spec fn parse_value(b: Seq<u8>) -> Result<(ValueView, nat), ErrorView> {
    if b.len() < 1 {
        Err(ErrorView::UnexpectedEof)
    } else {
        match parse_payload(b[0], b.drop_first()) {
            Ok((v, n)) => Ok((v, n + 1)),
            Err(e) => Err(e),
        }
    }
}

/// Decodes a keyed entry from the front of `b`.
pub open spec fn parse_entry(b: Seq<u8>) -> Result<(u32, ValueView, nat), ErrorView> {
    if b.len() < 4 {
        Err(ErrorView::UnexpectedEof)
    } else {
        match parse_value(b.subrange(4, b.len() as int)) {
            Ok((v, n)) => Ok((spec_u32_from_le_bytes(b.subrange(0, 4)), v, n + 4)),
            Err(e) => Err(e),
        }
    }
}

/// Copies `n` bytes from the front of `bytes` into a string, if they are UTF-8.
fn read_text(bytes: &[u8], skip: usize, n: usize) -> (r: Result<(String, usize), Error>)
    requires
        skip <= bytes@.len(),
    ensures
        match parse_text(bytes@, skip as int, n as int) {
            Ok((s, m)) => r matches Ok((t, k)) && t@ == s && k == m,
            Err(e) => r matches Err(x) && x@ == e,
        },
{
    if bytes.len() - skip < n {
        return Err(Error::UnexpectedEof);
    }
    let raw = slice_to_vec(slice_subrange(bytes, skip, skip + n));
    match String::from_utf8(raw) {
        Ok(s) => Ok((s, skip + n)),
        Err(e) => Err(Error::InvalidUtf8(e)),
    }
}

/// Decodes the payload of a value of type `tag` from the front of `bytes`,
/// and says how many bytes it took.
pub fn decode_value(tag: u8, bytes: &[u8]) -> (r: Result<(Value, usize), Error>)
    ensures
        match parse_payload(tag, bytes@) {
            Ok((v, n)) => r matches Ok((x, m)) && x@ == v && m == n,
            Err(e) => r matches Err(x) && x@ == e,
        },
{
    let len = bytes.len();
    if tag == 0 {
        if len < 1 {
            return Err(Error::UnexpectedEof);
        }
        Ok((Value::U8(bytes[0]), 1))
    } else if tag == 1 {
        if len < 2 {
            return Err(Error::UnexpectedEof);
        }
        Ok((Value::U16(u16_from_le_bytes(slice_subrange(bytes, 0, 2))), 2))
    } else if tag == 2 {
        if len < 4 {
            return Err(Error::UnexpectedEof);
        }
        Ok((Value::U32(u32_from_le_bytes(slice_subrange(bytes, 0, 4))), 4))
    } else if tag == 3 {
        if len < 8 {
            return Err(Error::UnexpectedEof);
        }
        Ok((Value::U64(u64_from_le_bytes(slice_subrange(bytes, 0, 8))), 8))
    } else if tag == 4 {
        if len < 1 {
            return Err(Error::UnexpectedEof);
        }
        let (s, n) = read_text(bytes, 1, bytes[0] as usize)?;
        Ok((Value::ShortString(s), n))
    } else if tag == 5 {
        if len < 2 {
            return Err(Error::UnexpectedEof);
        }
        let n = u16_from_le_bytes(slice_subrange(bytes, 0, 2));
        let (s, m) = read_text(bytes, 2, n as usize)?;
        Ok((Value::LongString(s), m))
    } else if tag == 6 {
        if len < 4 {
            return Err(Error::UnexpectedEof);
        }
        let n = u32_from_le_bytes(slice_subrange(bytes, 0, 4));
        if ((len - 4) as u64) < (n as u64) {
            return Err(Error::UnexpectedEof);
        }
        let n = n as usize;
        let data = slice_to_vec(slice_subrange(bytes, 4, 4 + n));
        Ok((Value::Binary(data), 4 + n))
    } else if tag == 7 {
        if len < 1 {
            return Err(Error::UnexpectedEof);
        }
        let b = bytes[0];
        if b == 0 {
            Ok((Value::Bool(false), 1))
        } else if b == 1 {
            Ok((Value::Bool(true), 1))
        } else {
            Err(Error::InvalidBoolean(b))
        }
    } else if tag == 8 {
        if len < 4 {
            return Err(Error::UnexpectedEof);
        }
        Ok((Value::Float(u32_from_le_bytes(slice_subrange(bytes, 0, 4))), 4))
    } else if tag == 9 {
        if len < 20 {
            return Err(Error::UnexpectedEof);
        }
        let mut hash = [0u8; 20];
        let mut i: usize = 0;
        while i < 20
            invariant
                i <= 20,
                len == bytes@.len(),
                len >= 20,
                forall|j: int| 0 <= j < i ==> hash@[j] == bytes@[j],
            decreases 20 - i,
        {
            hash[i] = bytes[i];
            i = i + 1;
        }
        assert(hash@ =~= bytes@.subrange(0, 20));
        Ok((Value::Sha1(Sha1(hash)), 20))
    } else {
        Err(Error::InvalidDataType(tag))
    }
}

/// Appends `bytes` to `out`.
fn push_all(out: &mut Vec<u8>, bytes: &[u8])
    ensures
        final(out)@ == old(out)@ + bytes@,
{
    let mut tail = slice_to_vec(bytes);
    out.append(&mut tail);
}

/// Writes the type tag of `value`, then its payload, and says how many
/// bytes that took. A length too wide for its field is refused, with
/// nothing written.
pub fn encode_value(value: &Value, out: &mut Vec<u8>) -> (r: Result<usize, Error>)
    ensures
        r is Ok <==> encodable(value@),
        match r {
            Ok(n) => final(out)@ == old(out)@ + value_bytes(value@) && n == value_bytes(
                value@,
            ).len(),
            Err(e) => e@ == ErrorView::IntegerOverflow && final(out)@ == old(out)@,
        },
{
    let tag = value.data_type();
    match value {
        Value::U8(x) => {
            out.push(tag);
            out.push(*x);
            Ok(2)
        },
        Value::U16(x) => {
            out.push(tag);
            push_all(out, u16_to_le_bytes(*x).as_slice());
            Ok(3)
        },
        Value::U32(x) => {
            out.push(tag);
            push_all(out, u32_to_le_bytes(*x).as_slice());
            Ok(5)
        },
        Value::U64(x) => {
            out.push(tag);
            push_all(out, u64_to_le_bytes(*x).as_slice());
            Ok(9)
        },
        Value::ShortString(s) => {
            let utf8 = s.as_str().as_bytes();
            let n = utf8.len();
            if n > 0xff {
                return Err(Error::IntegerOverflow);
            }
            out.push(tag);
            out.push(n as u8);
            push_all(out, utf8);
            Ok(2 + n)
        },
        Value::LongString(s) => {
            let utf8 = s.as_str().as_bytes();
            let n = utf8.len();
            if n > 0xffff {
                return Err(Error::IntegerOverflow);
            }
            out.push(tag);
            push_all(out, u16_to_le_bytes(n as u16).as_slice());
            push_all(out, utf8);
            Ok(3 + n)
        },
        Value::Binary(b) => {
            let n = b.len();
            if n as u64 > 0xffff_ffff {
                return Err(Error::IntegerOverflow);
            }
            let start = out.len();
            out.push(tag);
            push_all(out, u32_to_le_bytes(n as u32).as_slice());
            push_all(out, b.as_slice());
            Ok(out.len() - start)
        },
        Value::Bool(b) => {
            out.push(tag);
            out.push(if *b { 1 } else { 0 });
            Ok(2)
        },
        Value::Float(bits) => {
            out.push(tag);
            push_all(out, u32_to_le_bytes(*bits).as_slice());
            Ok(5)
        },
        Value::Sha1(h) => {
            out.push(tag);
            push_all(out, h.0.as_slice());
            Ok(21)
        },
    }
}

/// Decodes one entry, key then tagged value, from the front of `bytes`:
/// the number of bytes it took, and the entry.
pub fn read_kv(bytes: &[u8]) -> (r: Result<(usize, (Key, Value)), Error>)
    ensures
        match parse_entry(bytes@) {
            Ok((k, v, n)) => r matches Ok((m, (x, y))) && m == n && x.0 == k && y@ == v,
            Err(e) => r matches Err(x) && x@ == e,
        },
{
    if bytes.len() < 5 {
        return Err(Error::UnexpectedEof);
    }
    let key = u32_from_le_bytes(slice_subrange(bytes, 0, 4));
    let tag = bytes[4];
    let rest = slice_subrange(bytes, 5, bytes.len());
    assert(bytes@.subrange(4, bytes@.len() as int).drop_first() =~= rest@);
    let (value, n) = decode_value(tag, rest)?;
    Ok((n + 5, (Key(key), value)))
}

/// Appends one entry, key then tagged value, to `out`, and says how many
/// bytes that took.
pub fn write_kv(out: &mut Vec<u8>, key: Key, value: &Value) -> (r: Result<usize, Error>)
    ensures
        r is Ok <==> encodable(value@),
        match r {
            Ok(n) => final(out)@ == old(out)@ + entry_bytes(key.0, value@) && n == entry_bytes(
                key.0,
                value@,
            ).len(),
            Err(e) => e@ == ErrorView::IntegerOverflow && final(out)@ == old(out)@,
        },
{
    let mut entry: Vec<u8> = u32_to_le_bytes(key.0);
    encode_value(value, &mut entry)?;
    let written = entry.len();
    out.append(&mut entry);
    proof {
        assert(entry_bytes(key.0, value@) =~= spec_u32_to_le_bytes(key.0) + value_bytes(value@));
    }
    Ok(written)
}

/// The payload of an encodable value decodes back to it, whatever follows.
proof fn lemma_payload_round_trip(v: ValueView, rest: Seq<u8>)
    requires
        encodable(v),
    ensures
        parse_payload(tag_of(v), payload_bytes(v) + rest) == Ok::<(ValueView, nat), ErrorView>(
            (v, payload_bytes(v).len()),
        ),
{
    lemma_auto_spec_u16_to_from_le_bytes();
    lemma_auto_spec_u32_to_from_le_bytes();
    lemma_auto_spec_u64_to_from_le_bytes();
    let p = payload_bytes(v);
    let b = p + rest;
    match v {
        ValueView::U8(x) => {},
        ValueView::U16(x) => {
            assert(b.subrange(0, 2) =~= spec_u16_to_le_bytes(x));
        },
        ValueView::U32(x) => {
            assert(b.subrange(0, 4) =~= spec_u32_to_le_bytes(x));
        },
        ValueView::U64(x) => {
            assert(b.subrange(0, 8) =~= spec_u64_to_le_bytes(x));
        },
        ValueView::ShortString(s) => {
            let u = encode_utf8(s);
            assert(b[0] == u.len() as u8);
            assert(b.subrange(1, 1 + u.len() as int) =~= u);
        },
        ValueView::LongString(s) => {
            let u = encode_utf8(s);
            let w = spec_u16_to_le_bytes(u.len() as u16);
            assert(b.subrange(0, 2) =~= w);
            assert(b.subrange(2, 2 + u.len() as int) =~= u);
        },
        ValueView::Binary(d) => {
            let w = spec_u32_to_le_bytes(d.len() as u32);
            assert(b.subrange(0, 4) =~= w);
            assert(b.subrange(4, 4 + d.len() as int) =~= d);
        },
        ValueView::Bool(x) => {},
        ValueView::Float(bits) => {
            assert(b.subrange(0, 4) =~= spec_u32_to_le_bytes(bits));
        },
        ValueView::Sha1(h) => {
            assert(b.subrange(0, 20) =~= h);
        },
    }
}

/// Decoding what [`encode_value`] writes gives the value back, and takes
/// exactly the bytes written, whatever follows them.
pub proof fn lemma_value_round_trip(v: Value, rest: Seq<u8>)
    requires
        encodable(v@),
    ensures
        parse_value(value_bytes(v@) + rest) == Ok::<(ValueView, nat), ErrorView>(
            (v@, value_bytes(v@).len()),
        ),
{
    lemma_payload_round_trip(v@, rest);
    let b = value_bytes(v@) + rest;
    assert(b.drop_first() =~= payload_bytes(v@) + rest);
}

/// An encodable entry decodes back to its key and value, whatever follows.
pub proof fn lemma_entry_round_trip(k: u32, v: ValueView, rest: Seq<u8>)
    requires
        encodable(v),
    ensures
        parse_entry(entry_bytes(k, v) + rest) == Ok::<(u32, ValueView, nat), ErrorView>(
            (k, v, entry_bytes(k, v).len()),
        ),
{
    lemma_auto_spec_u32_to_from_le_bytes();
    lemma_payload_round_trip(v, rest);
    let b = entry_bytes(k, v) + rest;
    assert(b.subrange(0, 4) =~= spec_u32_to_le_bytes(k));
    assert(b.subrange(4, b.len() as int) =~= value_bytes(v) + rest);
    assert((value_bytes(v) + rest).drop_first() =~= payload_bytes(v) + rest);
}

} // verus!

//! Identifiers, octet strings, values, variable bindings and search ranges
//! on the wire.
//!
//! Every multi-byte number in these encodings is big-endian, whatever the
//! header's byte-order flag says.

use vstd::prelude::*;
use vstd::slice::{slice_subrange, slice_to_vec};
use crate::error::CodecError;
use crate::oid::Oid;
use crate::types::{Value, ValueModel};
use crate::agentx::wire::{be16, be32, be64, from_be16, from_be32, from_be64};
use crate::agentx::wire::{put_be16, put_be32, put_be64, get_be32, Reader};
use crate::agentx::wire::{lemma_be16_roundtrip, lemma_be32_roundtrip, lemma_be64_roundtrip};

verus! {

/// The number of zero bytes that bring a field of `len` bytes to a multiple
/// of four.
pub open spec fn pad_len(len: int) -> int {
    (4 - len % 4) % 4
}

/// The number of zero bytes that bring a field of `len` bytes to a multiple
/// of four: 0, 1, 2 or 3, and 0 exactly when `len` is such a multiple.
pub fn pad_to_4(len: usize) -> (p: usize)
    ensures
        p == pad_len(len as int),
        p < 4,
        (len + p) % 4 == 0,
        p == 0 <==> len % 4 == 0,
{
    (4 - (len % 4)) % 4
}

/// `n` zero bytes.
pub open spec fn zeros(n: int) -> Seq<u8> {
    Seq::new(n as nat, |i: int| 0u8)
}

/// The sub-identifiers `subs` as big-endian 32-bit numbers, one after the
/// other.
#[verifier::opaque]
pub open spec fn subids_wire(subs: Seq<u32>) -> Seq<u8> {
    Seq::new(4 * subs.len(), |i: int| be32(subs[i / 4])[i % 4])
}

/// The `n` big-endian 32-bit numbers at the front of `b`.
pub open spec fn subids_parse(b: Seq<u8>, n: nat) -> Seq<u32> {
    Seq::new(n, |i: int| from_be32(b.skip(4 * i)))
}

/// Whether the identifier starts with `1.3.6.1.X` for an `X` that fits in the
/// prefix byte, so that these five components are left out on the wire.
pub open spec fn oid_compressible(parts: Seq<u32>) -> bool {
    &&& parts.len() >= 5
    &&& parts[0] == 1
    &&& parts[1] == 3
    &&& parts[2] == 6
    &&& parts[3] == 1
    &&& parts[4] <= 255
}

/// The prefix byte of an identifier on the wire.
pub open spec fn oid_prefix(parts: Seq<u32>) -> u8 {
    if oid_compressible(parts) {
        parts[4] as u8
    } else {
        0
    }
}

/// The sub-identifiers that are written out on the wire.
pub open spec fn oid_tail(parts: Seq<u32>) -> Seq<u32> {
    if oid_compressible(parts) {
        parts.skip(5)
    } else {
        parts
    }
}

/// Whether the count of written sub-identifiers fits in its byte.
pub open spec fn oid_fits(parts: Seq<u32>) -> bool {
    oid_tail(parts).len() <= 255
}

/// Whether an identifier is found again from its wire form: it has a
/// component, its written part fits the count byte, and it does not start
/// with `1.3.6.1.0`. An identifier that starts so is written with the prefix
/// byte 0, which a decoder reads as "no prefix".
pub open spec fn oid_recoverable(parts: Seq<u32>) -> bool {
    &&& parts.len() >= 1
    &&& oid_fits(parts)
    &&& !(oid_compressible(parts) && parts[4] == 0)
}

/// The byte that stands for an inclusion flag.
pub open spec fn flag_byte(inclusive: bool) -> u8 {
    if inclusive {
        1
    } else {
        0
    }
}

/// An identifier on the wire: count, prefix, inclusion flag, a zero byte,
/// then the written sub-identifiers.
pub open spec fn oid_wire(parts: Seq<u32>, inclusive: bool) -> Seq<u8> {
    seq![oid_tail(parts).len() as u8, oid_prefix(parts), flag_byte(inclusive), 0u8] + subids_wire(
        oid_tail(parts),
    )
}

/// The identifier that a prefix byte and the written sub-identifiers stand
/// for. With no prefix and no sub-identifier it is the identifier `0`.
pub open spec fn oid_expand(prefix: u8, tail: Seq<u32>) -> Seq<u32> {
    if prefix != 0 {
        seq![1u32, 3u32, 6u32, 1u32, prefix as u32] + tail
    } else if tail.len() == 0 {
        seq![0u32]
    } else {
        tail
    }
}

/// The identifier at the front of `b`, its inclusion flag, and the number of
/// bytes it takes.
pub open spec fn oid_parse(b: Seq<u8>) -> Result<(Seq<u32>, bool, int), CodecError> {
    if b.len() < 4 {
        Err(CodecError::TruncatedInput)
    } else if b.len() < 4 + 4 * b[0] {
        Err(CodecError::TruncatedInput)
    } else {
        Ok((oid_expand(b[1], subids_parse(b.skip(4), b[0] as nat)), b[2] != 0, 4 + 4 * b[0]))
    }
}

/// No sub-identifier takes no byte, and appending one sub-identifier appends
/// its four bytes.
pub proof fn lemma_subids_wire_push(subs: Seq<u32>, x: u32)
    ensures
        subids_wire(Seq::empty()) == Seq::<u8>::empty(),
        subids_wire(subs.push(x)) == subids_wire(subs) + be32(x),
{
    reveal(subids_wire);
    assert(subids_wire(Seq::empty()) =~= Seq::<u8>::empty());
    assert(subids_wire(subs.push(x)) =~= subids_wire(subs) + be32(x));
}

/// The written sub-identifiers are read back as they were, whatever follows.
pub proof fn lemma_subids_roundtrip(subs: Seq<u32>, rest: Seq<u8>)
    ensures
        subids_wire(subs).len() == 4 * subs.len(),
        subids_parse(subids_wire(subs) + rest, subs.len()) == subs,
{
    reveal(subids_wire);
    let b = subids_wire(subs) + rest;
    assert forall|i: int| 0 <= i < subs.len() implies from_be32(b.skip(4 * i)) == subs[i] by {
        let tail = b.skip(4 * i + 4);
        assert(b.skip(4 * i) =~= be32(subs[i]) + tail);
        lemma_be32_roundtrip(subs[i], tail);
    }
    assert(subids_parse(b, subs.len()) =~= subs);
}

/// Decoding an encoded identifier, whatever follows it, gives the identifier
/// and the inclusion flag back and takes exactly the encoded bytes: four
/// bytes and four more for each written sub-identifier, which are five fewer
/// than the components when the identifier is compressible.
pub proof fn lemma_oid_roundtrip(parts: Seq<u32>, inclusive: bool, rest: Seq<u8>)
    requires
        oid_recoverable(parts),
    ensures
        oid_parse(oid_wire(parts, inclusive) + rest)
            === Ok((parts, inclusive, oid_wire(parts, inclusive).len() as int)),
        oid_wire(parts, inclusive).len() == 4 + 4 * oid_tail(parts).len(),
{
    let tail = oid_tail(parts);
    let head = seq![tail.len() as u8, oid_prefix(parts), flag_byte(inclusive), 0u8];
    let b = oid_wire(parts, inclusive) + rest;
    lemma_subids_roundtrip(tail, rest);
    assert(b =~= head + (subids_wire(tail) + rest));
    assert(b.skip(4) =~= subids_wire(tail) + rest);
    assert(b[0] == tail.len() as u8);
    assert(b[1] == oid_prefix(parts));
    assert(b[2] == flag_byte(inclusive));
    if oid_compressible(parts) {
        assert(seq![1u32, 3u32, 6u32, 1u32, parts[4]] + tail =~= parts);
    }
}

/// An encoded identifier that is cut short anywhere is refused as truncated.
pub proof fn lemma_oid_truncated(parts: Seq<u32>, inclusive: bool, k: int)
    requires
        oid_fits(parts),
        0 <= k < oid_wire(parts, inclusive).len(),
    ensures
        oid_parse(oid_wire(parts, inclusive).take(k)) === Err(CodecError::TruncatedInput),
{
    let tail = oid_tail(parts);
    lemma_subids_roundtrip(tail, Seq::empty());
    let w = oid_wire(parts, inclusive);
    if k >= 4 {
        assert(w.take(k)[0] == w[0]);
        assert(w[0] == tail.len() as u8);
    }
}

/// A decoded identifier takes at least four bytes and no more than there
/// are, and has at least one component.
pub proof fn lemma_oid_parse_bounds(b: Seq<u8>)
    ensures
        oid_parse(b) matches Ok((parts, _, used)) ==> 4 <= used <= b.len() && parts.len() >= 1,
{
}

/// An identifier can be encoded exactly when it has at most 255 components,
/// or at most 260 if it is compressible: the count byte never wraps.
pub proof fn lemma_oid_count_bound(parts: Seq<u32>)
    ensures
        oid_compressible(parts) ==> (oid_fits(parts) <==> parts.len() <= 260),
        !oid_compressible(parts) ==> (oid_fits(parts) <==> parts.len() <= 255),
{
}

/// Appends the wire form of `oid` with the inclusion flag `inclusive` to
/// `writer`.
///
/// Fails with `InvalidIdentifier`, writing nothing, exactly when more than
/// 255 sub-identifiers would have to be written.
pub fn encode_oid(writer: &mut Vec<u8>, oid: &Oid, inclusive: bool) -> (r: Result<(), CodecError>)
    ensures
        match r {
            Ok(_) => {
                &&& oid_fits(oid@)
                &&& final(writer)@ == old(writer)@ + oid_wire(oid@, inclusive)
            },
            Err(e) => {
                &&& !oid_fits(oid@)
                &&& e == CodecError::InvalidIdentifier
                &&& final(writer)@ == old(writer)@
            },
        },
{
    let parts = oid.parts();
    let compress: bool = parts.len() >= 5 && parts[0] == 1 && parts[1] == 3 && parts[2] == 6
        && parts[3] == 1 && parts[4] <= 255;
    let prefix: u8 = if compress {
        parts[4] as u8
    } else {
        0
    };
    let start: usize = if compress {
        5
    } else {
        0
    };
    let count: usize = parts.len() - start;
    if count > 255 {
        return Err(CodecError::InvalidIdentifier);
    }
    writer.push(count as u8);
    writer.push(prefix);
    writer.push(if inclusive { 1u8 } else { 0u8 });
    writer.push(0u8);
    let ghost head = writer@;
    let ghost tail = oid_tail(oid@);
    assert(head =~= old(writer)@ + seq![count as u8, prefix, flag_byte(inclusive), 0u8]);
    assert(tail =~= parts@.skip(start as int));
    let mut i: usize = start;
    proof {
        lemma_subids_wire_push(Seq::empty(), 0);
        assert(tail.take(0) =~= Seq::<u32>::empty());
    }
    while i < parts.len()
        invariant
            start <= i <= parts.len(),
            tail == parts@.skip(start as int),
            writer@ == head + subids_wire(tail.take(i - start)),
        decreases parts.len() - i,
    {
        put_be32(writer, parts[i]);
        proof {
            let k = i - start;
            assert(tail.take(k + 1) =~= tail.take(k).push(parts@[i as int]));
            lemma_subids_wire_push(tail.take(k), parts@[i as int]);
        }
        i += 1;
    }
    assert(tail.take(tail.len() as int) =~= tail);
    assert(writer@ =~= old(writer)@ + oid_wire(oid@, inclusive));
    Ok(())
}

/// Reads an identifier and its inclusion flag from the front of `reader`.
///
/// Fails with `TruncatedInput` when the four leading bytes or the announced
/// sub-identifiers are not all there. On failure the reader is left where it
/// was.
pub fn decode_oid(reader: &mut Reader) -> (r: Result<(Oid, bool), CodecError>)
    ensures
        match r {
            Ok((oid, inclusive)) => {
                &&& oid_parse(old(reader)@) matches Ok((parts, inc, used))
                &&& oid@ == parts
                &&& inclusive == inc
                &&& final(reader)@ == old(reader)@.skip(used)
            },
            Err(e) => {
                &&& oid_parse(old(reader)@) === Err(e)
                &&& final(reader)@ == old(reader)@
            },
        },
{
    let buf = reader.as_slice();
    if buf.len() < 4 {
        return Err(CodecError::TruncatedInput);
    }
    let count: usize = buf[0] as usize;
    let prefix: u8 = buf[1];
    let inclusive: bool = buf[2] != 0;
    if buf.len() < 4 + 4 * count {
        return Err(CodecError::TruncatedInput);
    }
    let mut parts: Vec<u32> = Vec::new();
    if prefix != 0 {
        parts.push(1);
        parts.push(3);
        parts.push(6);
        parts.push(1);
        parts.push(prefix as u32);
    }
    let ghost lead = parts@;
    let ghost tail = subids_parse(buf@.skip(4), count as nat);
    let mut i: usize = 0;
    while i < count
        invariant
            0 <= i <= count,
            count <= 255,
            buf@.len() >= 4 + 4 * count,
            tail == subids_parse(buf@.skip(4), count as nat),
            parts@ == lead + tail.take(i as int),
        decreases count - i,
    {
        let at: usize = 4 + 4 * i;
        let sub = slice_subrange(buf, at, buf.len());
        assert(sub@ =~= buf@.skip(4).skip(4 * i));
        parts.push(get_be32(sub));
        assert(tail.take(i + 1) =~= tail.take(i as int).push(tail[i as int]));
        i += 1;
    }
    assert(tail.take(count as int) =~= tail);
    if parts.len() == 0 {
        parts.push(0);
    }
    assert(parts@ =~= oid_expand(prefix, tail));
    let oid = match Oid::from_vec(parts) {
        Ok(oid) => oid,
        Err(e) => {
            return Err(e);
        },
    };
    reader.advance(4 + 4 * count);
    Ok((oid, inclusive))
}

/// A byte string on the wire: its length as a big-endian 32-bit number, the
/// bytes, and zero bytes up to a multiple of four.
pub open spec fn octets_wire(data: Seq<u8>) -> Seq<u8> {
    be32(data.len() as u32) + data + zeros(pad_len(data.len() as int))
}

/// The byte string at the front of `b` and the number of bytes it takes, its
/// padding counted. The padding bytes are not looked at.
pub open spec fn octets_parse(b: Seq<u8>) -> Result<(Seq<u8>, int), CodecError> {
    if b.len() < 4 {
        Err(CodecError::TruncatedInput)
    } else {
        let len = from_be32(b) as int;
        if b.len() < 4 + len + pad_len(len) {
            Err(CodecError::TruncatedInput)
        } else {
            Ok((b.subrange(4, 4 + len), 4 + len + pad_len(len)))
        }
    }
}

/// An encoded byte string has four bytes of length, the bytes, and 0 to 3
/// bytes of padding, none exactly when the length is a multiple of four.
/// Decoding it, whatever follows it, gives the bytes back and takes exactly
/// the encoded bytes. This holds of every string whose length fits in 32
/// bits.
pub proof fn lemma_octets_roundtrip(data: Seq<u8>, rest: Seq<u8>)
    requires
        data.len() <= u32::MAX,
    ensures
        octets_wire(data).len() == 4 + data.len() + pad_len(data.len() as int),
        0 <= pad_len(data.len() as int) <= 3,
        pad_len(data.len() as int) == 0 <==> data.len() % 4 == 0,
        octets_wire(data).len() % 4 == 0,
        octets_parse(octets_wire(data) + rest) === Ok((data, octets_wire(data).len() as int)),
{
    let len = data.len() as u32;
    let pad = zeros(pad_len(data.len() as int));
    let b = octets_wire(data) + rest;
    assert(b =~= be32(len) + (data + pad + rest));
    lemma_be32_roundtrip(len, data + pad + rest);
    assert(b.subrange(4, 4 + data.len() as int) =~= data);
}

/// An encoded byte string that is cut short anywhere is refused as
/// truncated.
pub proof fn lemma_octets_truncated(data: Seq<u8>, k: int)
    requires
        data.len() <= u32::MAX,
        0 <= k < octets_wire(data).len(),
    ensures
        octets_parse(octets_wire(data).take(k)) === Err(CodecError::TruncatedInput),
{
    let w = octets_wire(data);
    lemma_octets_roundtrip(data, Seq::empty());
    if k >= 4 {
        let len = data.len() as u32;
        lemma_be32_roundtrip(len, data + zeros(pad_len(data.len() as int)));
        assert(w =~= be32(len) + (data + zeros(pad_len(data.len() as int))));
        let cut = w.take(k);
        assert(cut[0] == w[0] && cut[1] == w[1] && cut[2] == w[2] && cut[3] == w[3]);
        assert(from_be32(cut) == from_be32(w));
    }
}

/// A decoded byte string takes at least four bytes and no more than there
/// are.
pub proof fn lemma_octets_parse_bounds(b: Seq<u8>)
    ensures
        octets_parse(b) matches Ok((_, used)) ==> 4 <= used <= b.len(),
{
}

/// Appends the wire form of the byte string `data` to `writer`.
pub fn encode_octet_string(writer: &mut Vec<u8>, data: &[u8]) -> (r: Result<(), CodecError>)
    requires
        data@.len() <= u32::MAX,
    ensures
        r is Ok,
        final(writer)@ == old(writer)@ + octets_wire(data@),
{
    put_be32(writer, data.len() as u32);
    writer.extend_from_slice(data);
    let padding: usize = pad_to_4(data.len());
    let ghost head = writer@;
    let mut i: usize = 0;
    while i < padding
        invariant
            0 <= i <= padding,
            writer@ == head + zeros(i as int),
        decreases padding - i,
    {
        writer.push(0u8);
        assert(writer@ =~= head + zeros(i + 1));
        i += 1;
    }
    assert(writer@ =~= old(writer)@ + octets_wire(data@));
    Ok(())
}

/// Reads a byte string from the front of `reader` and skips its padding.
///
/// Fails with `TruncatedInput` when the length, the announced bytes or the
/// padding are not all there. On failure the reader is left where it was.
pub fn decode_octet_string(reader: &mut Reader) -> (r: Result<Vec<u8>, CodecError>)
    ensures
        match r {
            Ok(data) => {
                &&& octets_parse(old(reader)@) matches Ok((bytes, used))
                &&& data@ == bytes
                &&& final(reader)@ == old(reader)@.skip(used)
            },
            Err(e) => {
                &&& octets_parse(old(reader)@) === Err(e)
                &&& final(reader)@ == old(reader)@
            },
        },
{
    let buf = reader.as_slice();
    if buf.len() < 4 {
        return Err(CodecError::TruncatedInput);
    }
    let len: usize = get_be32(buf) as usize;
    let avail: usize = buf.len() - 4;
    if avail < len {
        return Err(CodecError::TruncatedInput);
    }
    let padding: usize = pad_to_4(len);
    if avail - len < padding {
        return Err(CodecError::TruncatedInput);
    }
    let data = slice_to_vec(slice_subrange(buf, 4, 4 + len));
    reader.advance(4 + len + padding);
    Ok(data)
}

/// The kind of a value, which is what its type code on the wire tells.
#[derive(Debug, Clone, Copy, PartialEq, Eq, Structural)]
pub enum ValueType {
    Integer,
    OctetString,
    Null,
    ObjectIdentifier,
    IpAddress,
    Counter32,
    Gauge32,
    TimeTicks,
    Opaque,
    Counter64,
    NoSuchObject,
    NoSuchInstance,
    EndOfMibView,
}

impl ValueType {
    /// The type code of this kind on the wire.
    pub open spec fn spec_code(self) -> u16 {
        match self {
            ValueType::Integer => 2,
            ValueType::OctetString => 4,
            ValueType::Null => 5,
            ValueType::ObjectIdentifier => 6,
            ValueType::IpAddress => 64,
            ValueType::Counter32 => 65,
            ValueType::Gauge32 => 66,
            ValueType::TimeTicks => 67,
            ValueType::Opaque => 68,
            ValueType::Counter64 => 70,
            ValueType::NoSuchObject => 128,
            ValueType::NoSuchInstance => 129,
            ValueType::EndOfMibView => 130,
        }
    }

    /// The kind that `code` stands for, if it stands for one.
    pub open spec fn spec_from_code(code: u16) -> Option<ValueType> {
        if code == 2 {
            Some(ValueType::Integer)
        } else if code == 4 {
            Some(ValueType::OctetString)
        } else if code == 5 {
            Some(ValueType::Null)
        } else if code == 6 {
            Some(ValueType::ObjectIdentifier)
        } else if code == 64 {
            Some(ValueType::IpAddress)
        } else if code == 65 {
            Some(ValueType::Counter32)
        } else if code == 66 {
            Some(ValueType::Gauge32)
        } else if code == 67 {
            Some(ValueType::TimeTicks)
        } else if code == 68 {
            Some(ValueType::Opaque)
        } else if code == 70 {
            Some(ValueType::Counter64)
        } else if code == 128 {
            Some(ValueType::NoSuchObject)
        } else if code == 129 {
            Some(ValueType::NoSuchInstance)
        } else if code == 130 {
            Some(ValueType::EndOfMibView)
        } else {
            None
        }
    }

    /// The kind of the value `v`.
    pub open spec fn of(v: ValueModel) -> ValueType {
        match v {
            ValueModel::Integer(_) => ValueType::Integer,
            ValueModel::OctetString(_) => ValueType::OctetString,
            ValueModel::Null => ValueType::Null,
            ValueModel::ObjectIdentifier(_) => ValueType::ObjectIdentifier,
            ValueModel::IpAddress(_, _, _, _) => ValueType::IpAddress,
            ValueModel::Counter32(_) => ValueType::Counter32,
            ValueModel::Gauge32(_) => ValueType::Gauge32,
            ValueModel::TimeTicks(_) => ValueType::TimeTicks,
            ValueModel::Opaque(_) => ValueType::Opaque,
            ValueModel::Counter64(_) => ValueType::Counter64,
            ValueModel::NoSuchObject => ValueType::NoSuchObject,
            ValueModel::NoSuchInstance => ValueType::NoSuchInstance,
            ValueModel::EndOfMibView => ValueType::EndOfMibView,
        }
    }

    /// The type code of this kind on the wire.
    #[verifier::when_used_as_spec(spec_code)]
    pub fn code(self) -> (c: u16)
        ensures
            c == self.spec_code(),
    {
        match self {
            ValueType::Integer => 2,
            ValueType::OctetString => 4,
            ValueType::Null => 5,
            ValueType::ObjectIdentifier => 6,
            ValueType::IpAddress => 64,
            ValueType::Counter32 => 65,
            ValueType::Gauge32 => 66,
            ValueType::TimeTicks => 67,
            ValueType::Opaque => 68,
            ValueType::Counter64 => 70,
            ValueType::NoSuchObject => 128,
            ValueType::NoSuchInstance => 129,
            ValueType::EndOfMibView => 130,
        }
    }

    /// The kind that `code` stands for, if it stands for one.
    #[verifier::when_used_as_spec(spec_from_code)]
    pub fn from_code(code: u16) -> (k: Option<ValueType>)
        ensures
            k == ValueType::spec_from_code(code),
    {
        match code {
            2 => Some(ValueType::Integer),
            4 => Some(ValueType::OctetString),
            5 => Some(ValueType::Null),
            6 => Some(ValueType::ObjectIdentifier),
            64 => Some(ValueType::IpAddress),
            65 => Some(ValueType::Counter32),
            66 => Some(ValueType::Gauge32),
            67 => Some(ValueType::TimeTicks),
            68 => Some(ValueType::Opaque),
            70 => Some(ValueType::Counter64),
            128 => Some(ValueType::NoSuchObject),
            129 => Some(ValueType::NoSuchInstance),
            130 => Some(ValueType::EndOfMibView),
            _ => None,
        }
    }

    /// The kind of `value`.
    pub fn of_value(value: &Value) -> (k: ValueType)
        ensures
            k == ValueType::of(value@),
    {
        match value {
            Value::Integer(_) => ValueType::Integer,
            Value::OctetString(_) => ValueType::OctetString,
            Value::Null() => ValueType::Null,
            Value::ObjectIdentifier(_) => ValueType::ObjectIdentifier,
            Value::IpAddress(_, _, _, _) => ValueType::IpAddress,
            Value::Counter32(_) => ValueType::Counter32,
            Value::Gauge32(_) => ValueType::Gauge32,
            Value::TimeTicks(_) => ValueType::TimeTicks,
            Value::Opaque(_) => ValueType::Opaque,
            Value::Counter64(_) => ValueType::Counter64,
            Value::NoSuchObject() => ValueType::NoSuchObject,
            Value::NoSuchInstance() => ValueType::NoSuchInstance,
            Value::EndOfMibView() => ValueType::EndOfMibView,
        }
    }

    /// A kind is found again from its code, and a code that stands for a kind
    /// is the code of that kind.
    pub proof fn lemma_code_roundtrip(k: ValueType, code: u16)
        ensures
            ValueType::spec_from_code(k.spec_code()) == Some(k),
            ValueType::spec_from_code(code) matches Some(j) ==> j.spec_code() == code,
    {
    }
}

/// The 32 bits that stand for a signed number, in two's complement.
pub open spec fn i32_bits(v: i32) -> u32 {
    if v >= 0 {
        v as u32
    } else {
        (v + 0x1_0000_0000) as u32
    }
}

/// The signed number that 32 bits stand for, in two's complement.
pub open spec fn bits_i32(x: u32) -> i32 {
    if x < 0x8000_0000 {
        x as i32
    } else {
        (x - 0x1_0000_0000) as i32
    }
}

/// What follows the type code and the two reserved bytes of a value.
pub open spec fn payload_wire(v: ValueModel) -> Seq<u8> {
    match v {
        ValueModel::Integer(x) => be32(i32_bits(x)),
        ValueModel::OctetString(data) => octets_wire(data),
        ValueModel::Null => Seq::empty(),
        ValueModel::ObjectIdentifier(parts) => oid_wire(parts, false),
        ValueModel::IpAddress(a, b, c, d) => seq![a, b, c, d],
        ValueModel::Counter32(x) => be32(x),
        ValueModel::Gauge32(x) => be32(x),
        ValueModel::TimeTicks(x) => be32(x),
        ValueModel::Opaque(data) => octets_wire(data),
        ValueModel::Counter64(x) => be64(x),
        ValueModel::NoSuchObject => Seq::empty(),
        ValueModel::NoSuchInstance => Seq::empty(),
        ValueModel::EndOfMibView => Seq::empty(),
    }
}

/// A value on the wire: its type code as a big-endian 16-bit number, two
/// zero bytes, and its payload.
pub open spec fn value_wire(v: ValueModel) -> Seq<u8> {
    be16(ValueType::of(v).spec_code()) + seq![0u8, 0u8] + payload_wire(v)
}

/// Whether the byte strings in `v` have lengths that fit in 32 bits.
pub open spec fn value_bounded(v: ValueModel) -> bool {
    match v {
        ValueModel::OctetString(data) => data.len() <= u32::MAX,
        ValueModel::Opaque(data) => data.len() <= u32::MAX,
        _ => true,
    }
}

/// Whether the byte strings in `value` have lengths that fit in 32 bits, as
/// the encoders ask.
pub fn value_is_bounded(value: &Value) -> (b: bool)
    ensures
        b == value_bounded(value@),
{
    match value {
        Value::OctetString(data) => data.len() <= 0xffff_ffff,
        Value::Opaque(data) => data.len() <= 0xffff_ffff,
        _ => true,
    }
}

/// Whether `v` can be encoded: an identifier in it must fit its count byte.
pub open spec fn value_fits(v: ValueModel) -> bool {
    v matches ValueModel::ObjectIdentifier(parts) ==> oid_fits(parts)
}

/// The payload of a value of kind `kind` at the front of `b`, and the number
/// of bytes it takes.
pub open spec fn payload_parse(kind: ValueType, b: Seq<u8>) -> Result<
    (ValueModel, int),
    CodecError,
> {
    match kind {
        ValueType::Integer => if b.len() < 4 {
            Err(CodecError::TruncatedInput)
        } else {
            Ok((ValueModel::Integer(bits_i32(from_be32(b))), 4))
        },
        ValueType::OctetString => match octets_parse(b) {
            Ok((data, used)) => Ok((ValueModel::OctetString(data), used)),
            Err(e) => Err(e),
        },
        ValueType::Null => Ok((ValueModel::Null, 0)),
        ValueType::ObjectIdentifier => match oid_parse(b) {
            Ok((parts, _, used)) => Ok((ValueModel::ObjectIdentifier(parts), used)),
            Err(e) => Err(e),
        },
        ValueType::IpAddress => if b.len() < 4 {
            Err(CodecError::TruncatedInput)
        } else {
            Ok((ValueModel::IpAddress(b[0], b[1], b[2], b[3]), 4))
        },
        ValueType::Counter32 => if b.len() < 4 {
            Err(CodecError::TruncatedInput)
        } else {
            Ok((ValueModel::Counter32(from_be32(b)), 4))
        },
        ValueType::Gauge32 => if b.len() < 4 {
            Err(CodecError::TruncatedInput)
        } else {
            Ok((ValueModel::Gauge32(from_be32(b)), 4))
        },
        ValueType::TimeTicks => if b.len() < 4 {
            Err(CodecError::TruncatedInput)
        } else {
            Ok((ValueModel::TimeTicks(from_be32(b)), 4))
        },
        ValueType::Opaque => match octets_parse(b) {
            Ok((data, used)) => Ok((ValueModel::Opaque(data), used)),
            Err(e) => Err(e),
        },
        ValueType::Counter64 => if b.len() < 8 {
            Err(CodecError::TruncatedInput)
        } else {
            Ok((ValueModel::Counter64(from_be64(b)), 8))
        },
        ValueType::NoSuchObject => Ok((ValueModel::NoSuchObject, 0)),
        ValueType::NoSuchInstance => Ok((ValueModel::NoSuchInstance, 0)),
        ValueType::EndOfMibView => Ok((ValueModel::EndOfMibView, 0)),
    }
}

/// The value at the front of `b` and the number of bytes it takes. The two
/// reserved bytes are not looked at.
pub open spec fn value_parse(b: Seq<u8>) -> Result<(ValueModel, int), CodecError> {
    if b.len() < 4 {
        Err(CodecError::TruncatedInput)
    } else {
        match ValueType::spec_from_code(from_be16(b)) {
            None => Err(CodecError::UnknownValueType(from_be16(b))),
            Some(kind) => match payload_parse(kind, b.skip(4)) {
                Ok((v, used)) => Ok((v, 4 + used)),
                Err(e) => Err(e),
            },
        }
    }
}

/// Whether a value is found again from its wire form: its byte strings have
/// lengths that fit in 32 bits, and an identifier in it is recoverable.
pub open spec fn value_recoverable(v: ValueModel) -> bool {
    &&& value_bounded(v)
    &&& v matches ValueModel::ObjectIdentifier(parts) ==> oid_recoverable(parts)
}

/// A signed number is found again from its 32 bits.
pub proof fn lemma_i32_bits_roundtrip(v: i32)
    ensures
        bits_i32(i32_bits(v)) == v,
{
}

/// Decoding an encoded value of any of the thirteen kinds, whatever follows
/// it, gives the value back and takes exactly the encoded bytes.
pub proof fn lemma_value_roundtrip(v: ValueModel, rest: Seq<u8>)
    requires
        value_recoverable(v),
    ensures
        value_parse(value_wire(v) + rest) === Ok((v, value_wire(v).len() as int)),
{
    let kind = ValueType::of(v);
    let b = value_wire(v) + rest;
    let body = payload_wire(v) + rest;
    assert(b =~= be16(kind.spec_code()) + (seq![0u8, 0u8] + body));
    lemma_be16_roundtrip(kind.spec_code(), seq![0u8, 0u8] + body);
    ValueType::lemma_code_roundtrip(kind, 0);
    assert(b.skip(4) =~= body);
    assert(value_wire(v).len() == 4 + payload_wire(v).len());
    match v {
        ValueModel::Integer(x) => {
            lemma_be32_roundtrip(i32_bits(x), rest);
        },
        ValueModel::OctetString(data) => {
            lemma_octets_roundtrip(data, rest);
        },
        ValueModel::ObjectIdentifier(parts) => {
            lemma_oid_roundtrip(parts, false, rest);
        },
        ValueModel::IpAddress(a, b, c, d) => {
        },
        ValueModel::Counter32(x) => {
            lemma_be32_roundtrip(x, rest);
        },
        ValueModel::Gauge32(x) => {
            lemma_be32_roundtrip(x, rest);
        },
        ValueModel::TimeTicks(x) => {
            lemma_be32_roundtrip(x, rest);
        },
        ValueModel::Opaque(data) => {
            lemma_octets_roundtrip(data, rest);
        },
        ValueModel::Counter64(x) => {
            lemma_be64_roundtrip(x, rest);
        },
        _ => {},
    }
}

/// An encoded value that is cut short anywhere is refused as truncated.
pub proof fn lemma_value_truncated(v: ValueModel, k: int)
    requires
        value_bounded(v),
        value_fits(v),
        0 <= k < value_wire(v).len(),
    ensures
        value_parse(value_wire(v).take(k)) === Err(CodecError::TruncatedInput),
{
    let kind = ValueType::of(v);
    let w = value_wire(v);
    let body = payload_wire(v);
    assert(w =~= be16(kind.spec_code()) + (seq![0u8, 0u8] + body));
    assert(w.len() == 4 + body.len());
    if k >= 4 {
        let cut = w.take(k);
        lemma_be16_roundtrip(kind.spec_code(), seq![0u8, 0u8] + body);
        assert(cut[0] == w[0] && cut[1] == w[1]);
        assert(from_be16(cut) == from_be16(w));
        ValueType::lemma_code_roundtrip(kind, 0);
        assert(cut.skip(4) =~= body.take(k - 4));
        match v {
            ValueModel::Integer(x) => {
                lemma_be32_roundtrip(i32_bits(x), Seq::empty());
            },
            ValueModel::OctetString(data) => {
                lemma_octets_truncated(data, k - 4);
            },
            ValueModel::ObjectIdentifier(parts) => {
                lemma_oid_truncated(parts, false, k - 4);
            },
            ValueModel::IpAddress(a, b, c, d) => {
            },
            ValueModel::Counter32(x) => {
                lemma_be32_roundtrip(x, Seq::empty());
            },
            ValueModel::Gauge32(x) => {
                lemma_be32_roundtrip(x, Seq::empty());
            },
            ValueModel::TimeTicks(x) => {
                lemma_be32_roundtrip(x, Seq::empty());
            },
            ValueModel::Opaque(data) => {
                lemma_octets_truncated(data, k - 4);
            },
            ValueModel::Counter64(x) => {
                lemma_be64_roundtrip(x, Seq::empty());
            },
            _ => {},
        }
    }
}

/// A decoded value takes at least four bytes and no more than there are.
pub proof fn lemma_value_parse_bounds(b: Seq<u8>)
    ensures
        value_parse(b) matches Ok((_, used)) ==> 4 <= used <= b.len(),
{
    if b.len() >= 4 {
        lemma_octets_parse_bounds(b.skip(4));
        lemma_oid_parse_bounds(b.skip(4));
    }
}

/// Appends the wire form of `value` to `writer`.
///
/// Fails with `InvalidIdentifier`, writing nothing, exactly when the value is
/// an identifier of which more than 255 sub-identifiers would have to be
/// written.
pub fn encode_value(writer: &mut Vec<u8>, value: &Value) -> (r: Result<(), CodecError>)
    requires
        value_bounded(value@),
    ensures
        match r {
            Ok(_) => {
                &&& value_fits(value@)
                &&& final(writer)@ == old(writer)@ + value_wire(value@)
            },
            Err(e) => {
                &&& !value_fits(value@)
                &&& e == CodecError::InvalidIdentifier
                &&& final(writer)@ == old(writer)@
            },
        },
{
    let start: usize = writer.len();
    put_be16(writer, ValueType::of_value(value).code());
    writer.push(0u8);
    writer.push(0u8);
    let ghost head = writer@;
    assert(head =~= old(writer)@ + be16(ValueType::of(value@).spec_code()) + seq![0u8, 0u8]);
    match value {
        Value::Integer(v) => {
            let bits: u32 = if *v >= 0 {
                *v as u32
            } else {
                (*v as i64 + 0x1_0000_0000) as u32
            };
            put_be32(writer, bits);
        },
        Value::OctetString(data) => {
            let _ = encode_octet_string(writer, data.as_slice());
        },
        Value::Null() => {},
        Value::ObjectIdentifier(oid) => {
            match encode_oid(writer, oid, false) {
                Ok(_) => {},
                Err(e) => {
                    writer.truncate(start);
                    assert(writer@ =~= old(writer)@);
                    return Err(e);
                },
            }
        },
        Value::IpAddress(a, b, c, d) => {
            writer.push(*a);
            writer.push(*b);
            writer.push(*c);
            writer.push(*d);
        },
        Value::Counter32(v) => {
            put_be32(writer, *v);
        },
        Value::Gauge32(v) => {
            put_be32(writer, *v);
        },
        Value::TimeTicks(v) => {
            put_be32(writer, *v);
        },
        Value::Opaque(data) => {
            let _ = encode_octet_string(writer, data.as_slice());
        },
        Value::Counter64(v) => {
            put_be64(writer, *v);
        },
        Value::NoSuchObject() => {},
        Value::NoSuchInstance() => {},
        Value::EndOfMibView() => {},
    }
    assert(writer@ =~= head + payload_wire(value@));
    assert(writer@ =~= old(writer)@ + value_wire(value@));
    Ok(())
}

/// Reads a value from the front of `reader`.
///
/// Fails with `TruncatedInput` when the four leading bytes or the payload are
/// not all there, and with `UnknownValueType` when the type code is none of
/// the thirteen known ones. On failure the reader is left where it was.
pub fn decode_value(reader: &mut Reader) -> (r: Result<Value, CodecError>)
    ensures
        match r {
            Ok(value) => {
                &&& value_parse(old(reader)@) matches Ok((v, used))
                &&& value@ == v
                &&& final(reader)@ == old(reader)@.skip(used)
            },
            Err(e) => {
                &&& value_parse(old(reader)@) === Err(e)
                &&& final(reader)@ == old(reader)@
            },
        },
{
    let start: Reader = *reader;
    if reader.remaining() < 4 {
        return Err(CodecError::TruncatedInput);
    }
    let code: u16 = match reader.take_be16() {
        Ok(code) => code,
        Err(e) => {
            return Err(e);
        },
    };
    let kind = match ValueType::from_code(code) {
        Some(kind) => kind,
        None => {
            *reader = start;
            return Err(CodecError::UnknownValueType(code));
        },
    };
    reader.advance(2);
    assert(reader@ =~= old(reader)@.skip(4));
    let ghost body = reader@;
    let decoded: Result<Value, CodecError> = match kind {
        ValueType::Integer => match reader.take_be32() {
            Ok(x) => {
                let v: i32 = if x < 0x8000_0000 {
                    x as i32
                } else {
                    (x as i64 - 0x1_0000_0000) as i32
                };
                Ok(Value::Integer(v))
            },
            Err(e) => Err(e),
        },
        ValueType::OctetString => match decode_octet_string(reader) {
            Ok(data) => Ok(Value::OctetString(data)),
            Err(e) => Err(e),
        },
        ValueType::Null => Ok(Value::Null()),
        ValueType::ObjectIdentifier => match decode_oid(reader) {
            Ok((oid, _)) => Ok(Value::ObjectIdentifier(oid)),
            Err(e) => Err(e),
        },
        ValueType::IpAddress => {
            if reader.remaining() < 4 {
                Err(CodecError::TruncatedInput)
            } else {
                let buf = reader.as_slice();
                let v = Value::IpAddress(buf[0], buf[1], buf[2], buf[3]);
                reader.advance(4);
                Ok(v)
            }
        },
        ValueType::Counter32 => match reader.take_be32() {
            Ok(x) => Ok(Value::Counter32(x)),
            Err(e) => Err(e),
        },
        ValueType::Gauge32 => match reader.take_be32() {
            Ok(x) => Ok(Value::Gauge32(x)),
            Err(e) => Err(e),
        },
        ValueType::TimeTicks => match reader.take_be32() {
            Ok(x) => Ok(Value::TimeTicks(x)),
            Err(e) => Err(e),
        },
        ValueType::Opaque => match decode_octet_string(reader) {
            Ok(data) => Ok(Value::Opaque(data)),
            Err(e) => Err(e),
        },
        ValueType::Counter64 => match reader.take_be64() {
            Ok(x) => Ok(Value::Counter64(x)),
            Err(e) => Err(e),
        },
        ValueType::NoSuchObject => Ok(Value::NoSuchObject()),
        ValueType::NoSuchInstance => Ok(Value::NoSuchInstance()),
        ValueType::EndOfMibView => Ok(Value::EndOfMibView()),
    };
    match decoded {
        Ok(value) => {
            proof {
                let used = payload_parse(kind, body)->Ok_0.1;
                assert(reader@ =~= body.skip(used));
                assert(body.skip(used) =~= old(reader)@.skip(4 + used));
            }
            Ok(value)
        },
        Err(e) => {
            *reader = start;
            Err(e)
        },
    }
}

/// A variable binding: an identifier and the value bound to it.
#[derive(Debug, PartialEq, Eq)]
pub struct VarBind {
    pub oid: Oid,
    pub value: Value,
}

/// What a [`VarBind`] stands for.
pub struct VarBindModel {
    pub oid: Seq<u32>,
    pub value: ValueModel,
}

impl View for VarBind {
    type V = VarBindModel;

    open spec fn view(&self) -> VarBindModel {
        VarBindModel { oid: self.oid@, value: self.value@ }
    }
}

impl Clone for VarBind {
    fn clone(&self) -> (r: Self)
        ensures
            r@ == self@,
    {
        VarBind { oid: self.oid.clone(), value: self.value.clone() }
    }
}

/// A variable binding on the wire: the identifier, with its inclusion flag
/// clear, and then the value.
pub open spec fn varbind_wire(vb: VarBindModel) -> Seq<u8> {
    oid_wire(vb.oid, false) + value_wire(vb.value)
}

/// The variable binding at the front of `b` and the number of bytes it
/// takes. The inclusion flag of its identifier is not looked at.
pub open spec fn varbind_parse(b: Seq<u8>) -> Result<(VarBindModel, int), CodecError> {
    match oid_parse(b) {
        Err(e) => Err(e),
        Ok((oid, _, used)) => match value_parse(b.skip(used)) {
            Err(e) => Err(e),
            Ok((value, more)) => Ok((VarBindModel { oid, value }, used + more)),
        },
    }
}

/// Whether the byte strings in the binding have lengths that fit in 32 bits.
pub open spec fn varbind_bounded(vb: VarBindModel) -> bool {
    value_bounded(vb.value)
}

/// Whether the binding can be encoded: its identifiers fit their count byte.
pub open spec fn varbind_fits(vb: VarBindModel) -> bool {
    oid_fits(vb.oid) && value_fits(vb.value)
}

/// Whether the binding is found again from its wire form.
pub open spec fn varbind_recoverable(vb: VarBindModel) -> bool {
    oid_recoverable(vb.oid) && value_recoverable(vb.value)
}

/// Decoding an encoded variable binding, whatever follows it, gives the
/// binding back and takes exactly the encoded bytes.
pub proof fn lemma_varbind_roundtrip(vb: VarBindModel, rest: Seq<u8>)
    requires
        varbind_recoverable(vb),
    ensures
        varbind_parse(varbind_wire(vb) + rest) === Ok((vb, varbind_wire(vb).len() as int)),
        varbind_wire(vb).len() >= 8,
{
    let first = oid_wire(vb.oid, false);
    let second = value_wire(vb.value);
    let b = varbind_wire(vb) + rest;
    assert(b =~= first + (second + rest));
    lemma_oid_roundtrip(vb.oid, false, second + rest);
    assert(b.skip(first.len() as int) =~= second + rest);
    lemma_value_roundtrip(vb.value, rest);
}

/// An encoded variable binding that is cut short anywhere is refused as
/// truncated.
pub proof fn lemma_varbind_truncated(vb: VarBindModel, k: int)
    requires
        varbind_recoverable(vb),
        0 <= k < varbind_wire(vb).len(),
    ensures
        varbind_parse(varbind_wire(vb).take(k)) === Err(CodecError::TruncatedInput),
{
    let first = oid_wire(vb.oid, false);
    let second = value_wire(vb.value);
    let cut = varbind_wire(vb).take(k);
    if k < first.len() {
        assert(cut =~= first.take(k));
        lemma_oid_truncated(vb.oid, false, k);
    } else {
        let more = k - first.len();
        assert(cut =~= first + second.take(more));
        lemma_oid_roundtrip(vb.oid, false, second.take(more));
        assert(cut.skip(first.len() as int) =~= second.take(more));
        lemma_value_truncated(vb.value, more);
    }
}

/// A decoded variable binding takes at least eight bytes and no more than
/// there are.
pub proof fn lemma_varbind_parse_bounds(b: Seq<u8>)
    ensures
        varbind_parse(b) matches Ok((_, used)) ==> 8 <= used <= b.len(),
{
    lemma_oid_parse_bounds(b);
    if let Ok((_, _, used)) = oid_parse(b) {
        lemma_value_parse_bounds(b.skip(used));
    }
}

impl VarBind {
    /// The binding of `value` to `oid`.
    pub fn new(oid: Oid, value: Value) -> (vb: Self)
        ensures
            vb.oid == oid,
            vb.value == value,
    {
        VarBind { oid, value }
    }

    /// Appends the wire form of this binding to `writer`.
    ///
    /// Fails with `InvalidIdentifier`, writing nothing, exactly when more
    /// than 255 sub-identifiers of one of its identifiers would have to be
    /// written.
    pub fn encode(&self, writer: &mut Vec<u8>) -> (r: Result<(), CodecError>)
        requires
            varbind_bounded(self@),
        ensures
            match r {
                Ok(_) => {
                    &&& varbind_fits(self@)
                    &&& final(writer)@ == old(writer)@ + varbind_wire(self@)
                },
                Err(e) => {
                    &&& !varbind_fits(self@)
                    &&& e == CodecError::InvalidIdentifier
                    &&& final(writer)@ == old(writer)@
                },
            },
    {
        let start: usize = writer.len();
        match encode_oid(writer, &self.oid, false) {
            Ok(_) => {},
            Err(e) => {
                return Err(e);
            },
        }
        match encode_value(writer, &self.value) {
            Ok(_) => {},
            Err(e) => {
                writer.truncate(start);
                assert(writer@ =~= old(writer)@);
                return Err(e);
            },
        }
        assert(writer@ =~= old(writer)@ + varbind_wire(self@));
        Ok(())
    }

    /// Reads a variable binding from the front of `reader`.
    ///
    /// Fails as the identifier and value decoders do. On failure the reader
    /// is left where it was.
    pub fn decode(reader: &mut Reader) -> (r: Result<Self, CodecError>)
        ensures
            match r {
                Ok(vb) => {
                    &&& varbind_parse(old(reader)@) matches Ok((m, used))
                    &&& vb@ == m
                    &&& final(reader)@ == old(reader)@.skip(used)
                },
                Err(e) => {
                    &&& varbind_parse(old(reader)@) === Err(e)
                    &&& final(reader)@ == old(reader)@
                },
            },
    {
        let start: Reader = *reader;
        let oid = match decode_oid(reader) {
            Ok((oid, _)) => oid,
            Err(e) => {
                return Err(e);
            },
        };
        let ghost used = oid_parse(old(reader)@)->Ok_0.2;
        let value = match decode_value(reader) {
            Ok(value) => value,
            Err(e) => {
                *reader = start;
                return Err(e);
            },
        };
        proof {
            let more = value_parse(old(reader)@.skip(used))->Ok_0.1;
            assert(old(reader)@.skip(used).skip(more) =~= old(reader)@.skip(used + more));
        }
        Ok(VarBind { oid, value })
    }
}

/// A search range: the identifier it starts at, whether that identifier
/// itself belongs to it, and the identifier it ends before.
#[derive(Debug, PartialEq, Eq)]
pub struct SearchRange {
    pub start: Oid,
    pub end: Oid,
    pub inclusive: bool,
}

/// What a [`SearchRange`] stands for.
pub struct SearchRangeModel {
    pub start: Seq<u32>,
    pub end: Seq<u32>,
    pub inclusive: bool,
}

impl View for SearchRange {
    type V = SearchRangeModel;

    open spec fn view(&self) -> SearchRangeModel {
        SearchRangeModel { start: self.start@, end: self.end@, inclusive: self.inclusive }
    }
}

impl Clone for SearchRange {
    fn clone(&self) -> (r: Self)
        ensures
            r@ == self@,
    {
        SearchRange { start: self.start.clone(), end: self.end.clone(), inclusive: self.inclusive }
    }
}

/// A search range on the wire: the start with the range's inclusion flag,
/// then the end with its inclusion flag clear.
pub open spec fn range_wire(range: SearchRangeModel) -> Seq<u8> {
    oid_wire(range.start, range.inclusive) + oid_wire(range.end, false)
}

/// The search range at the front of `b` and the number of bytes it takes.
/// The inclusion flag of its end is not looked at.
pub open spec fn range_parse(b: Seq<u8>) -> Result<(SearchRangeModel, int), CodecError> {
    match oid_parse(b) {
        Err(e) => Err(e),
        Ok((start, inclusive, used)) => match oid_parse(b.skip(used)) {
            Err(e) => Err(e),
            Ok((end, _, more)) => Ok((SearchRangeModel { start, end, inclusive }, used + more)),
        },
    }
}

/// Whether the range can be encoded: its identifiers fit their count byte.
pub open spec fn range_fits(range: SearchRangeModel) -> bool {
    oid_fits(range.start) && oid_fits(range.end)
}

/// Whether the range is found again from its wire form.
pub open spec fn range_recoverable(range: SearchRangeModel) -> bool {
    oid_recoverable(range.start) && oid_recoverable(range.end)
}

/// Decoding an encoded search range, whatever follows it, gives the range
/// back and takes exactly the encoded bytes.
pub proof fn lemma_range_roundtrip(range: SearchRangeModel, rest: Seq<u8>)
    requires
        range_recoverable(range),
    ensures
        range_parse(range_wire(range) + rest) === Ok((range, range_wire(range).len() as int)),
        range_wire(range).len() >= 8,
{
    let first = oid_wire(range.start, range.inclusive);
    let second = oid_wire(range.end, false);
    let b = range_wire(range) + rest;
    assert(b =~= first + (second + rest));
    lemma_oid_roundtrip(range.start, range.inclusive, second + rest);
    assert(b.skip(first.len() as int) =~= second + rest);
    lemma_oid_roundtrip(range.end, false, rest);
}

/// An encoded search range that is cut short anywhere is refused as
/// truncated.
pub proof fn lemma_range_truncated(range: SearchRangeModel, k: int)
    requires
        range_recoverable(range),
        0 <= k < range_wire(range).len(),
    ensures
        range_parse(range_wire(range).take(k)) === Err(CodecError::TruncatedInput),
{
    let first = oid_wire(range.start, range.inclusive);
    let second = oid_wire(range.end, false);
    let cut = range_wire(range).take(k);
    if k < first.len() {
        assert(cut =~= first.take(k));
        lemma_oid_truncated(range.start, range.inclusive, k);
    } else {
        let more = k - first.len();
        assert(cut =~= first + second.take(more));
        lemma_oid_roundtrip(range.start, range.inclusive, second.take(more));
        assert(cut.skip(first.len() as int) =~= second.take(more));
        lemma_oid_truncated(range.end, false, more);
    }
}

/// A decoded search range takes at least eight bytes and no more than there
/// are.
pub proof fn lemma_range_parse_bounds(b: Seq<u8>)
    ensures
        range_parse(b) matches Ok((_, used)) ==> 8 <= used <= b.len(),
{
    lemma_oid_parse_bounds(b);
    if let Ok((_, _, used)) = oid_parse(b) {
        lemma_oid_parse_bounds(b.skip(used));
    }
}

impl SearchRange {
    /// The range from `start` to `end`.
    pub fn new(start: Oid, end: Oid, inclusive: bool) -> (range: Self)
        ensures
            range.start == start,
            range.end == end,
            range.inclusive == inclusive,
    {
        SearchRange { start, end, inclusive }
    }

    /// Appends the wire form of this range to `writer`.
    ///
    /// Fails with `InvalidIdentifier`, writing nothing, exactly when more
    /// than 255 sub-identifiers of one of its identifiers would have to be
    /// written.
    pub fn encode(&self, writer: &mut Vec<u8>) -> (r: Result<(), CodecError>)
        ensures
            match r {
                Ok(_) => {
                    &&& range_fits(self@)
                    &&& final(writer)@ == old(writer)@ + range_wire(self@)
                },
                Err(e) => {
                    &&& !range_fits(self@)
                    &&& e == CodecError::InvalidIdentifier
                    &&& final(writer)@ == old(writer)@
                },
            },
    {
        let start: usize = writer.len();
        match encode_oid(writer, &self.start, self.inclusive) {
            Ok(_) => {},
            Err(e) => {
                return Err(e);
            },
        }
        match encode_oid(writer, &self.end, false) {
            Ok(_) => {},
            Err(e) => {
                writer.truncate(start);
                assert(writer@ =~= old(writer)@);
                return Err(e);
            },
        }
        assert(writer@ =~= old(writer)@ + range_wire(self@));
        Ok(())
    }

    /// Reads a search range from the front of `reader`.
    ///
    /// Fails with `TruncatedInput` when one of the two identifiers is not all
    /// there. On failure the reader is left where it was.
    pub fn decode(reader: &mut Reader) -> (r: Result<Self, CodecError>)
        ensures
            match r {
                Ok(range) => {
                    &&& range_parse(old(reader)@) matches Ok((m, used))
                    &&& range@ == m
                    &&& final(reader)@ == old(reader)@.skip(used)
                },
                Err(e) => {
                    &&& range_parse(old(reader)@) === Err(e)
                    &&& final(reader)@ == old(reader)@
                },
            },
    {
        let origin: Reader = *reader;
        let (start, inclusive) = match decode_oid(reader) {
            Ok(pair) => pair,
            Err(e) => {
                return Err(e);
            },
        };
        let ghost used = oid_parse(old(reader)@)->Ok_0.2;
        let end = match decode_oid(reader) {
            Ok((end, _)) => end,
            Err(e) => {
                *reader = origin;
                return Err(e);
            },
        };
        proof {
            let more = oid_parse(old(reader)@.skip(used))->Ok_0.2;
            assert(old(reader)@.skip(used).skip(more) =~= old(reader)@.skip(used + more));
        }
        Ok(SearchRange { start, end, inclusive })
    }
}

} // verus!

//! The fixed twenty-byte frame header.
//!
//! The first four bytes (version, type, flags, one reserved byte) are single
//! bytes at fixed places. The three correlation ids and the payload length
//! follow as 32-bit numbers, big-endian when the flag
//! `NETWORK_BYTE_ORDER` is set and little-endian otherwise.

use vstd::prelude::*;
use vstd::slice::slice_subrange;
use vstd::std_specs::convert::TryFromSpecImpl;
use vstd::std_specs::ops::BitOrSpecImpl;
use crate::error::CodecError;
use crate::agentx::wire::{be32, le32, from_be32, from_le32, Reader};
use crate::agentx::wire::{put_be32, put_le32, get_be32, get_le32};
use crate::agentx::wire::{lemma_be32_roundtrip, lemma_le32_roundtrip};

verus! {

/// The number of bytes of an encoded header.
pub const HEADER_SIZE: usize = 20;

/// The protocol version this codec writes.
pub const AGENTX_VERSION: u8 = 1;

/// The kind of PDU a frame carries. Its wire code is `code()`, 1 to 18.
#[derive(Debug, Clone, Copy, PartialEq, Eq, Structural)]
pub enum PduType {
    Open,
    Close,
    Register,
    Unregister,
    Get,
    GetNext,
    GetBulk,
    TestSet,
    CommitSet,
    UndoSet,
    CleanupSet,
    Notify,
    Ping,
    IndexAllocate,
    IndexDeallocate,
    AddAgentCaps,
    RemoveAgentCaps,
    Response,
}

impl PduType {
    /// The byte that stands for this type on the wire.
    pub open spec fn spec_code(self) -> u8 {
        match self {
            PduType::Open => 1,
            PduType::Close => 2,
            PduType::Register => 3,
            PduType::Unregister => 4,
            PduType::Get => 5,
            PduType::GetNext => 6,
            PduType::GetBulk => 7,
            PduType::TestSet => 8,
            PduType::CommitSet => 9,
            PduType::UndoSet => 10,
            PduType::CleanupSet => 11,
            PduType::Notify => 12,
            PduType::Ping => 13,
            PduType::IndexAllocate => 14,
            PduType::IndexDeallocate => 15,
            PduType::AddAgentCaps => 16,
            PduType::RemoveAgentCaps => 17,
            PduType::Response => 18,
        }
    }

    /// The type that `code` stands for, if it is one of 1 to 18.
    pub open spec fn from_code(code: u8) -> Option<PduType> {
        if code == 1 {
            Some(PduType::Open)
        } else if code == 2 {
            Some(PduType::Close)
        } else if code == 3 {
            Some(PduType::Register)
        } else if code == 4 {
            Some(PduType::Unregister)
        } else if code == 5 {
            Some(PduType::Get)
        } else if code == 6 {
            Some(PduType::GetNext)
        } else if code == 7 {
            Some(PduType::GetBulk)
        } else if code == 8 {
            Some(PduType::TestSet)
        } else if code == 9 {
            Some(PduType::CommitSet)
        } else if code == 10 {
            Some(PduType::UndoSet)
        } else if code == 11 {
            Some(PduType::CleanupSet)
        } else if code == 12 {
            Some(PduType::Notify)
        } else if code == 13 {
            Some(PduType::Ping)
        } else if code == 14 {
            Some(PduType::IndexAllocate)
        } else if code == 15 {
            Some(PduType::IndexDeallocate)
        } else if code == 16 {
            Some(PduType::AddAgentCaps)
        } else if code == 17 {
            Some(PduType::RemoveAgentCaps)
        } else if code == 18 {
            Some(PduType::Response)
        } else {
            None
        }
    }

    /// The byte that stands for this type on the wire.
    #[verifier::when_used_as_spec(spec_code)]
    pub fn code(self) -> (c: u8)
        ensures
            c == self.spec_code(),
            1 <= c <= 18,
    {
        match self {
            PduType::Open => 1,
            PduType::Close => 2,
            PduType::Register => 3,
            PduType::Unregister => 4,
            PduType::Get => 5,
            PduType::GetNext => 6,
            PduType::GetBulk => 7,
            PduType::TestSet => 8,
            PduType::CommitSet => 9,
            PduType::UndoSet => 10,
            PduType::CleanupSet => 11,
            PduType::Notify => 12,
            PduType::Ping => 13,
            PduType::IndexAllocate => 14,
            PduType::IndexDeallocate => 15,
            PduType::AddAgentCaps => 16,
            PduType::RemoveAgentCaps => 17,
            PduType::Response => 18,
        }
    }

    /// A type is found again from its code, and a code outside 1 to 18 stands
    /// for no type.
    pub proof fn lemma_code_roundtrip(t: PduType, code: u8)
        ensures
            PduType::from_code(t.spec_code()) == Some(t),
            PduType::from_code(code) is Some <==> 1 <= code <= 18,
            PduType::from_code(code) matches Some(u) ==> u.spec_code() == code,
    {
    }
}

impl TryFrom<u8> for PduType {
    type Error = u8;

    /// The type with wire code `value`; a byte outside 1 to 18 comes back as
    /// the error.
    fn try_from(value: u8) -> (r: Result<PduType, u8>) {
        match value {
            1 => Ok(PduType::Open),
            2 => Ok(PduType::Close),
            3 => Ok(PduType::Register),
            4 => Ok(PduType::Unregister),
            5 => Ok(PduType::Get),
            6 => Ok(PduType::GetNext),
            7 => Ok(PduType::GetBulk),
            8 => Ok(PduType::TestSet),
            9 => Ok(PduType::CommitSet),
            10 => Ok(PduType::UndoSet),
            11 => Ok(PduType::CleanupSet),
            12 => Ok(PduType::Notify),
            13 => Ok(PduType::Ping),
            14 => Ok(PduType::IndexAllocate),
            15 => Ok(PduType::IndexDeallocate),
            16 => Ok(PduType::AddAgentCaps),
            17 => Ok(PduType::RemoveAgentCaps),
            18 => Ok(PduType::Response),
            _ => Err(value),
        }
    }
}

impl TryFromSpecImpl<u8> for PduType {
    open spec fn obeys_try_from_spec() -> bool {
        true
    }

    open spec fn try_from_spec(value: u8) -> Result<PduType, u8> {
        match PduType::from_code(value) {
            Some(t) => Ok(t),
            None => Err(value),
        }
    }
}

/// The flag bits of a header. Only the five low bits have a meaning.
#[derive(Debug, Clone, Copy, PartialEq, Eq, Structural)]
pub struct Flags {
    pub bits: u8,
}

impl Flags {
    /// No bit outside the five defined ones is set.
    pub open spec fn valid(self) -> bool {
        self.bits <= 0x1f
    }

    /// Every bit of `other` is set in `self`.
    pub open spec fn spec_contains(&self, other: Flags) -> bool {
        self.bits & other.bits == other.bits
    }

    /// The multi-byte header fields are big-endian.
    pub open spec fn network_order(self) -> bool {
        self.bits & 0x10 == 0x10
    }

    /// The flags that `bits` holds, bits without a meaning dropped.
    pub open spec fn spec_from_bits_truncate(bits: u8) -> Flags {
        Flags { bits: bits & 0x1f }
    }

    /// The registration is of an instance, not of a subtree.
    #[allow(non_snake_case)]
    pub fn INSTANCE_REGISTRATION() -> (f: Flags)
        ensures
            f.bits == 0x01,
    {
        Flags { bits: 0x01 }
    }

    /// A new index value is asked for.
    #[allow(non_snake_case)]
    pub fn NEW_INDEX() -> (f: Flags)
        ensures
            f.bits == 0x02,
    {
        Flags { bits: 0x02 }
    }

    /// Any index value will do.
    #[allow(non_snake_case)]
    pub fn ANY_INDEX() -> (f: Flags)
        ensures
            f.bits == 0x04,
    {
        Flags { bits: 0x04 }
    }

    /// The PDU names a context of its own.
    #[allow(non_snake_case)]
    pub fn NON_DEFAULT_CONTEXT() -> (f: Flags)
        ensures
            f.bits == 0x08,
    {
        Flags { bits: 0x08 }
    }

    /// The multi-byte header fields are big-endian.
    #[allow(non_snake_case)]
    pub fn NETWORK_BYTE_ORDER() -> (f: Flags)
        ensures
            f.bits == 0x10,
            f.network_order(),
    {
        assert(0x10u8 & 0x10 == 0x10) by (bit_vector);
        Flags { bits: 0x10 }
    }

    /// No flag.
    pub fn empty() -> (f: Flags)
        ensures
            f.bits == 0,
    {
        Flags { bits: 0 }
    }

    /// The bits as a byte.
    pub fn bits(&self) -> (b: u8)
        ensures
            b == self.bits,
    {
        self.bits
    }

    /// The flags that `bits` holds, bits without a meaning dropped.
    #[verifier::when_used_as_spec(spec_from_bits_truncate)]
    pub fn from_bits_truncate(bits: u8) -> (f: Flags)
        ensures
            f == Flags::spec_from_bits_truncate(bits),
            f.valid(),
            bits <= 0x1f ==> f.bits == bits,
    {
        assert(bits & 0x1f <= 0x1f) by (bit_vector);
        assert(bits <= 0x1f ==> bits & 0x1f == bits) by (bit_vector);
        Flags { bits: bits & 0x1f }
    }

    /// Whether every bit of `other` is set in `self`.
    #[verifier::when_used_as_spec(spec_contains)]
    pub fn contains(&self, other: Flags) -> (b: bool)
        ensures
            b == self.spec_contains(other),
    {
        self.bits & other.bits == other.bits
    }

    /// The flags set in `self` or in `other`.
    pub fn union(self, other: Flags) -> (f: Flags)
        ensures
            f.bits == self.bits | other.bits,
            self.valid() && other.valid() ==> f.valid(),
    {
        let a: u8 = self.bits;
        let b: u8 = other.bits;
        assert(a <= 0x1f && b <= 0x1f ==> a | b <= 0x1f) by (bit_vector);
        Flags { bits: a | b }
    }
}

impl core::ops::BitOr for Flags {
    type Output = Flags;

    fn bitor(self, rhs: Flags) -> (r: Flags) {
        self.union(rhs)
    }
}

impl BitOrSpecImpl for Flags {
    open spec fn obeys_bitor_spec() -> bool {
        true
    }

    open spec fn bitor_req(self, rhs: Flags) -> bool {
        true
    }

    open spec fn bitor_spec(self, rhs: Flags) -> Flags {
        Flags { bits: self.bits | rhs.bits }
    }
}

/// A frame header.
#[derive(Debug, Clone, Copy, PartialEq, Eq, Structural)]
pub struct Header {
    pub version: u8,
    pub pdu_type: PduType,
    pub flags: Flags,
    pub session_id: u32,
    pub transaction_id: u32,
    pub packet_id: u32,
    pub payload_length: u32,
}

/// A 32-bit header field on the wire, in the byte order the flags select.
pub open spec fn field_wire(network_order: bool, x: u32) -> Seq<u8> {
    if network_order {
        be32(x)
    } else {
        le32(x)
    }
}

/// The 32-bit header field at the front of `b`, in the byte order the flags
/// select.
pub open spec fn field_parse(network_order: bool, b: Seq<u8>) -> u32 {
    if network_order {
        from_be32(b)
    } else {
        from_le32(b)
    }
}

/// The twenty bytes of a header.
pub open spec fn header_wire(h: Header) -> Seq<u8> {
    let order = h.flags.network_order();
    seq![h.version, h.pdu_type.spec_code(), h.flags.bits, 0u8]
        + field_wire(order, h.session_id)
        + field_wire(order, h.transaction_id)
        + field_wire(order, h.packet_id)
        + field_wire(order, h.payload_length)
}

/// The header at the front of `b`. It takes twenty bytes. The reserved byte
/// and the flag bits without a meaning are not looked at.
pub open spec fn header_parse(b: Seq<u8>) -> Result<Header, CodecError> {
    if b.len() < 20 {
        Err(CodecError::TruncatedInput)
    } else {
        match PduType::from_code(b[1]) {
            None => Err(CodecError::UnknownPduType(b[1])),
            Some(pdu_type) => {
                let flags = Flags::spec_from_bits_truncate(b[2]);
                let order = flags.network_order();
                Ok(
                    Header {
                        version: b[0],
                        pdu_type,
                        flags,
                        session_id: field_parse(order, b.skip(4)),
                        transaction_id: field_parse(order, b.skip(8)),
                        packet_id: field_parse(order, b.skip(12)),
                        payload_length: field_parse(order, b.skip(16)),
                    },
                )
            },
        }
    }
}

/// A header field is read back as it was written, whatever follows it.
pub proof fn lemma_field_roundtrip(network_order: bool, x: u32, rest: Seq<u8>)
    ensures
        field_wire(network_order, x).len() == 4,
        field_parse(network_order, field_wire(network_order, x) + rest) == x,
{
    lemma_be32_roundtrip(x, rest);
    lemma_le32_roundtrip(x, rest);
}

/// An encoded header has exactly twenty bytes, and decoding them, whatever
/// follows them, gives the header back, provided its flags hold no bit
/// without a meaning.
pub proof fn lemma_header_roundtrip(h: Header, rest: Seq<u8>)
    requires
        h.flags.valid(),
    ensures
        header_wire(h).len() == HEADER_SIZE,
        header_parse(header_wire(h) + rest) === Ok(h),
{
    let order = h.flags.network_order();
    let b = header_wire(h) + rest;
    let f0 = field_wire(order, h.session_id);
    let f1 = field_wire(order, h.transaction_id);
    let f2 = field_wire(order, h.packet_id);
    let f3 = field_wire(order, h.payload_length);
    lemma_field_roundtrip(order, h.session_id, f1 + f2 + f3 + rest);
    lemma_field_roundtrip(order, h.transaction_id, f2 + f3 + rest);
    lemma_field_roundtrip(order, h.packet_id, f3 + rest);
    lemma_field_roundtrip(order, h.payload_length, rest);
    assert(b.skip(4) =~= f0 + (f1 + f2 + f3 + rest));
    assert(b.skip(8) =~= f1 + (f2 + f3 + rest));
    assert(b.skip(12) =~= f2 + (f3 + rest));
    assert(b.skip(16) =~= f3 + rest);
    PduType::lemma_code_roundtrip(h.pdu_type, 0);
    let bits = h.flags.bits;
    assert(bits <= 0x1f ==> bits & 0x1f == bits) by (bit_vector);
    assert(b[0] == h.version);
    assert(b[1] == h.pdu_type.spec_code());
    assert(b[2] == h.flags.bits);
}

impl Header {
    /// A header of the current version, in network byte order, with an empty
    /// payload.
    pub fn new(pdu_type: PduType, session_id: u32, transaction_id: u32, packet_id: u32) -> (h: Self)
        ensures
            h == (Header {
                version: AGENTX_VERSION,
                pdu_type,
                flags: Flags { bits: 0x10 },
                session_id,
                transaction_id,
                packet_id,
                payload_length: 0,
            }),
    {
        Header {
            version: AGENTX_VERSION,
            pdu_type,
            flags: Flags::NETWORK_BYTE_ORDER(),
            session_id,
            transaction_id,
            packet_id,
            payload_length: 0,
        }
    }

    /// This header with the payload length `len`.
    pub fn with_payload_length(self, len: u32) -> (h: Self)
        ensures
            h == (Header { payload_length: len, ..self }),
    {
        let mut h = self;
        h.payload_length = len;
        h
    }

    /// This header with the flags `flags`.
    pub fn with_flags(self, flags: Flags) -> (h: Self)
        ensures
            h == (Header { flags, ..self }),
    {
        let mut h = self;
        h.flags = flags;
        h
    }

    /// Appends the twenty bytes of this header to `writer`. This never fails.
    pub fn encode(&self, writer: &mut Vec<u8>) -> (r: Result<(), CodecError>)
        ensures
            r is Ok,
            final(writer)@ == old(writer)@ + header_wire(*self),
            final(writer)@.len() == old(writer)@.len() + HEADER_SIZE,
    {
        writer.push(self.version);
        writer.push(self.pdu_type.code());
        writer.push(self.flags.bits());
        writer.push(0u8);
        if self.flags.contains(Flags::NETWORK_BYTE_ORDER()) {
            put_be32(writer, self.session_id);
            put_be32(writer, self.transaction_id);
            put_be32(writer, self.packet_id);
            put_be32(writer, self.payload_length);
        } else {
            put_le32(writer, self.session_id);
            put_le32(writer, self.transaction_id);
            put_le32(writer, self.packet_id);
            put_le32(writer, self.payload_length);
        }
        assert(writer@ =~= old(writer)@ + header_wire(*self));
        Ok(())
    }

    /// Reads a header from the front of `reader`.
    ///
    /// Fails with `TruncatedInput` when fewer than twenty bytes are left, and
    /// with `UnknownPduType` when the type byte is outside 1 to 18. On failure
    /// the reader is left where it was.
    pub fn decode(reader: &mut Reader) -> (r: Result<Self, CodecError>)
        ensures
            r == header_parse(old(reader)@),
            r is Ok ==> final(reader)@ == old(reader)@.skip(HEADER_SIZE as int),
            r is Err ==> final(reader)@ == old(reader)@,
    {
        if reader.remaining() < HEADER_SIZE {
            return Err(CodecError::TruncatedInput);
        }
        let buf = reader.as_slice();
        let version: u8 = buf[0];
        let pdu_type = match PduType::try_from(buf[1]) {
            Ok(t) => t,
            Err(v) => {
                return Err(CodecError::UnknownPduType(v));
            },
        };
        let flags = Flags::from_bits_truncate(buf[2]);
        let len: usize = buf.len();
        let s0 = slice_subrange(buf, 4, len);
        let s1 = slice_subrange(buf, 8, len);
        let s2 = slice_subrange(buf, 12, len);
        let s3 = slice_subrange(buf, 16, len);
        proof {
            assert(s0@ =~= buf@.skip(4));
            assert(s1@ =~= buf@.skip(8));
            assert(s2@ =~= buf@.skip(12));
            assert(s3@ =~= buf@.skip(16));
        }
        let network_order = flags.contains(Flags::NETWORK_BYTE_ORDER());
        let (session_id, transaction_id, packet_id, payload_length) = if network_order {
            (get_be32(s0), get_be32(s1), get_be32(s2), get_be32(s3))
        } else {
            (get_le32(s0), get_le32(s1), get_le32(s2), get_le32(s3))
        };
        reader.advance(HEADER_SIZE);
        Ok(
            Header {
                version,
                pdu_type,
                flags,
                session_id,
                transaction_id,
                packet_id,
                payload_length,
            },
        )
    }
}

} // verus!

//! The bodies of the thirteen PDU types.
//!
//! A body that ends in a list is decoded with the payload length the frame
//! header declares, and uses exactly that many bytes.

use vstd::prelude::*;
use vstd::slice::slice_to_vec;
use vstd::std_specs::convert::FromSpecImpl;
use crate::error::CodecError;
use crate::oid::Oid;
use crate::agentx::wire::{be16, be32, from_be16, from_be32, put_be16, put_be32, Reader};
use crate::agentx::wire::{lemma_be16_roundtrip, lemma_be32_roundtrip};
use crate::agentx::pdu::{SearchRange, SearchRangeModel, VarBind, VarBindModel};
use crate::agentx::pdu::{oid_wire, oid_parse, oid_fits, oid_recoverable, octets_wire, octets_parse};
use crate::agentx::pdu::{encode_oid, decode_oid, encode_octet_string, decode_octet_string};
use crate::agentx::pdu::{lemma_oid_roundtrip, lemma_octets_roundtrip};
use crate::agentx::lists::{varbind_models, range_models, varbinds_wire, ranges_wire};
use crate::agentx::lists::{varbind_list_parse, range_list_parse};
use crate::agentx::lists::{varbinds_bounded, varbinds_fit, varbinds_recoverable};
use crate::agentx::lists::{ranges_fit, ranges_recoverable};
use crate::agentx::lists::{encode_varbinds, encode_ranges, decode_varbinds, decode_ranges};
use crate::agentx::lists::{clone_varbinds, clone_ranges};
use crate::agentx::lists::{lemma_varbinds_roundtrip, lemma_varbinds_one_short};
use crate::agentx::lists::{lemma_ranges_roundtrip, lemma_ranges_one_short};

verus! {

/// The body of an Open PDU: a sub-agent introduces itself.
#[derive(Debug)]
pub struct OpenPdu {
    pub timeout: u8,
    pub id: Oid,
    pub description: Vec<u8>,
}

/// What an [`OpenPdu`] stands for.
pub struct OpenModel {
    pub timeout: u8,
    pub id: Seq<u32>,
    pub description: Seq<u8>,
}

impl Clone for OpenPdu {
    fn clone(&self) -> (r: Self)
        ensures
            r@ == self@,
    {
        OpenPdu {
            timeout: self.timeout,
            id: self.id.clone(),
            description: slice_to_vec(self.description.as_slice()),
        }
    }
}

impl View for OpenPdu {
    type V = OpenModel;

    open spec fn view(&self) -> OpenModel {
        OpenModel { timeout: self.timeout, id: self.id@, description: self.description@ }
    }
}

/// An Open body on the wire: the timeout, three zero bytes, the identifier
/// and the description.
pub open spec fn open_wire(m: OpenModel) -> Seq<u8> {
    seq![m.timeout, 0u8, 0u8, 0u8] + oid_wire(m.id, false) + octets_wire(m.description)
}

/// The Open body at the front of `b` and the number of bytes it takes.
pub open spec fn open_parse(b: Seq<u8>) -> Result<(OpenModel, int), CodecError> {
    if b.len() < 4 {
        Err(CodecError::TruncatedInput)
    } else {
        match oid_parse(b.skip(4)) {
            Err(e) => Err(e),
            Ok((id, _, used)) => match octets_parse(b.skip(4 + used)) {
                Err(e) => Err(e),
                Ok((description, more)) => Ok(
                    (OpenModel { timeout: b[0], id, description }, 4 + used + more),
                ),
            },
        }
    }
}

/// Decoding an encoded Open body, whatever follows it, gives its fields back
/// and takes exactly the encoded bytes.
pub proof fn lemma_open_roundtrip(m: OpenModel, rest: Seq<u8>)
    requires
        oid_recoverable(m.id),
        m.description.len() <= u32::MAX,
    ensures
        open_parse(open_wire(m) + rest) === Ok((m, open_wire(m).len() as int)),
{
    let head = seq![m.timeout, 0u8, 0u8, 0u8];
    let first = oid_wire(m.id, false);
    let second = octets_wire(m.description);
    let b = open_wire(m) + rest;
    assert(b =~= head + (first + (second + rest)));
    assert(b.skip(4) =~= first + (second + rest));
    lemma_oid_roundtrip(m.id, false, second + rest);
    assert(b.skip(4 + first.len() as int) =~= second + rest);
    lemma_octets_roundtrip(m.description, rest);
}

impl OpenPdu {
    /// An Open body with the given fields.
    pub fn new(timeout: u8, id: Oid, description: Vec<u8>) -> (pdu: Self)
        ensures
            pdu.timeout == timeout,
            pdu.id == id,
            pdu.description == description,
    {
        OpenPdu { timeout, id, description }
    }

    /// Appends the wire form of this body to `writer`.
    ///
    /// Fails with `InvalidIdentifier`, writing nothing, exactly when more
    /// than 255 sub-identifiers of the identifier would have to be written.
    pub fn encode(&self, writer: &mut Vec<u8>) -> (r: Result<(), CodecError>)
        requires
            self@.description.len() <= u32::MAX,
        ensures
            match r {
                Ok(_) => {
                    &&& oid_fits(self@.id)
                    &&& final(writer)@ == old(writer)@ + open_wire(self@)
                },
                Err(e) => {
                    &&& !oid_fits(self@.id)
                    &&& e == CodecError::InvalidIdentifier
                    &&& final(writer)@ == old(writer)@
                },
            },
    {
        let start: usize = writer.len();
        writer.push(self.timeout);
        writer.push(0u8);
        writer.push(0u8);
        writer.push(0u8);
        match encode_oid(writer, &self.id, false) {
            Ok(_) => {},
            Err(e) => {
                writer.truncate(start);
                assert(writer@ =~= old(writer)@);
                return Err(e);
            },
        }
        let _ = encode_octet_string(writer, self.description.as_slice());
        assert(writer@ =~= old(writer)@ + open_wire(self@));
        Ok(())
    }

    /// Reads an Open body from the front of `reader`.
    ///
    /// Fails with `TruncatedInput` when a part of it is not all there. On
    /// failure the reader is left where it was.
    pub fn decode(reader: &mut Reader) -> (r: Result<Self, CodecError>)
        ensures
            match r {
                Ok(pdu) => {
                    &&& open_parse(old(reader)@) matches Ok((m, used))
                    &&& pdu@ == m
                    &&& final(reader)@ == old(reader)@.skip(used)
                },
                Err(e) => {
                    &&& open_parse(old(reader)@) === Err(e)
                    &&& final(reader)@ == old(reader)@
                },
            },
    {
        let origin: Reader = *reader;
        if reader.remaining() < 4 {
            return Err(CodecError::TruncatedInput);
        }
        let timeout: u8 = reader.as_slice()[0];
        reader.advance(4);
        let id = match decode_oid(reader) {
            Ok((id, _)) => id,
            Err(e) => {
                *reader = origin;
                return Err(e);
            },
        };
        let ghost used = oid_parse(old(reader)@.skip(4))->Ok_0.2;
        assert(old(reader)@.skip(4).skip(used) =~= old(reader)@.skip(4 + used));
        let description = match decode_octet_string(reader) {
            Ok(description) => description,
            Err(e) => {
                *reader = origin;
                return Err(e);
            },
        };
        proof {
            let more = octets_parse(old(reader)@.skip(4 + used))->Ok_0.1;
            assert(old(reader)@.skip(4 + used).skip(more) =~= old(reader)@.skip(4 + used + more));
        }
        Ok(OpenPdu { timeout, id, description })
    }
}

/// Why a session is closed.
#[derive(Debug, Clone, Copy, PartialEq, Eq, Structural)]
pub enum CloseReason {
    Other,
    ParseError,
    ProtocolError,
    Timeouts,
    Shutdown,
    ByManager,
}

impl CloseReason {
    /// The byte that stands for this reason on the wire, 1 to 6.
    pub open spec fn spec_code(self) -> u8 {
        match self {
            CloseReason::Other => 1,
            CloseReason::ParseError => 2,
            CloseReason::ProtocolError => 3,
            CloseReason::Timeouts => 4,
            CloseReason::Shutdown => 5,
            CloseReason::ByManager => 6,
        }
    }

    /// The reason that `code` stands for; a byte that stands for none is
    /// taken as `Other`.
    pub open spec fn spec_from_code(code: u8) -> CloseReason {
        if code == 2 {
            CloseReason::ParseError
        } else if code == 3 {
            CloseReason::ProtocolError
        } else if code == 4 {
            CloseReason::Timeouts
        } else if code == 5 {
            CloseReason::Shutdown
        } else if code == 6 {
            CloseReason::ByManager
        } else {
            CloseReason::Other
        }
    }

    /// The byte that stands for this reason on the wire, 1 to 6.
    #[verifier::when_used_as_spec(spec_code)]
    pub fn code(self) -> (c: u8)
        ensures
            c == self.spec_code(),
            1 <= c <= 6,
    {
        match self {
            CloseReason::Other => 1,
            CloseReason::ParseError => 2,
            CloseReason::ProtocolError => 3,
            CloseReason::Timeouts => 4,
            CloseReason::Shutdown => 5,
            CloseReason::ByManager => 6,
        }
    }

    /// The reason that `code` stands for; a byte that stands for none is
    /// taken as `Other`.
    #[verifier::when_used_as_spec(spec_from_code)]
    pub fn from_code(code: u8) -> (reason: CloseReason)
        ensures
            reason == CloseReason::spec_from_code(code),
    {
        match code {
            1 => CloseReason::Other,
            2 => CloseReason::ParseError,
            3 => CloseReason::ProtocolError,
            4 => CloseReason::Timeouts,
            5 => CloseReason::Shutdown,
            6 => CloseReason::ByManager,
            _ => CloseReason::Other,
        }
    }

    /// A reason is found again from its code.
    pub proof fn lemma_code_roundtrip(reason: CloseReason)
        ensures
            CloseReason::spec_from_code(reason.spec_code()) == reason,
    {
    }
}

/// The body of a Close PDU.
#[derive(Debug, Clone, Copy, PartialEq, Eq, Structural)]
pub struct ClosePdu {
    pub reason: CloseReason,
}

/// A Close body on the wire: the reason and three zero bytes.
pub open spec fn close_wire(pdu: ClosePdu) -> Seq<u8> {
    seq![pdu.reason.spec_code(), 0u8, 0u8, 0u8]
}

/// The Close body at the front of `b`. It takes four bytes.
pub open spec fn close_parse(b: Seq<u8>) -> Result<ClosePdu, CodecError> {
    if b.len() < 4 {
        Err(CodecError::TruncatedInput)
    } else {
        Ok(ClosePdu { reason: CloseReason::spec_from_code(b[0]) })
    }
}

/// Decoding an encoded Close body, whatever follows it, gives it back.
pub proof fn lemma_close_roundtrip(pdu: ClosePdu, rest: Seq<u8>)
    ensures
        close_wire(pdu).len() == 4,
        close_parse(close_wire(pdu) + rest) === Ok(pdu),
{
    CloseReason::lemma_code_roundtrip(pdu.reason);
    assert((close_wire(pdu) + rest)[0] == pdu.reason.spec_code());
}

impl ClosePdu {
    /// A Close body with the given reason.
    pub fn new(reason: CloseReason) -> (pdu: Self)
        ensures
            pdu.reason == reason,
    {
        ClosePdu { reason }
    }

    /// Appends the four bytes of this body to `writer`. This never fails.
    pub fn encode(&self, writer: &mut Vec<u8>) -> (r: Result<(), CodecError>)
        ensures
            r is Ok,
            final(writer)@ == old(writer)@ + close_wire(*self),
    {
        writer.push(self.reason.code());
        writer.push(0u8);
        writer.push(0u8);
        writer.push(0u8);
        assert(writer@ =~= old(writer)@ + close_wire(*self));
        Ok(())
    }

    /// Reads a Close body from the front of `reader`.
    ///
    /// Fails with `TruncatedInput`, leaving the reader where it was, when
    /// fewer than four bytes are left.
    pub fn decode(reader: &mut Reader) -> (r: Result<Self, CodecError>)
        ensures
            r == close_parse(old(reader)@),
            r is Ok ==> final(reader)@ == old(reader)@.skip(4),
            r is Err ==> final(reader)@ == old(reader)@,
    {
        if reader.remaining() < 4 {
            return Err(CodecError::TruncatedInput);
        }
        let reason = CloseReason::from_code(reader.as_slice()[0]);
        reader.advance(4);
        Ok(ClosePdu { reason })
    }
}

/// What a registration or its withdrawal stands for. A withdrawal has no
/// timeout: there `timeout` is 0.
pub struct RegisterModel {
    pub timeout: u8,
    pub priority: u8,
    pub range_subid: u8,
    pub subtree: Seq<u32>,
    pub upper_bound: Option<u32>,
}

/// An optional upper bound on the wire: its four bytes, or nothing.
pub open spec fn upper_bound_wire(upper_bound: Option<u32>) -> Seq<u8> {
    match upper_bound {
        Some(x) => be32(x),
        None => Seq::empty(),
    }
}

/// A registration on the wire: timeout, priority, range sub-identifier, a
/// zero byte, the subtree, and the upper bound if there is one.
pub open spec fn register_wire(m: RegisterModel) -> Seq<u8> {
    seq![m.timeout, m.priority, m.range_subid, 0u8] + oid_wire(m.subtree, false)
        + upper_bound_wire(m.upper_bound)
}

/// The registration at the front of `b` and the number of bytes it takes;
/// `has_upper_bound` tells whether an upper bound follows the subtree.
pub open spec fn register_parse(b: Seq<u8>, has_upper_bound: bool) -> Result<
    (RegisterModel, int),
    CodecError,
> {
    if b.len() < 4 {
        Err(CodecError::TruncatedInput)
    } else {
        match oid_parse(b.skip(4)) {
            Err(e) => Err(e),
            Ok((subtree, _, used)) => if !has_upper_bound {
                Ok(
                    (
                        RegisterModel {
                            timeout: b[0],
                            priority: b[1],
                            range_subid: b[2],
                            subtree,
                            upper_bound: None,
                        },
                        4 + used,
                    ),
                )
            } else if b.len() < 4 + used + 4 {
                Err(CodecError::IncompleteUpperBoundContext)
            } else {
                Ok(
                    (
                        RegisterModel {
                            timeout: b[0],
                            priority: b[1],
                            range_subid: b[2],
                            subtree,
                            upper_bound: Some(from_be32(b.skip(4 + used))),
                        },
                        4 + used + 4,
                    ),
                )
            },
        }
    }
}

/// Decoding an encoded registration, told rightly whether it has an upper
/// bound and whatever follows it, gives its fields back and takes exactly
/// the encoded bytes.
pub proof fn lemma_register_roundtrip(m: RegisterModel, rest: Seq<u8>)
    requires
        oid_recoverable(m.subtree),
    ensures
        register_parse(register_wire(m) + rest, m.upper_bound is Some)
            === Ok((m, register_wire(m).len() as int)),
{
    let head = seq![m.timeout, m.priority, m.range_subid, 0u8];
    let first = oid_wire(m.subtree, false);
    let second = upper_bound_wire(m.upper_bound);
    let b = register_wire(m) + rest;
    assert(b =~= head + (first + (second + rest)));
    assert(b.skip(4) =~= first + (second + rest));
    lemma_oid_roundtrip(m.subtree, false, second + rest);
    assert(b.skip(4 + first.len() as int) =~= second + rest);
    if let Some(x) = m.upper_bound {
        lemma_be32_roundtrip(x, rest);
    }
}

/// A registration whose announced upper bound is cut off is refused with
/// `IncompleteUpperBoundContext`.
pub proof fn lemma_register_incomplete(m: RegisterModel, k: int)
    requires
        oid_recoverable(m.subtree),
        m.upper_bound is Some,
        0 <= k < 4,
    ensures
        register_wire(m).len() >= 8,
        register_parse(register_wire(m).take(register_wire(m).len() - 4 + k), true)
            === Err(CodecError::IncompleteUpperBoundContext),
{
    let head = seq![m.timeout, m.priority, m.range_subid, 0u8];
    let first = oid_wire(m.subtree, false);
    let second = upper_bound_wire(m.upper_bound);
    lemma_be32_roundtrip(m.upper_bound->Some_0, Seq::empty());
    let cut = register_wire(m).take(register_wire(m).len() - 4 + k);
    assert(cut =~= head + (first + second.take(k)));
    assert(cut.skip(4) =~= first + second.take(k));
    lemma_oid_roundtrip(m.subtree, false, second.take(k));
}

/// The body of a Register PDU: a sub-agent offers a subtree.
#[derive(Debug)]
pub struct RegisterPdu {
    pub timeout: u8,
    pub priority: u8,
    pub range_subid: u8,
    pub subtree: Oid,
    pub upper_bound: Option<u32>,
}

impl Clone for RegisterPdu {
    fn clone(&self) -> (r: Self)
        ensures
            r@ == self@,
    {
        RegisterPdu {
            timeout: self.timeout,
            priority: self.priority,
            range_subid: self.range_subid,
            subtree: self.subtree.clone(),
            upper_bound: self.upper_bound,
        }
    }
}

impl View for RegisterPdu {
    type V = RegisterModel;

    open spec fn view(&self) -> RegisterModel {
        RegisterModel {
            timeout: self.timeout,
            priority: self.priority,
            range_subid: self.range_subid,
            subtree: self.subtree@,
            upper_bound: self.upper_bound,
        }
    }
}

/// Writes a registration; shared by the Register and Unregister bodies.
fn encode_registration(
    writer: &mut Vec<u8>,
    timeout: u8,
    priority: u8,
    range_subid: u8,
    subtree: &Oid,
    upper_bound: Option<u32>,
) -> (r: Result<(), CodecError>)
    ensures
        match r {
            Ok(_) => {
                &&& oid_fits(subtree@)
                &&& final(writer)@ == old(writer)@ + register_wire(
                    (RegisterModel {
                        timeout,
                        priority,
                        range_subid,
                        subtree: subtree@,
                        upper_bound,
                    }),
                )
            },
            Err(e) => {
                &&& !oid_fits(subtree@)
                &&& e == CodecError::InvalidIdentifier
                &&& final(writer)@ == old(writer)@
            },
        },
{
    let start: usize = writer.len();
    writer.push(timeout);
    writer.push(priority);
    writer.push(range_subid);
    writer.push(0u8);
    match encode_oid(writer, subtree, false) {
        Ok(_) => {},
        Err(e) => {
            writer.truncate(start);
            assert(writer@ =~= old(writer)@);
            return Err(e);
        },
    }
    if let Some(upper_bound) = upper_bound {
        put_be32(writer, upper_bound);
    }
    assert(writer@ =~= old(writer)@ + register_wire(
        RegisterModel { timeout, priority, range_subid, subtree: subtree@, upper_bound },
    ));
    Ok(())
}

/// Reads a registration; shared by the Register and Unregister bodies.
fn decode_registration(reader: &mut Reader, has_upper_bound: bool) -> (r: Result<
    RegisterPdu,
    CodecError,
>)
    ensures
        match r {
            Ok(pdu) => {
                &&& register_parse(old(reader)@, has_upper_bound) matches Ok((m, used))
                &&& pdu@ == m
                &&& final(reader)@ == old(reader)@.skip(used)
            },
            Err(e) => {
                &&& register_parse(old(reader)@, has_upper_bound) === Err(e)
                &&& final(reader)@ == old(reader)@
            },
        },
{
    let origin: Reader = *reader;
    if reader.remaining() < 4 {
        return Err(CodecError::TruncatedInput);
    }
    let head = reader.as_slice();
    let timeout: u8 = head[0];
    let priority: u8 = head[1];
    let range_subid: u8 = head[2];
    reader.advance(4);
    let subtree = match decode_oid(reader) {
        Ok((subtree, _)) => subtree,
        Err(e) => {
            *reader = origin;
            return Err(e);
        },
    };
    let ghost used = oid_parse(old(reader)@.skip(4))->Ok_0.2;
    assert(old(reader)@.skip(4).skip(used) =~= old(reader)@.skip(4 + used));
    let upper_bound: Option<u32> = if has_upper_bound {
        match reader.take_be32() {
            Ok(x) => {
                assert(old(reader)@.skip(4 + used).skip(4) =~= old(reader)@.skip(4 + used + 4));
                Some(x)
            },
            Err(_) => {
                *reader = origin;
                return Err(CodecError::IncompleteUpperBoundContext);
            },
        }
    } else {
        None
    };
    Ok(RegisterPdu { timeout, priority, range_subid, subtree, upper_bound })
}

impl RegisterPdu {
    /// A registration of `subtree` without a range.
    pub fn new(subtree: Oid, priority: u8, timeout: u8) -> (pdu: Self)
        ensures
            pdu.timeout == timeout,
            pdu.priority == priority,
            pdu.range_subid == 0,
            pdu.subtree == subtree,
            pdu.upper_bound is None,
    {
        RegisterPdu { timeout, priority, range_subid: 0, subtree, upper_bound: None }
    }

    /// This registration with a range: the sub-identifier at place
    /// `range_subid` runs up to `upper_bound`.
    pub fn with_range(self, range_subid: u8, upper_bound: u32) -> (pdu: Self)
        ensures
            pdu.timeout == self.timeout,
            pdu.priority == self.priority,
            pdu.range_subid == range_subid,
            pdu.subtree == self.subtree,
            pdu.upper_bound == Some(upper_bound),
    {
        let mut pdu = self;
        pdu.range_subid = range_subid;
        pdu.upper_bound = Some(upper_bound);
        pdu
    }

    /// Appends the wire form of this body to `writer`.
    ///
    /// Fails with `InvalidIdentifier`, writing nothing, exactly when more
    /// than 255 sub-identifiers of the subtree would have to be written.
    pub fn encode(&self, writer: &mut Vec<u8>) -> (r: Result<(), CodecError>)
        ensures
            match r {
                Ok(_) => {
                    &&& oid_fits(self@.subtree)
                    &&& final(writer)@ == old(writer)@ + register_wire(self@)
                },
                Err(e) => {
                    &&& !oid_fits(self@.subtree)
                    &&& e == CodecError::InvalidIdentifier
                    &&& final(writer)@ == old(writer)@
                },
            },
    {
        encode_registration(
            writer,
            self.timeout,
            self.priority,
            self.range_subid,
            &self.subtree,
            self.upper_bound,
        )
    }

    /// Reads a Register body from the front of `reader`; `has_upper_bound`
    /// tells whether an upper bound follows the subtree.
    ///
    /// Fails with `TruncatedInput` when the fixed fields or the subtree are
    /// not all there, and with `IncompleteUpperBoundContext` when an upper
    /// bound is announced and fewer than four bytes follow the subtree. On
    /// failure the reader is left where it was.
    pub fn decode(reader: &mut Reader, has_upper_bound: bool) -> (r: Result<Self, CodecError>)
        ensures
            match r {
                Ok(pdu) => {
                    &&& register_parse(old(reader)@, has_upper_bound) matches Ok((m, used))
                    &&& pdu@ == m
                    &&& final(reader)@ == old(reader)@.skip(used)
                },
                Err(e) => {
                    &&& register_parse(old(reader)@, has_upper_bound) === Err(e)
                    &&& final(reader)@ == old(reader)@
                },
            },
    {
        decode_registration(reader, has_upper_bound)
    }
}

/// The body of an Unregister PDU: a sub-agent withdraws a subtree.
#[derive(Debug)]
pub struct UnregisterPdu {
    pub priority: u8,
    pub range_subid: u8,
    pub subtree: Oid,
    pub upper_bound: Option<u32>,
}

impl Clone for UnregisterPdu {
    fn clone(&self) -> (r: Self)
        ensures
            r@ == self@,
    {
        UnregisterPdu {
            priority: self.priority,
            range_subid: self.range_subid,
            subtree: self.subtree.clone(),
            upper_bound: self.upper_bound,
        }
    }
}

impl View for UnregisterPdu {
    type V = RegisterModel;

    open spec fn view(&self) -> RegisterModel {
        RegisterModel {
            timeout: 0,
            priority: self.priority,
            range_subid: self.range_subid,
            subtree: self.subtree@,
            upper_bound: self.upper_bound,
        }
    }
}

/// The withdrawal at the front of `b` and the number of bytes it takes. It is
/// laid out as a registration; the byte in the timeout's place is not looked
/// at.
pub open spec fn unregister_parse(b: Seq<u8>, has_upper_bound: bool) -> Result<
    (RegisterModel, int),
    CodecError,
> {
    match register_parse(b, has_upper_bound) {
        Err(e) => Err(e),
        Ok((m, used)) => Ok((RegisterModel { timeout: 0, ..m }, used)),
    }
}

/// Decoding an encoded withdrawal, told rightly whether it has an upper
/// bound and whatever follows it, gives its fields back and takes exactly
/// the encoded bytes.
pub proof fn lemma_unregister_roundtrip(m: RegisterModel, rest: Seq<u8>)
    requires
        oid_recoverable(m.subtree),
        m.timeout == 0,
    ensures
        unregister_parse(register_wire(m) + rest, m.upper_bound is Some)
            === Ok((m, register_wire(m).len() as int)),
{
    lemma_register_roundtrip(m, rest);
}

impl UnregisterPdu {
    /// A withdrawal of `subtree` without a range.
    pub fn new(subtree: Oid, priority: u8) -> (pdu: Self)
        ensures
            pdu.priority == priority,
            pdu.range_subid == 0,
            pdu.subtree == subtree,
            pdu.upper_bound is None,
    {
        UnregisterPdu { priority, range_subid: 0, subtree, upper_bound: None }
    }

    /// This withdrawal with a range: the sub-identifier at place
    /// `range_subid` runs up to `upper_bound`.
    pub fn with_range(self, range_subid: u8, upper_bound: u32) -> (pdu: Self)
        ensures
            pdu.priority == self.priority,
            pdu.range_subid == range_subid,
            pdu.subtree == self.subtree,
            pdu.upper_bound == Some(upper_bound),
    {
        let mut pdu = self;
        pdu.range_subid = range_subid;
        pdu.upper_bound = Some(upper_bound);
        pdu
    }

    /// Appends the wire form of this body to `writer`, with a zero byte in
    /// the timeout's place.
    ///
    /// Fails with `InvalidIdentifier`, writing nothing, exactly when more
    /// than 255 sub-identifiers of the subtree would have to be written.
    pub fn encode(&self, writer: &mut Vec<u8>) -> (r: Result<(), CodecError>)
        ensures
            match r {
                Ok(_) => {
                    &&& oid_fits(self@.subtree)
                    &&& final(writer)@ == old(writer)@ + register_wire(self@)
                },
                Err(e) => {
                    &&& !oid_fits(self@.subtree)
                    &&& e == CodecError::InvalidIdentifier
                    &&& final(writer)@ == old(writer)@
                },
            },
    {
        encode_registration(
            writer,
            0,
            self.priority,
            self.range_subid,
            &self.subtree,
            self.upper_bound,
        )
    }

    /// Reads an Unregister body from the front of `reader`; `has_upper_bound`
    /// tells whether an upper bound follows the subtree.
    ///
    /// Fails with `TruncatedInput` when the fixed fields or the subtree are
    /// not all there, and with `IncompleteUpperBoundContext` when an upper
    /// bound is announced and fewer than four bytes follow the subtree. On
    /// failure the reader is left where it was.
    pub fn decode(reader: &mut Reader, has_upper_bound: bool) -> (r: Result<Self, CodecError>)
        ensures
            match r {
                Ok(pdu) => {
                    &&& unregister_parse(old(reader)@, has_upper_bound) matches Ok((m, used))
                    &&& pdu@ == m
                    &&& final(reader)@ == old(reader)@.skip(used)
                },
                Err(e) => {
                    &&& unregister_parse(old(reader)@, has_upper_bound) === Err(e)
                    &&& final(reader)@ == old(reader)@
                },
            },
    {
        match decode_registration(reader, has_upper_bound) {
            Ok(pdu) => Ok(
                UnregisterPdu {
                    priority: pdu.priority,
                    range_subid: pdu.range_subid,
                    subtree: pdu.subtree,
                    upper_bound: pdu.upper_bound,
                },
            ),
            Err(e) => Err(e),
        }
    }
}

/// The body of a Get or GetNext PDU: the search ranges asked for.
///
/// Its view is the list of what the ranges stand for. On the wire it is that
/// list and nothing else.
#[derive(Debug)]
pub struct GetPdu {
    pub ranges: Vec<SearchRange>,
}

impl Clone for GetPdu {
    fn clone(&self) -> (r: Self)
        ensures
            r@ == self@,
    {
        GetPdu { ranges: clone_ranges(self.ranges.as_slice()) }
    }
}

impl View for GetPdu {
    type V = Seq<SearchRangeModel>;

    open spec fn view(&self) -> Seq<SearchRangeModel> {
        range_models(self.ranges@)
    }
}

impl GetPdu {
    /// A Get body with the given ranges.
    pub fn new(ranges: Vec<SearchRange>) -> (pdu: Self)
        ensures
            pdu.ranges == ranges,
    {
        GetPdu { ranges }
    }

    /// A Get body that asks for `oid` alone: one range that starts at `oid`,
    /// exclusive, and ends at `oid.0`.
    pub fn single(oid: Oid) -> (pdu: Self)
        ensures
            pdu@ == seq![
                (SearchRangeModel { start: oid@, end: oid@.push(0u32), inclusive: false }),
            ],
    {
        let end = oid.child(0);
        let mut ranges: Vec<SearchRange> = Vec::new();
        ranges.push(SearchRange::new(oid, end, false));
        let pdu = GetPdu { ranges };
        assert(pdu@ =~= seq![
            SearchRangeModel { start: oid@, end: oid@.push(0u32), inclusive: false },
        ]);
        pdu
    }

    /// Appends the wire forms of the ranges to `writer`, in order.
    ///
    /// Fails with `InvalidIdentifier`, writing nothing, exactly when one of
    /// the ranges cannot be encoded.
    pub fn encode(&self, writer: &mut Vec<u8>) -> (r: Result<(), CodecError>)
        ensures
            match r {
                Ok(_) => {
                    &&& ranges_fit(self@)
                    &&& final(writer)@ == old(writer)@ + ranges_wire(self@)
                },
                Err(e) => {
                    &&& !ranges_fit(self@)
                    &&& e == CodecError::InvalidIdentifier
                    &&& final(writer)@ == old(writer)@
                },
            },
    {
        encode_ranges(writer, self.ranges.as_slice())
    }

    /// Reads the ranges that fill the next `payload_len` bytes of `reader`.
    ///
    /// Fails with `TruncatedInput` when fewer than `payload_len` bytes are
    /// left or a range runs past them. On failure the reader is left where
    /// it was.
    pub fn decode(reader: &mut Reader, payload_len: usize) -> (r: Result<Self, CodecError>)
        ensures
            match r {
                Ok(pdu) => {
                    &&& range_list_parse(old(reader)@, payload_len as int) === Ok(pdu@)
                    &&& final(reader)@ == old(reader)@.skip(payload_len as int)
                },
                Err(e) => {
                    &&& range_list_parse(old(reader)@, payload_len as int) === Err(e)
                    &&& final(reader)@ == old(reader)@
                },
            },
    {
        match decode_ranges(reader, payload_len) {
            Ok(ranges) => Ok(GetPdu { ranges }),
            Err(e) => Err(e),
        }
    }
}

/// The body of a GetBulk PDU.
#[derive(Debug)]
pub struct GetBulkPdu {
    pub non_repeaters: u16,
    pub max_repetitions: u16,
    pub ranges: Vec<SearchRange>,
}

/// What a [`GetBulkPdu`] stands for.
pub struct GetBulkModel {
    pub non_repeaters: u16,
    pub max_repetitions: u16,
    pub ranges: Seq<SearchRangeModel>,
}

impl Clone for GetBulkPdu {
    fn clone(&self) -> (r: Self)
        ensures
            r@ == self@,
    {
        GetBulkPdu {
            non_repeaters: self.non_repeaters,
            max_repetitions: self.max_repetitions,
            ranges: clone_ranges(self.ranges.as_slice()),
        }
    }
}

impl View for GetBulkPdu {
    type V = GetBulkModel;

    open spec fn view(&self) -> GetBulkModel {
        GetBulkModel {
            non_repeaters: self.non_repeaters,
            max_repetitions: self.max_repetitions,
            ranges: range_models(self.ranges@),
        }
    }
}

/// A GetBulk body on the wire: the two counts as big-endian 16-bit numbers,
/// then the ranges.
pub open spec fn getbulk_wire(m: GetBulkModel) -> Seq<u8> {
    be16(m.non_repeaters) + be16(m.max_repetitions) + ranges_wire(m.ranges)
}

/// The GetBulk body in the first `payload_len` bytes of `b`, which it must
/// fill exactly.
pub open spec fn getbulk_parse(b: Seq<u8>, payload_len: int) -> Result<GetBulkModel, CodecError> {
    if b.len() < payload_len || payload_len < 4 {
        Err(CodecError::TruncatedInput)
    } else {
        match range_list_parse(b.skip(4), payload_len - 4) {
            Err(e) => Err(e),
            Ok(ranges) => Ok(
                GetBulkModel {
                    non_repeaters: from_be16(b),
                    max_repetitions: from_be16(b.skip(2)),
                    ranges,
                },
            ),
        }
    }
}

/// Decoding an encoded GetBulk body with its own length as the payload
/// length gives its counts and ranges back, and with a payload length one
/// byte short fails with `TruncatedInput`.
pub proof fn lemma_getbulk_roundtrip(m: GetBulkModel)
    requires
        ranges_recoverable(m.ranges),
    ensures
        getbulk_wire(m).len() >= 4,
        getbulk_parse(getbulk_wire(m), getbulk_wire(m).len() as int) === Ok(m),
        getbulk_parse(getbulk_wire(m), getbulk_wire(m).len() - 1)
            === Err(CodecError::TruncatedInput),
{
    let list = ranges_wire(m.ranges);
    let b = getbulk_wire(m);
    assert(b =~= be16(m.non_repeaters) + (be16(m.max_repetitions) + list));
    lemma_be16_roundtrip(m.non_repeaters, be16(m.max_repetitions) + list);
    assert(b.skip(2) =~= be16(m.max_repetitions) + list);
    lemma_be16_roundtrip(m.max_repetitions, list);
    assert(b.skip(4) =~= list);
    lemma_ranges_roundtrip(m.ranges);
    if m.ranges.len() >= 1 {
        lemma_ranges_one_short(m.ranges);
    } else {
        assert(list.len() == 0);
    }
}

impl GetBulkPdu {
    /// A GetBulk body with the given fields.
    pub fn new(non_repeaters: u16, max_repetitions: u16, ranges: Vec<SearchRange>) -> (pdu: Self)
        ensures
            pdu.non_repeaters == non_repeaters,
            pdu.max_repetitions == max_repetitions,
            pdu.ranges == ranges,
    {
        GetBulkPdu { non_repeaters, max_repetitions, ranges }
    }

    /// Appends the wire form of this body to `writer`.
    ///
    /// Fails with `InvalidIdentifier`, writing nothing, exactly when one of
    /// the ranges cannot be encoded.
    pub fn encode(&self, writer: &mut Vec<u8>) -> (r: Result<(), CodecError>)
        ensures
            match r {
                Ok(_) => {
                    &&& ranges_fit(self@.ranges)
                    &&& final(writer)@ == old(writer)@ + getbulk_wire(self@)
                },
                Err(e) => {
                    &&& !ranges_fit(self@.ranges)
                    &&& e == CodecError::InvalidIdentifier
                    &&& final(writer)@ == old(writer)@
                },
            },
    {
        let start: usize = writer.len();
        put_be16(writer, self.non_repeaters);
        put_be16(writer, self.max_repetitions);
        match encode_ranges(writer, self.ranges.as_slice()) {
            Ok(_) => {},
            Err(e) => {
                writer.truncate(start);
                assert(writer@ =~= old(writer)@);
                return Err(e);
            },
        }
        assert(writer@ =~= old(writer)@ + getbulk_wire(self@));
        Ok(())
    }

    /// Reads the GetBulk body that fills the next `payload_len` bytes of
    /// `reader`.
    ///
    /// Fails with `TruncatedInput` when fewer than `payload_len` bytes are
    /// left, when `payload_len` has no room for the two counts, or when a
    /// range runs past the payload. On failure the reader is left where it
    /// was.
    pub fn decode(reader: &mut Reader, payload_len: usize) -> (r: Result<Self, CodecError>)
        ensures
            match r {
                Ok(pdu) => {
                    &&& getbulk_parse(old(reader)@, payload_len as int) === Ok(pdu@)
                    &&& final(reader)@ == old(reader)@.skip(payload_len as int)
                },
                Err(e) => {
                    &&& getbulk_parse(old(reader)@, payload_len as int) === Err(e)
                    &&& final(reader)@ == old(reader)@
                },
            },
    {
        let origin: Reader = *reader;
        if reader.remaining() < payload_len || payload_len < 4 {
            return Err(CodecError::TruncatedInput);
        }
        let non_repeaters: u16 = match reader.take_be16() {
            Ok(x) => x,
            Err(e) => {
                return Err(e);
            },
        };
        let max_repetitions: u16 = match reader.take_be16() {
            Ok(x) => x,
            Err(e) => {
                *reader = origin;
                return Err(e);
            },
        };
        assert(reader@ =~= old(reader)@.skip(4));
        let ranges = match decode_ranges(reader, payload_len - 4) {
            Ok(ranges) => ranges,
            Err(e) => {
                *reader = origin;
                return Err(e);
            },
        };
        assert(reader@ =~= old(reader)@.skip(payload_len as int));
        Ok(GetBulkPdu { non_repeaters, max_repetitions, ranges })
    }
}

/// The body of a TestSet PDU: the variable bindings to set.
///
/// Its view is the list of what the bindings stand for. On the wire it is
/// that list and nothing else.
#[derive(Debug)]
pub struct TestSetPdu {
    pub varbinds: Vec<VarBind>,
}

impl Clone for TestSetPdu {
    fn clone(&self) -> (r: Self)
        ensures
            r@ == self@,
    {
        TestSetPdu { varbinds: clone_varbinds(self.varbinds.as_slice()) }
    }
}

impl View for TestSetPdu {
    type V = Seq<VarBindModel>;

    open spec fn view(&self) -> Seq<VarBindModel> {
        varbind_models(self.varbinds@)
    }
}

impl TestSetPdu {
    /// A TestSet body with the given bindings.
    pub fn new(varbinds: Vec<VarBind>) -> (pdu: Self)
        ensures
            pdu.varbinds == varbinds,
    {
        TestSetPdu { varbinds }
    }

    /// Appends the wire forms of the bindings to `writer`, in order.
    ///
    /// Fails with `InvalidIdentifier`, writing nothing, exactly when one of
    /// the bindings cannot be encoded.
    pub fn encode(&self, writer: &mut Vec<u8>) -> (r: Result<(), CodecError>)
        requires
            varbinds_bounded(self@),
        ensures
            match r {
                Ok(_) => {
                    &&& varbinds_fit(self@)
                    &&& final(writer)@ == old(writer)@ + varbinds_wire(self@)
                },
                Err(e) => {
                    &&& !varbinds_fit(self@)
                    &&& e == CodecError::InvalidIdentifier
                    &&& final(writer)@ == old(writer)@
                },
            },
    {
        encode_varbinds(writer, self.varbinds.as_slice())
    }

    /// Reads the bindings that fill the next `payload_len` bytes of `reader`.
    ///
    /// Fails with `TruncatedInput` when fewer than `payload_len` bytes are
    /// left or a binding runs past them, and with `UnknownValueType` when a
    /// value has an unknown type code. On failure the reader is left where
    /// it was.
    pub fn decode(reader: &mut Reader, payload_len: usize) -> (r: Result<Self, CodecError>)
        ensures
            match r {
                Ok(pdu) => {
                    &&& varbind_list_parse(old(reader)@, payload_len as int) === Ok(pdu@)
                    &&& final(reader)@ == old(reader)@.skip(payload_len as int)
                },
                Err(e) => {
                    &&& varbind_list_parse(old(reader)@, payload_len as int) === Err(e)
                    &&& final(reader)@ == old(reader)@
                },
            },
    {
        match decode_varbinds(reader, payload_len) {
            Ok(varbinds) => Ok(TestSetPdu { varbinds }),
            Err(e) => Err(e),
        }
    }
}

/// The body of a CommitSet PDU, which is empty.
#[derive(Debug, Clone, Copy, PartialEq, Eq, Structural, Default)]
pub struct CommitSetPdu;

impl CommitSetPdu {
    /// The empty body.
    pub fn new() -> Self {
        CommitSetPdu
    }

    /// Writes nothing. This never fails.
    pub fn encode(&self, writer: &mut Vec<u8>) -> (r: Result<(), CodecError>)
        ensures
            r is Ok,
            final(writer)@ == old(writer)@,
    {
        Ok(())
    }

    /// Reads nothing. This never fails.
    pub fn decode(reader: &mut Reader) -> (r: Result<Self, CodecError>)
        ensures
            r is Ok,
            final(reader)@ == old(reader)@,
    {
        Ok(CommitSetPdu)
    }
}

/// The body of an UndoSet PDU, which is empty.
#[derive(Debug, Clone, Copy, PartialEq, Eq, Structural, Default)]
pub struct UndoSetPdu;

impl UndoSetPdu {
    /// The empty body.
    pub fn new() -> Self {
        UndoSetPdu
    }

    /// Writes nothing. This never fails.
    pub fn encode(&self, writer: &mut Vec<u8>) -> (r: Result<(), CodecError>)
        ensures
            r is Ok,
            final(writer)@ == old(writer)@,
    {
        Ok(())
    }

    /// Reads nothing. This never fails.
    pub fn decode(reader: &mut Reader) -> (r: Result<Self, CodecError>)
        ensures
            r is Ok,
            final(reader)@ == old(reader)@,
    {
        Ok(UndoSetPdu)
    }
}

/// The body of a CleanupSet PDU, which is empty.
#[derive(Debug, Clone, Copy, PartialEq, Eq, Structural, Default)]
pub struct CleanupSetPdu;

impl CleanupSetPdu {
    /// The empty body.
    pub fn new() -> Self {
        CleanupSetPdu
    }

    /// Writes nothing. This never fails.
    pub fn encode(&self, writer: &mut Vec<u8>) -> (r: Result<(), CodecError>)
        ensures
            r is Ok,
            final(writer)@ == old(writer)@,
    {
        Ok(())
    }

    /// Reads nothing. This never fails.
    pub fn decode(reader: &mut Reader) -> (r: Result<Self, CodecError>)
        ensures
            r is Ok,
            final(reader)@ == old(reader)@,
    {
        Ok(CleanupSetPdu)
    }
}

/// The body of a Notify PDU: the variable bindings of a notification.
///
/// Its view is the list of what the bindings stand for. On the wire it is
/// that list and nothing else.
#[derive(Debug)]
pub struct NotifyPdu {
    pub varbinds: Vec<VarBind>,
}

impl Clone for NotifyPdu {
    fn clone(&self) -> (r: Self)
        ensures
            r@ == self@,
    {
        NotifyPdu { varbinds: clone_varbinds(self.varbinds.as_slice()) }
    }
}

impl View for NotifyPdu {
    type V = Seq<VarBindModel>;

    open spec fn view(&self) -> Seq<VarBindModel> {
        varbind_models(self.varbinds@)
    }
}

impl NotifyPdu {
    /// A Notify body with the given bindings.
    pub fn new(varbinds: Vec<VarBind>) -> (pdu: Self)
        ensures
            pdu.varbinds == varbinds,
    {
        NotifyPdu { varbinds }
    }

    /// Appends the wire forms of the bindings to `writer`, in order.
    ///
    /// Fails with `InvalidIdentifier`, writing nothing, exactly when one of
    /// the bindings cannot be encoded.
    pub fn encode(&self, writer: &mut Vec<u8>) -> (r: Result<(), CodecError>)
        requires
            varbinds_bounded(self@),
        ensures
            match r {
                Ok(_) => {
                    &&& varbinds_fit(self@)
                    &&& final(writer)@ == old(writer)@ + varbinds_wire(self@)
                },
                Err(e) => {
                    &&& !varbinds_fit(self@)
                    &&& e == CodecError::InvalidIdentifier
                    &&& final(writer)@ == old(writer)@
                },
            },
    {
        encode_varbinds(writer, self.varbinds.as_slice())
    }

    /// Reads the bindings that fill the next `payload_len` bytes of `reader`.
    ///
    /// Fails with `TruncatedInput` when fewer than `payload_len` bytes are
    /// left or a binding runs past them, and with `UnknownValueType` when a
    /// value has an unknown type code. On failure the reader is left where
    /// it was.
    pub fn decode(reader: &mut Reader, payload_len: usize) -> (r: Result<Self, CodecError>)
        ensures
            match r {
                Ok(pdu) => {
                    &&& varbind_list_parse(old(reader)@, payload_len as int) === Ok(pdu@)
                    &&& final(reader)@ == old(reader)@.skip(payload_len as int)
                },
                Err(e) => {
                    &&& varbind_list_parse(old(reader)@, payload_len as int) === Err(e)
                    &&& final(reader)@ == old(reader)@
                },
            },
    {
        match decode_varbinds(reader, payload_len) {
            Ok(varbinds) => Ok(NotifyPdu { varbinds }),
            Err(e) => Err(e),
        }
    }
}

/// The body of a Ping PDU, which is empty.
#[derive(Debug, Clone, Copy, PartialEq, Eq, Structural, Default)]
pub struct PingPdu;

impl PingPdu {
    /// The empty body.
    pub fn new() -> Self {
        PingPdu
    }

    /// Writes nothing. This never fails.
    pub fn encode(&self, writer: &mut Vec<u8>) -> (r: Result<(), CodecError>)
        ensures
            r is Ok,
            final(writer)@ == old(writer)@,
    {
        Ok(())
    }

    /// Reads nothing. This never fails.
    pub fn decode(reader: &mut Reader) -> (r: Result<Self, CodecError>)
        ensures
            r is Ok,
            final(reader)@ == old(reader)@,
    {
        Ok(PingPdu)
    }
}

/// The outcome a Response reports.
#[derive(Debug, Clone, Copy, PartialEq, Eq, Structural)]
pub enum ResponseError {
    NoError,
    OpenFailed,
    NotOpen,
    IndexWrongType,
    IndexAlreadyAllocated,
    IndexNoneAvailable,
    IndexNotAllocated,
    UnsupportedContext,
    DuplicateRegistration,
    UnknownRegistration,
    UnknownAgentCaps,
    ParseError,
    RequestDenied,
    ProcessingError,
}

impl ResponseError {
    /// The number that stands for this outcome on the wire: 0, or 256 to 268.
    pub open spec fn spec_code(self) -> u16 {
        match self {
            ResponseError::NoError => 0,
            ResponseError::OpenFailed => 256,
            ResponseError::NotOpen => 257,
            ResponseError::IndexWrongType => 258,
            ResponseError::IndexAlreadyAllocated => 259,
            ResponseError::IndexNoneAvailable => 260,
            ResponseError::IndexNotAllocated => 261,
            ResponseError::UnsupportedContext => 262,
            ResponseError::DuplicateRegistration => 263,
            ResponseError::UnknownRegistration => 264,
            ResponseError::UnknownAgentCaps => 265,
            ResponseError::ParseError => 266,
            ResponseError::RequestDenied => 267,
            ResponseError::ProcessingError => 268,
        }
    }

    /// The outcome that `code` stands for; a number that stands for none is
    /// taken as `ProcessingError`.
    pub open spec fn spec_from_code(code: u16) -> ResponseError {
        if code == 0 {
            ResponseError::NoError
        } else if code == 256 {
            ResponseError::OpenFailed
        } else if code == 257 {
            ResponseError::NotOpen
        } else if code == 258 {
            ResponseError::IndexWrongType
        } else if code == 259 {
            ResponseError::IndexAlreadyAllocated
        } else if code == 260 {
            ResponseError::IndexNoneAvailable
        } else if code == 261 {
            ResponseError::IndexNotAllocated
        } else if code == 262 {
            ResponseError::UnsupportedContext
        } else if code == 263 {
            ResponseError::DuplicateRegistration
        } else if code == 264 {
            ResponseError::UnknownRegistration
        } else if code == 265 {
            ResponseError::UnknownAgentCaps
        } else if code == 266 {
            ResponseError::ParseError
        } else if code == 267 {
            ResponseError::RequestDenied
        } else {
            ResponseError::ProcessingError
        }
    }

    /// The number that stands for this outcome on the wire: 0, or 256 to 268.
    #[verifier::when_used_as_spec(spec_code)]
    pub fn code(self) -> (c: u16)
        ensures
            c == self.spec_code(),
            c == 0 || 256 <= c <= 268,
    {
        match self {
            ResponseError::NoError => 0,
            ResponseError::OpenFailed => 256,
            ResponseError::NotOpen => 257,
            ResponseError::IndexWrongType => 258,
            ResponseError::IndexAlreadyAllocated => 259,
            ResponseError::IndexNoneAvailable => 260,
            ResponseError::IndexNotAllocated => 261,
            ResponseError::UnsupportedContext => 262,
            ResponseError::DuplicateRegistration => 263,
            ResponseError::UnknownRegistration => 264,
            ResponseError::UnknownAgentCaps => 265,
            ResponseError::ParseError => 266,
            ResponseError::RequestDenied => 267,
            ResponseError::ProcessingError => 268,
        }
    }

    /// An outcome is found again from its code.
    pub proof fn lemma_code_roundtrip(error: ResponseError)
        ensures
            ResponseError::spec_from_code(error.spec_code()) == error,
    {
    }
}

impl From<u16> for ResponseError {
    /// The outcome that `v` stands for; a number that stands for none is
    /// taken as `ProcessingError`.
    fn from(v: u16) -> (r: ResponseError) {
        match v {
            0 => ResponseError::NoError,
            256 => ResponseError::OpenFailed,
            257 => ResponseError::NotOpen,
            258 => ResponseError::IndexWrongType,
            259 => ResponseError::IndexAlreadyAllocated,
            260 => ResponseError::IndexNoneAvailable,
            261 => ResponseError::IndexNotAllocated,
            262 => ResponseError::UnsupportedContext,
            263 => ResponseError::DuplicateRegistration,
            264 => ResponseError::UnknownRegistration,
            265 => ResponseError::UnknownAgentCaps,
            266 => ResponseError::ParseError,
            267 => ResponseError::RequestDenied,
            268 => ResponseError::ProcessingError,
            _ => ResponseError::ProcessingError,
        }
    }
}

impl FromSpecImpl<u16> for ResponseError {
    open spec fn obeys_from_spec() -> bool {
        true
    }

    open spec fn from_spec(v: u16) -> ResponseError {
        ResponseError::spec_from_code(v)
    }
}

/// The body of a Response PDU.
#[derive(Debug)]
pub struct ResponsePdu {
    pub sys_uptime: u32,
    pub error: ResponseError,
    pub index: u16,
    pub varbinds: Vec<VarBind>,
}

/// What a [`ResponsePdu`] stands for.
pub struct ResponseModel {
    pub sys_uptime: u32,
    pub error: ResponseError,
    pub index: u16,
    pub varbinds: Seq<VarBindModel>,
}

impl Clone for ResponsePdu {
    fn clone(&self) -> (r: Self)
        ensures
            r@ == self@,
    {
        ResponsePdu {
            sys_uptime: self.sys_uptime,
            error: self.error,
            index: self.index,
            varbinds: clone_varbinds(self.varbinds.as_slice()),
        }
    }
}

impl View for ResponsePdu {
    type V = ResponseModel;

    open spec fn view(&self) -> ResponseModel {
        ResponseModel {
            sys_uptime: self.sys_uptime,
            error: self.error,
            index: self.index,
            varbinds: varbind_models(self.varbinds@),
        }
    }
}

/// A Response body on the wire: the uptime as a big-endian 32-bit number,
/// the outcome and the index as big-endian 16-bit numbers, then the
/// bindings.
pub open spec fn response_wire(m: ResponseModel) -> Seq<u8> {
    be32(m.sys_uptime) + be16(m.error.spec_code()) + be16(m.index) + varbinds_wire(m.varbinds)
}

/// The Response body in the first `payload_len` bytes of `b`, which it must
/// fill exactly: eight bytes of fixed fields, and bindings in the rest.
pub open spec fn response_parse(b: Seq<u8>, payload_len: int) -> Result<ResponseModel, CodecError> {
    if b.len() < payload_len || payload_len < 8 {
        Err(CodecError::TruncatedInput)
    } else {
        match varbind_list_parse(b.skip(8), payload_len - 8) {
            Err(e) => Err(e),
            Ok(varbinds) => Ok(
                ResponseModel {
                    sys_uptime: from_be32(b),
                    error: ResponseError::spec_from_code(from_be16(b.skip(4))),
                    index: from_be16(b.skip(6)),
                    varbinds,
                },
            ),
        }
    }
}

/// Decoding an encoded Response body with its own length as the payload
/// length gives its fields and bindings back, and with a payload length one
/// byte short fails with `TruncatedInput`.
pub proof fn lemma_response_roundtrip(m: ResponseModel)
    requires
        varbinds_recoverable(m.varbinds),
    ensures
        response_wire(m).len() >= 8,
        response_parse(response_wire(m), response_wire(m).len() as int) === Ok(m),
        response_parse(response_wire(m), response_wire(m).len() - 1)
            === Err(CodecError::TruncatedInput),
{
    let list = varbinds_wire(m.varbinds);
    let code = m.error.spec_code();
    let b = response_wire(m);
    assert(b =~= be32(m.sys_uptime) + (be16(code) + (be16(m.index) + list)));
    lemma_be32_roundtrip(m.sys_uptime, be16(code) + (be16(m.index) + list));
    assert(b.skip(4) =~= be16(code) + (be16(m.index) + list));
    lemma_be16_roundtrip(code, be16(m.index) + list);
    assert(b.skip(6) =~= be16(m.index) + list);
    lemma_be16_roundtrip(m.index, list);
    assert(b.skip(8) =~= list);
    ResponseError::lemma_code_roundtrip(m.error);
    lemma_varbinds_roundtrip(m.varbinds);
    if m.varbinds.len() >= 1 {
        lemma_varbinds_one_short(m.varbinds);
    } else {
        assert(list.len() == 0);
    }
}

impl ResponsePdu {
    /// A Response without error that carries `varbinds`.
    pub fn new(sys_uptime: u32, varbinds: Vec<VarBind>) -> (pdu: Self)
        ensures
            pdu.sys_uptime == sys_uptime,
            pdu.error == ResponseError::NoError,
            pdu.index == 0,
            pdu.varbinds == varbinds,
    {
        ResponsePdu { sys_uptime, error: ResponseError::NoError, index: 0, varbinds }
    }

    /// A Response that reports `error` at `index` and carries no binding.
    pub fn error(sys_uptime: u32, error: ResponseError, index: u16) -> (pdu: Self)
        ensures
            pdu.sys_uptime == sys_uptime,
            pdu.error == error,
            pdu.index == index,
            pdu.varbinds@ == Seq::<VarBind>::empty(),
    {
        ResponsePdu { sys_uptime, error, index, varbinds: Vec::new() }
    }

    /// Appends the wire form of this body to `writer`.
    ///
    /// Fails with `InvalidIdentifier`, writing nothing, exactly when one of
    /// the bindings cannot be encoded.
    pub fn encode(&self, writer: &mut Vec<u8>) -> (r: Result<(), CodecError>)
        requires
            varbinds_bounded(self@.varbinds),
        ensures
            match r {
                Ok(_) => {
                    &&& varbinds_fit(self@.varbinds)
                    &&& final(writer)@ == old(writer)@ + response_wire(self@)
                },
                Err(e) => {
                    &&& !varbinds_fit(self@.varbinds)
                    &&& e == CodecError::InvalidIdentifier
                    &&& final(writer)@ == old(writer)@
                },
            },
    {
        let start: usize = writer.len();
        put_be32(writer, self.sys_uptime);
        put_be16(writer, self.error.code());
        put_be16(writer, self.index);
        match encode_varbinds(writer, self.varbinds.as_slice()) {
            Ok(_) => {},
            Err(e) => {
                writer.truncate(start);
                assert(writer@ =~= old(writer)@);
                return Err(e);
            },
        }
        assert(writer@ =~= old(writer)@ + response_wire(self@));
        Ok(())
    }

    /// Reads the Response body that fills the next `payload_len` bytes of
    /// `reader`: the fixed fields, and the bindings in the `payload_len - 8`
    /// bytes after them.
    ///
    /// Fails with `TruncatedInput` when fewer than `payload_len` bytes are
    /// left, when `payload_len` has no room for the fixed fields, or when a
    /// binding runs past the payload; and with `UnknownValueType` when a
    /// value has an unknown type code. On failure the reader is left where
    /// it was.
    pub fn decode(reader: &mut Reader, payload_len: usize) -> (r: Result<Self, CodecError>)
        ensures
            match r {
                Ok(pdu) => {
                    &&& response_parse(old(reader)@, payload_len as int) === Ok(pdu@)
                    &&& final(reader)@ == old(reader)@.skip(payload_len as int)
                },
                Err(e) => {
                    &&& response_parse(old(reader)@, payload_len as int) === Err(e)
                    &&& final(reader)@ == old(reader)@
                },
            },
    {
        let origin: Reader = *reader;
        if reader.remaining() < payload_len || payload_len < 8 {
            return Err(CodecError::TruncatedInput);
        }
        let sys_uptime: u32 = match reader.take_be32() {
            Ok(x) => x,
            Err(e) => {
                return Err(e);
            },
        };
        let code: u16 = match reader.take_be16() {
            Ok(x) => x,
            Err(e) => {
                *reader = origin;
                return Err(e);
            },
        };
        assert(reader@ =~= old(reader)@.skip(6));
        let index: u16 = match reader.take_be16() {
            Ok(x) => x,
            Err(e) => {
                *reader = origin;
                return Err(e);
            },
        };
        assert(reader@ =~= old(reader)@.skip(8));
        let varbinds = match decode_varbinds(reader, payload_len - 8) {
            Ok(varbinds) => varbinds,
            Err(e) => {
                *reader = origin;
                return Err(e);
            },
        };
        assert(reader@ =~= old(reader)@.skip(payload_len as int));
        Ok(ResponsePdu { sys_uptime, error: ResponseError::from(code), index, varbinds })
    }
}

} // verus!

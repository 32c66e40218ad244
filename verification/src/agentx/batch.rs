//! Encoding many independent items, each into a buffer of its own.
//!
//! The buffer at an index holds the encoding of the item at that index.

use vstd::prelude::*;
use crate::error::CodecError;
use crate::oid::Oid;
use crate::types::Value;
use crate::agentx::pdu::{VarBind, SearchRange};
use crate::agentx::pdu::{oid_wire, oid_fits, value_wire, value_bounded, value_fits};
use crate::agentx::pdu::{varbind_wire, varbind_fits, range_wire, range_fits};
use crate::agentx::pdu::{encode_oid, encode_value};
use crate::agentx::lists::{varbind_models, range_models};
use crate::agentx::lists::{varbinds_bounded, varbinds_fit, ranges_fit};

verus! {

/// The bytes of each buffer.
pub open spec fn buffer_views(buffers: Seq<Vec<u8>>) -> Seq<Seq<u8>> {
    Seq::new(buffers.len(), |i: int| buffers[i]@)
}

/// Encodes each binding into a buffer of its own.
///
/// Fails with `InvalidIdentifier` exactly when one of the bindings cannot be
/// encoded.
pub fn encode_varbinds_batch(varbinds: &[VarBind]) -> (r: Result<Vec<Vec<u8>>, CodecError>)
    requires
        varbinds_bounded(varbind_models(varbinds@)),
    ensures
        match r {
            Ok(buffers) => {
                &&& varbinds_fit(varbind_models(varbinds@))
                &&& buffers@.len() == varbinds@.len()
                &&& forall|i: int|
                    0 <= i < varbinds@.len() ==> (#[trigger] buffers@[i])@ == varbind_wire(
                        varbinds@[i]@,
                    )
            },
            Err(e) => !varbinds_fit(varbind_models(varbinds@)) && e
                == CodecError::InvalidIdentifier,
        },
{
    let ghost models = varbind_models(varbinds@);
    let mut buffers: Vec<Vec<u8>> = Vec::new();
    let mut i: usize = 0;
    while i < varbinds.len()
        invariant
            0 <= i <= varbinds.len(),
            models == varbind_models(varbinds@),
            varbinds_bounded(models),
            buffers@.len() == i,
            forall|j: int| 0 <= j < i ==> varbind_fits(#[trigger] models[j]),
            forall|j: int| 0 <= j < i ==> (#[trigger] buffers@[j])@ == varbind_wire(varbinds@[j]@),
        decreases varbinds.len() - i,
    {
        assert(models[i as int] == varbinds@[i as int]@);
        let mut buf: Vec<u8> = Vec::new();
        match varbinds[i].encode(&mut buf) {
            Ok(_) => {},
            Err(e) => {
                return Err(e);
            },
        }
        assert(buf@ =~= varbind_wire(varbinds@[i as int]@));
        buffers.push(buf);
        i += 1;
    }
    Ok(buffers)
}

/// Encodes each range into a buffer of its own.
///
/// Fails with `InvalidIdentifier` exactly when one of the ranges cannot be
/// encoded.
pub fn encode_search_ranges_batch(ranges: &[SearchRange]) -> (r: Result<Vec<Vec<u8>>, CodecError>)
    ensures
        match r {
            Ok(buffers) => {
                &&& ranges_fit(range_models(ranges@))
                &&& buffers@.len() == ranges@.len()
                &&& forall|i: int|
                    0 <= i < ranges@.len() ==> (#[trigger] buffers@[i])@ == range_wire(
                        ranges@[i]@,
                    )
            },
            Err(e) => !ranges_fit(range_models(ranges@)) && e == CodecError::InvalidIdentifier,
        },
{
    let ghost models = range_models(ranges@);
    let mut buffers: Vec<Vec<u8>> = Vec::new();
    let mut i: usize = 0;
    while i < ranges.len()
        invariant
            0 <= i <= ranges.len(),
            models == range_models(ranges@),
            buffers@.len() == i,
            forall|j: int| 0 <= j < i ==> range_fits(#[trigger] models[j]),
            forall|j: int| 0 <= j < i ==> (#[trigger] buffers@[j])@ == range_wire(ranges@[j]@),
        decreases ranges.len() - i,
    {
        assert(models[i as int] == ranges@[i as int]@);
        let mut buf: Vec<u8> = Vec::new();
        match ranges[i].encode(&mut buf) {
            Ok(_) => {},
            Err(e) => {
                return Err(e);
            },
        }
        assert(buf@ =~= range_wire(ranges@[i as int]@));
        buffers.push(buf);
        i += 1;
    }
    Ok(buffers)
}

/// Encodes each identifier, with the inclusion flag `inclusive`, into a
/// buffer of its own.
///
/// Fails with `InvalidIdentifier` exactly when one of the identifiers cannot
/// be encoded.
pub fn encode_oids_batch(oids: &[Oid], inclusive: bool) -> (r: Result<Vec<Vec<u8>>, CodecError>)
    ensures
        match r {
            Ok(buffers) => {
                &&& forall|i: int| 0 <= i < oids@.len() ==> oid_fits(#[trigger] oids@[i]@)
                &&& buffers@.len() == oids@.len()
                &&& forall|i: int|
                    0 <= i < oids@.len() ==> (#[trigger] buffers@[i])@ == oid_wire(
                        oids@[i]@,
                        inclusive,
                    )
            },
            Err(e) => (exists|i: int| 0 <= i < oids@.len() && !oid_fits(#[trigger] oids@[i]@)) && e
                == CodecError::InvalidIdentifier,
        },
{
    let mut buffers: Vec<Vec<u8>> = Vec::new();
    let mut i: usize = 0;
    while i < oids.len()
        invariant
            0 <= i <= oids.len(),
            buffers@.len() == i,
            forall|j: int| 0 <= j < i ==> oid_fits(#[trigger] oids@[j]@),
            forall|j: int|
                0 <= j < i ==> (#[trigger] buffers@[j])@ == oid_wire(oids@[j]@, inclusive),
        decreases oids.len() - i,
    {
        let mut buf: Vec<u8> = Vec::new();
        match encode_oid(&mut buf, &oids[i], inclusive) {
            Ok(_) => {},
            Err(e) => {
                assert(!oid_fits(oids@[i as int]@));
                return Err(e);
            },
        }
        assert(buf@ =~= oid_wire(oids@[i as int]@, inclusive));
        buffers.push(buf);
        i += 1;
    }
    Ok(buffers)
}

/// Encodes each value into a buffer of its own.
///
/// Fails with `InvalidIdentifier` exactly when one of the values cannot be
/// encoded.
pub fn encode_values_batch(values: &[Value]) -> (r: Result<Vec<Vec<u8>>, CodecError>)
    requires
        forall|i: int| 0 <= i < values@.len() ==> value_bounded(#[trigger] values@[i]@),
    ensures
        match r {
            Ok(buffers) => {
                &&& forall|i: int| 0 <= i < values@.len() ==> value_fits(#[trigger] values@[i]@)
                &&& buffers@.len() == values@.len()
                &&& forall|i: int|
                    0 <= i < values@.len() ==> (#[trigger] buffers@[i])@ == value_wire(
                        values@[i]@,
                    )
            },
            Err(e) => (exists|i: int| 0 <= i < values@.len() && !value_fits(#[trigger] values@[i]@))
                && e == CodecError::InvalidIdentifier,
        },
{
    let mut buffers: Vec<Vec<u8>> = Vec::new();
    let mut i: usize = 0;
    while i < values.len()
        invariant
            0 <= i <= values.len(),
            buffers@.len() == i,
            forall|j: int| 0 <= j < values@.len() ==> value_bounded(#[trigger] values@[j]@),
            forall|j: int| 0 <= j < i ==> value_fits(#[trigger] values@[j]@),
            forall|j: int| 0 <= j < i ==> (#[trigger] buffers@[j])@ == value_wire(values@[j]@),
        decreases values.len() - i,
    {
        let mut buf: Vec<u8> = Vec::new();
        match encode_value(&mut buf, &values[i]) {
            Ok(_) => {},
            Err(e) => {
                assert(!value_fits(values@[i as int]@));
                return Err(e);
            },
        }
        assert(buf@ =~= value_wire(values@[i as int]@));
        buffers.push(buf);
        i += 1;
    }
    Ok(buffers)
}

/// The bytes of all buffers, one buffer after the other.
pub fn concat_buffers(buffers: Vec<Vec<u8>>) -> (all: Vec<u8>)
    ensures
        all@ == buffer_views(buffers@).flatten(),
{
    let ghost views = buffer_views(buffers@);
    let mut all: Vec<u8> = Vec::new();
    let mut i: usize = 0;
    assert(views.take(0) =~= Seq::<Seq<u8>>::empty());
    while i < buffers.len()
        invariant
            0 <= i <= buffers.len(),
            views == buffer_views(buffers@),
            all@ == views.take(i as int).flatten(),
        decreases buffers.len() - i,
    {
        all.extend_from_slice(buffers[i].as_slice());
        proof {
            assert(views.take(i + 1) =~= views.take(i as int).push(views[i as int]));
            views.take(i as int).lemma_flatten_push(views[i as int]);
        }
        i += 1;
    }
    assert(views.take(buffers.len() as int) =~= views);
    all
}

} // verus!

//! Lists of variable bindings and of search ranges.
//!
//! A list carries no count on the wire. Its elements follow one another,
//! and the list ends where the payload ends: a decoder is handed the number
//! of payload bytes and reads elements until exactly that many are used.

use vstd::prelude::*;
use vstd::slice::slice_subrange;
use crate::error::CodecError;
use crate::agentx::wire::Reader;
use crate::agentx::pdu::{VarBind, VarBindModel, SearchRange, SearchRangeModel};
use crate::agentx::pdu::{varbind_wire, varbind_parse, value_is_bounded};
use crate::agentx::pdu::{varbind_bounded, varbind_fits, varbind_recoverable};
use crate::agentx::pdu::{range_wire, range_parse, range_fits, range_recoverable};
use crate::agentx::pdu::{lemma_varbind_roundtrip, lemma_varbind_truncated};
use crate::agentx::pdu::{lemma_varbind_parse_bounds, lemma_range_parse_bounds};
use crate::agentx::pdu::{lemma_range_roundtrip, lemma_range_truncated};

verus! {

/// What a list of variable bindings stands for.
pub open spec fn varbind_models(list: Seq<VarBind>) -> Seq<VarBindModel> {
    Seq::new(list.len(), |i: int| list[i]@)
}

/// What a list of search ranges stands for.
pub open spec fn range_models(list: Seq<SearchRange>) -> Seq<SearchRangeModel> {
    Seq::new(list.len(), |i: int| list[i]@)
}

/// A list of variable bindings on the wire: one after the other.
pub open spec fn varbinds_wire(list: Seq<VarBindModel>) -> Seq<u8>
    decreases list.len(),
{
    if list.len() == 0 {
        Seq::empty()
    } else {
        varbind_wire(list.first()) + varbinds_wire(list.drop_first())
    }
}

/// A list of search ranges on the wire: one after the other.
pub open spec fn ranges_wire(list: Seq<SearchRangeModel>) -> Seq<u8>
    decreases list.len(),
{
    if list.len() == 0 {
        Seq::empty()
    } else {
        range_wire(list.first()) + ranges_wire(list.drop_first())
    }
}

/// The outcome `rest` of decoding what follows the elements `done`.
pub open spec fn after<T>(done: Seq<T>, rest: Result<Seq<T>, CodecError>) -> Result<
    Seq<T>,
    CodecError,
> {
    match rest {
        Ok(more) => Ok(done + more),
        Err(e) => Err(e),
    }
}

/// The variable bindings that fill `b` exactly: none if `b` is empty, else
/// the one at the front and those that fill what follows it.
pub open spec fn varbinds_parse(b: Seq<u8>) -> Result<Seq<VarBindModel>, CodecError>
    decreases b.len(),
    via varbinds_parse_decreases
{
    if b.len() == 0 {
        Ok(Seq::empty())
    } else {
        match varbind_parse(b) {
            Err(e) => Err(e),
            Ok((vb, used)) => after(seq![vb], varbinds_parse(b.skip(used))),
        }
    }
}

#[via_fn]
proof fn varbinds_parse_decreases(b: Seq<u8>) {
    lemma_varbind_parse_bounds(b);
}

/// The search ranges that fill `b` exactly: none if `b` is empty, else the
/// one at the front and those that fill what follows it.
pub open spec fn ranges_parse(b: Seq<u8>) -> Result<Seq<SearchRangeModel>, CodecError>
    decreases b.len(),
    via ranges_parse_decreases
{
    if b.len() == 0 {
        Ok(Seq::empty())
    } else {
        match range_parse(b) {
            Err(e) => Err(e),
            Ok((range, used)) => after(seq![range], ranges_parse(b.skip(used))),
        }
    }
}

#[via_fn]
proof fn ranges_parse_decreases(b: Seq<u8>) {
    lemma_range_parse_bounds(b);
}

/// The variable bindings in the first `payload_len` bytes of `b`, which
/// they must fill exactly.
pub open spec fn varbind_list_parse(b: Seq<u8>, payload_len: int) -> Result<
    Seq<VarBindModel>,
    CodecError,
> {
    if b.len() < payload_len {
        Err(CodecError::TruncatedInput)
    } else {
        varbinds_parse(b.take(payload_len))
    }
}

/// The search ranges in the first `payload_len` bytes of `b`, which they
/// must fill exactly.
pub open spec fn range_list_parse(b: Seq<u8>, payload_len: int) -> Result<
    Seq<SearchRangeModel>,
    CodecError,
> {
    if b.len() < payload_len {
        Err(CodecError::TruncatedInput)
    } else {
        ranges_parse(b.take(payload_len))
    }
}

/// Whether every byte string in the list has a length that fits in 32 bits.
pub open spec fn varbinds_bounded(list: Seq<VarBindModel>) -> bool {
    forall|i: int| 0 <= i < list.len() ==> varbind_bounded(#[trigger] list[i])
}

/// Whether every binding of the list can be encoded.
pub open spec fn varbinds_fit(list: Seq<VarBindModel>) -> bool {
    forall|i: int| 0 <= i < list.len() ==> varbind_fits(#[trigger] list[i])
}

/// Whether every binding of the list is found again from its wire form.
pub open spec fn varbinds_recoverable(list: Seq<VarBindModel>) -> bool {
    forall|i: int| 0 <= i < list.len() ==> varbind_recoverable(#[trigger] list[i])
}

/// Whether every range of the list can be encoded.
pub open spec fn ranges_fit(list: Seq<SearchRangeModel>) -> bool {
    forall|i: int| 0 <= i < list.len() ==> range_fits(#[trigger] list[i])
}

/// Whether every range of the list is found again from its wire form.
pub open spec fn ranges_recoverable(list: Seq<SearchRangeModel>) -> bool {
    forall|i: int| 0 <= i < list.len() ==> range_recoverable(#[trigger] list[i])
}

/// Appending one binding to a list appends its bytes.
pub proof fn lemma_varbinds_wire_push(list: Seq<VarBindModel>, vb: VarBindModel)
    ensures
        varbinds_wire(list.push(vb)) == varbinds_wire(list) + varbind_wire(vb),
    decreases list.len(),
{
    let longer = list.push(vb);
    if list.len() == 0 {
        assert(longer.drop_first() =~= list);
        assert(varbinds_wire(longer) =~= varbind_wire(vb) + varbinds_wire(list));
        assert(varbinds_wire(longer) =~= varbinds_wire(list) + varbind_wire(vb));
    } else {
        assert(longer.drop_first() =~= list.drop_first().push(vb));
        lemma_varbinds_wire_push(list.drop_first(), vb);
        assert(varbinds_wire(longer) =~= varbinds_wire(list) + varbind_wire(vb));
    }
}

/// Appending one range to a list appends its bytes.
pub proof fn lemma_ranges_wire_push(list: Seq<SearchRangeModel>, range: SearchRangeModel)
    ensures
        ranges_wire(list.push(range)) == ranges_wire(list) + range_wire(range),
    decreases list.len(),
{
    let longer = list.push(range);
    if list.len() == 0 {
        assert(longer.drop_first() =~= list);
        assert(ranges_wire(longer) =~= range_wire(range) + ranges_wire(list));
        assert(ranges_wire(longer) =~= ranges_wire(list) + range_wire(range));
    } else {
        assert(longer.drop_first() =~= list.drop_first().push(range));
        lemma_ranges_wire_push(list.drop_first(), range);
        assert(ranges_wire(longer) =~= ranges_wire(list) + range_wire(range));
    }
}

/// Decoding the bytes of an encoded list of variable bindings, taken as the
/// whole payload, gives the same bindings in the same order.
pub proof fn lemma_varbinds_roundtrip(list: Seq<VarBindModel>)
    requires
        varbinds_recoverable(list),
    ensures
        varbinds_parse(varbinds_wire(list)) === Ok(list),
        varbind_list_parse(varbinds_wire(list), varbinds_wire(list).len() as int) === Ok(list),
    decreases list.len(),
{
    let w = varbinds_wire(list);
    assert(w.take(w.len() as int) =~= w);
    if list.len() == 0 {
        assert(list =~= Seq::<VarBindModel>::empty());
    } else {
        let rest = varbinds_wire(list.drop_first());
        lemma_varbind_roundtrip(list.first(), rest);
        assert(w.skip(varbind_wire(list.first()).len() as int) =~= rest);
        lemma_varbinds_roundtrip(list.drop_first());
        assert(seq![list.first()] + list.drop_first() =~= list);
    }
}

/// Decoding the bytes of an encoded list of search ranges, taken as the whole
/// payload, gives the same ranges in the same order.
pub proof fn lemma_ranges_roundtrip(list: Seq<SearchRangeModel>)
    requires
        ranges_recoverable(list),
    ensures
        ranges_parse(ranges_wire(list)) === Ok(list),
        range_list_parse(ranges_wire(list), ranges_wire(list).len() as int) === Ok(list),
    decreases list.len(),
{
    let w = ranges_wire(list);
    assert(w.take(w.len() as int) =~= w);
    if list.len() == 0 {
        assert(list =~= Seq::<SearchRangeModel>::empty());
    } else {
        let rest = ranges_wire(list.drop_first());
        lemma_range_roundtrip(list.first(), rest);
        assert(w.skip(range_wire(list.first()).len() as int) =~= rest);
        lemma_ranges_roundtrip(list.drop_first());
        assert(seq![list.first()] + list.drop_first() =~= list);
    }
}

/// Decoding an encoded list of variable bindings with a payload length one
/// byte short of its encoding fails with `TruncatedInput`: no binding is
/// dropped or read twice.
pub proof fn lemma_varbinds_one_short(list: Seq<VarBindModel>)
    requires
        varbinds_recoverable(list),
        list.len() >= 1,
    ensures
        varbinds_wire(list).len() >= 8,
        varbinds_parse(varbinds_wire(list).take(varbinds_wire(list).len() - 1))
            === Err(CodecError::TruncatedInput),
        varbind_list_parse(varbinds_wire(list), varbinds_wire(list).len() - 1)
            === Err(CodecError::TruncatedInput),
    decreases list.len(),
{
    let w = varbinds_wire(list);
    let first = varbind_wire(list.first());
    let rest = varbinds_wire(list.drop_first());
    let cut = w.take(w.len() - 1);
    lemma_varbind_roundtrip(list.first(), Seq::empty());
    if list.len() == 1 {
        assert(list.drop_first() =~= Seq::<VarBindModel>::empty());
        assert(cut =~= first.take(first.len() - 1));
        lemma_varbind_truncated(list.first(), first.len() - 1);
    } else {
        lemma_varbinds_one_short(list.drop_first());
        let short = rest.take(rest.len() - 1);
        assert(cut =~= first + short);
        lemma_varbind_roundtrip(list.first(), short);
        assert(cut.skip(first.len() as int) =~= short);
    }
}

/// Decoding an encoded list of search ranges with a payload length one byte
/// short of its encoding fails with `TruncatedInput`: no range is dropped or
/// read twice.
pub proof fn lemma_ranges_one_short(list: Seq<SearchRangeModel>)
    requires
        ranges_recoverable(list),
        list.len() >= 1,
    ensures
        ranges_wire(list).len() >= 8,
        ranges_parse(ranges_wire(list).take(ranges_wire(list).len() - 1))
            === Err(CodecError::TruncatedInput),
        range_list_parse(ranges_wire(list), ranges_wire(list).len() - 1)
            === Err(CodecError::TruncatedInput),
    decreases list.len(),
{
    let w = ranges_wire(list);
    let first = range_wire(list.first());
    let rest = ranges_wire(list.drop_first());
    let cut = w.take(w.len() - 1);
    lemma_range_roundtrip(list.first(), Seq::empty());
    if list.len() == 1 {
        assert(list.drop_first() =~= Seq::<SearchRangeModel>::empty());
        assert(cut =~= first.take(first.len() - 1));
        lemma_range_truncated(list.first(), first.len() - 1);
    } else {
        lemma_ranges_one_short(list.drop_first());
        let short = rest.take(rest.len() - 1);
        assert(cut =~= first + short);
        lemma_range_roundtrip(list.first(), short);
        assert(cut.skip(first.len() as int) =~= short);
    }
}

/// Whether every byte string in the list has a length that fits in 32 bits,
/// as the encoders ask.
pub fn varbinds_are_bounded(list: &[VarBind]) -> (b: bool)
    ensures
        b == varbinds_bounded(varbind_models(list@)),
{
    let ghost models = varbind_models(list@);
    let mut i: usize = 0;
    while i < list.len()
        invariant
            0 <= i <= list.len(),
            models == varbind_models(list@),
            forall|j: int| 0 <= j < i ==> varbind_bounded(#[trigger] models[j]),
        decreases list.len() - i,
    {
        assert(models[i as int] == list@[i as int]@);
        if !value_is_bounded(&list[i].value) {
            return false;
        }
        i += 1;
    }
    true
}

/// Appends the wire forms of the bindings in `list` to `writer`, in order.
///
/// Fails with `InvalidIdentifier`, writing nothing, exactly when one of the
/// bindings cannot be encoded.
pub fn encode_varbinds(writer: &mut Vec<u8>, list: &[VarBind]) -> (r: Result<(), CodecError>)
    requires
        varbinds_bounded(varbind_models(list@)),
    ensures
        match r {
            Ok(_) => {
                &&& varbinds_fit(varbind_models(list@))
                &&& final(writer)@ == old(writer)@ + varbinds_wire(varbind_models(list@))
            },
            Err(e) => {
                &&& !varbinds_fit(varbind_models(list@))
                &&& e == CodecError::InvalidIdentifier
                &&& final(writer)@ == old(writer)@
            },
        },
{
    let start: usize = writer.len();
    let ghost models = varbind_models(list@);
    let mut i: usize = 0;
    assert(models.take(0) =~= Seq::<VarBindModel>::empty());
    while i < list.len()
        invariant
            0 <= i <= list.len(),
            start == old(writer)@.len(),
            models == varbind_models(list@),
            varbinds_bounded(models),
            varbinds_fit(models.take(i as int)),
            writer@ == old(writer)@ + varbinds_wire(models.take(i as int)),
        decreases list.len() - i,
    {
        assert(models[i as int] == list@[i as int]@);
        match list[i].encode(writer) {
            Ok(_) => {},
            Err(e) => {
                writer.truncate(start);
                assert(writer@ =~= old(writer)@);
                return Err(e);
            },
        }
        proof {
            assert(models.take(i + 1) =~= models.take(i as int).push(models[i as int]));
            lemma_varbinds_wire_push(models.take(i as int), models[i as int]);
        }
        i += 1;
    }
    assert(models.take(list.len() as int) =~= models);
    Ok(())
}

/// Appends the wire forms of the ranges in `list` to `writer`, in order.
///
/// Fails with `InvalidIdentifier`, writing nothing, exactly when one of the
/// ranges cannot be encoded.
pub fn encode_ranges(writer: &mut Vec<u8>, list: &[SearchRange]) -> (r: Result<(), CodecError>)
    ensures
        match r {
            Ok(_) => {
                &&& ranges_fit(range_models(list@))
                &&& final(writer)@ == old(writer)@ + ranges_wire(range_models(list@))
            },
            Err(e) => {
                &&& !ranges_fit(range_models(list@))
                &&& e == CodecError::InvalidIdentifier
                &&& final(writer)@ == old(writer)@
            },
        },
{
    let start: usize = writer.len();
    let ghost models = range_models(list@);
    let mut i: usize = 0;
    assert(models.take(0) =~= Seq::<SearchRangeModel>::empty());
    while i < list.len()
        invariant
            0 <= i <= list.len(),
            start == old(writer)@.len(),
            models == range_models(list@),
            ranges_fit(models.take(i as int)),
            writer@ == old(writer)@ + ranges_wire(models.take(i as int)),
        decreases list.len() - i,
    {
        assert(models[i as int] == list@[i as int]@);
        match list[i].encode(writer) {
            Ok(_) => {},
            Err(e) => {
                writer.truncate(start);
                assert(writer@ =~= old(writer)@);
                return Err(e);
            },
        }
        proof {
            assert(models.take(i + 1) =~= models.take(i as int).push(models[i as int]));
            lemma_ranges_wire_push(models.take(i as int), models[i as int]);
        }
        i += 1;
    }
    assert(models.take(list.len() as int) =~= models);
    Ok(())
}

/// Reads the variable bindings that fill the next `payload_len` bytes of
/// `reader`.
///
/// Fails with `TruncatedInput` when fewer than `payload_len` bytes are left
/// or a binding runs past them, and as the binding decoder does otherwise.
/// On failure the reader is left where it was.
pub fn decode_varbinds(reader: &mut Reader, payload_len: usize) -> (r: Result<
    Vec<VarBind>,
    CodecError,
>)
    ensures
        match r {
            Ok(list) => {
                &&& varbind_list_parse(old(reader)@, payload_len as int)
                    === Ok(varbind_models(list@))
                &&& final(reader)@ == old(reader)@.skip(payload_len as int)
            },
            Err(e) => {
                &&& varbind_list_parse(old(reader)@, payload_len as int) === Err(e)
                &&& final(reader)@ == old(reader)@
            },
        },
{
    if reader.remaining() < payload_len {
        return Err(CodecError::TruncatedInput);
    }
    let mut window = Reader::new(slice_subrange(reader.as_slice(), 0, payload_len));
    let ghost whole = window@;
    assert(whole =~= old(reader)@.take(payload_len as int));
    let mut list: Vec<VarBind> = Vec::new();
    assert(varbind_models(list@) + Seq::<VarBindModel>::empty() =~= varbind_models(list@));
    while window.remaining() > 0
        invariant
            reader@ == old(reader)@,
            payload_len <= reader@.len(),
            whole == reader@.take(payload_len as int),
            varbinds_parse(whole) == after(varbind_models(list@), varbinds_parse(window@)),
        decreases window@.len(),
    {
        let ghost before = window@;
        let ghost done = varbind_models(list@);
        match VarBind::decode(&mut window) {
            Ok(vb) => {
                proof {
                    lemma_varbind_parse_bounds(before);
                    let rest = varbinds_parse(window@);
                    assert(varbinds_parse(before) == after(seq![vb@], rest));
                    assert(varbind_models(list@.push(vb)) =~= done.push(vb@));
                    if let Ok(more) = rest {
                        assert(done + (seq![vb@] + more) =~= done.push(vb@) + more);
                    }
                }
                list.push(vb);
            },
            Err(e) => {
                return Err(e);
            },
        }
    }
    assert(varbind_models(list@) + Seq::<VarBindModel>::empty() =~= varbind_models(list@));
    reader.advance(payload_len);
    Ok(list)
}

/// Reads the search ranges that fill the next `payload_len` bytes of
/// `reader`.
///
/// Fails with `TruncatedInput` when fewer than `payload_len` bytes are left
/// or a range runs past them. On failure the reader is left where it was.
pub fn decode_ranges(reader: &mut Reader, payload_len: usize) -> (r: Result<
    Vec<SearchRange>,
    CodecError,
>)
    ensures
        match r {
            Ok(list) => {
                &&& range_list_parse(old(reader)@, payload_len as int) === Ok(range_models(list@))
                &&& final(reader)@ == old(reader)@.skip(payload_len as int)
            },
            Err(e) => {
                &&& range_list_parse(old(reader)@, payload_len as int) === Err(e)
                &&& final(reader)@ == old(reader)@
            },
        },
{
    if reader.remaining() < payload_len {
        return Err(CodecError::TruncatedInput);
    }
    let mut window = Reader::new(slice_subrange(reader.as_slice(), 0, payload_len));
    let ghost whole = window@;
    assert(whole =~= old(reader)@.take(payload_len as int));
    let mut list: Vec<SearchRange> = Vec::new();
    assert(range_models(list@) + Seq::<SearchRangeModel>::empty() =~= range_models(list@));
    while window.remaining() > 0
        invariant
            reader@ == old(reader)@,
            payload_len <= reader@.len(),
            whole == reader@.take(payload_len as int),
            ranges_parse(whole) == after(range_models(list@), ranges_parse(window@)),
        decreases window@.len(),
    {
        let ghost before = window@;
        let ghost done = range_models(list@);
        match SearchRange::decode(&mut window) {
            Ok(range) => {
                proof {
                    lemma_range_parse_bounds(before);
                    let rest = ranges_parse(window@);
                    assert(ranges_parse(before) == after(seq![range@], rest));
                    assert(range_models(list@.push(range)) =~= done.push(range@));
                    if let Ok(more) = rest {
                        assert(done + (seq![range@] + more) =~= done.push(range@) + more);
                    }
                }
                list.push(range);
            },
            Err(e) => {
                return Err(e);
            },
        }
    }
    assert(range_models(list@) + Seq::<SearchRangeModel>::empty() =~= range_models(list@));
    reader.advance(payload_len);
    Ok(list)
}

/// A copy of a list of variable bindings.
pub fn clone_varbinds(list: &[VarBind]) -> (copy: Vec<VarBind>)
    ensures
        varbind_models(copy@) == varbind_models(list@),
{
    let mut copy: Vec<VarBind> = Vec::new();
    let mut i: usize = 0;
    while i < list.len()
        invariant
            0 <= i <= list.len(),
            copy@.len() == i,
            forall|j: int| 0 <= j < i ==> (#[trigger] copy@[j])@ == list@[j]@,
        decreases list.len() - i,
    {
        copy.push(list[i].clone());
        i += 1;
    }
    assert(varbind_models(copy@) =~= varbind_models(list@));
    copy
}

/// A copy of a list of search ranges.
pub fn clone_ranges(list: &[SearchRange]) -> (copy: Vec<SearchRange>)
    ensures
        range_models(copy@) == range_models(list@),
{
    let mut copy: Vec<SearchRange> = Vec::new();
    let mut i: usize = 0;
    while i < list.len()
        invariant
            0 <= i <= list.len(),
            copy@.len() == i,
            forall|j: int| 0 <= j < i ==> (#[trigger] copy@[j])@ == list@[j]@,
        decreases list.len() - i,
    {
        copy.push(list[i].clone());
        i += 1;
    }
    assert(range_models(copy@) =~= range_models(list@));
    copy
}

} // verus!

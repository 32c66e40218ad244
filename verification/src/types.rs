//! Typed values.

use vstd::prelude::*;
use vstd::slice::slice_to_vec;
use crate::oid::Oid;

verus! {

/// A value bound to a variable: one of thirteen kinds.
#[derive(Debug, PartialEq, Eq)]
pub enum Value {
    Integer(i32),
    OctetString(Vec<u8>),
    Null(),
    ObjectIdentifier(Oid),
    IpAddress(u8, u8, u8, u8),
    Counter32(u32),
    Gauge32(u32),
    TimeTicks(u32),
    Opaque(Vec<u8>),
    Counter64(u64),
    NoSuchObject(),
    NoSuchInstance(),
    EndOfMibView(),
}

/// What a [`Value`] stands for: the same thirteen kinds over mathematical
/// sequences.
pub enum ValueModel {
    Integer(i32),
    OctetString(Seq<u8>),
    Null,
    ObjectIdentifier(Seq<u32>),
    IpAddress(u8, u8, u8, u8),
    Counter32(u32),
    Gauge32(u32),
    TimeTicks(u32),
    Opaque(Seq<u8>),
    Counter64(u64),
    NoSuchObject,
    NoSuchInstance,
    EndOfMibView,
}

impl View for Value {
    type V = ValueModel;

    open spec fn view(&self) -> ValueModel {
        match self {
            Value::Integer(v) => ValueModel::Integer(*v),
            Value::OctetString(v) => ValueModel::OctetString(v@),
            Value::Null() => ValueModel::Null,
            Value::ObjectIdentifier(o) => ValueModel::ObjectIdentifier(o@),
            Value::IpAddress(a, b, c, d) => ValueModel::IpAddress(*a, *b, *c, *d),
            Value::Counter32(v) => ValueModel::Counter32(*v),
            Value::Gauge32(v) => ValueModel::Gauge32(*v),
            Value::TimeTicks(v) => ValueModel::TimeTicks(*v),
            Value::Opaque(v) => ValueModel::Opaque(v@),
            Value::Counter64(v) => ValueModel::Counter64(*v),
            Value::NoSuchObject() => ValueModel::NoSuchObject,
            Value::NoSuchInstance() => ValueModel::NoSuchInstance,
            Value::EndOfMibView() => ValueModel::EndOfMibView,
        }
    }
}

impl Clone for Value {
    fn clone(&self) -> (r: Self)
        ensures
            r@ == self@,
    {
        match self {
            Value::Integer(v) => Value::Integer(*v),
            Value::OctetString(v) => Value::OctetString(slice_to_vec(v.as_slice())),
            Value::Null() => Value::Null(),
            Value::ObjectIdentifier(o) => Value::ObjectIdentifier(o.clone()),
            Value::IpAddress(a, b, c, d) => Value::IpAddress(*a, *b, *c, *d),
            Value::Counter32(v) => Value::Counter32(*v),
            Value::Gauge32(v) => Value::Gauge32(*v),
            Value::TimeTicks(v) => Value::TimeTicks(*v),
            Value::Opaque(v) => Value::Opaque(slice_to_vec(v.as_slice())),
            Value::Counter64(v) => Value::Counter64(*v),
            Value::NoSuchObject() => Value::NoSuchObject(),
            Value::NoSuchInstance() => Value::NoSuchInstance(),
            Value::EndOfMibView() => Value::EndOfMibView(),
        }
    }
}

} // verus!

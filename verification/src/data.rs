//! Sample values: what a value of some layout holds at run time, as plain
//! data that the emitted code can be run on.

use vstd::prelude::*;
use crate::semantics::Datum;

verus! {

/// A value as it lies in memory.
#[derive(Debug, PartialEq, Eq)]
pub enum Data {
    /// The bit pattern of a number, or the bytes of a string.
    Bytes(Vec<u8>),
    Struct(Vec<Data>),
    List(Vec<Data>),
    /// A union with a tag id: the tag id and the fields of the variant it names.
    Tagged(u64, Vec<Data>),
    /// The null pointer.
    Null,
    /// A pointer that is not null, with what lies behind it.
    Pointer(Box<Data>),
}

/// The mathematical model of a sample value.
pub open spec fn data_model(data: Data) -> Datum
    decreases data,
{
    match data {
        Data::Bytes(bytes) => Datum::Bytes(bytes@),
        Data::Struct(fields) => Datum::Struct(data_models(fields)),
        Data::List(elements) => Datum::List(data_models(elements)),
        Data::Tagged(tag, fields) => Datum::Tagged(tag, data_models(fields)),
        Data::Null => Datum::Null,
        Data::Pointer(pointee) => Datum::Pointer(Box::new(data_model(*pointee))),
    }
}

/// The models of a list of values, in order.
pub open spec fn data_models(values: Vec<Data>) -> Seq<Datum>
    decreases values,
{
    Seq::new(
        values.len() as nat,
        |i: int|
            if 0 <= i < values.len() {
                data_model(values[i])
            } else {
                Datum::Undefined
            },
    )
}

impl View for Data {
    type V = Datum;

    open spec fn view(&self) -> Datum {
        data_model(*self)
    }
}

} // verus!

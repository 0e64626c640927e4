use vstd::prelude::*;

use crate::wire::{DecodeError, Node, Shape, WireFormat, list};

verus! {

/// Either a single value or a list of values: a field that the serialized form
/// holds sometimes as a bare scalar and sometimes as a sequence. Absence is
/// expressed by wrapping it in an `Option`.
#[derive(Debug, PartialEq)]
pub enum OneOrMany<T> {
    One(T),
    Many(Vec<T>),
}

/// The mathematical model of a [`OneOrMany`].
pub enum OneOrManyView<V> {
    One(V),
    Many(Seq<V>),
}

impl<T> OneOrMany<T> {
    /// The values held, in order.
    pub open spec fn list_spec(self) -> Seq<T> {
        match self {
            OneOrMany::One(one) => seq![one],
            OneOrMany::Many(many) => many@,
        }
    }

    /// The values held, as a plain list: `[one]` for `One(one)`, the list itself
    /// for `Many`.
    pub fn into_list(self) -> (r: Vec<T>)
        ensures
            r@ == self.list_spec(),
    {
        match self {
            OneOrMany::One(one) => {
                let mut v: Vec<T> = Vec::new();
                v.push(one);
                proof {
                    assert(v@ =~= seq![one]);
                }
                v
            },
            OneOrMany::Many(many) => many,
        }
    }
}

impl<T: DeepView> DeepView for OneOrMany<T> {
    type V = OneOrManyView<T::V>;

    open spec fn deep_view(&self) -> OneOrManyView<T::V> {
        match self {
            OneOrMany::One(one) => OneOrManyView::One(one.deep_view()),
            OneOrMany::Many(many) => OneOrManyView::Many(many.deep_view()),
        }
    }
}

impl<T: WireFormat> WireFormat for OneOrMany<T> {
    /// A tree that reads as a `T` gives `One`; otherwise one that reads as a
    /// sequence of `T` gives `Many`; anything else is a shape mismatch.
    open spec fn decode_spec(s: Shape) -> Result<OneOrManyView<T::V>, DecodeError> {
        match T::decode_spec(s) {
            Ok(one) => Ok(OneOrManyView::One(one)),
            Err(_) => match Vec::<T>::decode_spec(s) {
                Ok(many) => Ok(OneOrManyView::Many(many)),
                Err(_) => Err(DecodeError::ShapeMismatch),
            },
        }
    }

    /// `One` is written as a sequence of one element; `Many` as its sequence.
    open spec fn encode_spec(v: OneOrManyView<T::V>) -> Shape {
        match v {
            OneOrManyView::One(one) => Shape::List(seq![T::encode_spec(one)]),
            OneOrManyView::Many(many) => Vec::<T>::encode_spec(many),
        }
    }

    fn decode(n: &Node) -> (r: Result<OneOrMany<T>, DecodeError>) {
        match T::decode(n) {
            Ok(one) => Ok(OneOrMany::One(one)),
            Err(_) => match Vec::<T>::decode(n) {
                Ok(many) => Ok(OneOrMany::Many(many)),
                Err(_) => Err(DecodeError::ShapeMismatch),
            },
        }
    }

    fn encode(&self) -> (r: Node) {
        match self {
            OneOrMany::One(one) => list(one),
            OneOrMany::Many(many) => many.encode(),
        }
    }
}

} // verus!

//! Adapters that change how values are written to and read from a serialized
//! form without changing what they mean: a value stored reversed
//! ([`reverse::Reverse`]), a field held as a scalar or a list
//! ([`one_or_many::OneOrMany`]), and one held as lists of lists nested to any
//! depth ([`flatten::Flatten`]). The serialized form is read as a tree of
//! [`wire::Node`]s whose shape is inspected before it is bound to a type.

use vstd::prelude::*;

pub mod wire;
pub mod reverse;
pub mod one_or_many;
pub mod flatten;

use crate::flatten::Flatten;
use crate::one_or_many::OneOrMany;
use crate::wire::{DecodeError, Shape, WireFormat};

verus! {

/// A tree that reads neither as the scalar type nor as a sequence is refused
/// by both adapters with a shape mismatch.
pub proof fn lemma_decode_shape_mismatch<T: WireFormat>(s: Shape)
    requires
        T::decode_spec(s) is Err,
        !(s is List),
    ensures
        OneOrMany::<T>::decode_spec(s) == Err::<<OneOrMany<T> as DeepView>::V, DecodeError>(
            DecodeError::ShapeMismatch,
        ),
        Flatten::<T>::decode_spec(s) == Err::<<Flatten<T> as DeepView>::V, DecodeError>(
            DecodeError::ShapeMismatch,
        ),
{
}

} // verus!

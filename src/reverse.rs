use vstd::prelude::*;

use vstd::std_specs::iter::IteratorSpec;

use crate::wire::{DecodeError, Node, Shape, WireFormat, decoded};

verus! {

/// Relies on `String::push`: the character is appended at the end and nothing
/// else changes.
pub assume_specification[ String::push ](s: &mut String, ch: char)
    ensures
        final(s)@ == old(s)@.push(ch),
;

/// A type that can produce a copy of itself with its content reversed.
pub trait Reversable: Sized + DeepView {
    /// The model of the reversed value, given the model of the value.
    spec fn reversed(v: Self::V) -> Self::V;

    fn reverse(&self) -> (r: Self)
        ensures
            r.deep_view() == Self::reversed(self.deep_view()),
    ;

    /// Reversing twice gives back the original.
    proof fn lemma_reversed_involution(v: Self::V)
        ensures
            Self::reversed(Self::reversed(v)) == v,
    ;
}

impl Reversable for String {
    /// A string reverses character by character.
    open spec fn reversed(v: Seq<char>) -> Seq<char> {
        v.reverse()
    }

    fn reverse(&self) -> (r: String) {
        let mut it = self.as_str().chars();
        let mut chars: Vec<char> = Vec::new();
        loop
            invariant
                chars@ + it.remaining() == self@,
                it.decrease() is Some,
            ensures
                chars@ == self@,
            decreases it.decrease()->0,
        {
            let ghost before = it.remaining();
            match it.next() {
                Some(c) => {
                    proof {
                        assert(chars@.push(c) + it.remaining() =~= chars@ + before);
                    }
                    chars.push(c);
                },
                None => {
                    proof {
                        assert(chars@ + before =~= chars@);
                    }
                    break ;
                },
            }
        }
        let mut r = String::new();
        let mut k: usize = chars.len();
        while k > 0
            invariant
                0 <= k <= chars.len(),
                r@.len() == chars.len() - k,
                forall|j: int| 0 <= j < r@.len() ==> #[trigger] r@[j] == chars@[chars.len() - 1 - j],
            decreases k,
        {
            k = k - 1;
            r.push(chars[k]);
        }
        assert(r@ =~= self@.reverse());
        r
    }

    proof fn lemma_reversed_involution(v: Seq<char>) {
        assert(v.reverse().reverse() =~= v);
    }
}

impl<T: Reversable> Reversable for Vec<T> {
    /// A sequence keeps its order and reverses each of its elements.
    open spec fn reversed(v: Seq<T::V>) -> Seq<T::V> {
        v.map_values(|x: T::V| T::reversed(x))
    }

    fn reverse(&self) -> (r: Vec<T>) {
        let mut r: Vec<T> = Vec::new();
        let mut i: usize = 0;
        while i < self.len()
            invariant
                0 <= i <= self.len(),
                r.len() == i,
                forall|j: int|
                    0 <= j < i ==> #[trigger] r[j].deep_view() == T::reversed(self[j].deep_view()),
            decreases self.len() - i,
        {
            let x = self[i].reverse();
            r.push(x);
            i = i + 1;
        }
        assert(r.deep_view() =~= self.deep_view().map_values(|x: T::V| T::reversed(x)));
        r
    }

    proof fn lemma_reversed_involution(v: Seq<T::V>) {
        let once = v.map_values(|x: T::V| T::reversed(x));
        let twice = once.map_values(|x: T::V| T::reversed(x));
        assert forall|i: int| 0 <= i < v.len() implies #[trigger] twice[i] == v[i] by {
            T::lemma_reversed_involution(v[i]);
        }
        assert(twice =~= v);
    }
}

/// Holds a value whose serialized form is stored reversed: it is reversed when
/// read and again when written, so that the value in memory is in its natural
/// orientation.
#[derive(Debug, PartialEq)]
pub struct Reverse<T: Reversable>(pub T);

impl<T: Reversable> DeepView for Reverse<T> {
    type V = T::V;

    open spec fn deep_view(&self) -> T::V {
        self.0.deep_view()
    }
}

impl<T: Reversable> Reversable for Reverse<T> {
    open spec fn reversed(v: T::V) -> T::V {
        T::reversed(v)
    }

    fn reverse(&self) -> (r: Reverse<T>) {
        Reverse(self.0.reverse())
    }

    proof fn lemma_reversed_involution(v: T::V) {
        T::lemma_reversed_involution(v);
    }
}

impl<T: Reversable + WireFormat> WireFormat for Reverse<T> {
    /// Reads the inner value as it is stored, then reverses it; an error of the
    /// inner value is passed on unchanged.
    open spec fn decode_spec(s: Shape) -> Result<T::V, DecodeError> {
        match T::decode_spec(s) {
            Ok(v) => Ok(T::reversed(v)),
            Err(e) => Err(e),
        }
    }

    /// Writes the reversed inner value.
    open spec fn encode_spec(v: T::V) -> Shape {
        T::encode_spec(T::reversed(v))
    }

    fn decode(n: &Node) -> (r: Result<Reverse<T>, DecodeError>) {
        match T::decode(n) {
            Ok(v) => Ok(Reverse(v.reverse())),
            Err(e) => Err(e),
        }
    }

    fn encode(&self) -> (r: Node) {
        self.0.reverse().encode()
    }
}

/// A value written through [`Reverse`] reads back as the same value, wherever
/// the inner type reads back what it writes.
pub proof fn lemma_reverse_round_trip<T: Reversable + WireFormat>(v: T::V)
    requires
        forall|w: T::V| #[trigger] T::decode_spec(T::encode_spec(w)) == Ok::<T::V, DecodeError>(w),
    ensures
        Reverse::<T>::decode_spec(Reverse::<T>::encode_spec(v)) == Ok::<T::V, DecodeError>(v),
{
    T::lemma_reversed_involution(v);
    assert(T::decode_spec(T::encode_spec(T::reversed(v))) == Ok::<T::V, DecodeError>(T::reversed(v)));
}

/// A stored value read through [`Reverse`] and written again is stored as it
/// was, in its reversed orientation, wherever the inner type writes back what
/// it reads.
pub proof fn lemma_reverse_stored_round_trip<T: Reversable + WireFormat>(s: Shape)
    requires
        T::decode_spec(s) is Ok,
        T::encode_spec(T::decode_spec(s)->Ok_0) == s,
    ensures
        Reverse::<T>::decode_spec(s) is Ok,
        Reverse::<T>::encode_spec(Reverse::<T>::decode_spec(s)->Ok_0) == s,
{
    T::lemma_reversed_involution(T::decode_spec(s)->Ok_0);
}

/// Reversing a string twice gives back the string.
pub proof fn lemma_string_reverse_involution(s: Seq<char>)
    ensures
        String::reversed(String::reversed(s)) == s,
        String::reversed(s).len() == s.len(),
{
    String::lemma_reversed_involution(s);
}

/// Reversing a sequence of reversible elements twice gives back the sequence;
/// one reversal keeps the length and reverses the element at each position in
/// place.
pub proof fn lemma_vec_reverse_involution<T: Reversable>(v: Seq<T::V>)
    ensures
        Vec::<T>::reversed(Vec::<T>::reversed(v)) == v,
        Vec::<T>::reversed(v).len() == v.len(),
        forall|i: int| 0 <= i < v.len() ==> #[trigger] Vec::<T>::reversed(v)[i] == T::reversed(v[i]),
{
    Vec::<T>::lemma_reversed_involution(v);
}

} // verus!

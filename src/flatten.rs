use vstd::prelude::*;

use crate::wire::{DecodeError, Node, Shape, WireFormat, lemma_shapes, list};

verus! {

/// A value held either alone or in lists of lists nested to any depth, such as
/// a field that the serialized form holds as a scalar in one record and as a
/// nested sequence in another.
#[derive(Debug, PartialEq)]
pub enum Flatten<T> {
    Single(T),
    Deep(Vec<Flatten<T>>),
}

impl<T> Flatten<T> {
    /// The leaves, depth first and left to right.
    pub open spec fn leaves(self) -> Seq<T>
        decreases self, 0int,
    {
        match self {
            Flatten::Single(s) => seq![s],
            Flatten::Deep(v) => Flatten::leaves_of(v, v.len() as int),
        }
    }

    /// The leaves of the first `n` children in `v`, in order.
    pub open spec fn leaves_of(v: Vec<Flatten<T>>, n: int) -> Seq<T>
        decreases v, n,
    {
        if n <= 0 || n > v.len() {
            Seq::empty()
        } else {
            Flatten::leaves_of(v, n - 1) + v[n - 1].leaves()
        }
    }

    /// The leaves as one flat list, depth first and left to right: `[s]` for
    /// `Single(s)`, and for `Deep` the leaves of each child in turn.
    pub fn flatten(self) -> (r: Vec<T>)
        ensures
            r@ == self.leaves(),
        decreases self,
    {
        match self {
            Flatten::Single(s) => {
                let mut r: Vec<T> = Vec::new();
                r.push(s);
                proof {
                    assert(r@ =~= seq![s]);
                }
                r
            },
            Flatten::Deep(v) => {
                let ghost all = v;
                let mut rest = v;
                let mut r: Vec<T> = Vec::new();
                let mut k: usize = 0;
                assert(rest@ =~= all@.skip(0));
                while rest.len() > 0
                    invariant
                        self == Flatten::Deep(all),
                        0 <= k <= all.len(),
                        rest@ == all@.skip(k as int),
                        r@ == Flatten::leaves_of(all, k as int),
                    decreases rest.len(),
                {
                    let child = rest.remove(0);
                    proof {
                        assert(child == all[k as int]);
                        assert(decreases_to!(all => all[k as int]));
                        assert(decreases_to!(self => self->Deep_0));
                        assert(decreases_to!(self => child));
                        assert(rest@ =~= all@.skip(k + 1));
                    }
                    let mut part = child.flatten();
                    r.append(&mut part);
                    k = k + 1;
                }
                r
            },
        }
    }
}

/// A lone leaf flattens to a list of that leaf alone.
pub proof fn lemma_flatten_single<T>(x: T)
    ensures
        Flatten::Single(x).leaves() == seq![x],
{
}

/// An empty nested list flattens to an empty list.
pub proof fn lemma_flatten_empty<T>(v: Vec<Flatten<T>>)
    requires
        v.len() == 0,
    ensures
        Flatten::Deep(v).leaves() == Seq::<T>::empty(),
{
}

/// The mathematical model of a [`Flatten`].
pub enum FlattenView<V> {
    Single(V),
    Deep(Seq<FlattenView<V>>),
}

impl<T: DeepView> Flatten<T> {
    pub open spec fn model(self) -> FlattenView<T::V>
        decreases self, 0int,
    {
        match self {
            Flatten::Single(s) => FlattenView::Single(s.deep_view()),
            Flatten::Deep(v) => FlattenView::Deep(Flatten::models(v, v.len() as int)),
        }
    }

    /// The models of the first `n` children in `v`.
    pub open spec fn models(v: Vec<Flatten<T>>, n: int) -> Seq<FlattenView<T::V>>
        decreases v, n,
    {
        if n <= 0 || n > v.len() {
            Seq::empty()
        } else {
            Flatten::models(v, n - 1).push(v[n - 1].model())
        }
    }

    pub proof fn lemma_models(v: Vec<Flatten<T>>, n: int)
        requires
            0 <= n <= v.len(),
        ensures
            Flatten::models(v, n).len() == n,
            forall|i: int| 0 <= i < n ==> #[trigger] Flatten::models(v, n)[i] == v[i].model(),
        decreases n,
    {
        if n > 0 {
            Flatten::lemma_models(v, n - 1);
        }
    }
}

impl<T: DeepView> DeepView for Flatten<T> {
    type V = FlattenView<T::V>;

    open spec fn deep_view(&self) -> FlattenView<T::V> {
        self.model()
    }
}

/// What a tree of shape `s` reads as: `Single` where it reads as a `T`;
/// otherwise, where it is a sequence whose elements all read in turn, `Deep`
/// of those; otherwise a shape mismatch.
pub open spec fn decode_tree<T: WireFormat>(s: Shape) -> Result<FlattenView<T::V>, DecodeError>
    decreases s, 0int,
{
    match T::decode_spec(s) {
        Ok(v) => Ok(FlattenView::Single(v)),
        Err(_) => match s {
            Shape::List(items) => match decode_trees::<T>(items, items.len() as int) {
                Some(children) => Ok(FlattenView::Deep(children)),
                None => Err(DecodeError::ShapeMismatch),
            },
            _ => Err(DecodeError::ShapeMismatch),
        },
    }
}

/// The first `n` shapes of `items` read in turn, or `None` where one does not
/// read.
pub open spec fn decode_trees<T: WireFormat>(items: Seq<Shape>, n: int) -> Option<
    Seq<FlattenView<T::V>>,
>
    decreases items, n,
{
    if n <= 0 || n > items.len() {
        Some(Seq::empty())
    } else {
        match decode_trees::<T>(items, n - 1) {
            None => None,
            Some(p) => match decode_tree::<T>(items[n - 1]) {
                Ok(c) => Some(p.push(c)),
                Err(_) => None,
            },
        }
    }
}

/// Once a prefix fails to read, every longer prefix fails too.
pub proof fn lemma_decode_trees_none<T: WireFormat>(items: Seq<Shape>, i: int, n: int)
    requires
        0 <= i <= n <= items.len(),
        decode_trees::<T>(items, i) is None,
    ensures
        decode_trees::<T>(items, n) is None,
    decreases n,
{
    if n > i {
        lemma_decode_trees_none::<T>(items, i, n - 1);
    }
}

/// The shape that a tree with model `f` is written as: a leaf as a sequence of
/// one element, a nested list as the sequence of its children.
pub open spec fn encode_tree<T: WireFormat>(f: FlattenView<T::V>) -> Shape
    decreases f, 0int,
{
    match f {
        FlattenView::Single(v) => Shape::List(seq![T::encode_spec(v)]),
        FlattenView::Deep(children) => Shape::List(encode_trees::<T>(children, children.len() as int)),
    }
}

/// The shapes of the first `n` trees of `fs`.
pub open spec fn encode_trees<T: WireFormat>(fs: Seq<FlattenView<T::V>>, n: int) -> Seq<Shape>
    decreases fs, n,
{
    if n <= 0 || n > fs.len() {
        Seq::empty()
    } else {
        encode_trees::<T>(fs, n - 1).push(encode_tree::<T>(fs[n - 1]))
    }
}

pub proof fn lemma_encode_trees<T: WireFormat>(fs: Seq<FlattenView<T::V>>, n: int)
    requires
        0 <= n <= fs.len(),
    ensures
        encode_trees::<T>(fs, n).len() == n,
        forall|i: int| 0 <= i < n ==> #[trigger] encode_trees::<T>(fs, n)[i] == encode_tree::<T>(fs[i]),
    decreases n,
{
    if n > 0 {
        lemma_encode_trees::<T>(fs, n - 1);
    }
}

impl<T: WireFormat> WireFormat for Flatten<T> {
    open spec fn decode_spec(s: Shape) -> Result<FlattenView<T::V>, DecodeError> {
        decode_tree::<T>(s)
    }

    open spec fn encode_spec(v: FlattenView<T::V>) -> Shape {
        encode_tree::<T>(v)
    }

    fn decode(n: &Node) -> (r: Result<Flatten<T>, DecodeError>)
        decreases n,
    {
        match T::decode(n) {
            Ok(one) => Ok(Flatten::Single(one)),
            Err(_) => match n {
                Node::List(v) => {
                    let ghost s = Node::shapes(*v, v.len() as int);
                    proof {
                        lemma_shapes(*v, v.len() as int);
                    }
                    let mut out: Vec<Flatten<T>> = Vec::new();
                    let mut i: usize = 0;
                    while i < v.len()
                        invariant
                            0 <= i <= v.len(),
                            out.len() == i,
                            *n == Node::List(*v),
                            T::decode_spec(n.shape()) is Err,
                            s == Node::shapes(*v, v.len() as int),
                            s.len() == v.len(),
                            forall|j: int| 0 <= j < v.len() ==> #[trigger] s[j] == v[j].shape(),
                            decode_trees::<T>(s, i as int) == Some(
                                Seq::new(i as nat, |j: int| out[j].model()),
                            ),
                        decreases v.len() - i,
                    {
                        proof {
                            assert(decreases_to!(*n => n->List_0));
                            assert(decreases_to!(*v => v[i as int]));
                        }
                        match Self::decode(&v[i]) {
                            Ok(c) => {
                                let ghost before = out;
                                out.push(c);
                                proof {
                                    assert(Seq::new((i + 1) as nat, |j: int| out[j].model()) =~= Seq::new(
                                        i as nat,
                                        |j: int| before[j].model(),
                                    ).push(out[i as int].model()));
                                }
                            },
                            Err(_) => {
                                proof {
                                    assert(decode_trees::<T>(s, i + 1) is None);
                                    lemma_decode_trees_none::<T>(s, i + 1, s.len() as int);
                                }
                                return Err(DecodeError::ShapeMismatch);
                            },
                        }
                        i = i + 1;
                    }
                    proof {
                        Flatten::lemma_models(out, out.len() as int);
                        assert(Flatten::models(out, out.len() as int) =~= Seq::new(
                            i as nat,
                            |j: int| out[j].model(),
                        ));
                    }
                    Ok(Flatten::Deep(out))
                },
                _ => Err(DecodeError::ShapeMismatch),
            },
        }
    }

    fn encode(&self) -> (r: Node)
        decreases self,
    {
        match self {
            Flatten::Single(one) => list(one),
            Flatten::Deep(children) => {
                let ghost fs = Flatten::models(*children, children.len() as int);
                proof {
                    Flatten::lemma_models(*children, children.len() as int);
                }
                let mut out: Vec<Node> = Vec::new();
                let mut i: usize = 0;
                while i < children.len()
                    invariant
                        0 <= i <= children.len(),
                        out.len() == i,
                        *self == Flatten::Deep(*children),
                        fs == Flatten::models(*children, children.len() as int),
                        fs.len() == children.len(),
                        forall|j: int| 0 <= j < children.len() ==> #[trigger] fs[j] == children[j].model(),
                        forall|j: int| 0 <= j < i ==> #[trigger] out[j].shape() == encode_tree::<T>(fs[j]),
                    decreases children.len() - i,
                {
                    proof {
                        assert(decreases_to!(*self => self->Deep_0));
                        assert(decreases_to!(*children => children[i as int]));
                    }
                    let c = children[i].encode();
                    out.push(c);
                    i = i + 1;
                }
                proof {
                    lemma_shapes(out, out.len() as int);
                    lemma_encode_trees::<T>(fs, fs.len() as int);
                    assert(Node::shapes(out, out.len() as int) =~= encode_trees::<T>(fs, fs.len() as int));
                }
                Node::List(out)
            },
        }
    }
}

} // verus!

use vstd::prelude::*;

verus! {

/// A value of the serialized form, read as a tree whose shape can be inspected
/// before it is bound to a type.
#[derive(Debug, PartialEq)]
pub enum Node {
    Null,
    Bool(bool),
    Int(i64),
    Text(String),
    List(Vec<Node>),
}

/// The mathematical model of a [`Node`].
pub enum Shape {
    Null,
    Bool(bool),
    Int(i64),
    Text(Seq<char>),
    List(Seq<Shape>),
}

/// Why a tree could not be read as a value of the requested type.
#[derive(Debug, Clone, Copy, PartialEq, Eq, Structural)]
pub enum DecodeError {
    /// The tree has the wrong kind for the requested scalar type.
    InvalidType,
    /// The tree matches neither the scalar form nor the sequence form of an
    /// adapter that accepts both.
    ShapeMismatch,
}

impl Node {
    pub open spec fn shape(self) -> Shape
        decreases self, 0int,
    {
        match self {
            Node::Null => Shape::Null,
            Node::Bool(b) => Shape::Bool(b),
            Node::Int(i) => Shape::Int(i),
            Node::Text(s) => Shape::Text(s@),
            Node::List(v) => Shape::List(Node::shapes(v, v.len() as int)),
        }
    }

    /// The shapes of the first `n` children in `v`.
    pub open spec fn shapes(v: Vec<Node>, n: int) -> Seq<Shape>
        decreases v, n,
    {
        if n <= 0 || n > v.len() {
            Seq::empty()
        } else {
            Node::shapes(v, n - 1).push(v[n - 1].shape())
        }
    }
}


/// What a result of decoding reads as, under the deep view of the decoded value.
pub open spec fn decoded<T: DeepView>(r: Result<T, DecodeError>) -> Result<T::V, DecodeError> {
    match r {
        Ok(v) => Ok(v.deep_view()),
        Err(e) => Err(e),
    }
}

/// A type with a representation in the serialized tree.
pub trait WireFormat: Sized + DeepView {
    /// The value that a tree of shape `s` reads as, or why it reads as none.
    spec fn decode_spec(s: Shape) -> Result<Self::V, DecodeError>;

    /// The shape that a value with model `v` is written as.
    spec fn encode_spec(v: Self::V) -> Shape;

    fn decode(n: &Node) -> (r: Result<Self, DecodeError>)
        ensures
            decoded(r) == Self::decode_spec(n.shape()),
    ;

    fn encode(&self) -> (r: Node)
        ensures
            r.shape() == Self::encode_spec(self.deep_view()),
    ;
}

impl WireFormat for i64 {
    open spec fn decode_spec(s: Shape) -> Result<i64, DecodeError> {
        match s {
            Shape::Int(i) => Ok(i),
            _ => Err(DecodeError::InvalidType),
        }
    }

    open spec fn encode_spec(v: i64) -> Shape {
        Shape::Int(v)
    }

    fn decode(n: &Node) -> (r: Result<i64, DecodeError>) {
        match n {
            Node::Int(i) => Ok(*i),
            _ => Err(DecodeError::InvalidType),
        }
    }

    fn encode(&self) -> (r: Node) {
        Node::Int(*self)
    }
}

impl WireFormat for String {
    open spec fn decode_spec(s: Shape) -> Result<Seq<char>, DecodeError> {
        match s {
            Shape::Text(t) => Ok(t),
            _ => Err(DecodeError::InvalidType),
        }
    }

    open spec fn encode_spec(v: Seq<char>) -> Shape {
        Shape::Text(v)
    }

    fn decode(n: &Node) -> (r: Result<String, DecodeError>) {
        match n {
            Node::Text(t) => Ok(t.clone()),
            _ => Err(DecodeError::InvalidType),
        }
    }

    fn encode(&self) -> (r: Node) {
        Node::Text(self.clone())
    }
}

/// Writes a lone value as a sequence that holds it alone, rather than as a bare
/// scalar.
pub fn list<T: WireFormat>(item: &T) -> (r: Node)
    ensures
        r.shape() == Shape::List(seq![T::encode_spec(item.deep_view())]),
{
    let mut items: Vec<Node> = Vec::new();
    items.push(item.encode());
    proof {
        lemma_shapes(items, 1);
        assert(Node::shapes(items, 1) =~= seq![T::encode_spec(item.deep_view())]);
    }
    Node::List(items)
}

/// Reads each shape of `s` in order as a `T`; the first failure, if any, is the
/// result.
pub open spec fn decode_each<T: WireFormat>(s: Seq<Shape>) -> Result<Seq<T::V>, DecodeError>
    decreases s.len(),
{
    if s.len() == 0 {
        Ok(Seq::empty())
    } else {
        match decode_each::<T>(s.drop_last()) {
            Err(e) => Err(e),
            Ok(p) => match T::decode_spec(s.last()) {
                Err(e) => Err(e),
                Ok(x) => Ok(p.push(x)),
            },
        }
    }
}

/// Once a prefix fails to read, the whole sequence fails with the same error.
pub proof fn lemma_decode_each_prefix_err<T: WireFormat>(s: Seq<Shape>, i: int)
    requires
        0 <= i <= s.len(),
        decode_each::<T>(s.take(i)) is Err,
    ensures
        decode_each::<T>(s) == decode_each::<T>(s.take(i)),
    decreases s.len(),
{
    if s.len() > i {
        assert(s.drop_last().take(i) =~= s.take(i));
        lemma_decode_each_prefix_err::<T>(s.drop_last(), i);
    } else {
        assert(s.take(i) =~= s);
    }
}

/// The shapes of the first `n` children are those of each child in turn.
pub proof fn lemma_shapes(v: Vec<Node>, n: int)
    requires
        0 <= n <= v.len(),
    ensures
        Node::shapes(v, n).len() == n,
        forall|i: int| 0 <= i < n ==> #[trigger] Node::shapes(v, n)[i] == v[i].shape(),
    decreases n,
{
    if n > 0 {
        lemma_shapes(v, n - 1);
    }
}

impl<T: WireFormat> WireFormat for Vec<T> {
    open spec fn decode_spec(s: Shape) -> Result<Seq<T::V>, DecodeError> {
        match s {
            Shape::List(items) => decode_each::<T>(items),
            _ => Err(DecodeError::InvalidType),
        }
    }

    open spec fn encode_spec(v: Seq<T::V>) -> Shape {
        Shape::List(v.map_values(|x: T::V| T::encode_spec(x)))
    }

    fn decode(n: &Node) -> (r: Result<Vec<T>, DecodeError>) {
        match n {
            Node::List(v) => {
                let ghost s = Node::shapes(*v, v.len() as int);
                proof {
                    lemma_shapes(*v, v.len() as int);
                    assert(s.take(0) =~= Seq::<Shape>::empty());
                }
                let mut out: Vec<T> = Vec::new();
                proof {
                    assert(out.deep_view() =~= Seq::<T::V>::empty());
                }
                let mut i: usize = 0;
                while i < v.len()
                    invariant
                        0 <= i <= v.len(),
                        out.len() == i,
                        s == Node::shapes(*v, v.len() as int),
                        n.shape() == Shape::List(s),
                        s.len() == v.len(),
                        forall|j: int| 0 <= j < v.len() ==> #[trigger] s[j] == v[j].shape(),
                        decode_each::<T>(s.take(i as int)) == Ok::<Seq<T::V>, DecodeError>(out.deep_view()),
                    decreases v.len() - i,
                {
                    let item = T::decode(&v[i]);
                    proof {
                        assert(s.take(i + 1).drop_last() =~= s.take(i as int));
                        assert(s.take(i + 1).last() == s[i as int]);
                    }
                    match item {
                        Ok(x) => {
                            let ghost before = out.deep_view();
                            out.push(x);
                            proof {
                                assert(out.deep_view() =~= before.push(out@[i as int].deep_view()));
                            }
                        },
                        Err(e) => {
                            proof {
                                assert(decode_each::<T>(s.take(i + 1)) == Err::<Seq<T::V>, DecodeError>(e));
                                lemma_decode_each_prefix_err::<T>(s, i + 1);
                                assert(s.take(s.len() as int) =~= s);
                            }
                            return Err(e);
                        },
                    }
                    i = i + 1;
                }
                proof {
                    assert(s.take(i as int) =~= s);
                }
                Ok(out)
            },
            _ => Err(DecodeError::InvalidType),
        }
    }

    fn encode(&self) -> (r: Node) {
        let mut out: Vec<Node> = Vec::new();
        let mut i: usize = 0;
        while i < self.len()
            invariant
                0 <= i <= self.len(),
                out.len() == i,
                forall|j: int| 0 <= j < i ==> #[trigger] out[j].shape() == T::encode_spec(self[j].deep_view()),
            decreases self.len() - i,
        {
            let n = self[i].encode();
            out.push(n);
            i = i + 1;
        }
        proof {
            lemma_shapes(out, out.len() as int);
            assert(Node::shapes(out, out.len() as int) =~= self.deep_view().map_values(|x: T::V| T::encode_spec(x)));
        }
        Node::List(out)
    }
}

} // verus!

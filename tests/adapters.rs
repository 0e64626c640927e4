use flake_info_utility::flatten::Flatten;
use flake_info_utility::one_or_many::OneOrMany;
use flake_info_utility::reverse::{Reversable, Reverse};
use flake_info_utility::wire::{list, DecodeError, Node, WireFormat};

fn ints(values: &[i64]) -> Node {
    Node::List(values.iter().map(|v| Node::Int(*v)).collect())
}

#[test]
fn string_reverse_is_an_involution() {
    let s = String::from("hello, wörld");
    let once = s.reverse();
    assert_eq!(once, "dlröw ,olleh");
    assert_eq!(once.reverse(), s);
    assert_eq!(String::new().reverse(), "");
}

#[test]
fn vec_reverse_reverses_elements_in_place() {
    let v = vec![String::from("ab"), String::from("cde"), String::new()];
    let once = v.reverse();
    assert_eq!(once, vec![String::from("ba"), String::from("edc"), String::new()]);
    assert_eq!(once.len(), v.len());
    assert_eq!(once.reverse(), v);
}

#[test]
fn nested_vec_reverse() {
    let v = vec![vec![String::from("xy")], vec![String::from("abc"), String::from("d")]];
    let once = v.reverse();
    assert_eq!(once, vec![vec![String::from("yx")], vec![String::from("cba"), String::from("d")]]);
}

#[test]
fn reverse_adapter_round_trip() {
    let decoded = Reverse::<String>::decode(&Node::Text(String::from("cba"))).unwrap();
    assert_eq!(decoded.0, "abc");
    let encoded = Reverse(String::from("abc")).encode();
    assert_eq!(encoded, Node::Text(String::from("cba")));
    assert_eq!(decoded.encode(), Node::Text(String::from("cba")));
}

#[test]
fn reverse_adapter_reverse_method() {
    let r = Reverse(String::from("abc")).reverse();
    assert_eq!(r.0, "cba");
}

#[test]
fn reverse_adapter_over_list() {
    let wire = Node::List(vec![Node::Text(String::from("oof")), Node::Text(String::from("rab"))]);
    let decoded = Reverse::<Vec<String>>::decode(&wire).unwrap();
    assert_eq!(decoded.0, vec![String::from("foo"), String::from("bar")]);
    assert_eq!(decoded.encode(), wire);
}

#[test]
fn reverse_adapter_passes_inner_error_on() {
    let r = Reverse::<String>::decode(&Node::Int(1));
    assert_eq!(r, Err(DecodeError::InvalidType));
}

#[test]
fn one_or_many_decodes_scalar_and_list() {
    let one = OneOrMany::<i64>::decode(&Node::Int(5)).unwrap();
    assert_eq!(one, OneOrMany::One(5));
    let many = OneOrMany::<i64>::decode(&ints(&[1, 2, 3])).unwrap();
    assert_eq!(many, OneOrMany::Many(vec![1, 2, 3]));
    assert_eq!(one.into_list(), vec![5]);
    assert_eq!(many.into_list(), vec![1, 2, 3]);
}

#[test]
fn one_or_many_decodes_empty_and_singleton_lists_as_many() {
    assert_eq!(OneOrMany::<i64>::decode(&ints(&[])), Ok(OneOrMany::Many(vec![])));
    assert_eq!(OneOrMany::<i64>::decode(&ints(&[7])), Ok(OneOrMany::Many(vec![7])));
}

#[test]
fn one_or_many_encodes_as_list() {
    assert_eq!(OneOrMany::One(5i64).encode(), ints(&[5]));
    assert_eq!(OneOrMany::<i64>::Many(vec![]).encode(), ints(&[]));
    assert_eq!(OneOrMany::Many(vec![4i64, 2]).encode(), ints(&[4, 2]));
}

#[test]
fn list_writes_a_singleton_sequence() {
    assert_eq!(list(&5i64), ints(&[5]));
    assert_eq!(list(&String::from("a")), Node::List(vec![Node::Text(String::from("a"))]));
}

#[test]
fn flatten_decodes_nested_lists_in_order() {
    let wire = Node::List(vec![
        ints(&[1, 2]),
        Node::List(vec![Node::Int(3), ints(&[4, 5])]),
        Node::Int(6),
    ]);
    let decoded = Flatten::<i64>::decode(&wire).unwrap();
    assert_eq!(decoded.flatten(), vec![1, 2, 3, 4, 5, 6]);
}

#[test]
fn flatten_single_and_empty() {
    assert_eq!(Flatten::Single(9i64).flatten(), vec![9]);
    assert_eq!(Flatten::<i64>::Deep(vec![]).flatten(), Vec::<i64>::new());
    let nested_empty = Flatten::<i64>::Deep(vec![Flatten::Deep(vec![]), Flatten::Single(1)]);
    assert_eq!(nested_empty.flatten(), vec![1]);
}

#[test]
fn flatten_encodes_leaves_as_singleton_lists() {
    let f = Flatten::Deep(vec![Flatten::Single(1i64), Flatten::Deep(vec![Flatten::Single(2)])]);
    assert_eq!(f.encode(), Node::List(vec![ints(&[1]), Node::List(vec![ints(&[2])])]));
    assert_eq!(Flatten::Single(3i64).encode(), ints(&[3]));
}

#[test]
fn decoding_other_shapes_is_a_shape_mismatch() {
    let text = Node::Text(String::from("x"));
    assert_eq!(OneOrMany::<i64>::decode(&text), Err(DecodeError::ShapeMismatch));
    assert_eq!(Flatten::<i64>::decode(&text), Err(DecodeError::ShapeMismatch));
    assert_eq!(OneOrMany::<i64>::decode(&Node::Null), Err(DecodeError::ShapeMismatch));
    assert_eq!(Flatten::<i64>::decode(&Node::Bool(true)), Err(DecodeError::ShapeMismatch));
    let mixed = Node::List(vec![Node::Int(1), text]);
    assert_eq!(OneOrMany::<i64>::decode(&mixed), Err(DecodeError::ShapeMismatch));
    let deep_mixed = Node::List(vec![Node::List(vec![Node::Null])]);
    assert_eq!(Flatten::<i64>::decode(&deep_mixed), Err(DecodeError::ShapeMismatch));
}

#[test]
fn scalar_and_list_decoding_errors() {
    assert_eq!(i64::decode(&Node::Text(String::from("1"))), Err(DecodeError::InvalidType));
    assert_eq!(String::decode(&Node::Int(1)), Err(DecodeError::InvalidType));
    let mixed = Node::List(vec![Node::Int(1), Node::Null]);
    assert_eq!(Vec::<i64>::decode(&mixed), Err(DecodeError::InvalidType));
    assert_eq!(Vec::<i64>::decode(&Node::Int(1)), Err(DecodeError::InvalidType));
    assert_eq!(Vec::<i64>::decode(&ints(&[3, 4])), Ok(vec![3, 4]));
}

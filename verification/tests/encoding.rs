use yaml_value::document::Node;
use yaml_value::encode::value_to_yaml;
use yaml_value::number::Number;
use yaml_value::value::{List, Value};

fn text(s: &str) -> Value {
    Value::String(s.to_string())
}

fn node_text(s: &str) -> Node {
    Node::String(s.to_string())
}

fn num(s: &str) -> Value {
    Value::Number(Number::from_text(s))
}

fn real_node(s: &str) -> Node {
    Node::Real(s.to_string())
}

fn positional(values: Vec<Value>) -> List {
    let mut list = List::new();
    for value in values {
        list.append(value);
    }
    list
}

#[test]
fn number_encodes_as_a_real_with_its_text() {
    assert_eq!(value_to_yaml(&num("2.5")), real_node("2.5"));
    assert_eq!(value_to_yaml(&num("5")), real_node("5"));
}

#[test]
fn string_encodes_as_a_string() {
    assert_eq!(value_to_yaml(&text("abc")), node_text("abc"));
}

#[test]
fn boolean_encodes_as_null() {
    assert_eq!(value_to_yaml(&Value::Boolean(true)), Node::Null);
    assert_eq!(value_to_yaml(&Value::Boolean(false)), Node::Null);
}

#[test]
fn null_encodes_as_null() {
    assert_eq!(value_to_yaml(&Value::Null), Node::Null);
}

#[test]
fn empty_container_encodes_as_an_empty_sequence() {
    assert_eq!(value_to_yaml(&Value::List(List::new())), Node::Sequence(vec![]));
}

#[test]
fn container_without_slots_encodes_as_an_empty_sequence_whatever_is_registered() {
    let mut list = List::new();
    list.set(text("k"), text("v"));
    assert_eq!(value_to_yaml(&Value::List(list)), Node::Sequence(vec![]));
}

#[test]
fn positional_container_encodes_as_a_sequence() {
    let list = positional(vec![text("a"), num("2"), Value::Null, Value::Boolean(true)]);
    assert_eq!(
        value_to_yaml(&Value::List(list)),
        Node::Sequence(vec![node_text("a"), real_node("2"), Node::Null, Node::Null])
    );
}

#[test]
fn lookup_at_the_last_position_alone_makes_the_whole_container_a_mapping() {
    let mut list = positional(vec![text("one"), text("two"), text("three")]);
    list.set(text("three"), num("3"));
    assert_eq!(
        value_to_yaml(&Value::List(list)),
        Node::Mapping(vec![
            (node_text("one"), Node::Null),
            (node_text("two"), Node::Null),
            (node_text("three"), real_node("3")),
        ])
    );
}

#[test]
fn lookup_at_the_first_position_alone_makes_the_whole_container_a_mapping() {
    let mut list = positional(vec![text("one"), text("two")]);
    list.set(text("one"), Value::Boolean(true));
    assert_eq!(
        value_to_yaml(&Value::List(list)),
        Node::Mapping(vec![(node_text("one"), Node::Null), (node_text("two"), Node::Null)])
    );
}

#[test]
fn registration_under_a_key_that_is_in_no_slot_leaves_a_sequence() {
    let mut list = positional(vec![text("a"), text("b")]);
    list.set(text("c"), num("1"));
    assert_eq!(
        value_to_yaml(&Value::List(list)),
        Node::Sequence(vec![node_text("a"), node_text("b")])
    );
}

#[test]
fn every_slot_with_a_registration_encodes_as_its_pair() {
    let mut list = List::new();
    list.append(text("x"));
    list.set(text("x"), num("1"));
    list.append(text("y"));
    list.set(text("y"), text("why"));
    assert_eq!(
        value_to_yaml(&Value::List(list)),
        Node::Mapping(vec![(node_text("x"), real_node("1")), (node_text("y"), node_text("why"))])
    );
}

#[test]
fn later_registration_under_the_same_key_is_the_one_encoded() {
    let mut list = positional(vec![text("k")]);
    list.set(text("k"), num("1"));
    list.set(text("k"), num("2"));
    assert_eq!(
        value_to_yaml(&Value::List(list)),
        Node::Mapping(vec![(node_text("k"), real_node("2"))])
    );
}

#[test]
fn slots_with_the_same_value_share_what_is_registered() {
    let mut list = positional(vec![text("k"), text("other"), text("k")]);
    list.set(text("k"), text("v"));
    assert_eq!(
        value_to_yaml(&Value::List(list)),
        Node::Mapping(vec![
            (node_text("k"), node_text("v")),
            (node_text("other"), Node::Null),
            (node_text("k"), node_text("v")),
        ])
    );
}

#[test]
fn nested_containers_are_classified_one_by_one() {
    let mut inner_map = positional(vec![text("k")]);
    inner_map.set(text("k"), Value::Null);
    let inner_seq = positional(vec![num("1")]);
    let outer = positional(vec![Value::List(inner_map), Value::List(inner_seq)]);
    assert_eq!(
        value_to_yaml(&Value::List(outer)),
        Node::Sequence(vec![
            Node::Mapping(vec![(node_text("k"), Node::Null)]),
            Node::Sequence(vec![real_node("1")]),
        ])
    );
}

#[test]
fn container_can_be_a_key_and_a_registered_value() {
    let key = Value::List(positional(vec![num("1"), num("2")]));
    let mut list = List::new();
    list.append(key.clone());
    list.set(key, Value::List(positional(vec![text("deep")])));
    assert_eq!(
        value_to_yaml(&Value::List(list)),
        Node::Mapping(vec![(
            Node::Sequence(vec![real_node("1"), real_node("2")]),
            Node::Sequence(vec![node_text("deep")]),
        )])
    );
}

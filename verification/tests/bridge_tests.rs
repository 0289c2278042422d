//! The tree bridge on concrete graphs: round trips, order, keys, datetime
//! normalization, and the unrecognized-variant failure.

use toml4reds::bridge::construct;
use toml4reds::bridge::deconstruct;
use toml4reds::BridgeError;
use toml4reds::Node;
use toml4reds::NodeKind;
use toml4reds::ValueTree;

fn sample_tree() -> ValueTree {
    ValueTree::Table(vec![
        ("title".to_string(), ValueTree::Text("night city".to_string())),
        ("count".to_string(), ValueTree::Integer(3)),
        ("ratio".to_string(), ValueTree::FloatBits((1.5f64).to_bits())),
        ("on".to_string(), ValueTree::Boolean(true)),
        (
            "list".to_string(),
            ValueTree::Array(vec![
                ValueTree::Integer(1),
                ValueTree::Text("two".to_string()),
                ValueTree::Array(vec![ValueTree::Boolean(false)]),
            ]),
        ),
        (
            "sub".to_string(),
            ValueTree::Table(vec![("x".to_string(), ValueTree::Integer(1))]),
        ),
    ])
}

#[test]
fn round_trip_mixed_tree() {
    let tree = sample_tree();
    let node = construct(&tree);
    let back = deconstruct(&node).expect("recognized graph");
    assert_eq!(back, tree);
}

#[test]
fn round_trip_scalars() {
    for tree in [
        ValueTree::Text("a".to_string()),
        ValueTree::Integer(-7),
        ValueTree::FloatBits((0.25f64).to_bits()),
        ValueTree::Boolean(false),
        ValueTree::Array(vec![]),
        ValueTree::Table(vec![]),
    ] {
        let back = deconstruct(&construct(&tree)).expect("recognized graph");
        assert_eq!(back, tree);
    }
}

#[test]
fn datetime_normalizes_to_string() {
    let text = "1979-05-27T07:32:00Z".to_string();
    let node = construct(&ValueTree::Datetime(text.clone()));
    assert_eq!(node.kind(), NodeKind::Str);
    assert_eq!(node.get_string(), &text);
    let back = deconstruct(&node).expect("a string node is recognized");
    assert_eq!(back, ValueTree::Text(text));
}

#[test]
fn array_order_preserved() {
    let tree = ValueTree::Array(vec![
        ValueTree::Integer(1),
        ValueTree::Integer(2),
        ValueTree::Integer(3),
    ]);
    let node = construct(&tree);
    assert_eq!(node.kind(), NodeKind::Array);
    let items = node.get_items();
    assert_eq!(items.len(), 3);
    assert_eq!(items[0], Node::IntValue(1));
    assert_eq!(items[1], Node::IntValue(2));
    assert_eq!(items[2], Node::IntValue(3));
    let back = deconstruct(&node).expect("recognized graph");
    assert_eq!(back, tree);
}

#[test]
fn table_keys_and_entries() {
    let tree = ValueTree::Table(vec![
        ("x".to_string(), ValueTree::Integer(1)),
        ("y".to_string(), ValueTree::Integer(2)),
    ]);
    let node = construct(&tree);
    assert_eq!(node.kind(), NodeKind::Table);
    let mut keys = node.get_keys();
    keys.sort();
    assert_eq!(keys, vec!["x".to_string(), "y".to_string()]);
    assert_eq!(
        node.get_entry(&"x".to_string()),
        Some(&Node::IntValue(1))
    );
    assert_eq!(
        node.get_entry(&"y".to_string()),
        Some(&Node::IntValue(2))
    );
    assert_eq!(node.get_entry(&"z".to_string()), None);
}

#[test]
fn mutated_graph_deconstructs_faithfully() {
    let mut node = construct(&ValueTree::Table(vec![(
        "x".to_string(),
        ValueTree::Integer(1),
    )]));
    node.add_entry("y".to_string(), Node::BoolValue(true));
    let back = deconstruct(&node).expect("recognized graph");
    assert_eq!(
        back,
        ValueTree::Table(vec![
            ("x".to_string(), ValueTree::Integer(1)),
            ("y".to_string(), ValueTree::Boolean(true)),
        ])
    );
}

#[test]
fn duplicate_table_keys_last_wins() {
    let node = Node::TableValue(vec![
        ("k".to_string(), Node::IntValue(1)),
        ("other".to_string(), Node::BoolValue(true)),
        ("k".to_string(), Node::IntValue(9)),
    ]);
    assert_eq!(node.get_entry(&"k".to_string()), Some(&Node::IntValue(9)));
    let back = deconstruct(&node).expect("recognized graph");
    assert_eq!(
        back,
        ValueTree::Table(vec![
            ("k".to_string(), ValueTree::Integer(9)),
            ("other".to_string(), ValueTree::Boolean(true)),
        ])
    );
}

#[test]
fn unknown_variant_fails_fast() {
    let node = Node::Foreign("Toml.WeirdValue".to_string());
    match deconstruct(&node) {
        Err(BridgeError::UnrecognizedVariant(name)) => {
            assert_eq!(name, "Toml.WeirdValue".to_string());
        }
        Ok(_) => panic!("an unrecognized variant must not deconstruct"),
    }
}

#[test]
fn unknown_variant_nested_fails_fast() {
    let node = Node::ArrayValue(vec![
        Node::IntValue(1),
        Node::Foreign("Toml.WeirdValue".to_string()),
    ]);
    let err = deconstruct(&node).expect_err("a nested unrecognized variant fails the walk");
    assert_eq!(err.reported_name(), &"Toml.WeirdValue".to_string());
}

#[test]
fn array_push_appends() {
    let mut node = Node::ArrayValue(vec![Node::IntValue(1)]);
    node.push(Node::IntValue(2));
    assert_eq!(node.get_items().len(), 2);
    assert_eq!(node.get_items()[1], Node::IntValue(2));
}

#[test]
fn scalar_accessors_return_payloads() {
    assert_eq!(construct(&ValueTree::Integer(5)).get_int(), 5);
    assert_eq!(construct(&ValueTree::Boolean(true)).get_bool(), true);
    let bits = (2.5f64).to_bits();
    assert_eq!(construct(&ValueTree::FloatBits(bits)).get_float_bits(), bits);
    assert_eq!(
        construct(&ValueTree::Text("v".to_string())).get_string(),
        &"v".to_string()
    );
}

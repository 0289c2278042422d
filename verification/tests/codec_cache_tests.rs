//! The codec boundary and the write-back cache on concrete documents: parse
//! and pretty-print against the codec itself, overwrite semantics, and the
//! load and save entry points.

use toml4reds::cache::ConfigCache;
use toml4reds::codec::parse_value;
use toml4reds::codec::serialize_value;
use toml4reds::config::config_from_text;
use toml4reds::config::save_config;
use toml4reds::Node;
use toml4reds::NodeKind;
use toml4reds::ValueTree;

#[test]
fn parse_simple_document() {
    let tree = parse_value("a = 1").expect("a well-formed document parses");
    assert_eq!(
        tree,
        ValueTree::Table(vec![("a".to_string(), ValueTree::Integer(1))])
    );
}

#[test]
fn parse_all_variants() {
    let text = "s = \"v\"\ni = 3\nf = 1.5\nb = true\narr = [1, 2]\n[tbl]\nx = 7\n";
    let tree = parse_value(text).expect("a well-formed document parses");
    // the codec hands the table's entries over in its canonical key order
    assert_eq!(
        tree,
        ValueTree::Table(vec![
            (
                "arr".to_string(),
                ValueTree::Array(vec![ValueTree::Integer(1), ValueTree::Integer(2)])
            ),
            ("b".to_string(), ValueTree::Boolean(true)),
            ("f".to_string(), ValueTree::FloatBits((1.5f64).to_bits())),
            ("i".to_string(), ValueTree::Integer(3)),
            ("s".to_string(), ValueTree::Text("v".to_string())),
            (
                "tbl".to_string(),
                ValueTree::Table(vec![("x".to_string(), ValueTree::Integer(7))])
            ),
        ])
    );
}

#[test]
fn parse_datetime_as_text() {
    let tree = parse_value("d = 1979-05-27").expect("a well-formed document parses");
    assert_eq!(
        tree,
        ValueTree::Table(vec![(
            "d".to_string(),
            ValueTree::Datetime("1979-05-27".to_string())
        )])
    );
}

#[test]
fn parse_rejects_ill_formed_text() {
    assert_eq!(parse_value("not = = valid"), None);
    assert_eq!(parse_value("[unclosed"), None);
}

#[test]
fn serialize_matches_the_codec() {
    let tree = ValueTree::Table(vec![
        ("a".to_string(), ValueTree::Text("b".to_string())),
        ("n".to_string(), ValueTree::Integer(2)),
    ]);
    let text = serialize_value(&tree).expect("a table serializes");
    let mut expected = toml::map::Map::new();
    expected.insert("a".to_string(), toml::Value::String("b".to_string()));
    expected.insert("n".to_string(), toml::Value::Integer(2));
    assert_eq!(
        text,
        toml::to_string_pretty(&toml::Value::Table(expected)).unwrap()
    );
}

#[test]
fn serialize_then_parse_round_trips() {
    // keys in the codec's canonical order: the table's order carries no
    // meaning and the codec may reorder it
    let tree = ValueTree::Table(vec![
        (
            "arr".to_string(),
            ValueTree::Array(vec![
                ValueTree::Text("x".to_string()),
                ValueTree::Boolean(false),
            ]),
        ),
        ("f".to_string(), ValueTree::FloatBits((0.1f64).to_bits())),
    ]);
    let text = serialize_value(&tree).expect("a table serializes");
    assert_eq!(parse_value(&text), Some(tree), "text was: {:?}", text);
}

#[test]
fn serialize_rejects_non_table_root() {
    assert_eq!(serialize_value(&ValueTree::Integer(5)), None);
}

#[test]
fn cache_overwrite_semantics() {
    let second = || ValueTree::Table(vec![("x".to_string(), ValueTree::Integer(2))]);
    let mut cache = ConfigCache::new();
    cache.record(
        "cfg".to_string(),
        ValueTree::Table(vec![("x".to_string(), ValueTree::Integer(1))]),
    );
    cache.record("cfg".to_string(), second());
    assert_eq!(cache.len(), 1);
    let out = cache.flush_all();
    assert_eq!(out.len(), 1);
    assert_eq!(out[0].0, "cfg".to_string());
    let text = out[0].1.clone().expect("a table serializes");
    assert_eq!(serialize_value(&second()), Some(text));
}

#[test]
fn cache_flush_keeps_entries_and_names_apart() {
    let mut cache = ConfigCache::new();
    cache.record(
        "one".to_string(),
        ValueTree::Table(vec![("a".to_string(), ValueTree::Integer(1))]),
    );
    cache.record(
        "two".to_string(),
        ValueTree::Table(vec![("b".to_string(), ValueTree::Integer(2))]),
    );
    assert_eq!(cache.len(), 2);
    let out = cache.flush_all();
    assert_eq!(out.len(), 2);
    assert_eq!(out[0].0, "one".to_string());
    assert_eq!(out[1].0, "two".to_string());
    // entries are not evicted: an identical re-flush is harmless
    assert_eq!(cache.flush_all(), out);
}

#[test]
fn cache_reports_unserializable_entry_without_touching_others() {
    let mut cache = ConfigCache::new();
    cache.record("bad".to_string(), ValueTree::Integer(5));
    cache.record(
        "good".to_string(),
        ValueTree::Table(vec![("a".to_string(), ValueTree::Integer(1))]),
    );
    let out = cache.flush_all();
    assert_eq!(out.len(), 2);
    assert_eq!(out[0], ("bad".to_string(), None));
    assert!(out[1].1.is_some());
}

#[test]
fn load_entry_point_constructs_graph() {
    let node = config_from_text("x = 1\ns = \"v\"").expect("a well-formed document loads");
    assert_eq!(node.kind(), NodeKind::Table);
    assert_eq!(node.get_entry(&"x".to_string()), Some(&Node::IntValue(1)));
    assert_eq!(
        node.get_entry(&"s".to_string()),
        Some(&Node::StringValue("v".to_string()))
    );
}

#[test]
fn load_entry_point_absorbs_ill_formed_text() {
    assert_eq!(config_from_text("= nonsense ="), None);
}

#[test]
fn save_entry_point_records_deconstruction() {
    let node = Node::TableValue(vec![("x".to_string(), Node::IntValue(4))]);
    let mut cache = ConfigCache::new();
    save_config(&mut cache, "cfg".to_string(), &node).expect("a recognized graph saves");
    let out = cache.flush_all();
    assert_eq!(out.len(), 1);
    let text = out[0].1.clone().expect("a table serializes");
    assert_eq!(parse_value(&text).unwrap(),
        ValueTree::Table(vec![("x".to_string(), ValueTree::Integer(4))]));
}

#[test]
fn save_entry_point_rejects_foreign_node_and_records_nothing() {
    let node = Node::TableValue(vec![(
        "x".to_string(),
        Node::Foreign("Toml.WeirdValue".to_string()),
    )]);
    let mut cache = ConfigCache::new();
    let err = save_config(&mut cache, "cfg".to_string(), &node)
        .expect_err("an unrecognized variant must not save");
    assert_eq!(err.reported_name(), &"Toml.WeirdValue".to_string());
    assert_eq!(cache.len(), 0);
}


use forgejo_actions_orchestrator::config::{PerProvider, Provider};
use forgejo_actions_orchestrator::json::{Fields, Json};
use forgejo_actions_orchestrator::table::Table;
use forgejo_actions_orchestrator::text;

#[test]
fn a_table_keeps_its_keys_in_order() {
    let mut table = Table::new();
    for (key, value) in [("b", 1), ("a", 2), ("ab", 3), ("b", 4)] {
        table.insert(key.to_string(), value);
    }
    assert_eq!(table.len(), 3);
    let keys: Vec<&str> = (0..3).map(|at| table.key_at(at)).collect();
    assert_eq!(keys, vec!["a", "ab", "b"]);
    assert_eq!(*table.value_at(2), 4);
    assert_eq!(table.remove("ab"), Some(3));
    assert_eq!(table.remove("ab"), None);
    assert_eq!(table.get("a"), Some(&2));
    table.retain(&["b".to_string(), "z".to_string()]);
    assert!(!table.contains_key("a"));
    assert!(table.contains_key("b"));
}

#[test]
fn a_value_per_provider_is_found_again() {
    let mut values = PerProvider::new();
    assert!(values.is_empty());
    for at in 0..5 {
        values.insert(Provider::in_place(at), at);
    }
    for at in 0..5 {
        assert_eq!(values.get(Provider::in_place(at)), Some(&at));
    }
    let names: Vec<&str> = values.kinds().iter().map(|kind| kind.as_str()).collect();
    assert_eq!(names, vec!["cherry", "gcore", "hetzner", "scaleway", "vultr"]);
}

#[test]
fn texts_sort_like_strings() {
    for (a, b) in [("a", "b"), ("", "a"), ("a", "ab"), ("B", "a"), ("a", "ä")] {
        assert!(text::sorts_before(a, b), "{a} {b}");
        assert!(!text::sorts_before(b, a), "{b} {a}");
        assert!(a < b);
    }
    assert!(!text::sorts_before("a", "a"));
}

#[test]
fn numbers_are_written_and_read() {
    for n in [0, 7, 10, 4096, u64::MAX] {
        assert_eq!(text::decimal(n), n.to_string());
    }
    for n in [0, -1, 42, i64::MIN, i64::MAX] {
        assert_eq!(text::signed_decimal(n), n.to_string());
        assert_eq!(text::parse_integer(&n.to_string()), Some(n));
    }
    for wrong in ["", "-", "+", "1a", " 1", "9223372036854775808", "-9223372036854775809"] {
        assert_eq!(text::parse_integer(wrong), None, "{wrong}");
        assert!(wrong.parse::<i64>().is_err());
    }
    assert_eq!(text::parse_integer("+5"), Some(5));
    assert_eq!(text::parse_integer("007"), Some(7));
}

#[test]
fn texts_are_taken_apart_and_joined() {
    assert_eq!(text::split_once("a/b/c", '/'), Some(("a", "b/c")));
    assert_eq!(text::split_once("abc", '/'), None);
    assert_eq!(text::strip_prefix("äbc", "ä"), Some("bc"));
    assert_eq!(text::strip_prefix("abc", "b"), None);
    assert_eq!(text::trim_end("a//", '/'), "a");
    assert_eq!(text::clip("äöü", 2), "äö");
    assert_eq!(text::join(&["a".to_string(), "b".to_string()], ", "), "a, b");
    assert!(text::ends_with("name-h", "-h"));
    assert!(!text::ends_with("h", "-h"));
}

#[test]
fn an_object_keeps_the_order_of_its_fields() {
    let body = Fields::new()
        .with("b", Json::unsigned(1))
        .with("a", Json::single(Json::text("x")))
        .object();
    assert_eq!(
        format!("{body:?}"),
        "Object([(\"b\", Unsigned(1)), (\"a\", List([Text(\"x\")]))])"
    );
}

use ez_web3_rpc::json::{sort_value, stable_string};
use ez_web3_rpc::{JsonMember, JsonValue};

fn s(text: &str) -> JsonValue {
    JsonValue::String(text.to_string())
}

fn n(text: &str) -> JsonValue {
    JsonValue::Number(text.to_string())
}

fn obj(members: Vec<(&str, JsonValue)>) -> JsonValue {
    JsonValue::Object(
        members.into_iter().map(|(k, v)| JsonMember { key: k.to_string(), value: v }).collect(),
    )
}

#[test]
fn a_plain_string_is_its_own_key() {
    assert_eq!(stable_string(&s("0x10")), "0x10");
    assert_eq!(stable_string(&s("")), "");
    assert_eq!(stable_string(&s("with \"quotes\"")), "with \"quotes\"");
}

#[test]
fn scalars_are_written_as_json() {
    assert_eq!(stable_string(&JsonValue::Null), "null");
    assert_eq!(stable_string(&JsonValue::Bool(true)), "true");
    assert_eq!(stable_string(&JsonValue::Bool(false)), "false");
    assert_eq!(stable_string(&n("-12.5e3")), "-12.5e3");
}

#[test]
fn strings_inside_a_value_are_quoted_and_escaped() {
    let value = JsonValue::Array(vec![s("a\"b"), s("line\nbreak"), s("tab\there"), s("\u{1}")]);
    assert_eq!(stable_string(&value), r#"["a\"b","line\nbreak","tab\there","\u0001"]"#);
    assert_eq!(stable_string(&JsonValue::Array(vec![s("plain")])), r#"["plain"]"#);
}

#[test]
fn object_members_are_sorted_by_key_at_every_depth() {
    let value = obj(vec![
        ("b", n("1")),
        ("a", JsonValue::Array(vec![obj(vec![("z", JsonValue::Null), ("y", s("x"))]), n("2")])),
        ("B", JsonValue::Bool(false)),
        ("", obj(vec![])),
    ]);
    assert_eq!(
        stable_string(&value),
        r#"{"":{},"B":false,"a":[{"y":"x","z":null},2],"b":1}"#
    );
}

#[test]
fn arrays_keep_their_order() {
    let value = JsonValue::Array(vec![n("3"), n("1"), n("2")]);
    assert_eq!(stable_string(&value), "[3,1,2]");
    assert_eq!(stable_string(&JsonValue::Array(vec![])), "[]");
}

#[test]
fn member_order_does_not_change_the_key() {
    let one = obj(vec![("number", s("0x1")), ("hash", s("0xabc")), ("miner", JsonValue::Null)]);
    let two = obj(vec![("miner", JsonValue::Null), ("hash", s("0xabc")), ("number", s("0x1"))]);
    assert_eq!(stable_string(&one), stable_string(&two));
    let other = obj(vec![("miner", JsonValue::Null), ("hash", s("0xabd")), ("number", s("0x1"))]);
    assert_ne!(stable_string(&one), stable_string(&other));
}

#[test]
fn the_key_is_what_serde_json_writes() {
    let text = r#"{"b":1,"a":[true,null,{"k":"v\\w","j":-2.5}],"s":"q\"uo\nte é","":[]}"#;
    let theirs: serde_json::Value = serde_json::from_str(text).unwrap();
    let ours = obj(vec![
        ("b", n("1")),
        (
            "a",
            JsonValue::Array(vec![
                JsonValue::Bool(true),
                JsonValue::Null,
                obj(vec![("k", s("v\\w")), ("j", n("-2.5"))]),
            ]),
        ),
        ("s", s("q\"uo\nte é")),
        ("", JsonValue::Array(vec![])),
    ]);
    assert_eq!(stable_string(&ours), serde_json::to_string(&theirs).unwrap());
}

#[test]
fn keys_sort_by_bytes() {
    let value = obj(vec![("é", n("1")), ("z", n("2")), ("a", n("3")), ("ab", n("4")), ("Z", n("5"))]);
    assert_eq!(stable_string(&value), r#"{"Z":5,"a":3,"ab":4,"z":2,"é":1}"#);
}

#[test]
fn sort_value_leaves_the_input_alone_and_sorts_the_copy() {
    let value = obj(vec![("b", n("1")), ("a", n("2"))]);
    let sorted = sort_value(&value);
    assert_eq!(sorted, obj(vec![("a", n("2")), ("b", n("1"))]));
    assert_eq!(value, obj(vec![("b", n("1")), ("a", n("2"))]));
    assert_eq!(sort_value(&sorted), sorted);
}

#[test]
fn get_and_as_str() {
    let value = obj(vec![("result", obj(vec![("number", s("0x10"))])), ("id", n("1"))]);
    let number = value.get("result").and_then(|r| r.get("number")).and_then(|x| x.as_str());
    assert_eq!(number, Some("0x10"));
    assert!(value.get("missing").is_none());
    assert!(value.get("id").unwrap().as_str().is_none());
    assert!(s("text").get("result").is_none());
    assert!(JsonValue::Array(vec![]).get("0").is_none());
    let twice = obj(vec![("k", n("1")), ("k", n("2"))]);
    assert_eq!(twice.get("k"), Some(&n("1")));
}

#[test]
fn to_text_and_clone() {
    let value = obj(vec![("b", JsonValue::Array(vec![n("1"), s("x")])), ("a", JsonValue::Null)]);
    assert_eq!(value.to_text(), r#"{"b":[1,"x"],"a":null}"#);
    assert_eq!(value.clone(), value);
}

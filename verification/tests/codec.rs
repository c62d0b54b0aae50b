use spit::codec::{deserialize, serialize};
use spit::error::ErrorKind;
use spit::mapping::Mapping;

fn listed(mapping: &Mapping) -> Vec<(String, String)> {
    mapping.entries().iter().map(|entry| (entry.name.clone(), entry.text.clone())).collect()
}

fn pair(name: &str, text: &str) -> (String, String) {
    (name.to_string(), text.to_string())
}

#[test]
fn reads_an_object_of_strings() {
    let mapping = deserialize(b"{\"hi\": \"hello there\", \"bye\": \"so long\"}").unwrap();
    assert_eq!(listed(&mapping), vec![pair("bye", "so long"), pair("hi", "hello there")]);
}

#[test]
fn reads_the_empty_object() {
    let mapping = deserialize(b" {} \n").unwrap();
    assert!(mapping.entries().is_empty());
}

#[test]
fn reads_escapes_and_text_beyond_ascii() {
    let mapping = deserialize("{\"q\": \"say \\\"hi\\\"\\n\", \"é\": \"\\u00e9t\\u00e9 日本\"}".as_bytes())
        .unwrap();
    assert_eq!(mapping.get("q").map(|text| text.as_str()), Some("say \"hi\"\n"));
    assert_eq!(mapping.get("é").map(|text| text.as_str()), Some("été 日本"));
}

#[test]
fn later_duplicate_key_wins() {
    let mapping = deserialize(b"{\"a\": \"1\", \"a\": \"2\"}").unwrap();
    assert_eq!(listed(&mapping), vec![pair("a", "2")]);
}

#[test]
fn bytes_that_are_no_json_are_corrupt() {
    let error = deserialize(b"not json").unwrap_err();
    assert_eq!(error.kind, ErrorKind::CorruptData);
    assert_eq!(
        error.message,
        "Could not deserialize '.spitconfig': expected ident at line 1 column 2"
    );
}

#[test]
fn empty_bytes_are_corrupt() {
    let error = deserialize(b"").unwrap_err();
    assert_eq!(error.kind, ErrorKind::CorruptData);
    assert_eq!(
        error.message,
        "Could not deserialize '.spitconfig': EOF while parsing a value at line 1 column 0"
    );
}

#[test]
fn other_shapes_are_corrupt() {
    for bytes in [
        &b"[\"a\", \"b\"]"[..],
        &b"\"text\""[..],
        &b"{\"a\": 1}"[..],
        &b"{\"a\": {\"b\": \"c\"}}"[..],
        &b"{\"a\": null}"[..],
        &b"{\"a\": \"b\"} trailing"[..],
        &b"{\"a\": \"b\""[..],
        &[b'{', b'"', 0xff, b'"', b':', b'"', b'"', b'}'][..],
    ] {
        let error = deserialize(bytes).unwrap_err();
        assert_eq!(error.kind, ErrorKind::CorruptData);
        assert!(error.message.starts_with("Could not deserialize '.spitconfig': "));
    }
}

#[test]
fn an_empty_name_is_corrupt() {
    let error = deserialize(b"{\"a\": \"b\", \"\": \"c\"}").unwrap_err();
    assert_eq!(error.kind, ErrorKind::CorruptData);
    assert_eq!(error.message, "Could not deserialize '.spitconfig': a name is empty");
}

#[test]
fn writes_an_object_of_strings() {
    let mut mapping = Mapping::new();
    mapping.insert("b".to_string(), "2".to_string());
    mapping.insert("a".to_string(), "1".to_string());
    let bytes = serialize(&mapping).unwrap();
    assert_eq!(bytes, b"{\"a\":\"1\",\"b\":\"2\"}");
}

#[test]
fn writes_the_empty_mapping() {
    let bytes = serialize(&Mapping::new()).unwrap();
    assert_eq!(bytes, b"{}");
}

#[test]
fn round_trip_keeps_names_and_texts() {
    let mut mapping = Mapping::new();
    mapping.insert("plain".to_string(), "text".to_string());
    mapping.insert("empty".to_string(), String::new());
    mapping.insert("quote\"d".to_string(), "back\\slash and \"quotes\"".to_string());
    mapping.insert("lines".to_string(), "one\ntwo\r\n\tthree\u{0}\u{1f}".to_string());
    mapping.insert("日本".to_string(), "été 😀".to_string());
    mapping.insert(" ".to_string(), "{\"a\": \"b\"}".to_string());
    let bytes = serialize(&mapping).unwrap();
    let read = deserialize(&bytes).unwrap();
    assert_eq!(listed(&read), listed(&mapping));
    assert_eq!(listed(&read).len(), 6);
}

#[test]
fn round_trip_does_not_depend_on_entry_order() {
    let first = deserialize(b"{\"x\": \"1\", \"y\": \"2\", \"z\": \"3\"}").unwrap();
    let second = deserialize(b"{\"z\": \"3\", \"x\": \"1\", \"y\": \"2\"}").unwrap();
    assert_eq!(listed(&first), listed(&second));
    assert_eq!(serialize(&first).unwrap(), serialize(&second).unwrap());
}

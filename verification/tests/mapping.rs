use spit::mapping::Mapping;

fn listed(mapping: &Mapping) -> Vec<(String, String)> {
    mapping.entries().iter().map(|entry| (entry.name.clone(), entry.text.clone())).collect()
}

fn pair(name: &str, text: &str) -> (String, String) {
    (name.to_string(), text.to_string())
}

#[test]
fn new_mapping_holds_nothing() {
    let mapping = Mapping::new();
    assert!(mapping.entries().is_empty());
    assert!(mapping.get("a").is_none());
    assert!(!mapping.contains("a"));
}

#[test]
fn insert_then_get() {
    let mut mapping = Mapping::new();
    mapping.insert("hi".to_string(), "hello there".to_string());
    assert_eq!(mapping.get("hi").map(|text| text.as_str()), Some("hello there"));
    assert!(mapping.contains("hi"));
    assert!(mapping.get("h").is_none());
    assert!(mapping.get("hi ").is_none());
}

#[test]
fn second_text_under_a_name_replaces_the_first() {
    let mut mapping = Mapping::new();
    mapping.insert("k".to_string(), "first".to_string());
    mapping.insert("other".to_string(), "kept".to_string());
    mapping.insert("k".to_string(), "second".to_string());
    assert_eq!(mapping.get("k").map(|text| text.as_str()), Some("second"));
    assert_eq!(listed(&mapping), vec![pair("k", "second"), pair("other", "kept")]);
}

#[test]
fn entries_are_sorted_whatever_the_insertion_order() {
    let names = ["pear", "apple", "fig", "Zebra", "apples", "a"];
    let mut forward = Mapping::new();
    for name in names {
        forward.insert(name.to_string(), name.to_uppercase());
    }
    let mut backward = Mapping::new();
    for name in names.iter().rev() {
        backward.insert(name.to_string(), name.to_uppercase());
    }
    let expected = vec![
        pair("Zebra", "ZEBRA"),
        pair("a", "A"),
        pair("apple", "APPLE"),
        pair("apples", "APPLES"),
        pair("fig", "FIG"),
        pair("pear", "PEAR"),
    ];
    assert_eq!(listed(&forward), expected);
    assert_eq!(listed(&backward), expected);
}

#[test]
fn assign_puts_one_text_under_every_name() {
    let mut mapping = Mapping::new();
    mapping.insert("b".to_string(), "old".to_string());
    mapping.insert("z".to_string(), "untouched".to_string());
    let names = vec!["c".to_string(), "b".to_string(), "a".to_string(), "c".to_string()];
    mapping.assign(&names, "new");
    assert_eq!(
        listed(&mapping),
        vec![pair("a", "new"), pair("b", "new"), pair("c", "new"), pair("z", "untouched")]
    );
}

#[test]
fn assign_without_names_changes_nothing() {
    let mut mapping = Mapping::new();
    mapping.insert("b".to_string(), "old".to_string());
    mapping.assign(&Vec::new(), "new");
    assert_eq!(listed(&mapping), vec![pair("b", "old")]);
}

#[test]
fn text_may_be_empty() {
    let mut mapping = Mapping::new();
    mapping.insert("quiet".to_string(), String::new());
    assert_eq!(mapping.get("quiet").map(|text| text.as_str()), Some(""));
}

#[test]
fn names_are_valid_when_none_is_empty() {
    assert!(Mapping::names_are_valid(&Vec::new()));
    assert!(Mapping::names_are_valid(&vec!["a".to_string(), " ".to_string()]));
    assert!(!Mapping::names_are_valid(&vec!["a".to_string(), String::new()]));
    assert!(!Mapping::names_are_valid(&vec![String::new()]));
}

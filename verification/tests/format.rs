//! The interchange format: parsing well-formed documents, rejecting
//! malformed ones, and the serialize/parse round trip.

use dogs::codec::{dogs_from_json, dogs_to_json};
use dogs::dog::Dog;

fn dog(name: &str, breed: &str) -> Dog {
    Dog::new(name.to_string(), breed.to_string())
}

fn assert_same(a: &[Dog], b: &[Dog]) {
    assert_eq!(a.len(), b.len());
    for i in 0..a.len() {
        assert_eq!(a[i].name, b[i].name);
        assert_eq!(a[i].breed, b[i].breed);
    }
}

#[test]
fn parses_well_formed_array() {
    let text = r#"[
        {"name": "Rex", "breed": "Labrador"},
        {"name": "Fido", "breed": "Poodle"}
    ]"#;
    let dogs = dogs_from_json(text).expect("well-formed document");
    assert_eq!(dogs.len(), 2);
    assert_eq!(dogs[0].name, "Rex");
    assert_eq!(dogs[0].breed, "Labrador");
    assert_eq!(dogs[1].name, "Fido");
    assert_eq!(dogs[1].breed, "Poodle");
}

#[test]
fn parses_fields_in_either_order() {
    let text = r#"[{"breed": "Husky", "name": "Nanook"}]"#;
    let dogs = dogs_from_json(text).expect("well-formed document");
    assert_eq!(dogs.len(), 1);
    assert_eq!(dogs[0].name, "Nanook");
    assert_eq!(dogs[0].breed, "Husky");
}

#[test]
fn parses_empty_array() {
    let dogs = dogs_from_json("[]").expect("well-formed document");
    assert_eq!(dogs.len(), 0);
    let dogs = dogs_from_json("  [\n]\t").expect("whitespace is insignificant");
    assert_eq!(dogs.len(), 0);
}

#[test]
fn parses_escapes() {
    let text = "[{\"name\": \"Say \\\"woof\\\"\", \"breed\": \"tab\\tand\\nnewline\"}]";
    let dogs = dogs_from_json(text).expect("well-formed document");
    assert_eq!(dogs[0].name, "Say \"woof\"");
    assert_eq!(dogs[0].breed, "tab\tand\nnewline");
}

#[test]
fn parses_solidus_escape() {
    let text = r#"[{"name": "a\/b", "breed": "c"}]"#;
    let dogs = dogs_from_json(text).expect("well-formed document");
    assert_eq!(dogs[0].name, "a/b");
}

#[test]
fn round_trip_of_control_characters() {
    let ds = vec![dog("bell\u{8}back", "feed\u{c}ret\r")];
    let text = dogs_to_json(&ds);
    assert_eq!(text, "[{\"name\":\"bell\\bback\",\"breed\":\"feed\\fret\\r\"}]");
    let back = dogs_from_json(&text).expect("canonical text is well-formed");
    assert_same(&ds, &back);
    // control characters without a short escape are written as \u00XX
    let ds = vec![dog("a\u{1}b", "c\u{1f}d")];
    let text = dogs_to_json(&ds);
    assert_eq!(text, "[{\"name\":\"a\\u0001b\",\"breed\":\"c\\u001fd\"}]");
    let back = dogs_from_json(&text).expect("canonical text is well-formed");
    assert_same(&ds, &back);
}

#[test]
fn round_trip_of_non_ascii_text() {
    let ds = vec![dog("Žofka", "šarplaninac 🐶")];
    let text = dogs_to_json(&ds);
    let back = dogs_from_json(&text).expect("canonical text is well-formed");
    assert_same(&ds, &back);
}

#[test]
fn rejects_truncated_document() {
    assert!(dogs_from_json(r#"[{"name": "Rex", "breed": "La"#).is_err());
    assert!(dogs_from_json("[").is_err());
    assert!(dogs_from_json("").is_err());
}

#[test]
fn rejects_wrong_schema() {
    assert!(dogs_from_json("[1, 2]").is_err());
    assert!(dogs_from_json(r#"{"name": "Rex", "breed": "Lab"}"#).is_err());
    assert!(dogs_from_json(r#"[{"name": "Rex"}]"#).is_err());
    assert!(dogs_from_json(r#"[{"name": "Rex", "color": "brown"}]"#).is_err());
    assert!(dogs_from_json(r#"[{"name": "Rex", "breed": 3}]"#).is_err());
    assert!(dogs_from_json(r#"[{"name": "Rex", "name": "Rex"}]"#).is_err());
}

#[test]
fn parses_hex_escapes() {
    let text = r#"[{"name": "\u0041\u00e9", "breed": "\u0009"}]"#;
    let dogs = dogs_from_json(text).expect("well-formed document");
    assert_eq!(dogs[0].name, "A\u{e9}");
    assert_eq!(dogs[0].breed, "\t");
}

#[test]
fn parses_surrogate_pairs() {
    let text = r#"[{"name": "\ud83d\udc36", "breed": "\uD83D\uDC15!"}]"#;
    let dogs = dogs_from_json(text).expect("well-formed document");
    assert_eq!(dogs[0].name, "\u{1f436}");
    assert_eq!(dogs[0].breed, "\u{1f415}!");
}

#[test]
fn rejects_bad_escapes() {
    assert!(dogs_from_json(r#"[{"name": "\x", "breed": "b"}]"#).is_err());
    assert!(dogs_from_json(r#"[{"name": "\u00", "breed": "b"}]"#).is_err());
    assert!(dogs_from_json(r#"[{"name": "\u00zz", "breed": "b"}]"#).is_err());
    // a lone surrogate, in either half of the pair range, is no character
    assert!(dogs_from_json(r#"[{"name": "\ud800", "breed": "b"}]"#).is_err());
    assert!(dogs_from_json(r#"[{"name": "\udc36", "breed": "b"}]"#).is_err());
    assert!(dogs_from_json(r#"[{"name": "\ud83dx", "breed": "b"}]"#).is_err());
}

#[test]
fn rejects_raw_control_characters() {
    assert!(dogs_from_json("[{\"name\": \"a\tb\", \"breed\": \"c\"}]").is_err());
    assert!(dogs_from_json("[{\"name\": \"a\nb\", \"breed\": \"c\"}]").is_err());
    assert!(dogs_from_json("[{\"name\": \"a\u{1}b\", \"breed\": \"c\"}]").is_err());
}

#[test]
fn rejects_trailing_text() {
    assert!(dogs_from_json("[] extra").is_err());
    assert!(dogs_from_json(r#"[{"name": "a", "breed": "b"}] ["#).is_err());
}

#[test]
fn canonical_text_is_exact() {
    let ds = vec![dog("Rex", "Lab")];
    assert_eq!(dogs_to_json(&ds), r#"[{"name":"Rex","breed":"Lab"}]"#);
    let none: Vec<Dog> = Vec::new();
    assert_eq!(dogs_to_json(&none), "[]");
    let quoted = vec![dog("a\"b", "c\\d")];
    assert_eq!(dogs_to_json(&quoted), "[{\"name\":\"a\\\"b\",\"breed\":\"c\\\\d\"}]");
}

#[test]
fn round_trip_returns_equal_collection() {
    let ds = vec![
        dog("Rex", "Labrador"),
        dog("Say \"woof\"", "back\\slash"),
        dog("tab\there", "line\nbreak"),
        dog("", ""),
    ];
    let text = dogs_to_json(&ds);
    let back = dogs_from_json(&text).expect("canonical text is well-formed");
    assert_same(&ds, &back);
}

#[test]
fn round_trip_of_empty_collection() {
    let ds: Vec<Dog> = Vec::new();
    let text = dogs_to_json(&ds);
    let back = dogs_from_json(&text).expect("canonical text is well-formed");
    assert_eq!(back.len(), 0);
}

//! The format against a general-purpose JSON implementation: canonical
//! text is plain JSON, and plain JSON with the right shape parses.

use dogs::codec::{dogs_from_json, dogs_to_json};
use dogs::dog::Dog;
use serde_json::Value;

#[test]
fn canonical_text_is_plain_json() {
    let ds = vec![
        Dog::new("Rex".to_string(), "Labrador".to_string()),
        Dog::new("Say \"woof\"".to_string(), "new\nline".to_string()),
    ];
    let text = dogs_to_json(&ds);
    let v: Value = serde_json::from_str(&text).expect("canonical text must be JSON");
    let arr = v.as_array().expect("a JSON array");
    assert_eq!(arr.len(), 2);
    assert_eq!(arr[0].get("name").unwrap().as_str().unwrap(), "Rex");
    assert_eq!(arr[0].get("breed").unwrap().as_str().unwrap(), "Labrador");
    assert_eq!(arr[1].get("name").unwrap().as_str().unwrap(), "Say \"woof\"");
    assert_eq!(arr[1].get("breed").unwrap().as_str().unwrap(), "new\nline");
}

#[test]
fn json_emitted_elsewhere_parses() {
    let mut fields = serde_json::Map::new();
    fields.insert("name".to_string(), Value::String("Nanook".to_string()));
    fields.insert("breed".to_string(), Value::String("Husky".to_string()));
    let doc = Value::Array(vec![Value::Object(fields)]);
    let text = serde_json::to_string(&doc).expect("serialization succeeds");
    let dogs = dogs_from_json(&text).expect("well-shaped JSON parses");
    assert_eq!(dogs.len(), 1);
    assert_eq!(dogs[0].name, "Nanook");
    assert_eq!(dogs[0].breed, "Husky");
}

//! Error classification: a failed read and malformed text surface as
//! two distinguishable kinds, under both propagation idioms.

use dogs::api::{get_dogs2, get_dogs3};
use dogs::dog::Dog;
use dogs::error::{FileError, GetDogsError, JsonError};

#[test]
fn read_failure_is_bad_file_never_bad_json() {
    let read: Result<String, FileError> =
        Err(FileError::new("No such file or directory".to_string()));
    let r = get_dogs2(read);
    match r {
        Err(e) => {
            assert!(e.is_bad_file());
            assert!(!e.is_bad_json());
            assert_eq!(e.describe(), "bad file: No such file or directory");
        },
        Ok(_) => panic!("a failed read must not yield dogs"),
    }
}

#[test]
fn invalid_json_is_bad_json() {
    let read: Result<String, FileError> = Ok("[{\"name\": \"Rex\"".to_string());
    let r = get_dogs2(read);
    match r {
        Err(e) => {
            assert!(e.is_bad_json());
            assert!(!e.is_bad_file());
            assert!(e.describe().starts_with("bad JSON: "));
        },
        Ok(_) => panic!("malformed text must not yield dogs"),
    }
}

#[test]
fn successful_read_and_parse_yields_dogs() {
    let read: Result<String, FileError> =
        Ok("[{\"name\": \"Rex\", \"breed\": \"Lab\"}]".to_string());
    let dogs = get_dogs2(read).expect("well-formed document");
    assert_eq!(dogs.len(), 1);
    assert_eq!(dogs[0].name, "Rex");
    assert_eq!(dogs[0].breed, "Lab");
}

#[test]
fn both_idioms_classify_alike() {
    let cases: Vec<Result<String, FileError>> = vec![
        Ok("[{\"name\": \"Rex\", \"breed\": \"Lab\"}]".to_string()),
        Ok("not json".to_string()),
        Err(FileError::new("denied".to_string())),
    ];
    for read in cases {
        let a = get_dogs2(read.clone());
        let b = get_dogs3(read);
        match (a, b) {
            (Ok(x), Ok(y)) => {
                assert_eq!(x.len(), y.len());
            },
            (Err(x), Err(y)) => {
                assert_eq!(x.is_bad_file(), y.is_bad_file());
                assert_eq!(x.describe(), y.describe());
            },
            _ => panic!("the two idioms disagreed"),
        }
    }
}

#[test]
fn conversions_pick_the_matching_variant() {
    let fe = GetDogsError::from(FileError::new("gone".to_string()));
    assert!(fe.is_bad_file());
    assert_eq!(fe.describe(), "bad file: gone");
    let je = GetDogsError::from(JsonError::new(15));
    assert!(je.is_bad_json());
    assert_eq!(je.describe(), "bad JSON: rejected at character 15");
}

#[test]
fn dogs_can_be_built_and_cloned() {
    let d = Dog::new("Rex".to_string(), "Lab".to_string());
    let e = d.clone();
    assert_eq!(e.name, "Rex");
    assert_eq!(e.breed, "Lab");
}

//! Reading a collection of dogs: everything that follows the file read.
//!
//! The caller performs the read itself and hands over its outcome; these
//! functions parse the text and fold both failure kinds into one
//! discriminated error. A failed read always surfaces as the file-read
//! variant and never as the parse variant; malformed text always
//! surfaces as the parse variant. The two functions differ only in
//! idiom: one matches each failure by hand, the other goes through the
//! `From` conversions.

use vstd::prelude::*;
use crate::codec::dogs_from_json;
use crate::dog::{views_of, Dog};
use crate::error::{FileError, GetDogsError, MyResult};
use crate::grammar::parse_doc;

verus! {

/// What either reader returns for a given read outcome: the collection
/// a well-formed text denotes, the parse variant on malformed text, and
/// the file variant, carrying the read failure, when the read failed.
pub open spec fn dogs_outcome_matches(
    read: Result<String, FileError>,
    r: MyResult<Vec<Dog>>,
) -> bool {
    match read {
        Ok(json) => match r {
            Ok(dogs) => parse_doc(json@) == Some(views_of(dogs@)),
            Err(e) => e is BadJson && parse_doc(json@) is None,
        },
        Err(e) => r matches Err(GetDogsError::BadFile(e2)) && e2 == e,
    }
}

/// Turns a read outcome into dogs or a classified error, matching each
/// failure kind by hand.
pub fn get_dogs2(read: Result<String, FileError>) -> (r: MyResult<Vec<Dog>>)
    ensures
        dogs_outcome_matches(read, r),
{
    match read {
        Ok(json) => match dogs_from_json(json.as_str()) {
            Ok(dogs) => Ok(dogs),
            Err(e) => Err(GetDogsError::BadJson(e)),
        },
        Err(e) => Err(GetDogsError::BadFile(e)),
    }
}

/// Turns a read outcome into dogs or a classified error, converting
/// each failure through its `From` implementation.
pub fn get_dogs3(read: Result<String, FileError>) -> (r: MyResult<Vec<Dog>>)
    ensures
        dogs_outcome_matches(read, r),
{
    let json = match read {
        Ok(j) => j,
        Err(e) => {
            return Err(GetDogsError::from(e));
        },
    };
    match dogs_from_json(json.as_str()) {
        Ok(dogs) => Ok(dogs),
        Err(e) => Err(GetDogsError::from(e)),
    }
}

} // verus!

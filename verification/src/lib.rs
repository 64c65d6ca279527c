//! A small library for reading and writing collections of dog records
//! (a name and a breed) in a JSON interchange format, with an error type
//! that lets callers tell a failed file read apart from malformed JSON.

pub mod api;
pub mod codec;
pub mod dog;
pub mod error;
pub mod grammar;
pub mod laws;

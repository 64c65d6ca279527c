//! The record type: one dog, described by a name and a breed.

use vstd::prelude::*;

verus! {

/// One animal descriptor: a name and a breed, both plain text.
#[derive(Debug, Clone)]
pub struct Dog {
    pub name: String,
    pub breed: String,
}

/// The mathematical model of a [`Dog`]: its two fields as character sequences.
#[verifier::ext_equal]
pub ghost struct DogView {
    pub name: Seq<char>,
    pub breed: Seq<char>,
}

impl View for Dog {
    type V = DogView;

    open spec fn view(&self) -> DogView {
        DogView { name: self.name@, breed: self.breed@ }
    }
}

/// The model of a sequence of dogs: each element replaced by its view.
pub open spec fn views_of(dogs: Seq<Dog>) -> Seq<DogView> {
    dogs.map_values(|d: Dog| d@)
}

impl Dog {
    /// Builds a record from its two fields.
    pub fn new(name: String, breed: String) -> (d: Dog)
        ensures
            d@.name == name@,
            d@.breed == breed@,
    {
        Dog { name, breed }
    }
}

} // verus!

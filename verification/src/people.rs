//! Persons and complex numbers: plain records and how they are made.

use vstd::prelude::*;
use vstd::std_specs::convert::IntoSpec;

verus! {

/// A person, known by name.
pub struct Person {
    name: String,
}

impl Person {
    /// The name of the person.
    pub closed spec fn name(&self) -> Seq<char> {
        self.name@
    }

    /// The person whose name `name` converts to.
    pub fn new<S>(name: S) -> (person: Person) where S: Into<String>
        ensures
            S::obeys_into_spec() ==> person.name() == S::into_spec(name)@,
    {
        Person { name: name.into() }
    }

    /// The name of the person.
    pub fn get_ref_name(&self) -> (name: &String)
        ensures
            name@ == self.name(),
    {
        &self.name
    }
}

/// A complex number with parts of type `T`.
#[derive(Debug, PartialEq, Eq, PartialOrd, Ord)]
pub struct Complex<T> {
    pub re: T,
    pub im: T,
}

impl<T> Complex<T> {
    /// The complex number with real part `re` and imaginary part `im`.
    pub fn new(re: T, im: T) -> (z: Complex<T>)
        ensures
            z.re == re,
            z.im == im,
    {
        Complex::<T> { re, im }
    }
}

} // verus!

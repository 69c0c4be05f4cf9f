//! Postal location record.
//!
//! A free-text postal address: plain data plumbing around the value types,
//! with no algorithmic content of its own.

use vstd::prelude::*;

verus! {

/// The particulars of the place where an organization or person resides.
#[derive(PartialEq, Debug, Clone)]
pub struct Address {
    /// First address line.
    address1: String,
    /// Second address line.
    address2: Option<String>,
    /// The city.
    city: String,
    /// The state.
    state: String,
    /// The zip code.
    zip: String,
    /// The country.
    country: String,
}

impl Address {
    /// The first address line, as a character sequence.
    pub closed spec fn spec_address1(&self) -> Seq<char> {
        self.address1@
    }

    /// The second address line, as a character sequence, when present.
    pub closed spec fn spec_address2(&self) -> Option<Seq<char>> {
        match self.address2 {
            Some(ref s) => Some(s@),
            None => None,
        }
    }

    /// The city, as a character sequence.
    pub closed spec fn spec_city(&self) -> Seq<char> {
        self.city@
    }

    /// The state, as a character sequence.
    pub closed spec fn spec_state(&self) -> Seq<char> {
        self.state@
    }

    /// The zip code, as a character sequence.
    pub closed spec fn spec_zip(&self) -> Seq<char> {
        self.zip@
    }

    /// The country, as a character sequence.
    pub closed spec fn spec_country(&self) -> Seq<char> {
        self.country@
    }

    /// Creates a new `Address` from its parts.
    pub fn new(
        address1: String,
        address2: Option<String>,
        city: String,
        state: String,
        zip: String,
        country: String,
    ) -> (r: Address)
        ensures
            r.spec_address1() == address1@,
            match (r.spec_address2(), address2) {
                (Some(a), Some(b)) => a == b@,
                (None, None) => true,
                _ => false,
            },
            r.spec_city() == city@,
            r.spec_state() == state@,
            r.spec_zip() == zip@,
            r.spec_country() == country@,
    {
        Address { address1, address2, city, state, zip, country }
    }

    /// Returns address line 1.
    pub fn get_address1(&self) -> (r: &str)
        ensures
            r@ == self.spec_address1(),
    {
        self.address1.as_str()
    }

    /// Returns address line 2, when present.
    pub fn get_address2(&self) -> (r: Option<&str>)
        ensures
            match (r, self.spec_address2()) {
                (Some(a), Some(b)) => a@ == b,
                (None, None) => true,
                _ => false,
            },
    {
        match self.address2 {
            Some(ref addr2) => Some(addr2.as_str()),
            None => None,
        }
    }

    /// Returns the city.
    pub fn get_city(&self) -> (r: &str)
        ensures
            r@ == self.spec_city(),
    {
        self.city.as_str()
    }

    /// Returns the state.
    pub fn get_state(&self) -> (r: &str)
        ensures
            r@ == self.spec_state(),
    {
        self.state.as_str()
    }

    /// Returns the zip code.
    pub fn get_zip(&self) -> (r: &str)
        ensures
            r@ == self.spec_zip(),
    {
        self.zip.as_str()
    }

    /// Returns the country.
    pub fn get_country(&self) -> (r: &str)
        ensures
            r@ == self.spec_country(),
    {
        self.country.as_str()
    }
}

} // verus!

//! Relationship classification.
//!
//! A five-value relationship enum with its integer mapping: plain data
//! plumbing, each value paired one-to-one with a small identifier.

use vstd::prelude::*;

verus! {

/// Defined relationships.
#[derive(Clone, Copy, Debug, PartialEq, Eq, Structural)]
pub enum Relationship {
    /// A stranger to the user.
    Stranger,
    /// An acquaintance to the user.
    Acquaintance,
    /// A co-worker to the user.
    CoWorker,
    /// A friend to the user.
    Friend,
    /// A family member to the user.
    Family,
}

/// The numeric identifier paired with each relationship.
pub open spec fn spec_relationship_id(rel: Relationship) -> u8 {
    match rel {
        Relationship::Stranger => 0,
        Relationship::Acquaintance => 1,
        Relationship::CoWorker => 2,
        Relationship::Friend => 3,
        Relationship::Family => 4,
    }
}

/// Translates a relationship to its numeric identifier.
pub fn get_relationship_id(rel: Relationship) -> (r: u8)
    ensures
        r == spec_relationship_id(rel),
{
    match rel {
        Relationship::Stranger => 0,
        Relationship::Acquaintance => 1,
        Relationship::CoWorker => 2,
        Relationship::Friend => 3,
        Relationship::Family => 4,
    }
}

/// Grabs the relationship paired with the given identifier. Identifiers
/// above the largest one in use name no relationship, so handing one in is
/// a programming error, which the contract rules out.
pub fn get_relationship(id: u8) -> (r: Relationship)
    requires
        id <= 4,
    ensures
        spec_relationship_id(r) == id,
{
    match id {
        0 => Relationship::Stranger,
        1 => Relationship::Acquaintance,
        2 => Relationship::CoWorker,
        3 => Relationship::Friend,
        _ => Relationship::Family,
    }
}

} // verus!

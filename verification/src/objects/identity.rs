//! Who a badge was awarded to.

use vstd::prelude::*;

verus! {

/// The property by which the recipient of a badge is identified.
#[derive(Debug, Eq, PartialEq, Clone, Copy, Structural)]
pub enum ObjType {
    EMail,
    Url,
    Telephone,
}

impl Default for ObjType {
    fn default() -> (r: Self)
        ensures
            r == ObjType::EMail,
    {
        ObjType::EMail
    }
}

/// The recipient of a badge.
#[derive(Debug, Clone)]
pub struct Obj {
    /// The property that `identity` holds.
    pub kind: ObjType,
    /// Either the hash of the identity or the plaintext value.
    pub identity: String,
    /// Whether or not the identity value is hashed.
    pub hashed: bool,
    /// The salt of the hash, if the identity is hashed and salted.
    pub salt: Option<String>,
}

impl Obj {
    /// A recipient without salt.
    pub fn new(kind: ObjType, identity: String, hashed: bool) -> (r: Self)
        ensures
            r.kind == kind,
            r.identity == identity,
            r.hashed == hashed,
            r.salt is None,
    {
        Self { kind, identity, hashed, salt: None }
    }
}

} // verus!

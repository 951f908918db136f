//! How a badge is verified.

use vstd::prelude::*;

verus! {

/// The type of verification method: a single assertion is hosted or signed; the
/// third kind stands in the profile of an issuer.
#[derive(Debug, Clone)]
pub enum ObjType {
    HostedBadge,
    SignedBadge {
        /// The `id` of the key used to sign the assertion.
        creator: Option<String>,
    },
    VerificationObject,
}

impl Default for ObjType {
    fn default() -> (r: Self)
        ensures
            r is HostedBadge,
    {
        ObjType::HostedBadge
    }
}

impl ObjType {
    /// The name of the type, as it stands in a document.
    pub open spec fn name_of(self) -> Seq<char> {
        match self {
            ObjType::HostedBadge => "HostedBadge"@,
            ObjType::SignedBadge { .. } => "SignedBadge"@,
            ObjType::VerificationObject => "VerificationObject"@,
        }
    }

    /// The name of the type, as it stands in a document.
    pub fn name(&self) -> (r: &'static str)
        ensures
            r@ == self.name_of(),
    {
        match self {
            ObjType::HostedBadge => "HostedBadge",
            ObjType::SignedBadge { .. } => "SignedBadge",
            ObjType::VerificationObject => "VerificationObject",
        }
    }
}

/// Instructions for verifying an assertion.
#[derive(Debug, Clone)]
pub struct Obj {
    pub kind: ObjType,
    /// The `@id` of the property to be used for verification.
    pub verification_property: Option<String>,
    /// The URI fragment that the verification property must start with.
    pub starts_with: Option<String>,
    /// The host registered name subcomponent of an allowed origin.
    pub allowed_origins: Option<String>,
}

impl Obj {
    /// Instructions of the kind given, with nothing else set.
    #[must_use]
    pub fn new(kind: ObjType) -> (r: Self)
        ensures
            r.kind == kind,
            r.verification_property is None,
            r.starts_with is None,
            r.allowed_origins is None,
    {
        Self { kind, verification_property: None, starts_with: None, allowed_origins: None }
    }
}

} // verus!

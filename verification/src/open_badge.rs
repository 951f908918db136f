//! The recipient and the verification of a badge under the names that the Open Badge
//! vocabulary gives them, and lists of strings as JSON text.

use vstd::prelude::*;
use vstd::string::StringExecFns;

verus! {

/// The property by which the recipient of a badge is identified.
#[derive(Debug, Eq, PartialEq, Clone, Copy, Structural)]
pub enum IdentityType {
    EMail,
    Url,
    Telephone,
}

/// The recipient of a badge.
#[derive(Debug, Clone)]
pub struct Identity {
    /// The property that `identity` holds.
    pub kind: IdentityType,
    /// Either the hash of the identity or the plaintext value.
    pub identity: String,
    /// Whether or not the identity value is hashed.
    pub hashed: bool,
    /// The salt of the hash, if the identity is hashed and salted.
    pub salt: Option<String>,
}

/// The type of verification method.
#[derive(Debug, Clone)]
pub enum VerificationType {
    HostedBadge,
    SignedBadge {
        /// The `id` of the key used to sign the assertion.
        creator: Option<String>,
    },
    VerificationObject,
}

/// Instructions for verifying an assertion.
#[derive(Debug, Clone)]
pub struct Verification {
    pub kind: VerificationType,
    /// The `@id` of the property to be used for verification.
    pub verification_property: Option<String>,
    /// The URI fragment that the verification property must start with.
    pub starts_with: Option<String>,
    /// The host registered name subcomponent of an allowed origin.
    pub allowed_origins: Option<String>,
}

impl Identity {
    /// A recipient without salt.
    pub fn new(kind: IdentityType, identity: String, hashed: bool) -> (r: Self)
        ensures
            r.kind == kind,
            r.identity == identity,
            r.hashed == hashed,
            r.salt is None,
    {
        Self { kind, identity, hashed, salt: None }
    }
}

impl Verification {
    /// Instructions of the kind given, with nothing else set.
    #[must_use]
    pub fn new(kind: VerificationType) -> (r: Self)
        ensures
            r.kind == kind,
            r.verification_property is None,
            r.starts_with is None,
            r.allowed_origins is None,
    {
        Self { kind, verification_property: None, starts_with: None, allowed_origins: None }
    }
}

/// The items in double quotes, with a comma and a space between one and the next.
pub open spec fn quoted_items(list: Seq<Seq<char>>) -> Seq<char>
    decreases list.len(),
{
    if list.len() == 0 {
        Seq::empty()
    } else if list.len() == 1 {
        "\""@ + list[0] + "\""@
    } else {
        quoted_items(list.drop_last()) + ", "@ + "\""@ + list.last() + "\""@
    }
}

/// The JSON text of a list of strings: the items in double quotes between square
/// brackets. Nothing is escaped.
pub open spec fn string_rep(list: Seq<Seq<char>>) -> Seq<char> {
    "["@ + quoted_items(list) + "]"@
}

/// The strings of a list as their characters.
pub open spec fn texts(list: Seq<&str>) -> Seq<Seq<char>> {
    list.map_values(|s: &str| s@)
}

/// Converts a list of strings into a single string, JSON text that represents the
/// whole list.
#[must_use]
pub fn str_list_to_string_rep(list: &[&str]) -> (r: String)
    ensures
        r@ == string_rep(texts(list@)),
{
    let ghost all = texts(list@);
    let mut s = String::from_str("[");
    let mut i: usize = 0;
    assert(all.take(0) == Seq::<Seq<char>>::empty());
    while i < list.len()
        invariant
            i <= list.len(),
            all == texts(list@),
            s@ == "["@ + quoted_items(all.take(i as int)),
        decreases list.len() - i,
    {
        let ghost before = s@;
        assert(all.take(i + 1).drop_last() == all.take(i as int));
        assert(all.take(i + 1).last() == list[i as int]@);
        if i > 0 {
            s.append(", ");
        }
        s.append("\"");
        s.append(list[i]);
        s.append("\"");
        proof {
            let item = list[i as int]@;
            let done = quoted_items(all.take(i as int));
            if i > 0 {
                assert(s@ == "["@ + (done + ", "@ + "\""@ + item + "\""@));
            } else {
                assert(all.take(1)[0] == item);
                assert(done == Seq::<char>::empty());
                assert(s@ == "["@ + ("\""@ + item + "\""@));
            }
        }
        i = i + 1;
    }
    assert(all.take(i as int) == all);
    s.append("]");
    s
}

} // verus!

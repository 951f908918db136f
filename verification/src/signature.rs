//! The signing algorithms that an assertion can be signed with.

use vstd::prelude::*;

verus! {

/// The family of a signing algorithm: what kind of key it takes.
#[derive(Debug, Eq, PartialEq, Clone, Copy, Structural)]
pub enum AlgorithmType {
    /// No signature is made.
    Unsigned,
    /// RSASSA-PKCS1-v1_5.
    RSA,
    /// ECDSA.
    ECDSA,
}

/// A signing algorithm.
#[derive(Debug, Eq, PartialEq, Clone, Copy, Structural)]
pub enum Algorithm {
    /// No signature is made.
    Unsigned,
    /// RSASSA-PKCS1-v1_5 using SHA-256
    RS256,
    /// RSASSA-PKCS1-v1_5 using SHA-384
    RS384,
    /// RSASSA-PKCS1-v1_5 using SHA-512
    RS512,
    /// ECDSA using P-256 and SHA-256
    ES256,
    /// ECDSA using P-384 and SHA-384
    ES384,
}

impl Default for AlgorithmType {
    fn default() -> (r: Self)
        ensures
            r == AlgorithmType::Unsigned,
    {
        AlgorithmType::Unsigned
    }
}

impl Default for Algorithm {
    fn default() -> (r: Self)
        ensures
            r == Algorithm::Unsigned,
    {
        Algorithm::Unsigned
    }
}

impl Algorithm {
    /// The family of the algorithm.
    pub open spec fn family(self) -> AlgorithmType {
        match self {
            Algorithm::Unsigned => AlgorithmType::Unsigned,
            Algorithm::RS256 | Algorithm::RS384 | Algorithm::RS512 => AlgorithmType::RSA,
            Algorithm::ES256 | Algorithm::ES384 => AlgorithmType::ECDSA,
        }
    }

    /// The family of the algorithm: the `RS` algorithms are RSA, the `ES` algorithms
    /// are ECDSA.
    #[must_use]
    pub fn algorithm_type(self) -> (r: AlgorithmType)
        ensures
            r == self.family(),
    {
        match self {
            Algorithm::Unsigned => AlgorithmType::Unsigned,
            Algorithm::RS256 | Algorithm::RS384 | Algorithm::RS512 => AlgorithmType::RSA,
            Algorithm::ES256 | Algorithm::ES384 => AlgorithmType::ECDSA,
        }
    }
}

} // verus!

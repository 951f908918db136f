//! What a run of the program is set up with.

use crate::signature::Algorithm;
use vstd::prelude::*;

verus! {

/// How much is logged, from nothing to everything.
#[derive(Debug, Eq, PartialEq, Copy, Clone, Structural)]
pub enum Verbosity {
    Off,
    Errors,
    Warnings,
    Info,
    Debug,
    Trace,
}

impl Default for Verbosity {
    fn default() -> (r: Self)
        ensures
            r == Verbosity::Info,
    {
        Verbosity::Info
    }
}

/// The number of levels of verbosity.
pub const LEVELS: usize = 6;

impl Verbosity {
    /// The place of the level among the levels, from 0 for `Off` to 5 for `Trace`.
    pub open spec fn place(self) -> int {
        match self {
            Verbosity::Off => 0,
            Verbosity::Errors => 1,
            Verbosity::Warnings => 2,
            Verbosity::Info => 3,
            Verbosity::Debug => 4,
            Verbosity::Trace => 5,
        }
    }

    /// The place of the level among the levels.
    pub fn index(self) -> (r: usize)
        ensures
            r == self.place(),
    {
        match self {
            Verbosity::Off => 0,
            Verbosity::Errors => 1,
            Verbosity::Warnings => 2,
            Verbosity::Info => 3,
            Verbosity::Debug => 4,
            Verbosity::Trace => 5,
        }
    }

    /// The level at a place.
    pub fn at(index: usize) -> (r: Self)
        requires
            index < LEVELS,
        ensures
            r.place() == index,
    {
        if index == 0 {
            Verbosity::Off
        } else if index == 1 {
            Verbosity::Errors
        } else if index == 2 {
            Verbosity::Warnings
        } else if index == 3 {
            Verbosity::Info
        } else if index == 4 {
            Verbosity::Debug
        } else {
            Verbosity::Trace
        }
    }

    /// The place that `steps` steps up from `place` lead to: past the last level the
    /// count goes on from the first, and a sum that `usize` cannot hold counts as
    /// its largest value.
    pub open spec fn place_up(place: int, steps: int) -> int {
        if place + steps > usize::MAX {
            (usize::MAX as int) % 6
        } else {
            (place + steps) % 6
        }
    }

    /// Raises the verbosity by `steps` levels. Past `Trace` the count goes on from
    /// `Off`.
    #[must_use]
    pub fn up_max(self, steps: usize) -> (r: Self)
        ensures
            r.place() == Self::place_up(self.place(), steps as int),
    {
        let new_index = self.index().saturating_add(steps) % LEVELS;
        Self::at(new_index)
    }

    /// Lowers the verbosity by `steps` levels, halting at `Off`.
    #[must_use]
    pub fn down_max(self, steps: usize) -> (r: Self)
        ensures
            r.place() == if steps >= self.place() {
                0
            } else {
                self.place() - steps
            },
    {
        let new_index = self.index().saturating_sub(steps);
        Self::at(new_index)
    }
}

/// A plain switch as a level: `Info` if it is on, `Warnings` if not.
impl From<bool> for Verbosity {
    fn from(verbose: bool) -> (r: Self) {
        if verbose {
            Verbosity::Info
        } else {
            Verbosity::Warnings
        }
    }
}

impl vstd::std_specs::convert::FromSpecImpl<bool> for Verbosity {
    open spec fn obeys_from_spec() -> bool {
        true
    }

    open spec fn from_spec(verbose: bool) -> Self {
        if verbose {
            Verbosity::Info
        } else {
            Verbosity::Warnings
        }
    }
}

/// Which of the values that are already set may be overwritten.
#[derive(Debug, Clone, Copy, PartialEq, Eq, Structural)]
pub enum Overwrite {
    All,
    Nothing,
    Main,
    Alternative,
}

impl Overwrite {
    /// Whether the main values may be overwritten.
    #[must_use]
    pub fn main(&self) -> (r: bool)
        ensures
            r == (*self == Overwrite::All || *self == Overwrite::Main),
    {
        match self {
            Overwrite::All | Overwrite::Main => true,
            Overwrite::Nothing | Overwrite::Alternative => false,
        }
    }

    /// Whether the alternative values may be overwritten.
    #[must_use]
    pub fn alt(&self) -> (r: bool)
        ensures
            r == (*self == Overwrite::All || *self == Overwrite::Alternative),
    {
        match self {
            Overwrite::All | Overwrite::Alternative => true,
            Overwrite::Nothing | Overwrite::Main => false,
        }
    }
}

impl Default for Overwrite {
    fn default() -> (r: Self)
        ensures
            r == Overwrite::All,
    {
        Overwrite::All
    }
}

/// What makes a run fail.
#[derive(Clone, Copy, Debug, PartialEq, Eq, Structural)]
pub enum FailOn {
    AnyMissingValue,
    Error,
}

/// A plain switch as what makes a run fail: any missing value if it is on, errors
/// alone if not.
impl From<bool> for FailOn {
    fn from(strict: bool) -> (r: Self) {
        if strict {
            FailOn::AnyMissingValue
        } else {
            FailOn::Error
        }
    }
}

impl vstd::std_specs::convert::FromSpecImpl<bool> for FailOn {
    open spec fn obeys_from_spec() -> bool {
        true
    }

    open spec fn from_spec(strict: bool) -> Self {
        if strict {
            FailOn::AnyMissingValue
        } else {
            FailOn::Error
        }
    }
}

/// Whether the values that were retrieved are shown, and where.
#[derive(Clone, Debug)]
pub enum ShowRetrieved {
    No,
    Primary(Option<String>),
    All(Option<String>),
}

/// The settings of a run.
#[derive(Clone, Debug)]
pub struct Settings {
    pub verbosity: Verbosity,
    /// Location of the Open Badge Assertion JSON-LD to be baked.
    pub assertion_loc: Option<String>,
    /// The algorithm to sign with, if signing is used.
    pub sign_alg: Algorithm,
    /// Location of the private key required for signing, if signing is used.
    pub sign_key_loc: Option<String>,
    /// Location of the certification chain, optionally incorporated if signing is used.
    pub cert_loc: Option<String>,
    /// Location of the image to bake into.
    pub source_image_loc: Option<String>,
    /// Location of the baked image.
    pub baked_loc: Option<String>,
}

impl Default for Settings {
    fn default() -> (r: Self)
        ensures
            r.verbosity == Verbosity::Info,
            r.sign_alg == Algorithm::Unsigned,
            r.assertion_loc is None,
            r.sign_key_loc is None,
            r.cert_loc is None,
            r.source_image_loc is None,
            r.baked_loc is None,
    {
        Settings {
            verbosity: Verbosity::Info,
            assertion_loc: None,
            sign_alg: Algorithm::Unsigned,
            sign_key_loc: None,
            cert_loc: None,
            source_image_loc: None,
            baked_loc: None,
        }
    }
}

} // verus!

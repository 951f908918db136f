//! What a run of the program works in.

use crate::settings::Settings;
use crate::settings::Verbosity;
use crate::signature::Algorithm;
use vstd::prelude::*;

verus! {

/// The environment of a run: its settings.
pub struct Environment {
    pub settings: Settings,
}

impl Environment {
    /// An environment with the settings given.
    #[must_use]
    pub fn new(settings: Settings) -> (r: Self)
        ensures
            r.settings == settings,
    {
        Self { settings }
    }

    /// An environment for trials: the default settings, with nothing to bake.
    #[must_use]
    pub fn stub() -> (r: Self)
        ensures
            r.settings.verbosity == Verbosity::Info,
            r.settings.sign_alg == Algorithm::Unsigned,
            r.settings.assertion_loc is None,
            r.settings.sign_key_loc is None,
            r.settings.cert_loc is None,
            r.settings.source_image_loc is None,
            r.settings.baked_loc is None,
    {
        Self::new(Settings::default())
    }
}

} // verus!

//! Feature gating for the settings interface.

use vstd::prelude::*;

verus! {

/// The feature flag that gates the settings interface.
#[derive(Clone, Copy, Debug, PartialEq, Eq, Structural)]
pub struct SettingsUiFeatureFlag;

impl SettingsUiFeatureFlag {
    /// The flag's registry name.
    pub fn flag_name() -> (r: &'static str)
        ensures
            r@ == "settings-ui"@,
    {
        "settings-ui"
    }
}

} // verus!

//! The verbosity setting, made once at start-up and handed to whatever logs.
use vstd::prelude::*;

verus! {

/// Whether diagnostic messages are shown.
#[derive(Debug, Clone, Copy, Default, PartialEq, Eq, Structural)]
pub struct Verbosity {
    pub enabled: bool,
}

/// Turns diagnostic messages on or off.
pub fn set_enabled(v: &mut Verbosity, enabled: bool)
    ensures
        final(v).enabled == enabled,
{
    v.enabled = enabled;
}

/// Whether diagnostic messages are on.
pub fn is_enabled(v: &Verbosity) -> (r: bool)
    ensures
        r == v.enabled,
{
    v.enabled
}

} // verus!

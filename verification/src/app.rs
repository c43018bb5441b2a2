//! Startup configuration of a local game session.

use crate::game::RunSeed;
use crate::ui::DisplayProfile;
use vstd::prelude::*;

verus! {

/// Options for a local game session.
#[derive(Clone, Copy, Debug, PartialEq, Eq, Structural)]
pub struct PlayOptions {
    pub seed: Option<RunSeed>,
    pub display: DisplayProfile,
    pub debug_godmode: bool,
}

} // verus!

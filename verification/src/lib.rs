//! Launch-time variant selection for an application that ships several
//! binaries, one per CPU architecture and minimum OS version.
//!
//! The library holds the decision logic of such a launcher: parsing
//! candidate filenames, resolving the host profile, choosing the best
//! compatible variant, reconciling the environment for the chosen binary,
//! and composing the text shown when nothing fits. The thin process and
//! filesystem plumbing around it lives outside the library.

use vstd::prelude::*;

pub mod text;
pub mod version;
pub mod filename;
pub mod discovery;
pub mod host;
pub mod selector;
pub mod environment;
pub mod envdump;
pub mod links;
pub mod report;
pub mod plan;

verus! {

/// Everything that can stop a launch, one variant per failing stage.
///
/// Failures of single candidate filenames are not errors: such entries
/// are dropped during discovery. "No compatible variant" is a normal
/// outcome, not an error, and so has no variant here.
#[derive(Debug)]
pub enum LaunchError {
    /// A system query failed or its output could not be understood.
    Probe { detail: String },
    /// Following the launcher's own symlink chain failed.
    PathResolution { detail: String },
    /// The candidate directory could not be listed.
    Discovery { detail: String },
    /// The login-shell environment round trip failed; recoverable.
    EnvironmentRoundTrip { detail: String },
    /// Replacing the process image failed.
    Replacement { detail: String },
}

impl LaunchError {
    /// The text that a failure dialog shows for this error.
    pub open spec fn detail_view(&self) -> Seq<char> {
        match self {
            LaunchError::Probe { detail } => detail@,
            LaunchError::PathResolution { detail } => detail@,
            LaunchError::Discovery { detail } => detail@,
            LaunchError::EnvironmentRoundTrip { detail } => detail@,
            LaunchError::Replacement { detail } => detail@,
        }
    }

    /// Hands out the detail text.
    pub fn message(&self) -> (r: &String)
        ensures
            r@ == self.detail_view(),
    {
        match self {
            LaunchError::Probe { detail } => detail,
            LaunchError::PathResolution { detail } => detail,
            LaunchError::Discovery { detail } => detail,
            LaunchError::EnvironmentRoundTrip { detail } => detail,
            LaunchError::Replacement { detail } => detail,
        }
    }
}

} // verus!

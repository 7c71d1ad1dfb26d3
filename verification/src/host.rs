//! The host profile: the running system's OS version and its CPU
//! architecture, with the translation-layer correction applied. Built
//! from the raw output of the system queries, which arrives with its
//! line ends still attached.

use vstd::prelude::*;

use crate::LaunchError;
use crate::text::trimmed;
use crate::text::str_eq;
use crate::text::trim_spaces;
use crate::version::Version;
use crate::version::parses_as_version;
use crate::version::version_components;

verus! {

/// What the host is, for selection purposes.
#[derive(Debug)]
pub struct HostProfile {
    /// The OS version, parsed.
    pub os_version: Version,
    /// The OS version as the system printed it, trimmed.
    pub os_version_text: String,
    /// The architecture after the translation correction.
    pub architecture: String,
}

/// The corrected architecture: a report of the generic 64-bit x86 token
/// under an active translation layer really means the 64-bit ARM
/// machine underneath. Nothing else is altered, and never the other way.
pub open spec fn resolved_arch(reported: Seq<char>, translated: bool) -> Seq<char> {
    if reported == "x86_64"@ && translated {
        "arm64"@
    } else {
        reported
    }
}

/// Whether the translation-flag query output reads as set.
pub open spec fn translated_flag(out: Seq<char>) -> bool {
    trimmed(out) == "1"@
}

/// The probe failure text for an unreadable version string.
pub open spec fn version_error_detail(out: Seq<char>) -> Seq<char> {
    "Couldn't parse version: '"@ + out + "'"@
}

/// Applies the translation correction to a reported architecture.
pub fn resolve_architecture(reported: String, translated: bool) -> (r: String)
    ensures
        r@ == resolved_arch(reported@, translated),
{
    if translated && str_eq(reported.as_str(), "x86_64") {
        "arm64".to_owned()
    } else {
        reported
    }
}

/// Builds the host profile from the three query outputs: the version
/// string, the machine architecture, and the translation flag. Fails
/// exactly when the version output does not read as a dotted version.
pub fn build_host_profile(version_out: &str, arch_out: &str, translated_out: &str) -> (r: Result<
    HostProfile,
    LaunchError,
>)
    ensures
        r is Ok <==> parses_as_version(trimmed(version_out@)),
        r matches Ok(h) ==> {
            &&& h.os_version@ == version_components(trimmed(version_out@))
            &&& h.os_version_text@ == trimmed(version_out@)
            &&& h.architecture@ == resolved_arch(
                trimmed(arch_out@),
                translated_flag(translated_out@),
            )
        },
        r matches Err(e) ==> e matches LaunchError::Probe { detail } && detail@
            == version_error_detail(version_out@),
{
    let vt = trim_spaces(version_out);
    match Version::parse(vt) {
        None => {
            let mut detail = "Couldn't parse version: '".to_owned();
            detail.append(version_out);
            detail.append("'");
            Err(LaunchError::Probe { detail })
        },
        Some(os_version) => {
            let os_version_text = vt.to_owned();
            let reported = trim_spaces(arch_out).to_owned();
            let translated = str_eq(trim_spaces(translated_out), "1");
            let architecture = resolve_architecture(reported, translated);
            Ok(HostProfile { os_version, os_version_text, architecture })
        },
    }
}

} // verus!

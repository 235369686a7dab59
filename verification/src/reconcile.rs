//! Keeping the plugin artifact current: deciding, from a fresh registry
//! report, whether an install is due, and downgrading any failure along the
//! way to a diagnostic the caller acknowledges and discards.

use vstd::prelude::*;
use vstd::string::StrSliceExecFns;
use vstd::string::StringSliceAdditionalSpecFns;
use crate::text::{append_bytes, bytes_eq, copy_bytes, opt_view};

verus! {

/// Name of the supporting plugin package, constant for the process lifetime.
pub open spec fn artifact_identity() -> Seq<u8> {
    "@css-modules-kit/ts-plugin".spec_bytes()
}

pub fn artifact_identity_bytes() -> (r: Vec<u8>)
    ensures
        r@ == artifact_identity(),
{
    "@css-modules-kit/ts-plugin".as_bytes_vec()
}

/// What the registry reports for the artifact, queried fresh on every
/// reconciliation attempt: the version installed here, if any, and the latest
/// published version.
pub struct VersionInfo {
    pub installed: Option<Vec<u8>>,
    pub latest: Vec<u8>,
}

/// Why a reconciliation attempt achieved nothing. Callers acknowledge this
/// and deliberately proceed: a stale or missing plugin degrades editing
/// features but must never break the session.
pub enum ReconcileError {
    /// The registry could not report a version.
    VersionLookupFailed,
    /// The install of the latest version failed.
    InstallFailed,
}

/// The install step a reconciliation attempt asks for.
pub enum InstallPlan {
    /// The installed version already equals the latest: no install call.
    Skip,
    /// Install this version (always the latest reported).
    Install(Vec<u8>),
}

/// An install is due exactly when no version is installed or the installed
/// one differs from the latest, by exact byte equality.
pub open spec fn spec_needs_install(installed: Option<Seq<u8>>, latest: Seq<u8>) -> bool {
    installed != Some(latest)
}

/// Decide the install step from a registry report: install the latest version
/// exactly when the installed version is absent or differs from it, and
/// otherwise make no install call at all.
pub fn install_plan(info: &VersionInfo) -> (p: InstallPlan)
    ensures
        match p {
            InstallPlan::Skip => !spec_needs_install(opt_view(info.installed), info.latest@),
            InstallPlan::Install(v) => spec_needs_install(opt_view(info.installed), info.latest@)
                && v@ == info.latest@,
        },
{
    let due = match &info.installed {
        Some(v) => !bytes_eq(v, &info.latest),
        None => true,
    };
    if due {
        InstallPlan::Install(copy_bytes(&info.latest))
    } else {
        InstallPlan::Skip
    }
}

/// The note logged when an install is about to run: the package name and the
/// version, joined as `installing <package>@<version>`.
pub open spec fn install_note(version: Seq<u8>) -> Seq<u8> {
    "installing ".spec_bytes() + artifact_identity() + "@".spec_bytes() + version
}

pub fn install_note_bytes(version: &Vec<u8>) -> (r: Vec<u8>)
    ensures
        r@ == install_note(version@),
{
    let mut r = "installing ".as_bytes_vec();
    let mut rest = "@css-modules-kit/ts-plugin".as_bytes_vec();
    append_bytes(&mut r, &rest);
    rest = "@".as_bytes_vec();
    append_bytes(&mut r, &rest);
    append_bytes(&mut r, version);
    proof {
        assert(r@ =~= install_note(version@));
    }
    r
}

/// The note logged when the artifact was already current.
pub open spec fn current_note() -> Seq<u8> {
    "ts-plugin already installed".spec_bytes()
}

pub fn current_note_bytes() -> (r: Vec<u8>)
    ensures
        r@ == current_note(),
{
    "ts-plugin already installed".as_bytes_vec()
}

/// The note logged when reconciliation failed and activation proceeds anyway.
pub open spec fn retry_note() -> Seq<u8> {
    "Failed to install or update ts-plugin. Please try again later.".spec_bytes()
}

/// Acknowledge a reconciliation outcome without ever propagating it: a
/// failure yields only the diagnostic to log, and success yields nothing.
pub fn acknowledge(outcome: &Result<(), ReconcileError>) -> (diag: Option<Vec<u8>>)
    ensures
        match outcome {
            Ok(_) => diag is None,
            Err(_) => diag matches Some(d) && d@ == retry_note(),
        },
{
    match outcome {
        Ok(_) => None,
        Err(_) => Some(
            "Failed to install or update ts-plugin. Please try again later.".as_bytes_vec(),
        ),
    }
}

} // verus!

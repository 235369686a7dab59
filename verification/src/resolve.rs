//! Where downstream tools load the plugin from: a debug override directory
//! when the override key holds its truthy marker, otherwise the standard
//! installation directory after a best-effort reconciliation whose outcome
//! never changes the answer.

use vstd::prelude::*;
use vstd::string::StrSliceExecFns;
use vstd::string::StringSliceAdditionalSpecFns;
use crate::reconcile::ReconcileError;
use crate::text::{bytes_eq, copy_bytes, opt_view};

verus! {

/// The truthy marker of the `CMK_LOAD_LOCAL_TS_PLUGIN` override key: exactly
/// the literal `1`. Any other value, or an absent key, means standard
/// behavior.
pub open spec fn debug_marker() -> Seq<u8> {
    "1".spec_bytes()
}

/// Which way a resolution goes.
pub enum ResolveStep {
    /// Short-circuit to the debug root; the reconciler is never consulted, so
    /// no registry or install side effect happens.
    UseDebugRoot,
    /// Reconcile best-effort, then use the install root.
    ReconcileThenInstallRoot,
}

/// Decide the resolution path from the override value, before any side
/// effect: exactly the marker value picks the debug root.
pub fn resolve_step(debug_override: &Option<Vec<u8>>) -> (s: ResolveStep)
    ensures
        s is UseDebugRoot <==> opt_view(*debug_override) == Some(debug_marker()),
        s is ReconcileThenInstallRoot <==> opt_view(*debug_override) != Some(debug_marker()),
{
    match debug_override {
        Some(v) => {
            if bytes_eq(v, &"1".as_bytes_vec()) {
                ResolveStep::UseDebugRoot
            } else {
                ResolveStep::ReconcileThenInstallRoot
            }
        },
        None => ResolveStep::ReconcileThenInstallRoot,
    }
}

/// The location a resolution returns, as a function of the step and the two
/// roots alone.
pub open spec fn spec_resolved_location(
    step: ResolveStep,
    debug_root: Seq<u8>,
    install_root: Seq<u8>,
) -> Seq<u8> {
    match step {
        ResolveStep::UseDebugRoot => debug_root,
        ResolveStep::ReconcileThenInstallRoot => install_root,
    }
}

/// Finish a resolution. The reconcile outcome (absent on the debug path,
/// which never runs one) is acknowledged and discarded: the result never
/// depends on it, so an injected oracle or installer failure leaves the
/// returned location exactly as it would have been. Resolution always
/// returns a location; it has no failure case.
pub fn resolved_location(
    step: &ResolveStep,
    outcome: &Option<Result<(), ReconcileError>>,
    debug_root: &Vec<u8>,
    install_root: &Vec<u8>,
) -> (r: Vec<u8>)
    ensures
        r@ == spec_resolved_location(*step, debug_root@, install_root@),
{
    match step {
        ResolveStep::UseDebugRoot => copy_bytes(debug_root),
        ResolveStep::ReconcileThenInstallRoot => copy_bytes(install_root),
    }
}

} // verus!

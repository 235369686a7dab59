use css_modules_kit::reconcile::{
    InstallPlan, ReconcileError, VersionInfo, acknowledge, artifact_identity_bytes,
    current_note_bytes, install_note_bytes, install_plan,
};
use css_modules_kit::resolve::{ResolveStep, resolve_step, resolved_location};

#[test]
fn equal_versions_mean_no_install_call() {
    let info = VersionInfo {
        installed: Some(b"1.2.3".to_vec()),
        latest: b"1.2.3".to_vec(),
    };
    assert!(matches!(install_plan(&info), InstallPlan::Skip));
}

#[test]
fn differing_version_installs_the_latest() {
    let info = VersionInfo {
        installed: Some(b"1.2.3".to_vec()),
        latest: b"1.3.0".to_vec(),
    };
    match install_plan(&info) {
        InstallPlan::Install(v) => assert_eq!(v, b"1.3.0".to_vec()),
        InstallPlan::Skip => panic!("expected an install"),
    }
}

#[test]
fn absent_version_installs_the_latest() {
    let info = VersionInfo {
        installed: None,
        latest: b"2.0.0".to_vec(),
    };
    match install_plan(&info) {
        InstallPlan::Install(v) => assert_eq!(v, b"2.0.0".to_vec()),
        InstallPlan::Skip => panic!("expected an install"),
    }
}

#[test]
fn debug_marker_short_circuits_to_debug_root() {
    let step = resolve_step(&Some(b"1".to_vec()));
    assert!(matches!(step, ResolveStep::UseDebugRoot));
    let loc = resolved_location(&step, &None, &b"/work/tree".to_vec(), &b"/ext/dir".to_vec());
    assert_eq!(loc, b"/work/tree".to_vec());
}

#[test]
fn other_override_values_take_the_standard_path() {
    assert!(matches!(
        resolve_step(&Some(b"0".to_vec())),
        ResolveStep::ReconcileThenInstallRoot
    ));
    assert!(matches!(
        resolve_step(&Some(b"true".to_vec())),
        ResolveStep::ReconcileThenInstallRoot
    ));
    assert!(matches!(resolve_step(&None), ResolveStep::ReconcileThenInstallRoot));
}

#[test]
fn injected_failures_leave_the_location_unchanged() {
    let step = resolve_step(&None);
    let dbg = b"/work/tree".to_vec();
    let ins = b"/ext/dir".to_vec();
    let on_ok = resolved_location(&step, &Some(Ok(())), &dbg, &ins);
    let on_lookup_err = resolved_location(
        &step,
        &Some(Err(ReconcileError::VersionLookupFailed)),
        &dbg,
        &ins,
    );
    let on_install_err =
        resolved_location(&step, &Some(Err(ReconcileError::InstallFailed)), &dbg, &ins);
    assert_eq!(on_ok, b"/ext/dir".to_vec());
    assert_eq!(on_lookup_err, on_ok);
    assert_eq!(on_install_err, on_ok);
}

#[test]
fn failure_is_acknowledged_with_a_note_not_propagated() {
    assert!(acknowledge(&Ok(())).is_none());
    let note = acknowledge(&Err(ReconcileError::InstallFailed)).unwrap();
    assert_eq!(
        note,
        b"Failed to install or update ts-plugin. Please try again later.".to_vec()
    );
}

#[test]
fn the_artifact_identity_is_the_plugin_package() {
    assert_eq!(artifact_identity_bytes(), b"@css-modules-kit/ts-plugin".to_vec());
}

#[test]
fn current_note_reports_already_installed() {
    assert_eq!(current_note_bytes(), b"ts-plugin already installed".to_vec());
}

#[test]
fn install_note_names_package_and_version() {
    assert_eq!(
        install_note_bytes(&b"1.3.0".to_vec()),
        b"installing @css-modules-kit/ts-plugin@1.3.0".to_vec()
    );
}

use css_modules_kit::config::{initialization_options, workspace_configuration};

#[test]
fn typescript_language_server_gets_plugin_list() {
    let r = initialization_options(
        &b"typescript-language-server".to_vec(),
        &b"/ext/dir".to_vec(),
    )
    .unwrap();
    assert_eq!(
        r,
        b"{\"plugins\":[{\"name\":\"@css-modules-kit/ts-plugin\",\"location\":\"/ext/dir\",\"languages\":[\"css\"]}]}"
            .to_vec()
    );
    // the payload is valid JSON of the expected shape
    let v: serde_json::Value = serde_json::from_slice(&r).unwrap();
    assert_eq!(v["plugins"][0]["name"], "@css-modules-kit/ts-plugin");
    assert_eq!(v["plugins"][0]["location"], "/ext/dir");
    assert_eq!(v["plugins"][0]["languages"][0], "css");
}

#[test]
fn vtsls_gets_global_plugins_with_workspace_flag() {
    let r = workspace_configuration(&b"vtsls".to_vec(), &b"/ext/dir".to_vec()).unwrap();
    assert_eq!(
        r,
        b"{\"vtsls\":{\"tsserver\":{\"globalPlugins\":[{\"name\":\"@css-modules-kit/ts-plugin\",\"location\":\"/ext/dir\",\"enableForWorkspaceTypeScriptVersions\":true,\"languages\":[\"css\"]}]}}}"
            .to_vec()
    );
    let v: serde_json::Value = serde_json::from_slice(&r).unwrap();
    let p = &v["vtsls"]["tsserver"]["globalPlugins"][0];
    assert_eq!(p["enableForWorkspaceTypeScriptVersions"], true);
    assert_eq!(p["name"], "@css-modules-kit/ts-plugin");
}

#[test]
fn other_targets_get_no_configuration() {
    assert!(initialization_options(&b"vtsls".to_vec(), &b"/x".to_vec()).is_none());
    assert!(initialization_options(&b"rust-analyzer".to_vec(), &b"/x".to_vec()).is_none());
    assert!(workspace_configuration(&b"typescript-language-server".to_vec(), &b"/x".to_vec())
        .is_none());
}

#[test]
fn location_is_escaped_as_a_json_string() {
    let r = initialization_options(
        &b"typescript-language-server".to_vec(),
        &b"C:\\work\\a\"b".to_vec(),
    )
    .unwrap();
    let v: serde_json::Value = serde_json::from_slice(&r).unwrap();
    assert_eq!(v["plugins"][0]["location"], "C:\\work\\a\"b");
}

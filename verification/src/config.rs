//! Configuration payloads for the two known downstream language tools, as
//! JSON text: a plugin descriptor naming the artifact, the resolved location
//! and the languages it serves, nested the way each tool expects. Any other
//! target identity gets no configuration at all.

use vstd::prelude::*;
use vstd::string::StrSliceExecFns;
use vstd::string::StringSliceAdditionalSpecFns;
use crate::text::{append_bytes, bytes_eq, escape_json_bytes, json_escaped};

verus! {

/// Identity of the first known downstream tool.
pub open spec fn ts_language_server_id() -> Seq<u8> {
    "typescript-language-server".spec_bytes()
}

/// Identity of the second known downstream tool.
pub open spec fn vtsls_id() -> Seq<u8> {
    "vtsls".spec_bytes()
}

/// Initialization options for the first tool: one plugin descriptor, under
/// its `plugins` key, with the location as a JSON string literal.
pub open spec fn spec_initialization_options(location: Seq<u8>) -> Seq<u8> {
    "{\"plugins\":[{\"name\":\"@css-modules-kit/ts-plugin\",\"location\":\"".spec_bytes()
        + json_escaped(location) + "\",\"languages\":[\"css\"]}]}".spec_bytes()
}

/// Workspace configuration for the second tool: the same descriptor, plus the
/// flag enabling the plugin for all workspace compiler versions, nested under
/// its global-plugins key.
pub open spec fn spec_workspace_configuration(location: Seq<u8>) -> Seq<u8> {
    "{\"vtsls\":{\"tsserver\":{\"globalPlugins\":[{\"name\":\"@css-modules-kit/ts-plugin\",\"location\":\"".spec_bytes()
        + json_escaped(location)
        + "\",\"enableForWorkspaceTypeScriptVersions\":true,\"languages\":[\"css\"]}]}}}".spec_bytes()
}

/// Additional initialization options for a downstream tool, as JSON text:
/// present exactly for the TypeScript language server, absent (not an error)
/// for every other identity.
pub fn initialization_options(target: &Vec<u8>, location: &Vec<u8>) -> (r: Option<Vec<u8>>)
    ensures
        target@ == ts_language_server_id() ==> (r matches Some(v) && v@
            == spec_initialization_options(location@)),
        target@ != ts_language_server_id() ==> r is None,
{
    if bytes_eq(target, &"typescript-language-server".as_bytes_vec()) {
        let mut v = "{\"plugins\":[{\"name\":\"@css-modules-kit/ts-plugin\",\"location\":\"".as_bytes_vec();
        let esc = escape_json_bytes(location);
        append_bytes(&mut v, &esc);
        let tail = "\",\"languages\":[\"css\"]}]}".as_bytes_vec();
        append_bytes(&mut v, &tail);
        proof {
            assert(v@ =~= spec_initialization_options(location@));
        }
        Some(v)
    } else {
        None
    }
}

/// Additional workspace configuration for a downstream tool, as JSON text:
/// present exactly for the second known tool, absent for every other
/// identity.
pub fn workspace_configuration(target: &Vec<u8>, location: &Vec<u8>) -> (r: Option<Vec<u8>>)
    ensures
        target@ == vtsls_id() ==> (r matches Some(v) && v@ == spec_workspace_configuration(
            location@,
        )),
        target@ != vtsls_id() ==> r is None,
{
    if bytes_eq(target, &"vtsls".as_bytes_vec()) {
        let mut v =
            "{\"vtsls\":{\"tsserver\":{\"globalPlugins\":[{\"name\":\"@css-modules-kit/ts-plugin\",\"location\":\"".as_bytes_vec();
        let esc = escape_json_bytes(location);
        append_bytes(&mut v, &esc);
        let tail =
            "\",\"enableForWorkspaceTypeScriptVersions\":true,\"languages\":[\"css\"]}]}}}".as_bytes_vec();
        append_bytes(&mut v, &tail);
        proof {
            assert(v@ =~= spec_workspace_configuration(location@));
        }
        Some(v)
    } else {
        None
    }
}

} // verus!

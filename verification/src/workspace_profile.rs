//! The per-workspace Codex profile kept by the connector: where it lives,
//! when it can be reused, and what its fixed configuration must satisfy.
use vstd::prelude::*;
use vstd::string::StringSliceAdditionalSpecFns;
use crate::codec::{hex_chars, hex_encode};
use crate::projects::{join_path, join_path_exec};
use crate::text::{trim, trim_chars, chars_of, chars_eq, has_prefix, starts_with, decimal, decimal_string, string_from_chars};

verus! {

/// The version of a profile's metadata.
pub const PROFILE_SCHEMA_VERSION: u32 = 1;
/// The version of the profile configuration the connector ships.
pub const PROFILE_CONFIG_SCHEMA_VERSION: u32 = 1;

/// Where a workspace's profile state lives: under the connector's home, by
/// the environment (hex of its bytes) and the workspace ID.
pub open spec fn profile_state_dir(connector_home: Seq<char>, environment: Seq<u8>, workspace_id: u64) -> Seq<char> {
    join_path(
        join_path(join_path(connector_home, "workspace-profiles"@), hex_chars(environment)),
        decimal(workspace_id as nat),
    )
}

/// The directory of a workspace's profile state.
pub fn state_dir(connector_home: &str, environment: &str, workspace_id: u64) -> (r: String)
    ensures
        r@ == profile_state_dir(connector_home@, environment.spec_bytes(), workspace_id),
{
    let home = chars_of(connector_home);
    let a = join_path_exec(home.as_slice(), chars_of("workspace-profiles").as_slice());
    let hex = hex_encode(environment.as_bytes());
    let b = join_path_exec(a.as_slice(), chars_of(hex.as_str()).as_slice());
    let id = decimal_string(workspace_id);
    let c = join_path_exec(b.as_slice(), chars_of(id.as_str()).as_slice());
    string_from_chars(c.as_slice())
}

/// The Codex home of a workspace's profile.
pub fn profile_home(connector_home: &str, environment: &str, workspace_id: u64) -> (r: String)
    ensures
        r@ == join_path(profile_state_dir(connector_home@, environment.spec_bytes(), workspace_id), "codex-home"@),
{
    let d = state_dir(connector_home, environment, workspace_id);
    let j = join_path_exec(chars_of(d.as_str()).as_slice(), chars_of("codex-home").as_slice());
    string_from_chars(j.as_slice())
}

/// A profile's recorded metadata.
#[derive(Clone, Debug)]
pub struct ProfileMetadata {
    pub schema_version: u32,
    pub environment: String,
    pub workspace_id: u64,
    pub workspace_name: String,
    pub created_at_epoch_seconds: u64,
    pub updated_at_epoch_seconds: u64,
}

/// The recorded profile is of the current format and for this environment
/// and workspace.
pub fn metadata_matches(metadata: &Option<ProfileMetadata>, environment: &str, workspace_id: u64) -> (r: bool)
    ensures
        r == (metadata matches Some(m) && m.schema_version == PROFILE_SCHEMA_VERSION && m.environment@
            == environment@ && m.workspace_id == workspace_id),
{
    match metadata {
        Some(m) => m.schema_version == PROFILE_SCHEMA_VERSION && chars_eq(
            chars_of(m.environment.as_str()).as_slice(),
            chars_of(environment).as_slice(),
        ) && m.workspace_id == workspace_id,
        None => false,
    }
}

/// The profile's `auth.json` holds an API key that is not blank.
pub fn auth_file_ready(api_key: &Option<String>) -> (r: bool)
    ensures
        r == (api_key matches Some(k) && trim(k@).len() > 0),
{
    match api_key {
        Some(k) => trim_chars(chars_of(k.as_str()).as_slice()).len() > 0,
        None => false,
    }
}

/// The profile configuration the connector ships.
#[derive(Clone, Debug)]
pub struct WorkspaceProfileConfig {
    pub schema_version: u32,
    pub default_model: String,
    pub router_provider: String,
    pub router_base_url: String,
}

/// The shipped configuration is usable: its format is current, the model
/// and provider are named, and the router is reached over HTTPS.
pub fn profile_config_valid(config: &WorkspaceProfileConfig) -> (r: bool)
    ensures
        r == (config.schema_version == PROFILE_CONFIG_SCHEMA_VERSION && trim(config.default_model@).len() > 0
            && trim(config.router_provider@).len() > 0 && has_prefix(config.router_base_url@, "https://"@)),
{
    config.schema_version == PROFILE_CONFIG_SCHEMA_VERSION && trim_chars(
        chars_of(config.default_model.as_str()).as_slice(),
    ).len() > 0 && trim_chars(chars_of(config.router_provider.as_str()).as_slice()).len() > 0 && starts_with(
        chars_of(config.router_base_url.as_str()).as_slice(),
        chars_of("https://").as_slice(),
    )
}

/// Why a profile cannot be prepared.
#[derive(Clone, Copy, Debug, PartialEq, Eq)]
pub enum ProfileError {
    /// The workspace ID is 0.
    InvalidWorkspace,
    /// The device is not authorised for the workspace.
    NotAuthorized,
}

/// A profile is prepared only for a positive workspace the signed-in
/// device is authorised for.
pub fn ensure_precheck(workspace_id: u64, authenticated: bool, workspace_ids: &Vec<u64>) -> (r: Result<(), ProfileError>)
    ensures
        workspace_id == 0 ==> r == Err::<(), ProfileError>(ProfileError::InvalidWorkspace),
        workspace_id != 0 && !(authenticated && workspace_ids@.contains(workspace_id)) ==> r == Err::<(), ProfileError>(
            ProfileError::NotAuthorized,
        ),
        workspace_id != 0 && authenticated && workspace_ids@.contains(workspace_id) ==> r == Ok::<(), ProfileError>(()),
{
    if workspace_id == 0 {
        return Err(ProfileError::InvalidWorkspace);
    }
    if !authenticated {
        return Err(ProfileError::NotAuthorized);
    }
    let n = workspace_ids.len();
    let mut i: usize = 0;
    while i < n
        invariant
            i <= n,
            n == workspace_ids@.len(),
            forall|k: int| 0 <= k < i ==> workspace_ids@[k] != workspace_id,
            workspace_id != 0,
            authenticated,
        decreases n - i,
    {
        if workspace_ids[i] == workspace_id {
            assert(workspace_ids@[i as int] == workspace_id);
            return Ok(());
        }
        i = i + 1;
    }
    Err(ProfileError::NotAuthorized)
}

/// When a regenerated profile counts as created: the earlier creation time
/// when the earlier metadata is for the same environment and workspace,
/// else now.
pub fn created_at(previous: &Option<ProfileMetadata>, environment: &str, workspace_id: u64, now: u64) -> (r: u64)
    ensures
        (previous matches Some(m) && m.environment@ == environment@ && m.workspace_id == workspace_id) ==> r
            == previous->Some_0.created_at_epoch_seconds,
        !(previous matches Some(m) && m.environment@ == environment@ && m.workspace_id == workspace_id) ==> r == now,
{
    match previous {
        Some(m) => {
            if chars_eq(chars_of(m.environment.as_str()).as_slice(), chars_of(environment).as_slice())
                && m.workspace_id == workspace_id {
                m.created_at_epoch_seconds
            } else {
                now
            }
        },
        None => now,
    }
}

} // verus!

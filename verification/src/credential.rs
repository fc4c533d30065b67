//! Workspace credentials: the machine authorisations shared with the
//! `baijimu` CLI, the choice of token for a workspace, the current
//! workspace, and the credential state shown to the user.
use vstd::prelude::*;
use crate::baijimu_cli::{strictly_increasing, sorted_unique, sorted_unique_of};
use crate::order::{Named, sort_by_name, sort_by_name_exec};
use crate::projects::opt_view;
use crate::text::{
    trim, trim_chars, chars_of, chars_eq, string_from_chars, has_suffix, ends_with, slice_range,
    compact, compact_text, decimal, decimal_string, contains_seq, contains_chars, lemma_trim_idempotent,
};

verus! {

/// Model that a workspace profile is set up with.
pub const DEFAULT_MODEL: &'static str = "gpt-5.6-sol";

/// First line of the block this connector writes into Codex's configuration.
pub const MANAGED_BLOCK_START: &'static str = "# >>> baijimu managed codex router";

/// A workspace the connector has been set up for.
#[derive(Clone, Debug, PartialEq, Eq)]
pub struct CredentialProfile {
    pub workspace_id: u64,
    pub workspace_name: String,
    pub model: String,
    pub activated_at_epoch_seconds: u64,
}

/// A workspace the user can pick.
#[derive(Clone, Debug)]
pub struct WorkspaceOption {
    pub workspace_id: u64,
    pub name: String,
}

/// What the credential manager shows.
#[derive(Clone, Debug)]
pub struct CredentialManagerState {
    pub current_workspace_id: Option<u64>,
    pub codex_configured: bool,
    pub credential_status: String,
    pub active_profile: Option<CredentialProfile>,
    pub profiles: Vec<CredentialProfile>,
    pub workspaces: Vec<WorkspaceOption>,
    pub discovery_warning: Option<String>,
    pub shared_auth_path: String,
    pub codex_auth_path: String,
    pub codex_config_path: String,
}

/// One machine authorisation: the workspaces it covers (positive, sorted,
/// distinct, never empty), its token (trimmed, never empty) and when it was
/// issued.
#[derive(Clone, Debug)]
pub struct LocalMachineCredential {
    pub workspace_ids: Vec<u64>,
    pub token: String,
    pub issued_at_epoch_seconds: u64,
}

/// The machine authorisations shared with the `baijimu` CLI.
#[derive(Clone, Debug)]
pub struct SharedCredentialStore {
    pub base_url: String,
    pub current_workspace_id: Option<u64>,
    pub credentials: Vec<LocalMachineCredential>,
}

/// One entry of the shared authorisation file as written, before it is
/// checked: the integers of `workspaceIds`, `workspaceId`, `token` and
/// `issuedAtEpochSeconds` where they have that type.
#[derive(Clone, Debug)]
pub struct CredentialEntry {
    pub workspace_ids: Vec<u64>,
    pub workspace_id: Option<u64>,
    pub token: Option<String>,
    pub issued_at_epoch_seconds: Option<u64>,
}

/// A key of the shared authorisation file that should hold a list.
#[derive(Clone, Debug)]
pub enum EntryList {
    Absent,
    NotAList,
    List(Vec<CredentialEntry>),
}

/// A named environment of the shared authorisation file, with its
/// `baseUrl` where that is a string.
#[derive(Clone, Debug)]
pub struct EnvironmentEntry {
    pub name: String,
    pub base_url: Option<String>,
}

/// The shared authorisation file, as far as the connector reads it.
#[derive(Clone, Debug)]
pub struct AuthDocument {
    pub current_environment: Option<String>,
    pub environments: Vec<EnvironmentEntry>,
    pub current_workspace_id: Option<u64>,
    pub credentials: EntryList,
    pub machine_credentials: EntryList,
}

/// Why a credential operation was refused.
#[derive(Clone, Debug, PartialEq, Eq)]
pub enum CredentialError {
    /// The shared file holds no usable authorisation.
    NoCredentials,
    /// No workspace is authorised on this machine.
    NoWorkspace,
    /// Several workspaces are authorised and none is current.
    AmbiguousWorkspace,
    /// A workspace ID of 0 was asked for.
    InvalidWorkspaceId,
    /// The client's workspace differs from the current one of the machine:
    /// the client's, then the machine's.
    WorkspaceMismatch(u64, u64),
    /// No authorisation covers the client's workspace.
    NoTokenForWorkspace,
    /// The platform answered without an LLM credential.
    MissingLlmCredential,
    /// The freshly issued credential was not accepted by the platform.
    CredentialRejected,
    /// The validation answer names no workspace.
    MissingValidatedWorkspace,
    /// The credential belongs to another workspace: expected, actual.
    OwnershipMismatch(u64, u64),
    /// The platform issued a project-level credential.
    ProjectScopedCredential,
    /// The platform reported an error: its message and code.
    Platform(String, String),
    /// The platform answered with an HTTP failure: status and body excerpt.
    Http(String, String),
}

// ---------------------------------------------------------------------------
// Base URL

/// `s` without its trailing `c` characters (`trim_end_matches(c)`).
pub open spec fn trim_end_char(s: Seq<char>, c: char) -> Seq<char>
    decreases s.len(),
{
    if s.len() > 0 && s.last() == c {
        trim_end_char(s.drop_last(), c)
    } else {
        s
    }
}

/// The platform root for a configured base URL: trimmed, trailing slashes
/// and a `/lowcode3` suffix removed, and the public website mapped to the
/// API origin.
pub open spec fn root_url(base_url: Seq<char>) -> Seq<char> {
    let t = trim_end_char(trim(base_url), '/');
    let root = if has_suffix(t, "/lowcode3"@) {
        t.subrange(0, t.len() - "/lowcode3"@.len())
    } else {
        t
    };
    if root == "https://www.baijimu.com"@ || root == "https://baijimu.com"@ {
        "https://api.baijimu.com"@
    } else {
        root
    }
}

fn own(s: &str) -> (r: String)
    ensures
        r@ == s@,
{
    String::from_str(s)
}

fn trim_end_slashes(s: &[char]) -> (n: usize)
    ensures
        n <= s@.len(),
        s@.subrange(0, n as int) == trim_end_char(s@, '/'),
{
    let mut n = s.len();
    assert(s@.subrange(0, n as int) =~= s@);
    while n > 0 && s[n - 1] == '/'
        invariant
            n <= s@.len(),
            trim_end_char(s@.subrange(0, n as int), '/') == trim_end_char(s@, '/'),
        decreases n,
    {
        assert(s@.subrange(0, n as int).drop_last() =~= s@.subrange(0, n - 1));
        n = n - 1;
    }
    assert(trim_end_char(s@.subrange(0, n as int), '/') == s@.subrange(0, n as int));
    n
}

/// Maps the configured base URL to the platform's API root.
pub fn normalize_baijimu_root_url(base_url: &str) -> (r: String)
    ensures
        r@ == root_url(base_url@),
{
    let t0 = trim_chars(chars_of(base_url).as_slice());
    let n = trim_end_slashes(t0.as_slice());
    let t = slice_range(t0.as_slice(), 0, n);
    let suffix = chars_of("/lowcode3");
    let root = if ends_with(t.as_slice(), suffix.as_slice()) {
        slice_range(t.as_slice(), 0, t.len() - suffix.len())
    } else {
        t
    };
    let www = chars_of("https://www.baijimu.com");
    let bare = chars_of("https://baijimu.com");
    if chars_eq(root.as_slice(), www.as_slice()) || chars_eq(root.as_slice(), bare.as_slice()) {
        own("https://api.baijimu.com")
    } else {
        string_from_chars(root.as_slice())
    }
}

// ---------------------------------------------------------------------------
// The shared authorisation file

/// The positive workspace IDs an entry names.
pub open spec fn entry_ids(e: CredentialEntry) -> Set<u64> {
    let listed = e.workspace_ids@.to_set().filter(|id: u64| id > 0);
    match e.workspace_id {
        Some(id) => if id > 0 { listed.insert(id) } else { listed },
        None => listed,
    }
}

/// The entry is usable: it has a token that is not blank and names at least
/// one positive workspace.
pub open spec fn entry_usable(e: CredentialEntry) -> bool {
    &&& e.token matches Some(t) && trim(t@).len() > 0
    &&& entry_ids(e).len() > 0
}

/// `c` is what a usable entry `e` becomes.
pub open spec fn credential_from(e: CredentialEntry, c: LocalMachineCredential) -> bool {
    &&& strictly_increasing(c.workspace_ids@)
    &&& c.workspace_ids@.to_set() == entry_ids(e)
    &&& (e.token matches Some(t) && c.token@ == trim(t@))
    &&& c.issued_at_epoch_seconds == (match e.issued_at_epoch_seconds {
        Some(v) => v,
        None => 0,
    })
}

/// A credential as the store keeps it.
pub open spec fn credential_wf(c: LocalMachineCredential) -> bool {
    strictly_increasing(c.workspace_ids@) && c.workspace_ids@.len() > 0 && trim(c.token@) == c.token@
        && c.token@.len() > 0
}

/// Reads one entry of the shared authorisation file: the workspace IDs are
/// gathered from both keys, zeros dropped, sorted and made distinct; the
/// token is trimmed; a missing issue time counts as 0.
pub fn local_credential(entry: &CredentialEntry) -> (r: Option<LocalMachineCredential>)
    ensures
        r is Some <==> entry_usable(*entry),
        r matches Some(c) ==> credential_from(*entry, c) && c.workspace_ids@.len() > 0,
{
    let n = entry.workspace_ids.len();
    let mut ids: Vec<u64> = Vec::new();
    let mut i: usize = 0;
    while i < n
        invariant
            i <= n,
            n == entry.workspace_ids@.len(),
            ids@.to_set() == entry.workspace_ids@.subrange(0, i as int).to_set().filter(|id: u64| id > 0),
        decreases n - i,
    {
        let id = entry.workspace_ids[i];
        let ghost prev = entry.workspace_ids@.subrange(0, i as int);
        let ghost next = entry.workspace_ids@.subrange(0, i as int + 1);
        assert(next =~= prev.push(id));
        assert(next.to_set() =~= prev.to_set().insert(id)) by {
            assert forall|y: u64| next.to_set().contains(y) implies prev.to_set().insert(id).contains(y) by {
                let k = choose|k: int| 0 <= k < next.len() && next[k] == y;
                if k < i {
                    assert(prev[k] == y);
                }
            }
            assert forall|y: u64| prev.to_set().insert(id).contains(y) implies next.to_set().contains(y) by {
                if y == id {
                    assert(next[i as int] == y);
                } else {
                    let k = choose|k: int| 0 <= k < prev.len() && prev[k] == y;
                    assert(next[k] == y);
                }
            }
        }
        if id > 0 {
            let ghost old_ids = ids@;
            ids.push(id);
            assert(ids@.drop_last() =~= old_ids);
            assert(ids@.to_set() =~= next.to_set().filter(|id: u64| id > 0)) by {
                assert(ids@.to_set() =~= old_ids.to_set().insert(id)) by {
                    let a = ids@;
                    let b = ids@.drop_last();
                    assert forall|y: u64| a.to_set().contains(y) implies b.to_set().insert(id).contains(y) by {
                        let k = choose|k: int| 0 <= k < a.len() && a[k] == y;
                        if k < a.len() - 1 {
                            assert(b[k] == y);
                        }
                    }
                    assert forall|y: u64| b.to_set().insert(id).contains(y) implies a.to_set().contains(y) by {
                        if y == id {
                            assert(a[a.len() - 1] == y);
                        } else {
                            let k = choose|k: int| 0 <= k < b.len() && b[k] == y;
                            assert(a[k] == y);
                        }
                    }
                }
            }
        } else {
            assert(ids@.to_set() =~= next.to_set().filter(|id: u64| id > 0));
        }
        i = i + 1;
    }
    assert(entry.workspace_ids@.subrange(0, n as int) =~= entry.workspace_ids@);
    let ghost listed = ids@.to_set();
    match entry.workspace_id {
        Some(id) => {
            if id > 0 {
                let ghost old_ids = ids@;
                ids.push(id);
                assert(ids@.drop_last() =~= old_ids);
                assert(ids@.to_set() =~= listed.insert(id)) by {
                    let a = ids@;
                    let b = old_ids;
                    assert forall|y: u64| a.to_set().contains(y) implies listed.insert(id).contains(y) by {
                        let k = choose|k: int| 0 <= k < a.len() && a[k] == y;
                        if k < a.len() - 1 {
                            assert(b[k] == y);
                        }
                    }
                    assert forall|y: u64| listed.insert(id).contains(y) implies a.to_set().contains(y) by {
                        if y == id {
                            assert(a[a.len() - 1] == y);
                        } else {
                            let k = choose|k: int| 0 <= k < b.len() && b[k] == y;
                            assert(a[k] == y);
                        }
                    }
                }
            }
        },
        None => {},
    }
    assert(ids@.to_set() == entry_ids(*entry));
    let sorted = sorted_unique(ids.as_slice());
    let token = match &entry.token {
        Some(t) => trim_chars(chars_of(t.as_str()).as_slice()),
        None => {
            return None;
        },
    };
    if token.len() == 0 || sorted.len() == 0 {
        proof {
            if sorted.len() == 0 {
                assert(sorted@.to_set() =~= Set::<u64>::empty());
            }
        }
        return None;
    }
    proof {
        assert(sorted@.to_set().contains(sorted@[0]));
        assert(entry_ids(*entry).contains(sorted@[0]));
        vstd::set_lib::lemma_set_empty_equivalency_len(entry_ids(*entry));
        assert(entry_ids(*entry).finite()) by {
            assert(entry_ids(*entry) == sorted@.to_set());
        }
    }
    let issued = match entry.issued_at_epoch_seconds {
        Some(v) => v,
        None => 0,
    };
    Some(LocalMachineCredential {
        workspace_ids: sorted,
        token: string_from_chars(token.as_slice()),
        issued_at_epoch_seconds: issued,
    })
}

/// The entries the store is read from: `credentials`, or
/// `machineCredentials` when that key is absent; a key holding something
/// other than a list gives none.
pub open spec fn entries_of(doc: AuthDocument) -> Seq<CredentialEntry> {
    let chosen = match doc.credentials {
        EntryList::Absent => doc.machine_credentials,
        other => other,
    };
    match chosen {
        EntryList::List(v) => v@,
        _ => Seq::empty(),
    }
}

/// The base URL configured for the environment in use (`prod` unless one
/// is named), or the public website when none is configured.
pub open spec fn configured_base_url(doc: AuthDocument) -> Seq<char> {
    let env = match doc.current_environment {
        Some(e) => e@,
        None => "prod"@,
    };
    match first_environment(doc.environments@, env) {
        Some(u) => u,
        None => "https://www.baijimu.com"@,
    }
}

/// The `baseUrl` of the first environment named `env`, where it has one.
pub open spec fn first_environment(envs: Seq<EnvironmentEntry>, env: Seq<char>) -> Option<Seq<char>>
    decreases envs.len(),
{
    if envs.len() == 0 {
        None
    } else if envs[0].name@ == env {
        match envs[0].base_url {
            Some(u) => Some(u@),
            None => None,
        }
    } else {
        first_environment(envs.drop_first(), env)
    }
}

/// The usable entries, in order, each read by [`local_credential`].
pub open spec fn usable_count(entries: Seq<CredentialEntry>) -> nat
    decreases entries.len(),
{
    if entries.len() == 0 {
        0
    } else {
        usable_count(entries.drop_last()) + if entry_usable(entries.last()) { 1nat } else { 0nat }
    }
}

/// `creds` is what the usable entries among `entries` become, in order.
pub open spec fn credentials_from(entries: Seq<CredentialEntry>, creds: Seq<LocalMachineCredential>) -> bool
    decreases entries.len(),
{
    if entries.len() == 0 {
        creds.len() == 0
    } else if entry_usable(entries.last()) {
        creds.len() > 0 && credential_from(entries.last(), creds.last())
            && credentials_from(entries.drop_last(), creds.drop_last())
    } else {
        credentials_from(entries.drop_last(), creds)
    }
}

/// A store as the connector keeps it: every credential checked.
pub open spec fn store_wf(store: SharedCredentialStore) -> bool {
    forall|i: int| 0 <= i < store.credentials@.len() ==> credential_wf(#[trigger] store.credentials@[i])
}

proof fn lemma_credentials_from_len(entries: Seq<CredentialEntry>, creds: Seq<LocalMachineCredential>)
    requires
        credentials_from(entries, creds),
    ensures
        creds.len() == usable_count(entries),
    decreases entries.len(),
{
    if entries.len() > 0 {
        if entry_usable(entries.last()) {
            lemma_credentials_from_len(entries.drop_last(), creds.drop_last());
        } else {
            lemma_credentials_from_len(entries.drop_last(), creds);
        }
    }
}

fn base_url_of(doc: &AuthDocument) -> (r: String)
    ensures
        r@ == configured_base_url(*doc),
{
    let prod = own("prod");
    let env: &String = match &doc.current_environment {
        Some(e) => e,
        None => &prod,
    };
    let env_chars = chars_of(env.as_str());
    let n = doc.environments.len();
    let mut i: usize = 0;
    assert(doc.environments@.subrange(0, n as int) =~= doc.environments@);
    while i < n
        invariant
            i <= n,
            n == doc.environments@.len(),
            env_chars@ == (match doc.current_environment {
                Some(e) => e@,
                None => "prod"@,
            }),
            first_environment(doc.environments@, env_chars@) == first_environment(
                doc.environments@.subrange(i as int, n as int),
                env_chars@,
            ),
        decreases n - i,
    {
        let entry = &doc.environments[i];
        let ghost rest = doc.environments@.subrange(i as int, n as int);
        assert(rest.drop_first() =~= doc.environments@.subrange(i as int + 1, n as int));
        let name = chars_of(entry.name.as_str());
        if chars_eq(name.as_slice(), env_chars.as_slice()) {
            match &entry.base_url {
                Some(u) => return u.clone(),
                None => return own("https://www.baijimu.com"),
            }
        }
        i = i + 1;
    }
    own("https://www.baijimu.com")
}

/// Reads the shared authorisation file: the usable entries become the
/// credentials, in order; the configured base URL is mapped to the API root;
/// a file without any usable entry is refused.
pub fn shared_credential_store(doc: &AuthDocument) -> (r: Result<SharedCredentialStore, CredentialError>)
    ensures
        usable_count(entries_of(*doc)) == 0 <==> r == Err::<SharedCredentialStore, CredentialError>(
            CredentialError::NoCredentials,
        ),
        usable_count(entries_of(*doc)) > 0 ==> r is Ok,
        r matches Ok(store) ==> {
            &&& store.base_url@ == root_url(configured_base_url(*doc))
            &&& store.current_workspace_id == doc.current_workspace_id
            &&& credentials_from(entries_of(*doc), store.credentials@)
            &&& store_wf(store)
        },
{
    let empty: Vec<CredentialEntry> = Vec::new();
    let chosen: &EntryList = match &doc.credentials {
        EntryList::Absent => &doc.machine_credentials,
        other => other,
    };
    let entries: &Vec<CredentialEntry> = match chosen {
        EntryList::List(v) => v,
        _ => &empty,
    };
    assert(entries@ == entries_of(*doc));
    let n = entries.len();
    let mut creds: Vec<LocalMachineCredential> = Vec::new();
    let mut i: usize = 0;
    while i < n
        invariant
            i <= n,
            n == entries@.len(),
            credentials_from(entries@.subrange(0, i as int), creds@),
            forall|k: int| 0 <= k < creds@.len() ==> credential_wf(#[trigger] creds@[k]),
        decreases n - i,
    {
        let ghost prefix = entries@.subrange(0, i as int + 1);
        assert(prefix.drop_last() =~= entries@.subrange(0, i as int));
        match local_credential(&entries[i]) {
            Some(c) => {
                proof {
                    assert(trim(trim(entries@[i as int].token->Some_0@)) == trim(entries@[i as int].token->Some_0@))
                        by { crate::text::lemma_trim_idempotent(entries@[i as int].token->Some_0@); }
                }
                let ghost before = creds@;
                creds.push(c);
                assert(creds@.drop_last() =~= before);
            },
            None => {},
        }
        i = i + 1;
    }
    assert(entries@.subrange(0, n as int) =~= entries@);
    proof {
        lemma_credentials_from_len(entries@, creds@);
    }
    if creds.len() == 0 {
        return Err(CredentialError::NoCredentials);
    }
    let base = base_url_of(doc);
    Ok(SharedCredentialStore {
        base_url: normalize_baijimu_root_url(base.as_str()),
        current_workspace_id: doc.current_workspace_id,
        credentials: creds,
    })
}

// ---------------------------------------------------------------------------
// Choosing a token and the current workspace

/// The credential at `i` covers `workspace_id`.
pub open spec fn covers(store: SharedCredentialStore, i: int, workspace_id: u64) -> bool {
    0 <= i < store.credentials@.len() && store.credentials@[i].workspace_ids@.contains(workspace_id)
}

/// The credential chosen for `workspace_id`: among those covering it, the
/// one issued last; of equally recent ones, the last in the file
/// (`max_by_key`).
pub open spec fn chosen_credential(store: SharedCredentialStore, workspace_id: u64, i: int) -> bool {
    &&& covers(store, i, workspace_id)
    &&& forall|j: int| #[trigger] covers(store, j, workspace_id) ==> {
        let a = store.credentials@[i].issued_at_epoch_seconds;
        let b = store.credentials@[j].issued_at_epoch_seconds;
        b <= a && (j > i ==> b < a)
    }
}

fn contains_id(ids: &Vec<u64>, id: u64) -> (r: bool)
    ensures
        r == ids@.contains(id),
{
    let n = ids.len();
    let mut i: usize = 0;
    while i < n
        invariant
            i <= n,
            n == ids@.len(),
            forall|k: int| 0 <= k < i ==> ids@[k] != id,
        decreases n - i,
    {
        if ids[i] == id {
            assert(ids@[i as int] == id);
            return true;
        }
        i = i + 1;
    }
    false
}

/// The index of the credential chosen for `workspace_id`, if any covers it.
pub fn select_credential_index(store: &SharedCredentialStore, workspace_id: u64) -> (r: Option<usize>)
    ensures
        match r {
            Some(i) => chosen_credential(*store, workspace_id, i as int),
            None => forall|j: int| !#[trigger] covers(*store, j, workspace_id),
        },
{
    let n = store.credentials.len();
    let mut best: Option<usize> = None;
    let mut i: usize = 0;
    while i < n
        invariant
            i <= n,
            n == store.credentials@.len(),
            match best {
                Some(b) => b < i && covers(*store, b as int, workspace_id) && forall|j: int|
                    0 <= j < i && #[trigger] covers(*store, j, workspace_id) ==> {
                        let a = store.credentials@[b as int].issued_at_epoch_seconds;
                        let c = store.credentials@[j].issued_at_epoch_seconds;
                        c <= a && (j > b ==> c < a)
                    },
                None => forall|j: int| 0 <= j < i ==> !#[trigger] covers(*store, j, workspace_id),
            },
        decreases n - i,
    {
        let c = &store.credentials[i];
        if contains_id(&c.workspace_ids, workspace_id) {
            match best {
                Some(b) => {
                    if store.credentials[b].issued_at_epoch_seconds <= c.issued_at_epoch_seconds {
                        best = Some(i);
                    }
                },
                None => {
                    best = Some(i);
                },
            }
        }
        i = i + 1;
    }
    proof {
        if best is None {
            assert forall|j: int| !#[trigger] covers(*store, j, workspace_id) by {
                if 0 <= j < n {
                }
            }
        }
    }
    best
}

/// The token of the credential chosen for `workspace_id`.
pub fn select_local_machine_token(store: &SharedCredentialStore, workspace_id: u64) -> (r: Option<String>)
    ensures
        match r {
            Some(t) => exists|i: int| chosen_credential(*store, workspace_id, i) && t@ == store.credentials@[i].token@,
            None => forall|j: int| !#[trigger] covers(*store, j, workspace_id),
        },
{
    match select_credential_index(store, workspace_id) {
        Some(i) => {
            let t = store.credentials[i].token.clone();
            assert(chosen_credential(*store, workspace_id, i as int));
            Some(t)
        },
        None => None,
    }
}

/// Every workspace some credential covers.
pub open spec fn covered_ids(store: SharedCredentialStore) -> Set<u64> {
    Set::new(|id: u64| exists|i: int| #[trigger] covers(store, i, id))
}

/// The current workspace: the one the file names when positive, else the
/// only workspace covered; none covered, or several, is an error.
pub open spec fn current_workspace(store: SharedCredentialStore) -> Result<u64, CredentialError> {
    match store.current_workspace_id {
        Some(id) if id > 0 => Ok(id),
        _ => {
            let ids = covered_ids(store);
            if ids.len() == 0 {
                Err(CredentialError::NoWorkspace)
            } else if ids.len() == 1 {
                Ok(ids.choose())
            } else {
                Err(CredentialError::AmbiguousWorkspace)
            }
        },
    }
}

/// The current workspace of the machine.
pub fn current_workspace_id(store: &SharedCredentialStore) -> (r: Result<u64, CredentialError>)
    ensures
        r == current_workspace(*store),
{
    match store.current_workspace_id {
        Some(id) => {
            if id > 0 {
                return Ok(id);
            }
        },
        None => {},
    }
    let n = store.credentials.len();
    let mut all: Vec<u64> = Vec::new();
    let mut i: usize = 0;
    while i < n
        invariant
            i <= n,
            n == store.credentials@.len(),
            all@.to_set() =~= Set::new(|id: u64| exists|k: int| 0 <= k < i && #[trigger] covers(*store, k, id)),
        decreases n - i,
    {
        let ids = &store.credentials[i].workspace_ids;
        let m = ids.len();
        let mut j: usize = 0;
        let ghost start = all@.to_set();
        while j < m
            invariant
                j <= m,
                m == ids@.len(),
                ids@ == store.credentials@[i as int].workspace_ids@,
                all@.to_set() =~= start + ids@.subrange(0, j as int).to_set(),
            decreases m - j,
        {
            let ghost before = all@;
            all.push(ids[j]);
            proof {
                before.lemma_push_to_set_commute(ids@[j as int]);
                ids@.subrange(0, j as int).lemma_push_to_set_commute(ids@[j as int]);
                assert(ids@.subrange(0, j as int + 1) =~= ids@.subrange(0, j as int).push(ids@[j as int]));
            }
            j = j + 1;
        }
        assert(ids@.subrange(0, m as int) =~= ids@);
        assert forall|id: u64| #![trigger all@.to_set().contains(id)]
            all@.to_set().contains(id) <==> exists|k: int| 0 <= k < i + 1 && #[trigger] covers(*store, k, id) by {
            if ids@.to_set().contains(id) {
                assert(ids@.contains(id));
                assert(covers(*store, i as int, id));
            }
            if exists|k: int| 0 <= k < i + 1 && #[trigger] covers(*store, k, id) {
                let k = choose|k: int| 0 <= k < i + 1 && #[trigger] covers(*store, k, id);
                if k == i {
                    assert(ids@.contains(id));
                    assert(ids@.to_set().contains(id));
                }
            }
        }
        i = i + 1;
    }
    let sorted = sorted_unique(all.as_slice());
    proof {
        assert(sorted@.to_set() =~= covered_ids(*store)) by {
            assert forall|id: u64| sorted@.to_set().contains(id) <==> covered_ids(*store).contains(id) by {
                if covered_ids(*store).contains(id) {
                    let k = choose|k: int| #[trigger] covers(*store, k, id);
                    assert(0 <= k < n);
                }
            }
        }
        lemma_strict_len_is_card(sorted@);
    }
    if sorted.len() == 1 {
        proof {
            assert(covered_ids(*store) =~= set![sorted@[0]]);
            assert(set![sorted@[0]].choose() == sorted@[0]) by {
                let c = set![sorted@[0]].choose();
                assert(set![sorted@[0]].contains(sorted@[0]));
            }
        }
        Ok(sorted[0])
    } else if sorted.len() == 0 {
        Err(CredentialError::NoWorkspace)
    } else {
        Err(CredentialError::AmbiguousWorkspace)
    }
}

/// A strictly increasing sequence has as many elements as its set.
pub proof fn lemma_strict_len_is_card(s: Seq<u64>)
    requires
        strictly_increasing(s),
    ensures
        s.to_set().len() == s.len(),
        s.to_set().finite(),
{
    assert(s.no_duplicates()) by {
        assert forall|i: int, j: int| 0 <= i < s.len() && 0 <= j < s.len() && i != j implies s[i] != s[j] by {
            if i < j {
            } else {
            }
        }
    }
    s.unique_seq_to_set();
    vstd::seq_lib::seq_to_set_is_finite(s);
}

// ---------------------------------------------------------------------------
// The state shown by the credential manager

impl Named for WorkspaceOption {
    open spec fn key(&self) -> Seq<char> {
        self.name@
    }

    fn key_chars(&self) -> (r: Vec<char>) {
        chars_of(self.name.as_str())
    }
}

impl Named for CredentialProfile {
    open spec fn key(&self) -> Seq<char> {
        self.workspace_name@
    }

    fn key_chars(&self) -> (r: Vec<char>) {
        chars_of(self.workspace_name.as_str())
    }
}

impl WorkspaceOption {
    /// A copy equal to the original.
    pub fn copy(&self) -> (r: Self)
        ensures
            r == *self,
    {
        WorkspaceOption { workspace_id: self.workspace_id, name: self.name.clone() }
    }
}

impl CredentialProfile {
    /// A copy equal to the original.
    pub fn copy(&self) -> (r: Self)
        ensures
            r == *self,
    {
        CredentialProfile {
            workspace_id: self.workspace_id,
            workspace_name: self.workspace_name.clone(),
            model: self.model.clone(),
            activated_at_epoch_seconds: self.activated_at_epoch_seconds,
        }
    }
}

/// The name a workspace gets when the platform gave none.
pub open spec fn fallback_name(id: u64) -> Seq<char> {
    "工作区 "@ + decimal(id as nat)
}

/// Every workspace ID of the credentials, in order, repeats included.
pub open spec fn all_credential_ids(creds: Seq<LocalMachineCredential>) -> Seq<u64>
    decreases creds.len(),
{
    if creds.len() == 0 {
        Seq::empty()
    } else {
        all_credential_ids(creds.drop_last()) + creds.last().workspace_ids@
    }
}

/// `ws` names each workspace ID of the credentials in order, by its
/// fallback name.
pub open spec fn fallback_options(creds: Seq<LocalMachineCredential>, ws: Seq<WorkspaceOption>) -> bool {
    let ids = all_credential_ids(creds);
    ws.len() == ids.len() && forall|i: int| 0 <= i < ws.len() ==> (#[trigger] ws[i]).workspace_id == ids[i]
        && ws[i].name@ == fallback_name(ids[i])
}

/// `dedup_by_key(|w| w.workspace_id)`: an option is dropped when the one
/// before it has the same workspace.
pub open spec fn dedup_ids(s: Seq<WorkspaceOption>) -> Seq<WorkspaceOption>
    decreases s.len(),
{
    if s.len() == 0 {
        s
    } else if s.len() >= 2 && s[s.len() - 2].workspace_id == s.last().workspace_id {
        dedup_ids(s.drop_last())
    } else {
        dedup_ids(s.drop_last()).push(s.last())
    }
}

fn fallback_workspaces(store: &SharedCredentialStore) -> (r: Vec<WorkspaceOption>)
    ensures
        fallback_options(store.credentials@, r@),
{
    let n = store.credentials.len();
    let mut out: Vec<WorkspaceOption> = Vec::new();
    let mut i: usize = 0;
    while i < n
        invariant
            i <= n,
            n == store.credentials@.len(),
            fallback_options(store.credentials@.subrange(0, i as int), out@),
        decreases n - i,
    {
        let ids = &store.credentials[i].workspace_ids;
        let ghost prefix = store.credentials@.subrange(0, i as int);
        let ghost next = store.credentials@.subrange(0, i as int + 1);
        assert(next.drop_last() =~= prefix);
        let ghost base = all_credential_ids(prefix);
        let m = ids.len();
        let mut j: usize = 0;
        while j < m
            invariant
                j <= m,
                m == ids@.len(),
                ids@ == store.credentials@[i as int].workspace_ids@,
                out@.len() == base.len() + j,
                forall|q: int| 0 <= q < out@.len() ==> (#[trigger] out@[q]).workspace_id == (base + ids@)[q]
                    && out@[q].name@ == fallback_name((base + ids@)[q]),
            decreases m - j,
        {
            let id = ids[j];
            let mut name = String::from_str("工作区 ");
            let digits = decimal_string(id);
            name.append(digits.as_str());
            out.push(WorkspaceOption { workspace_id: id, name });
            j = j + 1;
        }
        assert(all_credential_ids(next) =~= base + ids@);
        i = i + 1;
    }
    assert(store.credentials@.subrange(0, n as int) =~= store.credentials@);
    out
}

fn dedup_workspaces(v: Vec<WorkspaceOption>) -> (r: Vec<WorkspaceOption>)
    ensures
        r@ == dedup_ids(v@),
{
    let ghost s = v@;
    let n = v.len();
    let mut rest = v;
    let mut out: Vec<WorkspaceOption> = Vec::new();
    let mut prev: Option<u64> = None;
    let mut k: usize = 0;
    while k < n
        invariant
            k <= n,
            n == s.len(),
            rest@ == s.subrange(k as int, n as int),
            out@ == dedup_ids(s.subrange(0, k as int)),
            prev == (if k > 0 { Some(s[k - 1].workspace_id) } else { None::<u64> }),
        decreases n - k,
    {
        let x = rest.remove(0);
        assert(x == s[k as int]);
        assert(rest@ =~= s.subrange(k as int + 1, n as int));
        let ghost t = s.subrange(0, k as int + 1);
        assert(t.drop_last() =~= s.subrange(0, k as int));
        let id = x.workspace_id;
        let keep = match prev {
            Some(p) => p != id,
            None => true,
        };
        if keep {
            out.push(x);
        }
        prev = Some(id);
        k = k + 1;
    }
    assert(s.subrange(0, n as int) =~= s);
    out
}

/// The workspaces offered: those the platform listed, or else one per
/// authorised workspace under its fallback name; sorted by name (stable)
/// and cleared of consecutive repeats of a workspace.
pub fn workspace_choices(discovered: Vec<WorkspaceOption>, store: &SharedCredentialStore) -> (r: Vec<WorkspaceOption>)
    ensures
        discovered@.len() > 0 ==> r@ == dedup_ids(sort_by_name(discovered@)),
        discovered@.len() == 0 ==> exists|base: Seq<WorkspaceOption>|
            fallback_options(store.credentials@, base) && r@ == dedup_ids(sort_by_name(base)),
{
    let base = if discovered.len() == 0 {
        fallback_workspaces(store)
    } else {
        discovered
    };
    let ghost b = base@;
    let sorted = sort_by_name_exec(base);
    dedup_workspaces(sorted)
}

/// The name of the first workspace option for `id`.
pub open spec fn first_name(ws: Seq<WorkspaceOption>, id: u64) -> Option<Seq<char>>
    decreases ws.len(),
{
    if ws.len() == 0 {
        None
    } else if ws[0].workspace_id == id {
        Some(ws[0].name@)
    } else {
        first_name(ws.drop_first(), id)
    }
}

/// `p` is profile `q` renamed after its workspace, where one is listed.
pub open spec fn renamed(q: CredentialProfile, ws: Seq<WorkspaceOption>, p: CredentialProfile) -> bool {
    &&& p.workspace_id == q.workspace_id
    &&& p.model == q.model
    &&& p.activated_at_epoch_seconds == q.activated_at_epoch_seconds
    &&& p.workspace_name@ == (match first_name(ws, q.workspace_id) {
        Some(n) => n,
        None => q.workspace_name@,
    })
}

fn find_name(ws: &Vec<WorkspaceOption>, id: u64) -> (r: Option<String>)
    ensures
        match (r, first_name(ws@, id)) {
            (Some(a), Some(b)) => a@ == b,
            (None, None) => true,
            _ => false,
        },
{
    let n = ws.len();
    let mut i: usize = 0;
    assert(ws@.subrange(0, n as int) =~= ws@);
    while i < n
        invariant
            i <= n,
            n == ws@.len(),
            first_name(ws@, id) == first_name(ws@.subrange(i as int, n as int), id),
        decreases n - i,
    {
        let ghost rest = ws@.subrange(i as int, n as int);
        assert(rest.drop_first() =~= ws@.subrange(i as int + 1, n as int));
        if ws[i].workspace_id == id {
            return Some(ws[i].name.clone());
        }
        i = i + 1;
    }
    None
}

/// Profiles take the name of their workspace where the list has it.
pub fn rename_profiles(profiles: Vec<CredentialProfile>, ws: &Vec<WorkspaceOption>) -> (r: Vec<CredentialProfile>)
    ensures
        r@.len() == profiles@.len(),
        forall|i: int| 0 <= i < r@.len() ==> renamed(profiles@[i], ws@, #[trigger] r@[i]),
{
    let ghost s = profiles@;
    let n = profiles.len();
    let mut rest = profiles;
    let mut out: Vec<CredentialProfile> = Vec::new();
    let mut k: usize = 0;
    while k < n
        invariant
            k <= n,
            n == s.len(),
            rest@ == s.subrange(k as int, n as int),
            out@.len() == k,
            forall|i: int| 0 <= i < k ==> renamed(s[i], ws@, #[trigger] out@[i]),
        decreases n - k,
    {
        let mut p = rest.remove(0);
        assert(p == s[k as int]);
        assert(rest@ =~= s.subrange(k as int + 1, n as int));
        match find_name(ws, p.workspace_id) {
            Some(name) => {
                p.workspace_name = name;
            },
            None => {},
        }
        out.push(p);
        k = k + 1;
    }
    out
}

/// The first profile of `id`.
pub open spec fn first_profile(ps: Seq<CredentialProfile>, id: u64) -> Option<CredentialProfile>
    decreases ps.len(),
{
    if ps.len() == 0 {
        None
    } else if ps[0].workspace_id == id {
        Some(ps[0])
    } else {
        first_profile(ps.drop_first(), id)
    }
}

/// The profile recorded as active, if it is among the profiles.
pub fn active_profile_of(profiles: &Vec<CredentialProfile>, active: Option<u64>) -> (r: Option<CredentialProfile>)
    ensures
        r == (match active {
            Some(id) => first_profile(profiles@, id),
            None => None,
        }),
{
    let id = match active {
        Some(id) => id,
        None => return None,
    };
    let n = profiles.len();
    let mut i: usize = 0;
    assert(profiles@.subrange(0, n as int) =~= profiles@);
    while i < n
        invariant
            i <= n,
            n == profiles@.len(),
            first_profile(profiles@, id) == first_profile(profiles@.subrange(i as int, n as int), id),
            active == Some(id),
        decreases n - i,
    {
        let ghost rest = profiles@.subrange(i as int, n as int);
        assert(rest.drop_first() =~= profiles@.subrange(i as int + 1, n as int));
        if profiles[i].workspace_id == id {
            assert(rest[0] == profiles@[i as int]);
            let c = profiles[i].copy();
            assert(first_profile(rest, id) == Some(c));
            return Some(c);
        }
        i = i + 1;
    }
    None
}

/// What checking the configured Codex key with the platform gave.
#[derive(Clone, Copy, Debug, PartialEq, Eq)]
pub enum KeyCheck {
    /// Accepted; the workspace the answer names, if any.
    Accepted(Option<u64>),
    /// Refused as invalid.
    Rejected,
    /// The check itself failed.
    Unavailable,
}

/// The credential status shown for the configured key (`None`: no key).
pub open spec fn status_text(key: Option<KeyCheck>) -> Seq<char> {
    match key {
        None => "not_configured"@,
        Some(KeyCheck::Accepted(Some(_))) => "verified"@,
        Some(KeyCheck::Accepted(None)) => "invalid_context"@,
        Some(KeyCheck::Rejected) => "invalid"@,
        Some(KeyCheck::Unavailable) => "unverified"@,
    }
}

/// The active profile once the key is checked: a key accepted for another
/// workspace than the recorded one makes that workspace active under its
/// listed (or fallback) name, with the default model.
pub open spec fn active_after_check(
    key: Option<KeyCheck>,
    recorded: Option<CredentialProfile>,
    ws: Seq<WorkspaceOption>,
    r: Option<CredentialProfile>,
) -> bool {
    match key {
        Some(KeyCheck::Accepted(Some(id))) => if (match recorded {
            Some(p) => p.workspace_id != id,
            None => true,
        }) {
            r matches Some(p) && p.workspace_id == id && p.model@ == DEFAULT_MODEL@
                && p.activated_at_epoch_seconds == 0 && p.workspace_name@ == (match first_name(ws, id) {
                Some(n) => n,
                None => fallback_name(id),
            })
        } else {
            r == recorded
        },
        _ => r == recorded,
    }
}

/// The credential status and the active profile after the key check.
pub fn credential_outcome(
    key: Option<KeyCheck>,
    recorded: Option<CredentialProfile>,
    ws: &Vec<WorkspaceOption>,
) -> (r: (String, Option<CredentialProfile>))
    ensures
        r.0@ == status_text(key),
        active_after_check(key, recorded, ws@, r.1),
{
    match key {
        None => (own("not_configured"), recorded),
        Some(KeyCheck::Accepted(Some(id))) => {
            let differs = match &recorded {
                Some(p) => p.workspace_id != id,
                None => true,
            };
            if differs {
                let name = match find_name(ws, id) {
                    Some(n) => n,
                    None => {
                        let mut n = String::from_str("工作区 ");
                        let digits = decimal_string(id);
                        n.append(digits.as_str());
                        n
                    },
                };
                let p = CredentialProfile {
                    workspace_id: id,
                    workspace_name: name,
                    model: own(DEFAULT_MODEL),
                    activated_at_epoch_seconds: 0,
                };
                (own("verified"), Some(p))
            } else {
                (own("verified"), recorded)
            }
        },
        Some(KeyCheck::Accepted(None)) => (own("invalid_context"), recorded),
        Some(KeyCheck::Rejected) => (own("invalid"), recorded),
        Some(KeyCheck::Unavailable) => (own("unverified"), recorded),
    }
}

/// Everything the credential manager's state is made from: the shared
/// store, the recorded profiles and active workspace, the workspaces the
/// platform listed (and the warning when it could not be asked), the key
/// check (`None` when no key is configured), whether Codex's configuration
/// holds the managed block, and the file locations shown.
#[derive(Debug)]
pub struct StateInputs {
    pub store: SharedCredentialStore,
    pub profiles: Vec<CredentialProfile>,
    pub active_workspace_id: Option<u64>,
    pub discovered: Vec<WorkspaceOption>,
    pub discovery_warning: Option<String>,
    pub key: Option<KeyCheck>,
    pub managed_config: bool,
    pub shared_auth_path: String,
    pub codex_auth_path: String,
    pub codex_config_path: String,
}

/// The state shown by the credential manager.
pub fn manager_state(inputs: StateInputs) -> (r: CredentialManagerState)
    ensures
        r.current_workspace_id == inputs.store.current_workspace_id,
        r.codex_configured == (inputs.key is Some && inputs.managed_config),
        r.credential_status@ == status_text(inputs.key),
        inputs.discovered@.len() > 0 ==> r.workspaces@ == dedup_ids(sort_by_name(inputs.discovered@)),
        inputs.discovered@.len() == 0 ==> exists|base: Seq<WorkspaceOption>|
            fallback_options(inputs.store.credentials@, base) && r.workspaces@ == dedup_ids(sort_by_name(base)),
        r.profiles@.len() == inputs.profiles@.len(),
        forall|i: int| 0 <= i < r.profiles@.len() ==> renamed(inputs.profiles@[i], r.workspaces@, #[trigger] r.profiles@[i]),
        active_after_check(inputs.key, match inputs.active_workspace_id {
            Some(id) => first_profile(r.profiles@, id),
            None => None,
        }, r.workspaces@, r.active_profile),
        r.discovery_warning == inputs.discovery_warning,
        r.shared_auth_path == inputs.shared_auth_path,
        r.codex_auth_path == inputs.codex_auth_path,
        r.codex_config_path == inputs.codex_config_path,
{
    let StateInputs {
        store,
        profiles,
        active_workspace_id,
        discovered,
        discovery_warning,
        key,
        managed_config,
        shared_auth_path,
        codex_auth_path,
        codex_config_path,
    } = inputs;
    let workspaces = workspace_choices(discovered, &store);
    let profiles = rename_profiles(profiles, &workspaces);
    let recorded = active_profile_of(&profiles, active_workspace_id);
    let (status, active) = credential_outcome(key, recorded, &workspaces);
    CredentialManagerState {
        current_workspace_id: store.current_workspace_id,
        codex_configured: key.is_some() && managed_config,
        credential_status: status,
        active_profile: active,
        profiles,
        workspaces,
        discovery_warning,
        shared_auth_path,
        codex_auth_path,
        codex_config_path,
    }
}

/// Whether Codex's configuration text holds the managed block; a
/// configuration that could not be read (`None`) does not.
pub fn managed_config(config_text: Option<&str>) -> (r: bool)
    ensures
        r == (config_text matches Some(t) && contains_seq(t@, MANAGED_BLOCK_START@)),
{
    match config_text {
        None => false,
        Some(t) => {
            let text = chars_of(t);
            let marker = chars_of(MANAGED_BLOCK_START);
            contains_chars(text.as_slice(), marker.as_slice())
        },
    }
}

/// The API key Codex is configured with, from the `OPENAI_API_KEY` text of
/// its auth file: trimmed, and none when absent or blank.
pub fn codex_api_key(member: Option<&str>) -> (r: Option<String>)
    ensures
        match member {
            Some(k) => if trim(k@).len() > 0 {
                r matches Some(x) && x@ == trim(k@)
            } else {
                r is None
            },
            None => r is None,
        },
{
    match member {
        None => None,
        Some(k) => {
            let chars = chars_of(k);
            let t = trim_chars(chars.as_slice());
            if t.len() == 0 {
                None
            } else {
                Some(string_from_chars(t.as_slice()))
            }
        },
    }
}

/// The key check that the state is made from: none without a configured
/// key, else the platform's answer for it.
pub fn configured_key_check(key: &Option<String>, answer: KeyCheck) -> (r: Option<KeyCheck>)
    ensures
        key is None ==> r is None,
        key is Some ==> r == Some(answer),
{
    match key {
        None => None,
        Some(_) => Some(answer),
    }
}

/// Codex is ready for `workspace_id` when the state could be read, Codex is
/// configured, the key is verified and that workspace is the active one.
pub fn codex_ready_for_workspace(state: &Option<CredentialManagerState>, workspace_id: u64) -> (r: bool)
    ensures
        r == (state matches Some(s) && s.codex_configured && s.credential_status@ == "verified"@
            && (s.active_profile matches Some(p) && p.workspace_id == workspace_id)),
{
    match state {
        None => false,
        Some(s) => {
            if !s.codex_configured {
                return false;
            }
            let verified = chars_of("verified");
            let status = chars_of(s.credential_status.as_str());
            if !chars_eq(status.as_slice(), verified.as_slice()) {
                return false;
            }
            match &s.active_profile {
                Some(p) => p.workspace_id == workspace_id,
                None => false,
            }
        },
    }
}

// ---------------------------------------------------------------------------
// Talking to the platform

/// A response body as shown in an error: whitespace collapsed, at most 400
/// characters.
pub fn compact_body(value: &str) -> (r: String)
    ensures
        r@ == compact(value@),
{
    compact_text(value)
}

/// `s` without its leading `c` characters (`trim_start_matches(c)`).
pub open spec fn trim_start_char(s: Seq<char>, c: char) -> Seq<char>
    decreases s.len(),
{
    if s.len() > 0 && s[0] == c {
        trim_start_char(s.drop_first(), c)
    } else {
        s
    }
}

fn trim_start_slashes(s: &[char]) -> (k: usize)
    ensures
        k <= s@.len(),
        s@.subrange(k as int, s@.len() as int) == trim_start_char(s@, '/'),
{
    let n = s.len();
    let mut k: usize = 0;
    assert(s@.subrange(0, n as int) =~= s@);
    while k < n && s[k] == '/'
        invariant
            k <= n,
            n == s@.len(),
            trim_start_char(s@.subrange(k as int, n as int), '/') == trim_start_char(s@, '/'),
        decreases n - k,
    {
        assert(s@.subrange(k as int, n as int).drop_first() =~= s@.subrange(k as int + 1, n as int));
        k = k + 1;
    }
    k
}

/// The address of a platform endpoint: the base without trailing slashes,
/// one slash, the path without leading slashes.
pub fn endpoint_url(base_url: &str, path: &str) -> (r: String)
    ensures
        r@ == trim_end_char(base_url@, '/') + "/"@ + trim_start_char(path@, '/'),
{
    let b = chars_of(base_url);
    let n = trim_end_slashes(b.as_slice());
    let head = slice_range(b.as_slice(), 0, n);
    let p = chars_of(path);
    let k = trim_start_slashes(p.as_slice());
    let tail = slice_range(p.as_slice(), k, p.len());
    let mut r = string_from_chars(head.as_slice());
    r.append("/");
    let t = string_from_chars(tail.as_slice());
    r.append(t.as_str());
    r
}

/// The path that issues an LLM credential for a workspace.
pub fn issue_credential_path(workspace_id: u64) -> (r: String)
    ensures
        r@ == "/llm-credential/partner/v1/workspaces/"@ + decimal(workspace_id as nat)
            + "/llm-credentials/create"@,
{
    let mut r = own("/llm-credential/partner/v1/workspaces/");
    let d = decimal_string(workspace_id);
    r.append(d.as_str());
    r.append("/llm-credentials/create");
    r
}

/// The platform's envelope around a response: `errorCode` (or
/// `error_code`) and `value` (or `message`), where they are strings.
#[derive(Clone, Debug)]
pub struct Envelope {
    pub error_code: Option<String>,
    pub message: Option<String>,
}

/// Where the payload of a response is.
#[derive(Clone, Copy, Debug, PartialEq, Eq)]
pub enum DataSource {
    /// The `data` key (null when it is missing).
    DataOrNull,
    /// The `data` key, or the whole response when it is missing.
    DataOrWhole,
}

/// Unwraps the platform's envelope: an error code other than `"0"` is an
/// error carrying the message (a generic one when there is none); with a
/// code the payload is `data`, without one `data` or the whole response.
pub fn unwrap_baijimu_data(envelope: &Envelope) -> (r: Result<DataSource, CredentialError>)
    ensures
        match envelope.error_code {
            None => r == Ok::<DataSource, CredentialError>(DataSource::DataOrWhole),
            Some(code) => if code@ == "0"@ {
                r == Ok::<DataSource, CredentialError>(DataSource::DataOrNull)
            } else {
                r matches Err(CredentialError::Platform(m, c)) && c@ == code@ && m@ == (match envelope.message {
                    Some(t) => t@,
                    None => "平台操作失败"@,
                })
            },
        },
{
    match &envelope.error_code {
        None => Ok(DataSource::DataOrWhole),
        Some(code) => {
            let zero = chars_of("0");
            if chars_eq(chars_of(code.as_str()).as_slice(), zero.as_slice()) {
                Ok(DataSource::DataOrNull)
            } else {
                let message = match &envelope.message {
                    Some(t) => t.clone(),
                    None => own("平台操作失败"),
                };
                Err(CredentialError::Platform(message, code.clone()))
            }
        },
    }
}

/// A credential passes validation when `valid` is true and `allowed` (which
/// defaults to `valid`) is true.
pub fn credential_accepted(valid: Option<bool>, allowed: Option<bool>) -> (r: bool)
    ensures
        r == ((valid == Some(true)) && (match allowed {
            Some(a) => a,
            None => valid == Some(true),
        })),
{
    let v = match valid {
        Some(v) => v,
        None => false,
    };
    let a = match allowed {
        Some(a) => a,
        None => v,
    };
    v && a
}

/// How the validation service answered, before its body is read.
#[derive(Debug)]
pub enum ValidationStatus {
    /// 401 or 403: the credential is refused.
    Refused,
    /// Another failure: the status as printed and the body.
    Failed(String, String),
    /// Success.
    Succeeded,
}

/// Classifies the HTTP answer of the validation service.
pub fn validation_status(code: u16, success: bool, status: String, body: &str) -> (r: ValidationStatus)
    ensures
        (code == 401 || code == 403) ==> r is Refused,
        !(code == 401 || code == 403) && !success ==> (r matches ValidationStatus::Failed(s, b) && s == status
            && b@ == compact(body@)),
        !(code == 401 || code == 403) && success ==> r is Succeeded,
{
    if code == 401 || code == 403 {
        ValidationStatus::Refused
    } else if !success {
        ValidationStatus::Failed(status, compact_body(body))
    } else {
        ValidationStatus::Succeeded
    }
}

/// The token used to list workspaces: that of the current workspace, or
/// else the first credential's.
pub fn discovery_token(store: &SharedCredentialStore) -> (r: Option<String>)
    ensures
        match store.current_workspace_id {
            Some(id) if exists|j: int| covers(*store, j, id) => r matches Some(t) && exists|i: int|
                chosen_credential(*store, id, i) && t@ == store.credentials@[i].token@,
            _ => if store.credentials@.len() > 0 {
                r matches Some(t) && t@ == store.credentials@[0].token@
            } else {
                r is None
            },
        },
{
    let chosen = match store.current_workspace_id {
        Some(id) => select_local_machine_token(store, id),
        None => None,
    };
    match chosen {
        Some(t) => Some(t),
        None => {
            if store.credentials.len() > 0 {
                Some(store.credentials[0].token.clone())
            } else {
                None
            }
        },
    }
}

/// One listed workspace: its `id` is required; its `name` is trimmed, with
/// a placeholder when there is none.
pub fn workspace_option(id: Option<u64>, name: Option<String>) -> (r: Option<WorkspaceOption>)
    ensures
        match id {
            None => r is None,
            Some(i) => r matches Some(w) && w.workspace_id == i && w.name@ == trim(match name {
                Some(n) => n@,
                None => "未命名工作区"@,
            }),
        },
{
    let i = match id {
        Some(i) => i,
        None => return None,
    };
    let raw = match name {
        Some(n) => n,
        None => own("未命名工作区"),
    };
    let t = trim_chars(chars_of(raw.as_str()).as_slice());
    Some(WorkspaceOption { workspace_id: i, name: string_from_chars(t.as_slice()) })
}

/// The warning shown when the workspaces could not be listed.
pub fn discovery_warning(error: &str) -> (r: String)
    ensures
        r@ == "暂时无法读取工作区名称："@ + error@,
{
    let mut r = own("暂时无法读取工作区名称：");
    r.append(error);
    r
}

/// The warning shown when there is no token to list workspaces with.
pub fn missing_token_warning() -> (r: String)
    ensures
        r@ == "本机没有工作区授权"@,
{
    own("本机没有工作区授权")
}

// ---------------------------------------------------------------------------
// Issuing a workspace credential

/// Before asking the platform for a credential: the workspace must be
/// positive, agree with the machine's current workspace when one is set,
/// and be covered by some credential, whose token is used.
pub fn issue_precheck(store: &SharedCredentialStore, workspace_id: u64) -> (r: Result<String, CredentialError>)
    ensures
        workspace_id == 0 ==> r == Err::<String, CredentialError>(CredentialError::InvalidWorkspaceId),
        workspace_id != 0 && (store.current_workspace_id matches Some(c) && c != workspace_id) ==> r
            == Err::<String, CredentialError>(
            CredentialError::WorkspaceMismatch(workspace_id, store.current_workspace_id->Some_0),
        ),
        workspace_id != 0 && !(store.current_workspace_id matches Some(c) && c != workspace_id) ==> match r {
            Ok(t) => exists|i: int| chosen_credential(*store, workspace_id, i) && t@ == store.credentials@[i].token@,
            Err(e) => e == CredentialError::NoTokenForWorkspace && forall|j: int|
                !#[trigger] covers(*store, j, workspace_id),
        },
{
    if workspace_id == 0 {
        return Err(CredentialError::InvalidWorkspaceId);
    }
    match store.current_workspace_id {
        Some(c) => {
            if c != workspace_id {
                return Err(CredentialError::WorkspaceMismatch(workspace_id, c));
            }
        },
        None => {},
    }
    match select_local_machine_token(store, workspace_id) {
        Some(t) => Ok(t),
        None => Err(CredentialError::NoTokenForWorkspace),
    }
}

/// The LLM credential in the platform's answer: the first of
/// `llmCredential`, `credential`, `apiKey` that is a string, trimmed; a
/// blank one, or none, is an error.
pub fn pick_llm_credential(
    llm_credential: Option<String>,
    credential: Option<String>,
    api_key: Option<String>,
) -> (r: Result<String, CredentialError>)
    ensures
        ({
            let first = if llm_credential is Some {
                llm_credential
            } else if credential is Some {
                credential
            } else {
                api_key
            };
            match first {
                Some(t) => if trim(t@).len() > 0 {
                    r matches Ok(c) && c@ == trim(t@)
                } else {
                    r == Err::<String, CredentialError>(CredentialError::MissingLlmCredential)
                },
                None => r == Err::<String, CredentialError>(CredentialError::MissingLlmCredential),
            }
        }),
{
    let first = match llm_credential {
        Some(t) => Some(t),
        None => match credential {
            Some(t) => Some(t),
            None => api_key,
        },
    };
    match first {
        Some(t) => {
            let c = trim_chars(chars_of(t.as_str()).as_slice());
            if c.len() == 0 {
                Err(CredentialError::MissingLlmCredential)
            } else {
                Ok(string_from_chars(c.as_slice()))
            }
        },
        None => Err(CredentialError::MissingLlmCredential),
    }
}

/// The validation answer for a freshly issued credential: it must have been
/// accepted, name the expected workspace, and not be bound to a project.
pub fn check_issued_credential(
    accepted: bool,
    validated_workspace_id: Option<u64>,
    project_bound: bool,
    workspace_id: u64,
) -> (r: Result<(), CredentialError>)
    ensures
        !accepted ==> r == Err::<(), CredentialError>(CredentialError::CredentialRejected),
        accepted && validated_workspace_id is None ==> r == Err::<(), CredentialError>(
            CredentialError::MissingValidatedWorkspace,
        ),
        accepted && (validated_workspace_id matches Some(v) && v != workspace_id) ==> r == Err::<(), CredentialError>(
            CredentialError::OwnershipMismatch(workspace_id, validated_workspace_id->Some_0),
        ),
        accepted && validated_workspace_id == Some(workspace_id) && project_bound ==> r == Err::<(), CredentialError>(
            CredentialError::ProjectScopedCredential,
        ),
        accepted && validated_workspace_id == Some(workspace_id) && !project_bound ==> r == Ok::<(), CredentialError>(()),
{
    if !accepted {
        return Err(CredentialError::CredentialRejected);
    }
    let v = match validated_workspace_id {
        Some(v) => v,
        None => return Err(CredentialError::MissingValidatedWorkspace),
    };
    if v != workspace_id {
        return Err(CredentialError::OwnershipMismatch(workspace_id, v));
    }
    if project_bound {
        return Err(CredentialError::ProjectScopedCredential);
    }
    Ok(())
}

/// The credential in the platform's answer, trimmed: the first of the three
/// fields that is present, when it is not blank.
pub open spec fn issued_key(
    llm_credential: Option<Seq<char>>,
    credential: Option<Seq<char>>,
    api_key: Option<Seq<char>>,
) -> Option<Seq<char>> {
    let first = if llm_credential is Some {
        llm_credential
    } else if credential is Some {
        credential
    } else {
        api_key
    };
    match first {
        Some(t) => if trim(t).len() > 0 { Some(trim(t)) } else { None },
        None => None,
    }
}

/// Why the validation answer refuses a freshly issued credential, if it does.
pub open spec fn issue_refusal(
    accepted: bool,
    validated_workspace_id: Option<u64>,
    project_bound: bool,
    workspace_id: u64,
) -> Option<CredentialError> {
    if !accepted {
        Some(CredentialError::CredentialRejected)
    } else {
        match validated_workspace_id {
            None => Some(CredentialError::MissingValidatedWorkspace),
            Some(v) => if v != workspace_id {
                Some(CredentialError::OwnershipMismatch(workspace_id, v))
            } else if project_bound {
                Some(CredentialError::ProjectScopedCredential)
            } else {
                None
            },
        }
    }
}

/// What issuing a credential for `workspace_id` returns, from the
/// platform's two answers: the credential fields of the creation answer,
/// then the validation of that credential (accepted, the workspace it
/// names, whether it is bound to a project). A credential is returned only
/// when it is trimmed and not blank, was accepted, belongs to the
/// workspace and is not bound to a project.
pub fn issue_outcome(
    workspace_id: u64,
    llm_credential: Option<String>,
    credential: Option<String>,
    api_key: Option<String>,
    accepted: bool,
    validated_workspace_id: Option<u64>,
    project_bound: bool,
) -> (r: Result<String, CredentialError>)
    ensures
        ({
            let key = issued_key(opt_view(llm_credential), opt_view(credential), opt_view(api_key));
            match key {
                None => r == Err::<String, CredentialError>(CredentialError::MissingLlmCredential),
                Some(k) => match issue_refusal(accepted, validated_workspace_id, project_bound, workspace_id) {
                    Some(e) => r == Err::<String, CredentialError>(e),
                    None => r matches Ok(x) && x@ == k,
                },
            }
        }),
        r matches Ok(x) ==> trim(x@) == x@ && x@.len() > 0 && accepted && validated_workspace_id == Some(
            workspace_id,
        ) && !project_bound,
{
    let ghost l = opt_view(llm_credential);
    let ghost c = opt_view(credential);
    let ghost a = opt_view(api_key);
    let key = match pick_llm_credential(llm_credential, credential, api_key) {
        Ok(k) => k,
        Err(e) => return Err(e),
    };
    proof {
        let first = if l is Some { l } else if c is Some { c } else { a };
        lemma_trim_idempotent(first->Some_0);
    }
    match check_issued_credential(accepted, validated_workspace_id, project_bound, workspace_id) {
        Ok(()) => Ok(key),
        Err(e) => Err(e),
    }
}

// ---------------------------------------------------------------------------
// Recording a workspace set-up

/// The profiles after setting up `workspace_id`: the others are kept, in
/// order, the new one is appended, and all are sorted by name (stable).
pub open spec fn profiles_after_setup(
    profiles: Seq<CredentialProfile>,
    workspace_id: u64,
    added: CredentialProfile,
) -> Seq<CredentialProfile> {
    sort_by_name(profiles.filter(other_workspace(workspace_id)).push(added))
}

/// Profiles of another workspace than `workspace_id`.
pub open spec fn other_workspace(workspace_id: u64) -> spec_fn(CredentialProfile) -> bool {
    |p: CredentialProfile| p.workspace_id != workspace_id
}

/// Records the set-up of `workspace_id` at time `now`: its profile (named
/// after the listed workspace, or by the fallback name, with the default
/// model) replaces any earlier one, the profiles are sorted by name, and
/// the workspace becomes the active one.
pub fn record_setup(
    profiles: Vec<CredentialProfile>,
    workspaces: &Vec<WorkspaceOption>,
    workspace_id: u64,
    now: u64,
) -> (r: (Vec<CredentialProfile>, Option<u64>))
    ensures
        r.1 == Some(workspace_id),
        exists|added: CredentialProfile| {
            &&& added.workspace_id == workspace_id
            &&& added.model@ == DEFAULT_MODEL@
            &&& added.activated_at_epoch_seconds == now
            &&& added.workspace_name@ == (match first_name(workspaces@, workspace_id) {
                Some(n) => n,
                None => fallback_name(workspace_id),
            })
            &&& r.0@ == profiles_after_setup(profiles@, workspace_id, added)
        },
{
    let name = match find_name(workspaces, workspace_id) {
        Some(n) => n,
        None => {
            let mut n = String::from_str("工作区 ");
            let digits = decimal_string(workspace_id);
            n.append(digits.as_str());
            n
        },
    };
    let ghost s = profiles@;
    let n = profiles.len();
    let mut rest = profiles;
    let mut kept: Vec<CredentialProfile> = Vec::new();
    let mut k: usize = 0;
    while k < n
        invariant
            k <= n,
            n == s.len(),
            rest@ == s.subrange(k as int, n as int),
            kept@ == s.subrange(0, k as int).filter(other_workspace(workspace_id)),
        decreases n - k,
    {
        let p = rest.remove(0);
        assert(p == s[k as int]);
        assert(rest@ =~= s.subrange(k as int + 1, n as int));
        let ghost t = s.subrange(0, k as int + 1);
        assert(t.drop_last() =~= s.subrange(0, k as int));
        proof {
            s.subrange(0, k as int).lemma_filter_push(p, other_workspace(workspace_id));
            assert(t =~= s.subrange(0, k as int).push(p));
        }
        if p.workspace_id != workspace_id {
            kept.push(p);
        }
        k = k + 1;
    }
    assert(s.subrange(0, n as int) =~= s);
    let added = CredentialProfile {
        workspace_id,
        workspace_name: name,
        model: own(DEFAULT_MODEL),
        activated_at_epoch_seconds: now,
    };
    let ghost a = added;
    kept.push(added);
    let sorted = sort_by_name_exec(kept);
    assert(sorted@ == profiles_after_setup(s, workspace_id, a));
    (sorted, Some(workspace_id))
}

} // verus!

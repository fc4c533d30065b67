//! What the platform-managed `baijimu` CLI reports about the signed-in
//! account, checked and normalised before the connector relies on it.
use vstd::prelude::*;
use crate::text::{trim, trim_chars, chars_of, string_from_chars, compact, compact_text};

verus! {

/// The account state reported by `baijimu auth status`.
#[derive(Clone, Debug, PartialEq, Eq)]
pub struct AuthStatus {
    pub authenticated: bool,
    pub base_url: String,
    pub current_workspace_id: Option<u64>,
    pub credential_workspace_ids: Vec<u64>,
}

/// The fields of the CLI's JSON answer that the connector owns.
#[derive(Clone, Debug)]
pub struct AuthStatusContract {
    pub authenticated: bool,
    pub base_url: String,
    pub current_workspace_id: Option<u64>,
    pub workspace_ids: Vec<u64>,
}

/// Why an answer of the CLI was refused.
#[derive(Clone, Debug, PartialEq, Eq)]
pub enum CliError {
    /// Signed in, yet no workspace is authorised.
    AuthenticatedWithoutWorkspaces,
    /// The named text field is blank.
    MissingField(String),
    /// The named list of workspace IDs holds 0.
    InvalidIds(String),
    /// The binary path handed over by the host is relative.
    RelativeBinaryPath,
    /// The binary path handed over by the host names no file.
    MissingBinary(String),
    /// The CLI exited with a failure: the operation and what it printed on
    /// stderr, compacted (empty when it printed nothing).
    CommandFailed(String, String),
}

/// Strictly increasing: sorted with no repeats.
pub open spec fn strictly_increasing(s: Seq<u64>) -> bool {
    forall|i: int, j: int| 0 <= i < j < s.len() ==> s[i] < s[j]
}

/// The sorted list of the distinct IDs in `ids` (`sort_unstable` + `dedup`).
pub open spec fn sorted_unique_of(ids: Seq<u64>, r: Seq<u64>) -> bool {
    strictly_increasing(r) && r.to_set() == ids.to_set()
}

/// Inserts `x` into the strictly increasing `v` unless it is there already.
fn insert_sorted(v: &mut Vec<u64>, x: u64)
    requires
        strictly_increasing(old(v)@),
    ensures
        strictly_increasing(final(v)@),
        final(v)@.to_set() == old(v)@.to_set().insert(x),
{
    let n = v.len();
    let mut i: usize = 0;
    while i < n && v[i] < x
        invariant
            i <= n,
            n == v@.len(),
            forall|k: int| 0 <= k < i ==> v@[k] < x,
        decreases n - i,
    {
        i = i + 1;
    }
    if i < n && v[i] == x {
        assert(v@.to_set().insert(x) =~= v@.to_set()) by {
            assert(v@.contains(x)) by {
                assert(v@[i as int] == x);
            }
        }
        return;
    }
    let ghost before = v@;
    v.insert(i, x);
    assert(v@ == before.subrange(0, i as int).push(x) + before.subrange(i as int, n as int));
    assert forall|a: int, b: int| 0 <= a < b < v@.len() implies v@[a] < v@[b] by {
        if b < i {
        } else if b == i {
        } else if a < i {
            assert(before[a] < x);
            assert(v@[b] == before[b - 1]);
            assert(x <= before[b - 1]);
        } else if a == i {
            assert(v@[b] == before[b - 1]);
            assert(x <= before[i as int]);
            assert(before[i as int] != x);
            if b - 1 > i {
                assert(before[i as int] < before[b - 1]);
            }
        } else {
            assert(v@[a] == before[a - 1]);
            assert(v@[b] == before[b - 1]);
        }
    }
    assert(v@.to_set() =~= before.to_set().insert(x)) by {
        assert forall|y: u64| v@.to_set().contains(y) implies before.to_set().insert(x).contains(y) by {
            let k = choose|k: int| 0 <= k < v@.len() && v@[k] == y;
            if k < i {
                assert(before[k] == y);
            } else if k > i {
                assert(before[k - 1] == y);
            }
        }
        assert forall|y: u64| before.to_set().insert(x).contains(y) implies v@.to_set().contains(y) by {
            if y == x {
                assert(v@[i as int] == x);
            } else {
                let k = choose|k: int| 0 <= k < before.len() && before[k] == y;
                if k < i {
                    assert(v@[k] == y);
                } else {
                    assert(v@[k + 1] == y);
                }
            }
        }
    }
}

/// The distinct IDs of `ids`, in increasing order.
pub fn sorted_unique(ids: &[u64]) -> (r: Vec<u64>)
    ensures
        sorted_unique_of(ids@, r@),
{
    let n = ids.len();
    let mut r: Vec<u64> = Vec::new();
    let mut i: usize = 0;
    while i < n
        invariant
            i <= n,
            n == ids@.len(),
            strictly_increasing(r@),
            r@.to_set() == ids@.subrange(0, i as int).to_set(),
        decreases n - i,
    {
        insert_sorted(&mut r, ids[i]);
        assert(ids@.subrange(0, i as int + 1).to_set() =~= ids@.subrange(0, i as int).to_set().insert(
            ids@[i as int],
        )) by {
            let a = ids@.subrange(0, i as int + 1);
            let b = ids@.subrange(0, i as int);
            assert(a =~= b.push(ids@[i as int]));
            assert forall|y: u64| a.to_set().contains(y) implies b.to_set().insert(ids@[i as int]).contains(y) by {
                let k = choose|k: int| 0 <= k < a.len() && a[k] == y;
                if k < i {
                    assert(b[k] == y);
                }
            }
            assert forall|y: u64| b.to_set().insert(ids@[i as int]).contains(y) implies a.to_set().contains(y) by {
                if y == ids@[i as int] {
                    assert(a[i as int] == y);
                } else {
                    let k = choose|k: int| 0 <= k < b.len() && b[k] == y;
                    assert(a[k] == y);
                }
            }
        }
        i = i + 1;
    }
    assert(ids@.subrange(0, n as int) =~= ids@);
    r
}

/// A list of workspace IDs is accepted when none of them is 0; it is then
/// sorted and cleared of repeats.
pub fn positive_unique_ids(ids: &[u64], field: &str) -> (r: Result<Vec<u64>, CliError>)
    ensures
        match r {
            Ok(v) => !ids@.contains(0u64) && sorted_unique_of(ids@, v@),
            Err(e) => ids@.contains(0u64) && (e matches CliError::InvalidIds(f) && f@ == field@),
        },
{
    let n = ids.len();
    let mut i: usize = 0;
    while i < n
        invariant
            i <= n,
            n == ids@.len(),
            forall|k: int| 0 <= k < i ==> ids@[k] != 0,
        decreases n - i,
    {
        if ids[i] == 0 {
            assert(ids@[i as int] == 0);
            return Err(CliError::InvalidIds(string_from_str(field)));
        }
        i = i + 1;
    }
    Ok(sorted_unique(ids))
}

/// A copy of a string slice.
fn string_from_str(s: &str) -> (r: String)
    ensures
        r@ == s@,
{
    String::from_str(s)
}

/// A text field is accepted when something is left once it is trimmed.
pub fn required_text(value: &str, field: &str) -> (r: Result<String, CliError>)
    ensures
        match r {
            Ok(t) => trim(value@).len() > 0 && t@ == trim(value@),
            Err(e) => trim(value@).len() == 0 && (e matches CliError::MissingField(f) && f@ == field@),
        },
{
    let cs = chars_of(value);
    let t = trim_chars(cs.as_slice());
    if t.len() == 0 {
        return Err(CliError::MissingField(string_from_str(field)));
    }
    Ok(string_from_chars(t.as_slice()))
}

/// Signed in, yet the answer lists no workspace.
pub open spec fn no_workspaces(c: AuthStatusContract) -> bool {
    c.authenticated && c.workspace_ids@.len() == 0
}

/// A workspace ID of 0 stands for none.
pub open spec fn positive_id(id: Option<u64>) -> Option<u64> {
    match id {
        Some(v) => if v > 0 { Some(v) } else { None },
        None => None,
    }
}

/// Checks the answer of `baijimu auth status`: a signed-in account must have
/// workspaces, the base URL must be present (it is trimmed), a current
/// workspace of 0 counts as none, and the workspace IDs must be positive
/// (they come back sorted, without repeats).
pub fn auth_status(contract: AuthStatusContract) -> (r: Result<AuthStatus, CliError>)
    ensures
        no_workspaces(contract) ==> r matches Err(CliError::AuthenticatedWithoutWorkspaces),
        !no_workspaces(contract) && trim(contract.base_url@).len() == 0 ==> (r matches Err(
            CliError::MissingField(f),
        ) && f@ == "auth status.baseUrl"@),
        !no_workspaces(contract) && trim(contract.base_url@).len() > 0 && contract.workspace_ids@.contains(0u64)
            ==> (r matches Err(CliError::InvalidIds(f)) && f@ == "auth status.workspaceIds"@),
        !no_workspaces(contract) && trim(contract.base_url@).len() > 0 && !contract.workspace_ids@.contains(0u64)
            ==> (r matches Ok(s) && s.authenticated == contract.authenticated && s.base_url@ == trim(
            contract.base_url@,
        ) && s.current_workspace_id == positive_id(contract.current_workspace_id) && sorted_unique_of(
            contract.workspace_ids@,
            s.credential_workspace_ids@,
        )),
{
    if contract.authenticated && contract.workspace_ids.len() == 0 {
        return Err(CliError::AuthenticatedWithoutWorkspaces);
    }
    let base_url = match required_text(contract.base_url.as_str(), "auth status.baseUrl") {
        Ok(t) => t,
        Err(e) => return Err(e),
    };
    let ids = match positive_unique_ids(contract.workspace_ids.as_slice(), "auth status.workspaceIds") {
        Ok(v) => v,
        Err(e) => return Err(e),
    };
    let current = match contract.current_workspace_id {
        Some(id) => if id > 0 { Some(id) } else { None },
        None => None,
    };
    Ok(AuthStatus {
        authenticated: contract.authenticated,
        base_url,
        current_workspace_id: current,
        credential_workspace_ids: ids,
    })
}

/// The host must hand over an absolute path to an existing file; the path
/// is returned unchanged.
pub fn validate_binary_path(path: String, is_absolute: bool, is_file: bool) -> (r: Result<String, CliError>)
    ensures
        !is_absolute ==> r == Err::<String, CliError>(CliError::RelativeBinaryPath),
        is_absolute && !is_file ==> r == Err::<String, CliError>(CliError::MissingBinary(path)),
        is_absolute && is_file ==> r == Ok::<String, CliError>(path),
{
    if !is_absolute {
        return Err(CliError::RelativeBinaryPath);
    }
    if !is_file {
        return Err(CliError::MissingBinary(path));
    }
    Ok(path)
}

/// An error text as shown to the user: whitespace runs collapsed, at most
/// 400 characters.
pub fn compact_error(value: &str) -> (r: String)
    ensures
        r@ == compact(value@),
{
    compact_text(value)
}

/// The error for a CLI run that exited with a failure.
pub fn command_failure(operation: &str, stderr: &str) -> (e: CliError)
    ensures
        e matches CliError::CommandFailed(op, detail) && op@ == operation@ && detail@ == compact(stderr@),
{
    CliError::CommandFailed(string_from_str(operation), compact_error(stderr))
}

/// The sorted list of distinct IDs is determined by the IDs alone: two
/// strictly increasing lists with the same members are the same list.
pub proof fn lemma_sorted_unique_determined(a: Seq<u64>, b: Seq<u64>)
    requires
        strictly_increasing(a),
        strictly_increasing(b),
        a.to_set() == b.to_set(),
    ensures
        a == b,
    decreases a.len(),
{
    if a.len() == 0 {
        if b.len() > 0 {
            assert(b.to_set().contains(b[0]));
        }
        assert(a =~= b);
    } else if b.len() == 0 {
        assert(a.to_set().contains(a[0]));
    } else {
        // the largest members agree
        let (x, y) = (a.last(), b.last());
        assert(a.to_set().contains(x));
        assert(b.to_set().contains(y));
        let i = choose|i: int| 0 <= i < b.len() && b[i] == x;
        let j = choose|j: int| 0 <= j < a.len() && a[j] == y;
        assert(x == y) by {
            if x < y {
                assert(a[j] <= a[a.len() - 1]);
            } else if y < x {
                assert(b[i] <= b[b.len() - 1]);
            }
        }
        let (da, db) = (a.drop_last(), b.drop_last());
        assert(da.to_set() =~= db.to_set()) by {
            assert forall|z: u64| da.to_set().contains(z) implies db.to_set().contains(z) by {
                let k = choose|k: int| 0 <= k < da.len() && da[k] == z;
                assert(a[k] == z && z < x);
                assert(b.to_set().contains(z));
                let m = choose|m: int| 0 <= m < b.len() && b[m] == z;
                assert(m < b.len() - 1);
                assert(db[m] == z);
            }
            assert forall|z: u64| db.to_set().contains(z) implies da.to_set().contains(z) by {
                let k = choose|k: int| 0 <= k < db.len() && db[k] == z;
                assert(b[k] == z && z < y);
                assert(a.to_set().contains(z));
                let m = choose|m: int| 0 <= m < a.len() && a[m] == z;
                assert(m < a.len() - 1);
                assert(da[m] == z);
            }
        }
        assert(strictly_increasing(da));
        assert(strictly_increasing(db));
        lemma_sorted_unique_determined(da, db);
        assert(a =~= da.push(x));
        assert(b =~= db.push(y));
    }
}

} // verus!

//! The projects the desktop knows of: paths from its global state and from
//! Codex's configuration, merged into one catalog with the threads' working
//! directories, then filtered, ordered and paged.
use vstd::prelude::*;
use crate::app_server::file_name;
use crate::order::{lex_lt, lex_lt_exec, lemma_lex_total, lemma_lex_transitive, lemma_lex_asymmetric};
use crate::text::{
    trim, trim_chars, chars_of, chars_eq, has_prefix, has_suffix, starts_with, ends_with, slice_range,
    line_end, line_end_exec, index_of, find_char, contains_seq, contains_chars, string_from_chars,
    spec_to_lowercase, to_lowercase,
};

verus! {

// ---------------------------------------------------------------------------
// JSON state files

#[verifier::external_type_specification]
#[verifier::external_body]
pub struct ExJsonValue(serde_json::Value);

/// The bytes of a file with one leading UTF-8 byte-order mark dropped.
pub open spec fn strip_bom(b: Seq<u8>) -> Seq<u8> {
    if b.len() >= 3 && b[0] == 0xEFu8 && b[1] == 0xBBu8 && b[2] == 0xBFu8 {
        b.subrange(3, b.len() as int)
    } else {
        b
    }
}

/// Drops a leading UTF-8 byte-order mark.
pub fn without_bom(b: &[u8]) -> (r: &[u8])
    ensures
        r@ == strip_bom(b@),
{
    if b.len() >= 3 && b[0] == 0xEFu8 && b[1] == 0xBBu8 && b[2] == 0xBFu8 {
        let r = b.split_at(3).1;
        assert(r@ =~= b@.subrange(3, b@.len() as int));
        r
    } else {
        b
    }
}

/// The JSON document `serde_json::from_slice` reads from bytes, or none
/// when they are not JSON.
pub uninterp spec fn spec_json_document(bytes: Seq<u8>) -> Option<serde_json::Value>;

/// `serde_json::from_slice` into a JSON value: the result depends on the
/// bytes alone, which [`spec_json_document`] names.
#[verifier::external_body]
fn parse_json(bytes: &[u8]) -> (r: Option<serde_json::Value>)
    ensures
        r == spec_json_document(bytes@),
{
    serde_json::from_slice(bytes).ok()
}

/// A JSON state file's document, read past a leading byte-order mark;
/// none when the rest is not JSON.
pub fn parse_json_document(content: &[u8]) -> (r: Option<serde_json::Value>)
    ensures
        r == spec_json_document(strip_bom(content@)),
{
    parse_json(without_bom(content))
}

// ---------------------------------------------------------------------------
// Paths

/// `base.join(rest)` for Unix paths: an absolute `rest` replaces `base`;
/// otherwise a separator is put between them unless `base` is empty or
/// already ends with one.
pub open spec fn join_path(base: Seq<char>, rest: Seq<char>) -> Seq<char> {
    if has_prefix(rest, "/"@) {
        rest
    } else if base.len() == 0 || base.last() == '/' {
        base + rest
    } else {
        base + "/"@ + rest
    }
}

/// A path with a leading `~` expanded to the home directory.
pub open spec fn expand_home(t: Seq<char>, home: Seq<char>) -> Seq<char> {
    if t == "~"@ {
        home
    } else if has_prefix(t, "~/"@) {
        join_path(home, t.subrange(2, t.len() as int))
    } else {
        t
    }
}

/// A project path from the desktop's state: trimmed, `~` expanded, and
/// kept only when absolute.
pub open spec fn state_project_path(value: Seq<char>, home: Seq<char>) -> Option<Seq<char>> {
    let t = trim(value);
    if t.len() == 0 {
        None
    } else {
        let p = expand_home(t, home);
        if has_prefix(p, "/"@) { Some(p) } else { None }
    }
}

/// A project path from a thread or the configuration: trimmed, `~`
/// expanded, and made absolute against the working directory.
pub open spec fn project_path(value: Seq<char>, home: Seq<char>, cwd: Seq<char>) -> Option<Seq<char>> {
    let t = trim(value);
    if t.len() == 0 {
        None
    } else {
        let p = expand_home(t, home);
        if has_prefix(p, "/"@) { Some(p) } else { Some(join_path(cwd, p)) }
    }
}

fn concat3(a: &[char], b: &[char], c: &[char]) -> (r: Vec<char>)
    ensures
        r@ == a@ + b@ + c@,
{
    let mut r: Vec<char> = Vec::new();
    let mut i: usize = 0;
    while i < a.len()
        invariant
            i <= a@.len(),
            r@ == a@.subrange(0, i as int),
        decreases a.len() - i,
    {
        r.push(a[i]);
        i = i + 1;
        assert(r@ =~= a@.subrange(0, i as int));
    }
    assert(a@.subrange(0, a@.len() as int) =~= a@);
    let mut j: usize = 0;
    while j < b.len()
        invariant
            j <= b@.len(),
            r@ == a@ + b@.subrange(0, j as int),
        decreases b.len() - j,
    {
        r.push(b[j]);
        j = j + 1;
        assert(r@ =~= a@ + b@.subrange(0, j as int));
    }
    assert(b@.subrange(0, b@.len() as int) =~= b@);
    let mut k: usize = 0;
    while k < c.len()
        invariant
            k <= c@.len(),
            r@ == a@ + b@ + c@.subrange(0, k as int),
        decreases c.len() - k,
    {
        r.push(c[k]);
        k = k + 1;
        assert(r@ =~= a@ + b@ + c@.subrange(0, k as int));
    }
    assert(c@.subrange(0, c@.len() as int) =~= c@);
    r
}

/// `base.join(rest)`.
pub fn join_path_exec(base: &[char], rest: &[char]) -> (r: Vec<char>)
    ensures
        r@ == join_path(base@, rest@),
{
    let slash = chars_of("/");
    let empty: Vec<char> = Vec::new();
    if starts_with(rest, slash.as_slice()) {
        return concat3(empty.as_slice(), empty.as_slice(), rest);
    }
    if base.len() == 0 || base[base.len() - 1] == '/' {
        let r = concat3(base, empty.as_slice(), rest);
        assert(base@ + empty@ + rest@ =~= base@ + rest@);
        r
    } else {
        concat3(base, slash.as_slice(), rest)
    }
}

fn expand_home_exec(t: &[char], home: &[char]) -> (r: Vec<char>)
    ensures
        r@ == expand_home(t@, home@),
{
    proof {
        reveal_strlit("~/");
    }
    let tilde = chars_of("~");
    let tilde_slash = chars_of("~/");
    if chars_eq(t, tilde.as_slice()) {
        return slice_range(home, 0, home.len());
    }
    if starts_with(t, tilde_slash.as_slice()) {
        let rest = slice_range(t, 2, t.len());
        return join_path_exec(home, rest.as_slice());
    }
    let r = slice_range(t, 0, t.len());
    assert(t@.subrange(0, t@.len() as int) =~= t@);
    r
}

/// A project path from the desktop's state, if it is one.
pub fn normalize_state_project_path(value: &str, home: &str) -> (r: Option<String>)
    ensures
        match r {
            Some(p) => state_project_path(value@, home@) == Some(p@),
            None => state_project_path(value@, home@) is None,
        },
{
    let t = trim_chars(chars_of(value).as_slice());
    if t.len() == 0 {
        return None;
    }
    let h = chars_of(home);
    assert(home@.subrange(0, home@.len() as int) =~= home@);
    let p = expand_home_exec(t.as_slice(), h.as_slice());
    if starts_with(p.as_slice(), chars_of("/").as_slice()) {
        Some(string_from_chars(p.as_slice()))
    } else {
        None
    }
}

/// A project path from a thread or the configuration.
pub fn normalize_project_path(value: &str, home: &str, cwd: &str) -> (r: Option<String>)
    ensures
        match r {
            Some(p) => project_path(value@, home@, cwd@) == Some(p@),
            None => project_path(value@, home@, cwd@) is None,
        },
{
    let t = trim_chars(chars_of(value).as_slice());
    if t.len() == 0 {
        return None;
    }
    let h = chars_of(home);
    let p = expand_home_exec(t.as_slice(), h.as_slice());
    if starts_with(p.as_slice(), chars_of("/").as_slice()) {
        Some(string_from_chars(p.as_slice()))
    } else {
        let c = chars_of(cwd);
        let j = join_path_exec(c.as_slice(), p.as_slice());
        Some(string_from_chars(j.as_slice()))
    }
}

// ---------------------------------------------------------------------------
// Codex's configuration

/// `s.replace("\\\"", "\"")`.
pub open spec fn unescape_quotes(s: Seq<char>) -> Seq<char>
    decreases s.len(),
{
    if s.len() == 0 {
        s
    } else if s.len() >= 2 && s[0] == '\\' && s[1] == '"' {
        seq!['"'] + unescape_quotes(s.subrange(2, s.len() as int))
    } else {
        seq![s[0]] + unescape_quotes(s.subrange(1, s.len() as int))
    }
}

fn unescape_quotes_exec(s: &[char]) -> (r: Vec<char>)
    ensures
        r@ == unescape_quotes(s@),
{
    let n = s.len();
    let mut r: Vec<char> = Vec::new();
    let mut i: usize = 0;
    assert(s@.subrange(0, n as int) =~= s@);
    while i < n
        invariant
            i <= n,
            n == s@.len(),
            unescape_quotes(s@) == r@ + unescape_quotes(s@.subrange(i as int, n as int)),
        decreases n - i,
    {
        let ghost rest = s@.subrange(i as int, n as int);
        if i + 1 < n && s[i] == '\\' && s[i + 1] == '"' {
            assert(rest.subrange(2, rest.len() as int) =~= s@.subrange(i + 2, n as int));
            r.push('"');
            assert(r@ + unescape_quotes(s@.subrange(i + 2, n as int)) =~= r@.drop_last() + (seq!['"']
                + unescape_quotes(s@.subrange(i + 2, n as int))));
            i = i + 2;
        } else {
            assert(rest.subrange(1, rest.len() as int) =~= s@.subrange(i + 1, n as int));
            let c = s[i];
            r.push(c);
            assert(r@ + unescape_quotes(s@.subrange(i + 1, n as int)) =~= r@.drop_last() + (seq![c]
                + unescape_quotes(s@.subrange(i + 1, n as int))));
            i = i + 1;
        }
    }
    assert(r@ + unescape_quotes(s@.subrange(n as int, n as int)) =~= r@);
    r
}

/// `s.trim_matches('"')`: every leading and trailing quote removed.
pub open spec fn trim_quotes(s: Seq<char>) -> Seq<char>
    decreases s.len(),
{
    if s.len() > 0 && s[0] == '"' {
        trim_quotes(s.subrange(1, s.len() as int))
    } else if s.len() > 0 && s.last() == '"' {
        trim_quotes(s.drop_last())
    } else {
        s
    }
}

fn trim_quotes_exec(s: &[char]) -> (r: Vec<char>)
    ensures
        r@ == trim_quotes(s@),
{
    let mut a: usize = 0;
    let mut b: usize = s.len();
    assert(s@.subrange(0, b as int) =~= s@);
    while a < b && (s[a] == '"' || s[b - 1] == '"')
        invariant
            a <= b <= s@.len(),
            trim_quotes(s@) == trim_quotes(s@.subrange(a as int, b as int)),
        decreases b - a,
    {
        let ghost t = s@.subrange(a as int, b as int);
        if s[a] == '"' {
            assert(t.subrange(1, t.len() as int) =~= s@.subrange(a + 1, b as int));
            a = a + 1;
        } else {
            assert(t.drop_last() =~= s@.subrange(a as int, b - 1));
            b = b - 1;
        }
    }
    slice_range(s, a, b)
}

/// The project a `[projects."<path>"]` header names, if the trimmed line is
/// one.
pub open spec fn project_header(t: Seq<char>) -> Option<Seq<char>> {
    let p = "[projects.\""@;
    let q = "\"]"@;
    if has_prefix(t, p) && has_suffix(t.subrange(p.len() as int, t.len() as int), q) {
        Some(t.subrange(p.len() as int, t.len() - q.len()))
    } else {
        None
    }
}

/// The trust level a trimmed line sets, if it is a `trust_level = ..` line.
pub open spec fn trust_value(t: Seq<char>) -> Option<Seq<char>> {
    let p = "trust_level"@;
    if has_prefix(t, p) {
        let rest = t.subrange(p.len() as int, t.len() as int);
        let k = index_of(rest, '=');
        if k < rest.len() {
            Some(trim_quotes(trim(rest.subrange(k + 1, rest.len() as int))))
        } else {
            None
        }
    } else {
        None
    }
}

/// The trusted projects of Codex's configuration, from line `a` on, given
/// the project the previous header named.
pub open spec fn config_from(
    s: Seq<char>,
    a: int,
    current: Option<Seq<char>>,
    home: Seq<char>,
    cwd: Seq<char>,
) -> Seq<(Seq<char>, Seq<char>)>
    decreases s.len() + 1 - a,
{
    if a < 0 || a >= s.len() {
        Seq::empty()
    } else {
        let e = line_end(s, a);
        let t = trim(s.subrange(a, e));
        match project_header(t) {
            Some(raw) => config_from(s, e + 1, project_path(unescape_quotes(raw), home, cwd), home, cwd),
            None => match (current, trust_value(t)) {
                (Some(p), Some(v)) => seq![(p, v)] + config_from(s, e + 1, current, home, cwd),
                _ => config_from(s, e + 1, current, home, cwd),
            },
        }
    }
}

/// The view of an optional string.
pub open spec fn opt_view(o: Option<String>) -> Option<Seq<char>> {
    match o {
        Some(s) => Some(s@),
        None => None,
    }
}

/// A trusted project: its path and trust level.
#[derive(Clone, Debug)]
pub struct TrustedProject {
    pub path: String,
    pub trust_level: String,
}

/// The projects Codex's `config.toml` trusts, in order: each
/// `trust_level` line under a `[projects."<path>"]` header.
pub fn parse_codex_project_config(content: &str, home: &str, cwd: &str) -> (r: Vec<TrustedProject>)
    ensures
        r@.len() == config_from(content@, 0, None, home@, cwd@).len(),
        forall|i: int| 0 <= i < r@.len() ==> (#[trigger] r@[i]).path@ == config_from(content@, 0, None, home@, cwd@)[i].0
            && r@[i].trust_level@ == config_from(content@, 0, None, home@, cwd@)[i].1,
{
    let s = chars_of(content);
    let n = s.len();
    let header = chars_of("[projects.\"");
    let footer = chars_of("\"]");
    let trust = chars_of("trust_level");
    let mut out: Vec<TrustedProject> = Vec::new();
    let mut current: Option<String> = None;
    let mut a: usize = 0;
    let ghost total = config_from(content@, 0, None, home@, cwd@);
    while a < n
        invariant
            a <= n + 1,
            n == s@.len(),
            s@ == content@,
            header@ == "[projects.\""@,
            footer@ == "\"]"@,
            trust@ == "trust_level"@,
            total == config_from(content@, 0, None, home@, cwd@),
            ({
                let rest = config_from(s@, a as int, opt_view(current), home@, cwd@);
                &&& total.len() == out@.len() + rest.len()
                &&& forall|i: int| 0 <= i < out@.len() ==> (#[trigger] out@[i]).path@ == total[i].0
                    && out@[i].trust_level@ == total[i].1
                &&& forall|i: int| 0 <= i < rest.len() ==> #[trigger] rest[i] == total[out@.len() + i]
            }),
        decreases n + 1 - a,
    {
        let ghost cur0 = opt_view(current);
        let ghost rest0 = config_from(s@, a as int, cur0, home@, cwd@);
        let e = line_end_exec(s.as_slice(), a);
        let t = trim_chars(slice_range(s.as_slice(), a, e).as_slice());
        let is_header = starts_with(t.as_slice(), header.as_slice()) && t.len() >= header.len() && ends_with(
            slice_range(t.as_slice(), header.len(), t.len()).as_slice(),
            footer.as_slice(),
        );
        if is_header {
            let raw = slice_range(t.as_slice(), header.len(), t.len() - footer.len());
            let un = unescape_quotes_exec(raw.as_slice());
            let text = string_from_chars(un.as_slice());
            current = normalize_project_path(text.as_str(), home, cwd);
            proof {
                assert(project_header(t@) == Some(raw@));
                assert(opt_view(current) == project_path(unescape_quotes(raw@), home@, cwd@));
                assert(rest0 == config_from(s@, e as int + 1, opt_view(current), home@, cwd@));
            }
        } else {
            let mut value: Option<Vec<char>> = None;
            if starts_with(t.as_slice(), trust.as_slice()) {
                let rest = slice_range(t.as_slice(), trust.len(), t.len());
                match find_char(rest.as_slice(), '=') {
                    Some(k) => {
                        let v = trim_chars(slice_range(rest.as_slice(), k + 1, rest.len()).as_slice());
                        value = Some(trim_quotes_exec(v.as_slice()));
                    },
                    None => {},
                }
            }
            proof {
                assert(project_header(t@) is None);
                assert(match value {
                    Some(v) => trust_value(t@) == Some(v@),
                    None => trust_value(t@) is None,
                });
            }
            match (&current, value) {
                (Some(p), Some(v)) => {
                    let ghost before = out@;
                    let item = TrustedProject { path: p.clone(), trust_level: string_from_chars(v.as_slice()) };
                    proof {
                        let rest1 = config_from(s@, e as int + 1, cur0, home@, cwd@);
                        assert(rest0 == seq![(p@, v@)] + rest1);
                        assert(rest0[0] == (p@, v@));
                    }
                    out.push(item);
                    proof {
                        assert(rest0[0] == total[before.len() as int]);
                        let rest1 = config_from(s@, e as int + 1, cur0, home@, cwd@);
                        assert forall|i: int| 0 <= i < rest1.len() implies #[trigger] rest1[i] == total[out@.len() + i] by {
                            assert(rest0[i + 1] == rest1[i]);
                        }
                    }
                },
                _ => {
                    proof {
                        assert(rest0 == config_from(s@, e as int + 1, cur0, home@, cwd@));
                    }
                },
            }
        }
        if e >= n {
            assert(config_from(s@, n as int, opt_view(current), home@, cwd@).len() == 0);
            a = n;
        } else {
            a = e + 1;
        }
    }
    out
}

// ---------------------------------------------------------------------------
// Distinct texts

/// The texts of `values` that are not blank, each kept at its first
/// occurrence.
pub open spec fn unique_texts(values: Seq<Seq<char>>) -> Seq<Seq<char>>
    decreases values.len(),
{
    if values.len() == 0 {
        values
    } else {
        let r = unique_texts(values.drop_last());
        let x = values.last();
        if trim(x).len() > 0 && !r.contains(x) {
            r.push(x)
        } else {
            r
        }
    }
}

/// The views of a list of strings.
pub open spec fn texts(v: Seq<String>) -> Seq<Seq<char>> {
    v.map_values(|s: String| s@)
}

fn contains_text(v: &Vec<String>, x: &[char]) -> (r: bool)
    ensures
        r == texts(v@).contains(x@),
{
    let n = v.len();
    let mut i: usize = 0;
    while i < n
        invariant
            i <= n,
            n == v@.len(),
            forall|k: int| 0 <= k < i ==> v@[k]@ != x@,
        decreases n - i,
    {
        if chars_eq(chars_of(v[i].as_str()).as_slice(), x) {
            assert(texts(v@)[i as int] == x@);
            return true;
        }
        i = i + 1;
    }
    proof {
        if texts(v@).contains(x@) {
            let k = choose|k: int| 0 <= k < texts(v@).len() && texts(v@)[k] == x@;
            assert(v@[k]@ == x@);
        }
    }
    false
}

/// The texts that are not blank, each kept once, in first-seen order.
pub fn unique_strings(values: Vec<String>) -> (r: Vec<String>)
    ensures
        texts(r@) == unique_texts(texts(values@)),
{
    let ghost s = values@;
    let n = values.len();
    let mut rest = values;
    let mut out: Vec<String> = Vec::new();
    let mut k: usize = 0;
    while k < n
        invariant
            k <= n,
            n == s.len(),
            rest@ == s.subrange(k as int, n as int),
            texts(out@) == unique_texts(texts(s.subrange(0, k as int))),
        decreases n - k,
    {
        let x = rest.remove(0);
        assert(x == s[k as int]);
        assert(rest@ =~= s.subrange(k as int + 1, n as int));
        assert(texts(s.subrange(0, k as int + 1)).drop_last() =~= texts(s.subrange(0, k as int)));
        let xc = chars_of(x.as_str());
        let blank = trim_chars(xc.as_slice()).len() == 0;
        if !blank && !contains_text(&out, xc.as_slice()) {
            let ghost before = out@;
            out.push(x);
            assert(texts(out@) =~= texts(before).push(xc@));
        }
        k = k + 1;
    }
    assert(s.subrange(0, n as int) =~= s);
    out
}

// ---------------------------------------------------------------------------
// Projects named in the desktop's global state

/// A project root known from the desktop's state.
#[derive(Clone, Debug)]
pub struct StateProjectRoot {
    pub path: String,
    pub project_id: Option<String>,
    pub project_name: Option<String>,
    pub root_paths: Vec<String>,
}

/// The view of a project root: path, project ID, name, all root paths.
pub type RootV = (Seq<char>, Option<Seq<char>>, Option<Seq<char>>, Seq<Seq<char>>);

pub open spec fn root_view(r: StateProjectRoot) -> RootV {
    (r.path@, opt_view(r.project_id), opt_view(r.project_name), texts(r.root_paths@))
}

pub open spec fn roots_view(s: Seq<StateProjectRoot>) -> Seq<RootV> {
    s.map_values(|r: StateProjectRoot| root_view(r))
}

/// An entry of `local-projects`: its key, and its `id`, `name` and
/// `rootPaths` where they are strings.
#[derive(Clone, Debug)]
pub struct LocalProject {
    pub key: String,
    pub id: Option<String>,
    pub name: Option<String>,
    pub root_paths: Vec<String>,
}

/// An entry of `thread-project-assignments`: its `projectId` and `cwd`
/// where they are strings.
#[derive(Clone, Debug)]
pub struct Assignment {
    pub project_id: Option<String>,
    pub cwd: Option<String>,
}

/// The paths among `values` that are project paths, normalised, in order.
pub open spec fn state_paths(values: Seq<Seq<char>>, home: Seq<char>) -> Seq<Seq<char>>
    decreases values.len(),
{
    if values.len() == 0 {
        Seq::empty()
    } else {
        let r = state_paths(values.drop_last(), home);
        match state_project_path(values.last(), home) {
            Some(p) => r.push(p),
            None => r,
        }
    }
}

/// The roots a local project contributes: one per distinct path, each
/// carrying the project's ID (its `id`, else its key), its name when not
/// blank, and all of its paths.
pub open spec fn local_entries(l: LocalProject, home: Seq<char>) -> Seq<RootV> {
    let roots = unique_texts(state_paths(texts(l.root_paths@), home));
    let pid = match l.id {
        Some(i) => i@,
        None => l.key@,
    };
    let name = match l.name {
        Some(n) => if trim(n@).len() > 0 { Some(n@) } else { None },
        None => None,
    };
    roots.map_values(|p: Seq<char>| (p, Some(pid), name, roots))
}

/// The roots of all local projects, in order.
pub open spec fn locals_entries(ls: Seq<LocalProject>, home: Seq<char>) -> Seq<RootV>
    decreases ls.len(),
{
    if ls.len() == 0 {
        Seq::empty()
    } else {
        locals_entries(ls.drop_last(), home) + local_entries(ls.last(), home)
    }
}

/// The first group for `pid`, if any.
pub open spec fn group_index(g: Seq<(Seq<char>, Seq<Seq<char>>)>, pid: Seq<char>) -> int
    decreases g.len(),
{
    if g.len() == 0 {
        -1
    } else {
        let i = group_index(g.drop_last(), pid);
        if i >= 0 {
            i
        } else if g.last().0 == pid {
            g.len() - 1
        } else {
            -1
        }
    }
}

/// The assignments grouped by project, in order of first appearance, each
/// with its distinct working directories in order.
pub open spec fn assignment_groups(a: Seq<Assignment>, home: Seq<char>) -> Seq<(Seq<char>, Seq<Seq<char>>)>
    decreases a.len(),
{
    if a.len() == 0 {
        Seq::empty()
    } else {
        let g = assignment_groups(a.drop_last(), home);
        let x = a.last();
        match (x.project_id, x.cwd) {
            (Some(pid), Some(cwd)) => match state_project_path(cwd@, home) {
                Some(path) => {
                    let i = group_index(g, pid@);
                    if i >= 0 {
                        if g[i].1.contains(path) {
                            g
                        } else {
                            g.update(i, (pid@, g[i].1.push(path)))
                        }
                    } else {
                        g.push((pid@, seq![path]))
                    }
                },
                None => g,
            },
            _ => g,
        }
    }
}

/// The roots of the groups whose project no local project names.
pub open spec fn group_entries(g: Seq<(Seq<char>, Seq<Seq<char>>)>, locals: Seq<RootV>) -> Seq<RootV>
    decreases g.len(),
{
    if g.len() == 0 {
        Seq::empty()
    } else {
        let r = group_entries(g.drop_last(), locals);
        let (pid, roots) = g.last();
        if exists|i: int| 0 <= i < locals.len() && #[trigger] locals[i].1 == Some(pid) {
            r
        } else {
            r + roots.map_values(|p: Seq<char>| (p, Some(pid), None::<Seq<char>>, roots))
        }
    }
}

/// Each path kept at its first root.
pub open spec fn unique_roots(s: Seq<RootV>) -> Seq<RootV>
    decreases s.len(),
{
    if s.len() == 0 {
        s
    } else {
        let r = unique_roots(s.drop_last());
        let x = s.last();
        if exists|i: int| 0 <= i < r.len() && #[trigger] r[i].0 == x.0 {
            r
        } else {
            r.push(x)
        }
    }
}

/// Root `i` of `s` is the first with its path.
pub open spec fn first_with_path(s: Seq<RootV>, i: int) -> bool {
    0 <= i < s.len() && forall|k: int| 0 <= k < i ==> s[k].0 != #[trigger] s[i].0
}

/// `r` picks the roots of `s` at the increasing positions `idx`, each the
/// first root of `s` with its path.
pub open spec fn picks_first_roots(s: Seq<RootV>, r: Seq<RootV>, idx: Seq<int>) -> bool {
    &&& idx.len() == r.len()
    &&& forall|j: int| 0 <= j < r.len() ==> first_with_path(s, #[trigger] idx[j]) && r[j] == s[idx[j]]
    &&& forall|a: int, b: int| 0 <= a < b < r.len() ==> #[trigger] idx[a] < #[trigger] idx[b]
}

/// Keeping each path once: no path occurs twice in the result, every path
/// of the input occurs in it, and the result is made of the first root of
/// each path, in the order of the input (at the increasing positions
/// returned).
pub proof fn lemma_unique_roots(s: Seq<RootV>) -> (idx: Seq<int>)
    ensures
        picks_first_roots(s, unique_roots(s), idx),
        forall|a: int, b: int| 0 <= a < b < unique_roots(s).len() ==> unique_roots(s)[a].0 != unique_roots(s)[b].0,
        forall|i: int| 0 <= i < s.len() ==> exists|j: int| 0 <= j < unique_roots(s).len() && #[trigger] unique_roots(s)[j].0 == #[trigger] s[i].0,
    decreases s.len(),
{
    if s.len() == 0 {
        Seq::empty()
    } else {
        let p = s.drop_last();
        let rp = unique_roots(p);
        let ip = lemma_unique_roots(p);
        let x = s.last();
        let n = p.len() as int;
        assert forall|k: int| 0 <= k < n implies #[trigger] s[k] == p[k] by {}
        assert forall|j: int| 0 <= j < ip.len() implies first_with_path(s, #[trigger] ip[j]) by {
            assert(first_with_path(p, ip[j]));
            assert forall|k: int| 0 <= k < ip[j] implies #[trigger] s[k].0 != s[ip[j]].0 by {
                assert(s[k] == p[k]);
            }
        }
        if exists|i: int| 0 <= i < rp.len() && #[trigger] rp[i].0 == x.0 {
            assert(unique_roots(s) == rp);
            assert forall|i: int| 0 <= i < s.len() implies exists|j: int| 0 <= j < rp.len() && #[trigger] rp[j].0 == #[trigger] s[i].0 by {
                if i < n {
                    assert(s[i] == p[i]);
                    let j = choose|j: int| 0 <= j < rp.len() && #[trigger] rp[j].0 == p[i].0;
                    assert(rp[j].0 == s[i].0);
                } else {
                    let j = choose|j: int| 0 <= j < rp.len() && #[trigger] rp[j].0 == x.0;
                    assert(rp[j].0 == s[i].0);
                }
            }
            assert forall|j: int| 0 <= j < rp.len() implies first_with_path(s, #[trigger] ip[j]) && rp[j] == s[ip[j]] by {
                assert(first_with_path(p, ip[j]) && rp[j] == p[ip[j]]);
                assert(s[ip[j]] == p[ip[j]]);
            }
            ip
        } else {
            let r = rp.push(x);
            assert(unique_roots(s) == r);
            let idx = ip.push(n);
            assert forall|k: int| 0 <= k < n implies s[k].0 != #[trigger] s[n].0 by {
                assert(s[k] == p[k]);
                let j = choose|j: int| 0 <= j < rp.len() && #[trigger] rp[j].0 == #[trigger] p[k].0;
                assert(rp[j].0 != x.0);
            }
            assert(first_with_path(s, n));
            assert forall|j: int| 0 <= j < r.len() implies first_with_path(s, #[trigger] idx[j]) && r[j] == s[idx[j]] by {
                if j < rp.len() {
                    assert(idx[j] == ip[j]);
                    assert(first_with_path(p, ip[j]) && rp[j] == p[ip[j]]);
                    assert(s[ip[j]] == p[ip[j]]);
                } else {
                    assert(idx[j] == n);
                }
            }
            assert forall|a: int, b: int| 0 <= a < b < r.len() implies #[trigger] idx[a] < #[trigger] idx[b] by {
                assert(idx[a] == ip[a]);
                assert(first_with_path(p, ip[a]));
                if b < rp.len() {
                    assert(idx[b] == ip[b]);
                }
            }
            assert forall|a: int, b: int| 0 <= a < b < r.len() implies r[a].0 != r[b].0 by {
                if b == rp.len() {
                    assert(r[a] == rp[a]);
                    assert(r[b] == x);
                } else {
                    assert(r[a] == rp[a] && r[b] == rp[b]);
                }
            }
            assert forall|i: int| 0 <= i < s.len() implies exists|j: int| 0 <= j < r.len() && #[trigger] r[j].0 == #[trigger] s[i].0 by {
                if i < n {
                    assert(s[i] == p[i]);
                    let j = choose|j: int| 0 <= j < rp.len() && #[trigger] rp[j].0 == #[trigger] p[i].0;
                    assert(r[j] == rp[j]);
                } else {
                    assert(r[rp.len() as int] == x);
                }
            }
            idx
        }
    }
}


/// The project roots the desktop's state knows.
pub open spec fn known_roots(locals: Seq<LocalProject>, assignments: Seq<Assignment>, home: Seq<char>) -> Seq<RootV> {
    let l = locals_entries(locals, home);
    unique_roots(l + group_entries(assignment_groups(assignments, home), l))
}

fn clone_strings(v: &Vec<String>) -> (r: Vec<String>)
    ensures
        r@ == v@,
{
    let mut r: Vec<String> = Vec::new();
    let mut i: usize = 0;
    while i < v.len()
        invariant
            i <= v@.len(),
            r@ == v@.subrange(0, i as int),
        decreases v.len() - i,
    {
        r.push(v[i].clone());
        i = i + 1;
        assert(r@ =~= v@.subrange(0, i as int));
    }
    assert(v@.subrange(0, v@.len() as int) =~= v@);
    r
}

fn clone_opt(o: &Option<String>) -> (r: Option<String>)
    ensures
        r == *o,
{
    match o {
        Some(s) => Some(s.clone()),
        None => None,
    }
}

impl StateProjectRoot {
    /// A copy with the same contents.
    pub fn copy(&self) -> (r: Self)
        ensures
            root_view(r) == root_view(*self),
    {
        StateProjectRoot {
            path: self.path.clone(),
            project_id: clone_opt(&self.project_id),
            project_name: clone_opt(&self.project_name),
            root_paths: clone_strings(&self.root_paths),
        }
    }
}

fn normalized_state_paths(values: &Vec<String>, home: &str) -> (r: Vec<String>)
    ensures
        texts(r@) == state_paths(texts(values@), home@),
{
    let n = values.len();
    let mut r: Vec<String> = Vec::new();
    let mut i: usize = 0;
    while i < n
        invariant
            i <= n,
            n == values@.len(),
            texts(r@) == state_paths(texts(values@.subrange(0, i as int)), home@),
        decreases n - i,
    {
        assert(texts(values@.subrange(0, i as int + 1)).drop_last() =~= texts(values@.subrange(0, i as int)));
        match normalize_state_project_path(values[i].as_str(), home) {
            Some(p) => {
                let ghost before = r@;
                r.push(p);
                assert(texts(r@) =~= texts(before).push(p@));
            },
            None => {},
        }
        i = i + 1;
    }
    assert(values@.subrange(0, n as int) =~= values@);
    r
}

fn push_roots(
    out: &mut Vec<StateProjectRoot>,
    roots: &Vec<String>,
    pid: &String,
    name: &Option<String>,
)
    ensures
        roots_view(final(out)@) == roots_view(old(out)@) + texts(roots@).map_values(
            |p: Seq<char>| (p, Some(pid@), opt_view(*name), texts(roots@)),
        ),
{
    let n = roots.len();
    let ghost start = roots_view(out@);
    let mut i: usize = 0;
    while i < n
        invariant
            i <= n,
            n == roots@.len(),
            roots_view(out@) == start + texts(roots@).subrange(0, i as int).map_values(
                |p: Seq<char>| (p, Some(pid@), opt_view(*name), texts(roots@)),
            ),
        decreases n - i,
    {
        let ghost before = out@;
        out.push(StateProjectRoot {
            path: roots[i].clone(),
            project_id: Some(pid.clone()),
            project_name: clone_opt(name),
            root_paths: clone_strings(roots),
        });
        assert(roots_view(out@) =~= roots_view(before).push(root_view(out@.last())));
        assert(texts(roots@).subrange(0, i as int + 1).map_values(
            |p: Seq<char>| (p, Some(pid@), opt_view(*name), texts(roots@)),
        ) =~= texts(roots@).subrange(0, i as int).map_values(
            |p: Seq<char>| (p, Some(pid@), opt_view(*name), texts(roots@)),
        ).push((roots@[i as int]@, Some(pid@), opt_view(*name), texts(roots@))));
        i = i + 1;
    }
    assert(texts(roots@).subrange(0, n as int) =~= texts(roots@));
}

fn opt_text(o: &Option<String>, t: &[char]) -> (r: bool)
    ensures
        r == (opt_view(*o) == Some(t@)),
{
    match o {
        Some(x) => chars_eq(chars_of(x.as_str()).as_slice(), t),
        None => false,
    }
}

fn locals_roots(locals: &Vec<LocalProject>, home: &str) -> (r: Vec<StateProjectRoot>)
    ensures
        roots_view(r@) == locals_entries(locals@, home@),
{
    let n = locals.len();
    let mut out: Vec<StateProjectRoot> = Vec::new();
    let mut i: usize = 0;
    while i < n
        invariant
            i <= n,
            n == locals@.len(),
            roots_view(out@) == locals_entries(locals@.subrange(0, i as int), home@),
        decreases n - i,
    {
        let l = &locals[i];
        assert(locals@.subrange(0, i as int + 1).drop_last() =~= locals@.subrange(0, i as int));
        let paths = normalized_state_paths(&l.root_paths, home);
        let roots = unique_strings(paths);
        let pid = match &l.id {
            Some(x) => x.clone(),
            None => l.key.clone(),
        };
        let name = match &l.name {
            Some(x) => {
                if trim_chars(chars_of(x.as_str()).as_slice()).len() > 0 {
                    Some(x.clone())
                } else {
                    None
                }
            },
            None => None,
        };
        push_roots(&mut out, &roots, &pid, &name);
        proof {
            assert(texts(roots@).map_values(|p: Seq<char>| (p, Some(pid@), opt_view(name), texts(roots@)))
                =~= local_entries(*l, home@));
        }
        i = i + 1;
    }
    assert(locals@.subrange(0, n as int) =~= locals@);
    out
}

proof fn lemma_group_index(g: Seq<(Seq<char>, Seq<Seq<char>>)>, pid: Seq<char>)
    ensures
        group_index(g, pid) == -1 <==> forall|i: int| 0 <= i < g.len() ==> g[i].0 != pid,
        group_index(g, pid) >= 0 ==> {
            let k = group_index(g, pid);
            &&& k < g.len()
            &&& g[k].0 == pid
            &&& forall|j: int| 0 <= j < k ==> g[j].0 != pid
        },
        group_index(g, pid) >= -1,
    decreases g.len(),
{
    if g.len() > 0 {
        lemma_group_index(g.drop_last(), pid);
        let d = g.drop_last();
        assert forall|i: int| 0 <= i < d.len() implies d[i] == g[i] by {}
    }
}

/// The assignment groups.
fn groups_of(assignments: &Vec<Assignment>, home: &str) -> (r: Vec<(String, Vec<String>)>)
    ensures
        r@.len() == assignment_groups(assignments@, home@).len(),
        forall|i: int| 0 <= i < r@.len() ==> (#[trigger] r@[i]).0@ == assignment_groups(assignments@, home@)[i].0
            && texts(r@[i].1@) == assignment_groups(assignments@, home@)[i].1,
{
    let n = assignments.len();
    let mut g: Vec<(String, Vec<String>)> = Vec::new();
    let mut k: usize = 0;
    while k < n
        invariant
            k <= n,
            n == assignments@.len(),
            g@.len() == assignment_groups(assignments@.subrange(0, k as int), home@).len(),
            forall|i: int| 0 <= i < g@.len() ==> (#[trigger] g@[i]).0@ == assignment_groups(
                assignments@.subrange(0, k as int),
                home@,
            )[i].0 && texts(g@[i].1@) == assignment_groups(assignments@.subrange(0, k as int), home@)[i].1,
        decreases n - k,
    {
        let ghost spec_g = assignment_groups(assignments@.subrange(0, k as int), home@);
        assert(assignments@.subrange(0, k as int + 1).drop_last() =~= assignments@.subrange(0, k as int));
        assert(assignments@.subrange(0, k as int + 1).last() == assignments@[k as int]);
        let a = &assignments[k];
        match (&a.project_id, &a.cwd) {
            (Some(pid), Some(cwd)) => {
                match normalize_state_project_path(cwd.as_str(), home) {
                    Some(path) => {
                        let pc = chars_of(pid.as_str());
                        let m = g.len();
                        let mut i: usize = 0;
                        while i < m && !chars_eq(chars_of(g[i].0.as_str()).as_slice(), pc.as_slice())
                            invariant
                                i <= m,
                                m == g@.len(),
                                pc@ == pid@,
                                forall|j: int| 0 <= j < i ==> (#[trigger] g@[j]).0@ != pid@,
                                g@.len() == spec_g.len(),
                                forall|j: int| 0 <= j < g@.len() ==> (#[trigger] g@[j]).0@ == spec_g[j].0,
                            decreases m - i,
                        {
                            i = i + 1;
                        }
                        proof {
                            lemma_group_index(spec_g, pid@);
                        }
                        proof {
                            let q = group_index(spec_g, pid@);
                            if q >= 0 && q < i {
                                assert(g@[q].0@ == spec_g[q].0);
                            }
                            if i >= m {
                                assert forall|j: int| 0 <= j < spec_g.len() implies spec_g[j].0 != pid@ by {
                                    assert(g@[j].0@ == spec_g[j].0);
                                }
                            }
                        }
                        if i < m {
                            assert(g@[i as int].0@ == pid@);
                            assert(group_index(spec_g, pid@) == i as int);
                            let pc2 = chars_of(path.as_str());
                            if !contains_text(&g[i].1, pc2.as_slice()) {
                                let mut entry = g.remove(i);
                                let ghost before = entry.1@;
                                entry.1.push(path);
                                assert(texts(entry.1@) =~= texts(before).push(pc2@));
                                g.insert(i, entry);
                            }
                        } else {
                            assert(group_index(spec_g, pid@) == -1);
                            let mut roots: Vec<String> = Vec::new();
                            let ghost pv = path@;
                            roots.push(path);
                            assert(texts(roots@) =~= seq![pv]);
                            g.push((pid.clone(), roots));
                        }
                    },
                    None => {},
                }
            },
            _ => {},
        }
        k = k + 1;
    }
    assert(assignments@.subrange(0, n as int) =~= assignments@);
    g
}

/// The roots with each path kept once, at its first occurrence.
pub fn unique_state_project_roots(v: Vec<StateProjectRoot>) -> (r: Vec<StateProjectRoot>)
    ensures
        roots_view(r@) == unique_roots(roots_view(v@)),
{
    let ghost s = v@;
    let n = v.len();
    let mut rest = v;
    let mut out: Vec<StateProjectRoot> = Vec::new();
    let mut k: usize = 0;
    while k < n
        invariant
            k <= n,
            n == s.len(),
            rest@ == s.subrange(k as int, n as int),
            roots_view(out@) == unique_roots(roots_view(s.subrange(0, k as int))),
        decreases n - k,
    {
        let x = rest.remove(0);
        assert(x == s[k as int]);
        assert(rest@ =~= s.subrange(k as int + 1, n as int));
        assert(roots_view(s.subrange(0, k as int + 1)).drop_last() =~= roots_view(s.subrange(0, k as int)));
        let xp = chars_of(x.path.as_str());
        let m = out.len();
        let mut i: usize = 0;
        let mut found = false;
        while i < m
            invariant
                i <= m,
                m == out@.len(),
                xp@ == x.path@,
                found == exists|j: int| 0 <= j < i && #[trigger] roots_view(out@)[j].0 == xp@,
            decreases m - i,
        {
            if chars_eq(chars_of(out[i].path.as_str()).as_slice(), xp.as_slice()) {
                assert(roots_view(out@)[i as int].0 == xp@);
                found = true;
            }
            i = i + 1;
        }
        if !found {
            let ghost before = out@;
            out.push(x);
            assert(roots_view(out@) =~= roots_view(before).push(root_view(x)));
        }
        k = k + 1;
    }
    assert(s.subrange(0, n as int) =~= s);
    out
}

/// The project roots the desktop's state knows: every root path of the
/// local projects, then the working directories of thread assignments to
/// projects no local project names; each path once, at its first root.
pub fn state_project_roots(locals: &Vec<LocalProject>, assignments: &Vec<Assignment>, home: &str) -> (r: Vec<StateProjectRoot>)
    ensures
        roots_view(r@) == known_roots(locals@, assignments@, home@),
{
    let mut all = locals_roots(locals, home);
    let ghost l = roots_view(all@);
    let groups = groups_of(assignments, home);
    let ghost g = assignment_groups(assignments@, home@);
    let locals_only = all.len();
    let n = groups.len();
    let mut i: usize = 0;
    while i < n
        invariant
            i <= n,
            n == groups@.len(),
            n == g.len(),
            forall|j: int| 0 <= j < groups@.len() ==> (#[trigger] groups@[j]).0@ == g[j].0 && texts(groups@[j].1@)
                == g[j].1,
            locals_only <= all@.len(),
            roots_view(all@).subrange(0, locals_only as int) == l,
            l.len() == locals_only,
            roots_view(all@) == l + group_entries(g.subrange(0, i as int), l),
        decreases n - i,
    {
        let (pid, roots) = (&groups[i].0, &groups[i].1);
        assert(g.subrange(0, i as int + 1).drop_last() =~= g.subrange(0, i as int));
        let pc = chars_of(pid.as_str());
        // only the local projects' roots can carry this ID: group IDs are distinct
        let mut j: usize = 0;
        let mut named = false;
        while j < locals_only
            invariant
                j <= locals_only,
                locals_only <= all@.len(),
                l.len() == locals_only,
                roots_view(all@).subrange(0, locals_only as int) == l,
                named == exists|q: int| 0 <= q < j && #[trigger] l[q].1 == Some(pc@),
            decreases locals_only - j,
        {
            assert(l[j as int] == roots_view(all@).subrange(0, locals_only as int)[j as int]);
            assert(l[j as int] == root_view(all@[j as int]));
            if opt_text(&all[j].project_id, pc.as_slice()) {
                assert(l[j as int].1 == Some(pc@));
                named = true;
            } else {
                assert(l[j as int].1 != Some(pc@));
            }
            j = j + 1;
        }
        if !named {
            let ghost before = roots_view(all@);
            push_roots(&mut all, roots, pid, &None);
            proof {
                assert(roots_view(all@).subrange(0, locals_only as int) =~= before.subrange(0, locals_only as int));
            }
        }
        proof {
            assert(g.subrange(0, i as int + 1).last() == g[i as int]);
            assert(pc@ == g[i as int].0);
            assert(texts(roots@) == g[i as int].1);
            assert(roots_view(all@) =~= l + group_entries(g.subrange(0, i as int + 1), l));
        }
        i = i + 1;
    }
    assert(g.subrange(0, n as int) =~= g);
    unique_state_project_roots(all)
}

/// The first known root at `path`, if any.
pub open spec fn root_at(known: Seq<RootV>, path: Seq<char>) -> Option<RootV>
    decreases known.len(),
{
    if known.len() == 0 {
        None
    } else if known[0].0 == path {
        Some(known[0])
    } else {
        root_at(known.drop_first(), path)
    }
}

/// What one reference resolves to: every known root of the project with
/// that ID; else, for a project path, the known root there or a bare root.
pub open spec fn resolve_one(known: Seq<RootV>, reference: Seq<char>, home: Seq<char>) -> Seq<RootV> {
    let m = known.filter(|r: RootV| r.1 == Some(reference));
    if m.len() > 0 {
        m
    } else {
        match state_project_path(reference, home) {
            None => Seq::empty(),
            Some(p) => match root_at(known, p) {
                Some(r) => seq![r],
                None => seq![(p, None::<Seq<char>>, None::<Seq<char>>, seq![p])],
            },
        }
    }
}

/// All references resolved, in order.
pub open spec fn resolve_all(known: Seq<RootV>, references: Seq<Seq<char>>, home: Seq<char>) -> Seq<RootV>
    decreases references.len(),
{
    if references.len() == 0 {
        Seq::empty()
    } else {
        resolve_all(known, references.drop_last(), home) + resolve_one(known, references.last(), home)
    }
}

proof fn lemma_filter_prefix(known: Seq<RootV>, reference: Seq<char>, i: int)
    requires
        0 <= i < known.len(),
    ensures
        known.subrange(0, i + 1).filter(|r: RootV| r.1 == Some(reference)) == if known[i].1 == Some(reference) {
            known.subrange(0, i).filter(|r: RootV| r.1 == Some(reference)).push(known[i])
        } else {
            known.subrange(0, i).filter(|r: RootV| r.1 == Some(reference))
        },
{
    let t = known.subrange(0, i + 1);
    assert(t =~= known.subrange(0, i).push(known[i]));
    known.subrange(0, i).lemma_filter_push(known[i], |r: RootV| r.1 == Some(reference));
}

fn resolve_reference(known: &Vec<StateProjectRoot>, reference: &String, home: &str, out: &mut Vec<StateProjectRoot>)
    ensures
        roots_view(final(out)@) == roots_view(old(out)@) + resolve_one(roots_view(known@), reference@, home@),
{
    let ghost kv = roots_view(known@);
    let ghost start = roots_view(out@);
    let rc = chars_of(reference.as_str());
    let n = known.len();
    let mut i: usize = 0;
    let mut any = false;
    while i < n
        invariant
            i <= n,
            n == known@.len(),
            kv == roots_view(known@),
            rc@ == reference@,
            roots_view(out@) == start + kv.subrange(0, i as int).filter(|r: RootV| r.1 == Some(reference@)),
            start == roots_view(old(out)@),
            any == (kv.subrange(0, i as int).filter(|r: RootV| r.1 == Some(reference@)).len() > 0),
        decreases n - i,
    {
        proof {
            lemma_filter_prefix(kv, reference@, i as int);
        }
        assert(kv[i as int] == root_view(known@[i as int]));
        if opt_text(&known[i].project_id, rc.as_slice()) {
            let ghost before = roots_view(out@);
            let c = known[i].copy();
            out.push(c);
            assert(roots_view(out@) =~= before.push(root_view(c)));
            any = true;
        }
        i = i + 1;
    }
    assert(kv.subrange(0, n as int) =~= kv);
    if any {
        return;
    }
    let path = match normalize_state_project_path(reference.as_str(), home) {
        Some(p) => p,
        None => return,
    };
    let pc = chars_of(path.as_str());
    let mut j: usize = 0;
    assert(kv.subrange(0, n as int) =~= kv);
    while j < n
        invariant
            j <= n,
            n == known@.len(),
            kv == roots_view(known@),
            pc@ == path@,
            root_at(kv, path@) == root_at(kv.subrange(j as int, n as int), path@),
            roots_view(out@) == start,
            start == roots_view(old(out)@),
            kv.filter(|r: RootV| r.1 == Some(reference@)).len() == 0,
            state_project_path(reference@, home@) == Some(path@),
        decreases n - j,
    {
        let ghost rest = kv.subrange(j as int, n as int);
        assert(rest.drop_first() =~= kv.subrange(j as int + 1, n as int));
        assert(rest[0] == root_view(known@[j as int]));
        if chars_eq(chars_of(known[j].path.as_str()).as_slice(), pc.as_slice()) {
            let c = known[j].copy();
            assert(rest[0].0 == path@);
            assert(root_at(rest, path@) == Some(rest[0]));
            assert(resolve_one(kv, reference@, home@) == seq![rest[0]]);
            out.push(c);
            assert(roots_view(out@) =~= start.push(root_view(c)));
            return;
        }
        j = j + 1;
    }
    let mut roots: Vec<String> = Vec::new();
    roots.push(path.clone());
    let r = StateProjectRoot { path, project_id: None, project_name: None, root_paths: roots };
    let ghost before = roots_view(out@);
    out.push(r);
    assert(roots_view(out@) =~= before.push(root_view(r)));
    assert(texts(r.root_paths@) =~= seq![pc@]);
}

/// Resolves references to projects (project IDs or paths) against the
/// known roots; each path is kept once, at its first root.
pub fn resolve_state_project_references(
    known: &Vec<StateProjectRoot>,
    references: &Vec<String>,
    home: &str,
) -> (r: Vec<StateProjectRoot>)
    ensures
        roots_view(r@) == unique_roots(resolve_all(roots_view(known@), texts(references@), home@)),
{
    let n = references.len();
    let mut out: Vec<StateProjectRoot> = Vec::new();
    let mut i: usize = 0;
    while i < n
        invariant
            i <= n,
            n == references@.len(),
            roots_view(out@) == resolve_all(roots_view(known@), texts(references@.subrange(0, i as int)), home@),
        decreases n - i,
    {
        assert(texts(references@.subrange(0, i as int + 1)).drop_last() =~= texts(references@.subrange(0, i as int)));
        resolve_reference(known, &references[i], home, &mut out);
        i = i + 1;
    }
    assert(references@.subrange(0, n as int) =~= references@);
    unique_state_project_roots(out)
}

/// The non-blank strings of a list, in order.
pub fn array_strings(values: Vec<String>) -> (r: Vec<String>)
    ensures
        texts(r@) == texts(values@).filter(|t: Seq<char>| trim(t).len() > 0),
{
    let ghost s = values@;
    let n = values.len();
    let mut rest = values;
    let mut out: Vec<String> = Vec::new();
    let mut k: usize = 0;
    while k < n
        invariant
            k <= n,
            n == s.len(),
            rest@ == s.subrange(k as int, n as int),
            texts(out@) == texts(s.subrange(0, k as int)).filter(|t: Seq<char>| trim(t).len() > 0),
        decreases n - k,
    {
        let x = rest.remove(0);
        assert(x == s[k as int]);
        assert(rest@ =~= s.subrange(k as int + 1, n as int));
        assert(texts(s.subrange(0, k as int + 1)) =~= texts(s.subrange(0, k as int)).push(x@));
        proof {
            texts(s.subrange(0, k as int)).lemma_filter_push(x@, |t: Seq<char>| trim(t).len() > 0);
        }
        if trim_chars(chars_of(x.as_str()).as_slice()).len() > 0 {
            let ghost before = out@;
            out.push(x);
            assert(texts(out@) =~= texts(before).push(x@));
        }
        k = k + 1;
    }
    assert(s.subrange(0, n as int) =~= s);
    out
}

// ---------------------------------------------------------------------------
// The catalog

/// A project in the listing.
#[derive(Clone, Debug)]
pub struct ProjectEntry {
    pub path: String,
    pub title: String,
    pub exists: bool,
    pub pinned: bool,
    pub active: bool,
    pub trust_level: Option<String>,
    pub project_id: Option<String>,
    pub project_name: Option<String>,
    pub root_paths: Vec<String>,
    pub session_count: u64,
    /// The thread timestamp last seen, as the JSON text it had.
    pub last_active_at: Option<String>,
    pub sources: Vec<String>,
}

/// What a project entry holds.
pub struct EntryView {
    pub path: Seq<char>,
    pub title: Seq<char>,
    pub exists: bool,
    pub pinned: bool,
    pub active: bool,
    pub trust_level: Option<Seq<char>>,
    pub project_id: Option<Seq<char>>,
    pub project_name: Option<Seq<char>>,
    pub root_paths: Seq<Seq<char>>,
    pub session_count: u64,
    pub last_active_at: Option<Seq<char>>,
    pub sources: Seq<Seq<char>>,
}

pub open spec fn entry_view(e: ProjectEntry) -> EntryView {
    EntryView {
        path: e.path@,
        title: e.title@,
        exists: e.exists,
        pinned: e.pinned,
        active: e.active,
        trust_level: opt_view(e.trust_level),
        project_id: opt_view(e.project_id),
        project_name: opt_view(e.project_name),
        root_paths: texts(e.root_paths@),
        session_count: e.session_count,
        last_active_at: opt_view(e.last_active_at),
        sources: texts(e.sources@),
    }
}

pub open spec fn entries_view(s: Seq<ProjectEntry>) -> Seq<EntryView> {
    s.map_values(|e: ProjectEntry| entry_view(e))
}

/// The title a new project gets: the last component of its path, or the
/// whole path when it has none.
pub open spec fn path_title(path: Seq<char>) -> Seq<char> {
    match file_name(path) {
        Some(n) => n,
        None => path,
    }
}

/// A project first seen at `path` through `source`.
pub open spec fn new_entry(path: Seq<char>, source: Seq<char>) -> EntryView {
    EntryView {
        path,
        title: path_title(path),
        exists: false,
        pinned: false,
        active: false,
        trust_level: None,
        project_id: None,
        project_name: None,
        root_paths: seq![path],
        session_count: 0,
        last_active_at: None,
        sources: seq![source],
    }
}

/// How a source changes a project.
#[derive(Debug)]
pub enum Change {
    /// Saved in the desktop: the root's ID, name (also the title) and paths.
    Saved(StateProjectRoot),
    /// Active in the desktop, likewise.
    Active(StateProjectRoot),
    /// Pinned in the desktop, likewise.
    Pinned(StateProjectRoot),
    /// Trusted by Codex's configuration, at this level.
    Trusted(String),
    /// A thread runs there; the thread's timestamp, if it has one.
    Thread(Option<String>),
}

pub enum ChangeV {
    Saved(RootV),
    Active(RootV),
    Pinned(RootV),
    Trusted(Seq<char>),
    Thread(Option<Seq<char>>),
}

pub open spec fn change_view(c: Change) -> ChangeV {
    match c {
        Change::Saved(r) => ChangeV::Saved(root_view(r)),
        Change::Active(r) => ChangeV::Active(root_view(r)),
        Change::Pinned(r) => ChangeV::Pinned(root_view(r)),
        Change::Trusted(t) => ChangeV::Trusted(t@),
        Change::Thread(t) => ChangeV::Thread(opt_view(t)),
    }
}

/// The source name a change is recorded under.
pub open spec fn source_of(c: ChangeV) -> Seq<char> {
    match c {
        ChangeV::Saved(_) => "saved"@,
        ChangeV::Active(_) => "active"@,
        ChangeV::Pinned(_) => "pinned"@,
        ChangeV::Trusted(_) => "trusted"@,
        ChangeV::Thread(_) => "threads"@,
    }
}

/// A project's fields taken from a state root: its ID and name when
/// present (the name also becomes the title), and its root paths.
pub open spec fn with_root(e: EntryView, r: RootV) -> EntryView {
    let e1 = match r.1 {
        Some(id) => EntryView { project_id: Some(id), ..e },
        None => e,
    };
    let e2 = match r.2 {
        Some(n) => EntryView { project_name: Some(n), title: n, ..e1 },
        None => e1,
    };
    EntryView { root_paths: r.3, ..e2 }
}

/// The entry after a change (its source already recorded).
pub open spec fn changed(e: EntryView, c: ChangeV) -> EntryView {
    match c {
        ChangeV::Saved(r) => with_root(e, r),
        ChangeV::Active(r) => EntryView { active: true, ..with_root(e, r) },
        ChangeV::Pinned(r) => EntryView { pinned: true, ..with_root(e, r) },
        ChangeV::Trusted(t) => EntryView { trust_level: Some(t), ..e },
        ChangeV::Thread(ts) => EntryView {
            session_count: if e.session_count == u64::MAX { u64::MAX } else { (e.session_count + 1) as u64 },
            last_active_at: match ts {
                Some(t) => Some(t),
                None => e.last_active_at,
            },
            ..e
        },
    }
}

/// The index of the entry at `path`, or -1.
pub open spec fn entry_index(cat: Seq<EntryView>, path: Seq<char>) -> int
    decreases cat.len(),
{
    if cat.len() == 0 {
        -1
    } else if cat.last().path == path {
        cat.len() - 1
    } else {
        entry_index(cat.drop_last(), path)
    }
}

/// The catalog after a change at `path`: the entry there (created if
/// missing) records the source once and takes the change.
pub open spec fn apply_change(cat: Seq<EntryView>, path: Seq<char>, c: ChangeV) -> Seq<EntryView> {
    let i = entry_index(cat, path);
    let src = source_of(c);
    if i >= 0 {
        let e = cat[i];
        let e1 = if e.sources.contains(src) { e } else { EntryView { sources: e.sources.push(src), ..e } };
        cat.update(i, changed(e1, c))
    } else {
        cat.push(changed(new_entry(path, src), c))
    }
}

/// No two entries share a path.
pub open spec fn paths_unique(cat: Seq<EntryView>) -> bool {
    forall|i: int, j: int| 0 <= i < j < cat.len() ==> cat[i].path != cat[j].path
}

/// The projects found so far, each at its own path.
#[derive(Debug)]
pub struct ProjectCatalog {
    pub entries: Vec<ProjectEntry>,
}

impl ProjectCatalog {
    pub open spec fn view(&self) -> Seq<EntryView> {
        entries_view(self.entries@)
    }

    pub fn new() -> (r: Self)
        ensures
            r.view() == Seq::<EntryView>::empty(),
    {
        ProjectCatalog { entries: Vec::new() }
    }
}

proof fn lemma_entry_index(cat: Seq<EntryView>, path: Seq<char>)
    ensures
        -1 <= entry_index(cat, path) < cat.len(),
        entry_index(cat, path) >= 0 ==> cat[entry_index(cat, path)].path == path,
        entry_index(cat, path) == -1 ==> forall|i: int| 0 <= i < cat.len() ==> cat[i].path != path,
    decreases cat.len(),
{
    if cat.len() > 0 && cat.last().path != path {
        lemma_entry_index(cat.drop_last(), path);
        assert forall|i: int| 0 <= i < cat.len() - 1 implies cat.drop_last()[i] == cat[i] by {}
    }
}

proof fn lemma_entry_index_unique(cat: Seq<EntryView>, path: Seq<char>, k: int)
    requires
        paths_unique(cat),
        0 <= k < cat.len(),
        cat[k].path == path,
    ensures
        entry_index(cat, path) == k,
    decreases cat.len(),
{
    if k < cat.len() - 1 {
        assert(cat.last().path != path);
        let d = cat.drop_last();
        assert(d[k] == cat[k]);
        assert(paths_unique(d)) by {
            assert forall|i: int, j: int| 0 <= i < j < d.len() implies d[i].path != d[j].path by {
                assert(d[i] == cat[i] && d[j] == cat[j]);
            }
        }
        lemma_entry_index_unique(d, path, k);
    }
}

fn find_entry(entries: &Vec<ProjectEntry>, path: &[char]) -> (r: Option<usize>)
    requires
        paths_unique(entries_view(entries@)),
    ensures
        match r {
            Some(i) => entry_index(entries_view(entries@), path@) == i,
            None => entry_index(entries_view(entries@), path@) == -1,
        },
{
    let n = entries.len();
    let mut i: usize = 0;
    while i < n
        invariant
            i <= n,
            n == entries@.len(),
            forall|j: int| 0 <= j < i ==> entries@[j].path@ != path@,
            paths_unique(entries_view(entries@)),
        decreases n - i,
    {
        if chars_eq(chars_of(entries[i].path.as_str()).as_slice(), path) {
            proof {
                assert(entries_view(entries@)[i as int].path == path@);
                lemma_entry_index_unique(entries_view(entries@), path@, i as int);
            }
            return Some(i);
        }
        i = i + 1;
    }
    proof {
        lemma_entry_index(entries_view(entries@), path@);
        let k = entry_index(entries_view(entries@), path@);
        if k >= 0 {
            assert(entries_view(entries@)[k].path == entries@[k].path@);
        }
    }
    None
}

fn source_name(c: &Change) -> (r: String)
    ensures
        r@ == source_of(change_view(*c)),
{
    match c {
        Change::Saved(_) => String::from_str("saved"),
        Change::Active(_) => String::from_str("active"),
        Change::Pinned(_) => String::from_str("pinned"),
        Change::Trusted(_) => String::from_str("trusted"),
        Change::Thread(_) => String::from_str("threads"),
    }
}

fn take_root(e: &mut ProjectEntry, r: &StateProjectRoot)
    ensures
        entry_view(*final(e)) == with_root(entry_view(*old(e)), root_view(*r)),
{
    match &r.project_id {
        Some(id) => {
            e.project_id = Some(id.clone());
        },
        None => {},
    }
    match &r.project_name {
        Some(n) => {
            e.project_name = Some(n.clone());
            e.title = n.clone();
        },
        None => {},
    }
    e.root_paths = clone_strings(&r.root_paths);
}

fn take_change(e: &mut ProjectEntry, c: &Change)
    ensures
        entry_view(*final(e)) == changed(entry_view(*old(e)), change_view(*c)),
{
    match c {
        Change::Saved(r) => take_root(e, r),
        Change::Active(r) => {
            take_root(e, r);
            e.active = true;
        },
        Change::Pinned(r) => {
            take_root(e, r);
            e.pinned = true;
        },
        Change::Trusted(t) => {
            e.trust_level = Some(t.clone());
        },
        Change::Thread(ts) => {
            e.session_count = if e.session_count == u64::MAX { u64::MAX } else { e.session_count + 1 };
            match ts {
                Some(t) => {
                    e.last_active_at = Some(t.clone());
                },
                None => {},
            }
        },
    }
}

fn title_of(path: &String) -> (r: String)
    ensures
        r@ == path_title(path@),
{
    let pc = chars_of(path.as_str());
    match crate::app_server::last_component_of(pc.as_slice()) {
        Some(name) => string_from_chars(name.as_slice()),
        None => path.clone(),
    }
}

impl ProjectCatalog {
    /// Records a change of the project at `path`, creating the project when
    /// it is new; the catalog keeps one entry per path.
    pub fn apply(&mut self, path: &String, change: &Change)
        requires
            paths_unique(old(self).view()),
        ensures
            paths_unique(final(self).view()),
            final(self).view() == apply_change(old(self).view(), path@, change_view(*change)),
    {
        let ghost before = self.view();
        let pc = chars_of(path.as_str());
        let src = source_name(change);
        let sc = chars_of(src.as_str());
        match find_entry(&self.entries, pc.as_slice()) {
            Some(i) => {
                proof {
                    lemma_entry_index(before, path@);
                }
                let mut e = self.entries.remove(i);
                assert(entry_view(e) == before[i as int]);
                if !contains_text(&e.sources, sc.as_slice()) {
                    let ghost s0 = e.sources@;
                    e.sources.push(src);
                    assert(texts(e.sources@) =~= texts(s0).push(sc@));
                }
                take_change(&mut e, change);
                self.entries.insert(i, e);
                assert(self.view() =~= apply_change(before, path@, change_view(*change)));
                assert(paths_unique(self.view())) by {
                    assert forall|a: int, b: int| 0 <= a < b < self.view().len() implies self.view()[a].path
                        != self.view()[b].path by {
                        assert(self.view()[a].path == before[a].path);
                        assert(self.view()[b].path == before[b].path);
                    }
                }
            },
            None => {
                let mut roots: Vec<String> = Vec::new();
                roots.push(path.clone());
                let mut sources: Vec<String> = Vec::new();
                sources.push(src);
                let mut e = ProjectEntry {
                    path: path.clone(),
                    title: title_of(path),
                    exists: false,
                    pinned: false,
                    active: false,
                    trust_level: None,
                    project_id: None,
                    project_name: None,
                    root_paths: roots,
                    session_count: 0,
                    last_active_at: None,
                    sources,
                };
                assert(texts(e.root_paths@) =~= seq![path@]);
                assert(texts(e.sources@) =~= seq![sc@]);
                assert(entry_view(e) == new_entry(path@, sc@));
                take_change(&mut e, change);
                self.entries.push(e);
                proof {
                    lemma_entry_index(before, path@);
                }
                assert(self.view() =~= apply_change(before, path@, change_view(*change)));
            },
        }
    }
}

/// The catalog after a list of changes, in order.
pub open spec fn apply_all(cat: Seq<EntryView>, changes: Seq<(Seq<char>, ChangeV)>) -> Seq<EntryView>
    decreases changes.len(),
{
    if changes.len() == 0 {
        cat
    } else {
        let c = changes.last();
        apply_change(apply_all(cat, changes.drop_last()), c.0, c.1)
    }
}

pub open spec fn changes_view(v: Seq<(String, Change)>) -> Seq<(Seq<char>, ChangeV)> {
    v.map_values(|c: (String, Change)| (c.0@, change_view(c.1)))
}

impl ProjectCatalog {
    /// Records the changes in order.
    pub fn apply_all(&mut self, changes: &Vec<(String, Change)>)
        requires
            paths_unique(old(self).view()),
        ensures
            paths_unique(final(self).view()),
            final(self).view() == apply_all(old(self).view(), changes_view(changes@)),
    {
        let ghost start = self.view();
        let n = changes.len();
        let mut i: usize = 0;
        while i < n
            invariant
                i <= n,
                n == changes@.len(),
                paths_unique(self.view()),
                self.view() == apply_all(start, changes_view(changes@.subrange(0, i as int))),
            decreases n - i,
        {
            assert(changes_view(changes@.subrange(0, i as int + 1)).drop_last() =~= changes_view(
                changes@.subrange(0, i as int),
            ));
            let (path, change) = (&changes[i].0, &changes[i].1);
            self.apply(path, change);
            i = i + 1;
        }
        assert(changes@.subrange(0, n as int) =~= changes@);
    }
}

fn root_changes(roots: &Vec<StateProjectRoot>, kind: u8, out: &mut Vec<(String, Change)>)
    requires
        kind < 3,
    ensures
        changes_view(final(out)@) == changes_view(old(out)@) + roots_view(roots@).map_values(
            |r: RootV| (r.0, if kind == 0 { ChangeV::Saved(r) } else if kind == 1 { ChangeV::Active(r) } else { ChangeV::Pinned(r) }),
        ),
{
    let ghost start = changes_view(out@);
    let n = roots.len();
    let mut i: usize = 0;
    while i < n
        invariant
            i <= n,
            n == roots@.len(),
            kind < 3,
            changes_view(out@) == start + roots_view(roots@).subrange(0, i as int).map_values(
                |r: RootV| (r.0, if kind == 0 { ChangeV::Saved(r) } else if kind == 1 { ChangeV::Active(r) } else { ChangeV::Pinned(r) }),
            ),
        decreases n - i,
    {
        let r = roots[i].copy();
        let path = r.path.clone();
        let c = if kind == 0 {
            Change::Saved(r)
        } else if kind == 1 {
            Change::Active(r)
        } else {
            Change::Pinned(r)
        };
        let ghost before = changes_view(out@);
        out.push((path, c));
        assert(changes_view(out@) =~= before.push((path@, change_view(c))));
        assert(roots_view(roots@).subrange(0, i as int + 1) =~= roots_view(roots@).subrange(0, i as int).push(
            root_view(roots@[i as int]),
        ));
        i = i + 1;
    }
    assert(roots_view(roots@).subrange(0, n as int) =~= roots_view(roots@));
}

/// The changes the desktop's state and Codex's configuration make, in the
/// order they are recorded: saved roots (when asked for), active roots,
/// pinned roots, then trusted projects (when asked for).
pub open spec fn state_changes(
    saved: Seq<RootV>,
    active: Seq<RootV>,
    pinned: Seq<RootV>,
    trusted: Seq<(Seq<char>, Seq<char>)>,
    include_saved: bool,
    include_trusted: bool,
) -> Seq<(Seq<char>, ChangeV)> {
    (if include_saved { saved.map_values(|r: RootV| (r.0, ChangeV::Saved(r))) } else { Seq::empty() })
        + active.map_values(|r: RootV| (r.0, ChangeV::Active(r)))
        + pinned.map_values(|r: RootV| (r.0, ChangeV::Pinned(r)))
        + (if include_trusted { trusted.map_values(|t: (Seq<char>, Seq<char>)| (t.0, ChangeV::Trusted(t.1))) } else { Seq::empty() })
}

pub open spec fn trusted_view(v: Seq<TrustedProject>) -> Seq<(Seq<char>, Seq<char>)> {
    v.map_values(|t: TrustedProject| (t.path@, t.trust_level@))
}

/// The changes to record from the desktop's state and Codex's
/// configuration.
pub fn collect_state_changes(
    saved: &Vec<StateProjectRoot>,
    active: &Vec<StateProjectRoot>,
    pinned: &Vec<StateProjectRoot>,
    trusted: &Vec<TrustedProject>,
    include_saved: bool,
    include_trusted: bool,
) -> (r: Vec<(String, Change)>)
    ensures
        changes_view(r@) == state_changes(
            roots_view(saved@),
            roots_view(active@),
            roots_view(pinned@),
            trusted_view(trusted@),
            include_saved,
            include_trusted,
        ),
{
    let mut out: Vec<(String, Change)> = Vec::new();
    if include_saved {
        root_changes(saved, 0, &mut out);
    }
    root_changes(active, 1, &mut out);
    root_changes(pinned, 2, &mut out);
    let ghost mid = changes_view(out@);
    if include_trusted {
        let n = trusted.len();
        let mut i: usize = 0;
        while i < n
            invariant
                i <= n,
                n == trusted@.len(),
                changes_view(out@) == mid + trusted_view(trusted@).subrange(0, i as int).map_values(
                    |t: (Seq<char>, Seq<char>)| (t.0, ChangeV::Trusted(t.1)),
                ),
            decreases n - i,
        {
            let ghost before = changes_view(out@);
            let t = &trusted[i];
            out.push((t.path.clone(), Change::Trusted(t.trust_level.clone())));
            assert(changes_view(out@) =~= before.push((t.path@, ChangeV::Trusted(t.trust_level@))));
            assert(trusted_view(trusted@).subrange(0, i as int + 1) =~= trusted_view(trusted@).subrange(0, i as int).push(
                (t.path@, t.trust_level@),
            ));
            i = i + 1;
        }
        assert(trusted_view(trusted@).subrange(0, n as int) =~= trusted_view(trusted@));
    }
    proof {
        let a = if include_saved { roots_view(saved@).map_values(|r: RootV| (r.0, ChangeV::Saved(r))) } else { Seq::empty() };
        let b = roots_view(active@).map_values(|r: RootV| (r.0, ChangeV::Active(r)));
        let c = roots_view(pinned@).map_values(|r: RootV| (r.0, ChangeV::Pinned(r)));
        assert(roots_view(saved@).map_values(|r: RootV| (r.0, ChangeV::Saved(r))) =~= roots_view(saved@).map_values(
            |r: RootV| (r.0, if 0u8 == 0 { ChangeV::Saved(r) } else if 0u8 == 1 { ChangeV::Active(r) } else { ChangeV::Pinned(r) }),
        ));
        assert(b =~= roots_view(active@).map_values(
            |r: RootV| (r.0, if 1u8 == 0 { ChangeV::Saved(r) } else if 1u8 == 1 { ChangeV::Active(r) } else { ChangeV::Pinned(r) }),
        ));
        assert(c =~= roots_view(pinned@).map_values(
            |r: RootV| (r.0, if 2u8 == 0 { ChangeV::Saved(r) } else if 2u8 == 1 { ChangeV::Active(r) } else { ChangeV::Pinned(r) }),
        ));
        assert(changes_view(out@) =~= state_changes(
            roots_view(saved@),
            roots_view(active@),
            roots_view(pinned@),
            trusted_view(trusted@),
            include_saved,
            include_trusted,
        ));
    }
    out
}

/// The change a listed thread makes: its working directory, normalised,
/// gains a session and the thread's timestamp.
pub fn thread_change(cwd: &str, timestamp: Option<String>, home: &str, current_dir: &str) -> (r: Option<(String, Change)>)
    ensures
        match project_path(cwd@, home@, current_dir@) {
            Some(p) => r matches Some((q, c)) && q@ == p && change_view(c) == ChangeV::Thread(opt_view(timestamp)),
            None => r is None,
        },
{
    match normalize_project_path(cwd, home, current_dir) {
        Some(p) => Some((p, Change::Thread(timestamp))),
        None => None,
    }
}

// ---------------------------------------------------------------------------
// The listing

/// The project is listed: it exists when only existing ones are asked for,
/// and its title or path, lower-cased, contains the lower-cased search term.
pub open spec fn listed(e: EntryView, term: Seq<char>, exists_only: bool) -> bool {
    &&& !(exists_only && !e.exists)
    &&& (term.len() == 0 || contains_seq(spec_to_lowercase(e.title), term) || contains_seq(
        spec_to_lowercase(e.path),
        term,
    ))
}

/// Where a path stands in the saved order (`usize::MAX` when unsaved).
pub open spec fn saved_index(order: Seq<Seq<char>>, p: Seq<char>) -> int
    decreases order.len(),
{
    if order.len() == 0 {
        usize::MAX as int
    } else if order[0] == p {
        0
    } else {
        let i = saved_index(order.drop_first(), p);
        if i == usize::MAX as int { i } else { i + 1 }
    }
}

/// `a` is listed before `b`: pinned first, then by saved order, then by
/// title, then by path.
pub open spec fn listed_before(a: EntryView, b: EntryView, order: Seq<Seq<char>>) -> bool {
    if a.pinned != b.pinned {
        a.pinned
    } else if saved_index(order, a.path) != saved_index(order, b.path) {
        saved_index(order, a.path) < saved_index(order, b.path)
    } else if a.title != b.title {
        lex_lt(a.title, b.title)
    } else {
        lex_lt(a.path, b.path)
    }
}

/// Where `x` goes among the listed `r`: before the first that it precedes.
pub open spec fn listing_pos(r: Seq<EntryView>, x: EntryView, order: Seq<Seq<char>>) -> int
    decreases r.len(),
{
    if r.len() == 0 {
        0
    } else if listed_before(x, r[0], order) {
        0
    } else {
        1 + listing_pos(r.drop_first(), x, order)
    }
}

/// The projects in listing order, each inserted in turn.
pub open spec fn listing_order(s: Seq<EntryView>, order: Seq<Seq<char>>) -> Seq<EntryView>
    decreases s.len(),
{
    if s.len() == 0 {
        s
    } else {
        let r = listing_order(s.drop_last(), order);
        r.insert(listing_pos(r, s.last(), order), s.last())
    }
}

proof fn lemma_listing_pos(r: Seq<EntryView>, x: EntryView, order: Seq<Seq<char>>, p: int)
    requires
        0 <= p <= r.len(),
        forall|q: int| 0 <= q < p ==> !listed_before(x, #[trigger] r[q], order),
        p == r.len() || listed_before(x, r[p], order),
    ensures
        listing_pos(r, x, order) == p,
    decreases p,
{
    if p > 0 {
        let t = r.drop_first();
        assert forall|q: int| 0 <= q < p - 1 implies !listed_before(x, #[trigger] t[q], order) by {
            assert(t[q] == r[q + 1]);
        }
        lemma_listing_pos(t, x, order, p - 1);
    }
}

proof fn lemma_listing_len(s: Seq<EntryView>, order: Seq<Seq<char>>)
    ensures
        listing_order(s, order).len() == s.len(),
    decreases s.len(),
{
    if s.len() > 0 {
        lemma_listing_len(s.drop_last(), order);
        lemma_listing_pos_bounds(listing_order(s.drop_last(), order), s.last(), order);
    }
}

proof fn lemma_listing_pos_bounds(r: Seq<EntryView>, x: EntryView, order: Seq<Seq<char>>)
    ensures
        0 <= listing_pos(r, x, order) <= r.len(),
    decreases r.len(),
{
    if r.len() > 0 && !listed_before(x, r[0], order) {
        lemma_listing_pos_bounds(r.drop_first(), x, order);
    }
}

proof fn lemma_saved_index_bound(s: Seq<Seq<char>>, p: Seq<char>)
    requires
        s.len() <= usize::MAX,
    ensures
        saved_index(s, p) == usize::MAX as int || 0 <= saved_index(s, p) < s.len(),
    decreases s.len(),
{
    if s.len() > 0 && s[0] != p {
        lemma_saved_index_bound(s.drop_first(), p);
    }
}

fn saved_index_exec(order: &Vec<Vec<char>>, p: &[char]) -> (r: usize)
    ensures
        r as int == saved_index(order@.map_values(|c: Vec<char>| c@), p@),
{
    let ghost ov = order@.map_values(|c: Vec<char>| c@);
    let n = order.len();
    let mut i: usize = 0;
    assert(ov.subrange(0, n as int) =~= ov);
    while i < n
        invariant
            i <= n,
            n == order@.len(),
            ov == order@.map_values(|c: Vec<char>| c@),
            saved_index(ov, p@) == if saved_index(ov.subrange(i as int, n as int), p@) == usize::MAX as int {
                usize::MAX as int
            } else {
                saved_index(ov.subrange(i as int, n as int), p@) + i
            },
        decreases n - i,
    {
        let ghost rest = ov.subrange(i as int, n as int);
        assert(rest.drop_first() =~= ov.subrange(i as int + 1, n as int));
        assert(rest[0] == order@[i as int]@);
        proof {
            lemma_saved_index_bound(rest.drop_first(), p@);
        }
        if chars_eq(order[i].as_slice(), p) {
            return i;
        }
        i = i + 1;
    }
    usize::MAX
}

fn listed_before_exec(
    a: &ProjectEntry,
    ai: usize,
    b: &ProjectEntry,
    bi: usize,
    order: Ghost<Seq<Seq<char>>>,
) -> (r: bool)
    requires
        ai as int == saved_index(order@, a.path@),
        bi as int == saved_index(order@, b.path@),
    ensures
        r == listed_before(entry_view(*a), entry_view(*b), order@),
{
    if a.pinned != b.pinned {
        return a.pinned;
    }
    if ai != bi {
        return ai < bi;
    }
    let at = chars_of(a.title.as_str());
    let bt = chars_of(b.title.as_str());
    if !chars_eq(at.as_slice(), bt.as_slice()) {
        return lex_lt_exec(at.as_slice(), bt.as_slice());
    }
    lex_lt_exec(chars_of(a.path.as_str()).as_slice(), chars_of(b.path.as_str()).as_slice())
}

fn is_listed(e: &ProjectEntry, term: &Vec<char>, exists_only: bool) -> (r: bool)
    ensures
        r == listed(entry_view(*e), term@, exists_only),
{
    if exists_only && !e.exists {
        return false;
    }
    if term.len() == 0 {
        return true;
    }
    let t = to_lowercase(e.title.as_str());
    if contains_chars(chars_of(t.as_str()).as_slice(), term.as_slice()) {
        return true;
    }
    let p = to_lowercase(e.path.as_str());
    contains_chars(chars_of(p.as_str()).as_slice(), term.as_slice())
}

proof fn lemma_listing_order_contains(s: Seq<EntryView>, order: Seq<Seq<char>>, x: EntryView)
    ensures
        listing_order(s, order).contains(x) == s.contains(x),
    decreases s.len(),
{
    if s.len() > 0 {
        let q = s.drop_last();
        let l = s.last();
        let r = listing_order(q, order);
        lemma_listing_order_contains(q, order, x);
        lemma_listing_pos_bounds(r, l, order);
        let p = listing_pos(r, l, order);
        r.insert_ensures(p, l);
        let ri = r.insert(p, l);
        if ri.contains(x) {
            let j = choose|j: int| 0 <= j < ri.len() && ri[j] == x;
            if j < p {
                assert(r[j] == x);
                assert(q.contains(x));
            } else if j > p {
                assert(ri[(j - 1) + 1] == r[j - 1]);
                assert(q.contains(x));
            }
            if x != l {
                let k = choose|k: int| 0 <= k < q.len() && q[k] == x;
                assert(s[k] == x);
            } else {
                assert(s[s.len() - 1] == x);
            }
        }
        if s.contains(x) {
            let k = choose|k: int| 0 <= k < s.len() && s[k] == x;
            if k == s.len() - 1 {
                assert(ri[p] == x);
            } else {
                assert(q[k] == x);
                assert(r.contains(x));
                let j = choose|j: int| 0 <= j < r.len() && r[j] == x;
                if j < p {
                    assert(ri[j] == x);
                } else {
                    assert(ri[j + 1] == x);
                }
            }
        }
    }
}

/// Who is listed: a project of the catalog is listed exactly when it
/// exists (if only existing projects are asked for) and, unless the
/// lower-cased search term is empty, the term occurs in its lower-cased
/// title or in its lower-cased path.
pub proof fn lemma_listing_members(
    cat: Seq<EntryView>,
    order: Seq<Seq<char>>,
    term: Seq<char>,
    exists_only: bool,
    e: EntryView,
)
    ensures
        listing(cat, order, term, exists_only).contains(e) == (cat.contains(e) && (exists_only ==> e.exists) && (
        term.len() == 0 || contains_seq(spec_to_lowercase(e.title), term) || contains_seq(
            spec_to_lowercase(e.path),
            term,
        ))),
{
    let f = |x: EntryView| listed(x, term, exists_only);
    let fl = cat.filter(f);
    lemma_listing_order_contains(fl, order, e);
    if fl.contains(e) {
        cat.lemma_filter_contains_rev(f, e);
        let i = choose|i: int| 0 <= i < fl.len() && fl[i] == e;
        cat.lemma_filter_pred(f, i);
    }
    if cat.contains(e) && f(e) {
        let i = choose|i: int| 0 <= i < cat.len() && cat[i] == e;
        cat.lemma_filter_contains(f, i);
    }
}

/// The page size: 100 when none is asked for, else the size asked for,
/// raised to 1 and cut to 500.
pub proof fn lemma_page_limit(limit: Option<u64>)
    ensures
        1 <= page_limit(limit) <= 500,
        limit is None ==> page_limit(limit) == 100,
        limit is Some && 1 <= limit->Some_0 <= 500 ==> page_limit(limit) == limit->Some_0,
        limit == Some(0u64) ==> page_limit(limit) == 1,
        limit is Some && limit->Some_0 > 500 ==> page_limit(limit) == 500,
{
}

/// One page of the listing.
#[derive(Debug)]
pub struct ProjectPage {
    pub items: Vec<ProjectEntry>,
    pub total: usize,
    pub next_cursor: Option<u64>,
}

/// Projects on a page by default, and at most.
pub const DEFAULT_PROJECT_LIMIT: u64 = 100;
pub const MAX_PROJECT_LIMIT: u64 = 500;

/// `limit.unwrap_or(100).clamp(1, 500)`.
pub open spec fn page_limit(limit: Option<u64>) -> u64 {
    let l = match limit {
        Some(v) => v,
        None => DEFAULT_PROJECT_LIMIT,
    };
    if l < 1 { 1 } else if l > MAX_PROJECT_LIMIT { MAX_PROJECT_LIMIT } else { l }
}

/// The listed projects of the catalog, in listing order.
pub open spec fn listing(cat: Seq<EntryView>, order: Seq<Seq<char>>, term: Seq<char>, exists_only: bool) -> Seq<EntryView> {
    listing_order(cat.filter(|e: EntryView| listed(e, term, exists_only)), order)
}

/// A page of the listing: the projects that pass the filter (existence when
/// asked, the lower-cased search term in the lower-cased title or path),
/// ordered pinned first, then by saved order, title and path; `cursor`
/// projects skipped and at most `limit` (default 100, between 1 and 500)
/// given, with the next cursor while more remain.
pub fn project_page(
    catalog: ProjectCatalog,
    saved_order: &Vec<String>,
    search_term: &str,
    exists_only: bool,
    cursor: u64,
    limit: Option<u64>,
) -> (r: ProjectPage)
    ensures
        ({
            let all = listing(
                catalog.view(),
                texts(saved_order@),
                spec_to_lowercase(search_term@),
                exists_only,
            );
            let l = page_limit(limit);
            &&& r.total == all.len()
            &&& entries_view(r.items@) == (if cursor >= all.len() {
                Seq::empty()
            } else if cursor + l >= all.len() {
                all.subrange(cursor as int, all.len() as int)
            } else {
                all.subrange(cursor as int, cursor + l)
            })
            &&& r.next_cursor == (if cursor + l < all.len() { Some((cursor + l) as u64) } else { None })
        }),
{
    let ghost ov = texts(saved_order@);
    let term_s = to_lowercase(search_term);
    let term = chars_of(term_s.as_str());
    let mut order: Vec<Vec<char>> = Vec::new();
    let mut k: usize = 0;
    while k < saved_order.len()
        invariant
            k <= saved_order@.len(),
            order@.len() == k,
            forall|q: int| 0 <= q < k ==> (#[trigger] order@[q])@ == saved_order@[q]@,
        decreases saved_order.len() - k,
    {
        order.push(chars_of(saved_order[k].as_str()));
        k = k + 1;
    }
    assert(order@.map_values(|c: Vec<char>| c@) =~= ov);
    let ghost s = catalog.entries@;
    let n = catalog.entries.len();
    let mut rest = catalog.entries;
    let mut out: Vec<ProjectEntry> = Vec::new();
    let mut idx: Vec<usize> = Vec::new();
    let mut i: usize = 0;
    while i < n
        invariant
            i <= n,
            n == s.len(),
            rest@ == s.subrange(i as int, n as int),
            term@ == spec_to_lowercase(search_term@),
            ov == order@.map_values(|c: Vec<char>| c@),
            entries_view(out@) == listing_order(
                entries_view(s.subrange(0, i as int)).filter(|e: EntryView| listed(e, term@, exists_only)),
                ov,
            ),
            idx@.len() == out@.len(),
            forall|q: int| 0 <= q < out@.len() ==> (#[trigger] idx@[q]) as int == saved_index(ov, out@[q].path@),
        decreases n - i,
    {
        let x = rest.remove(0);
        assert(x == s[i as int]);
        assert(rest@ =~= s.subrange(i as int + 1, n as int));
        let ghost prev = entries_view(s.subrange(0, i as int));
        assert(entries_view(s.subrange(0, i as int + 1)) =~= prev.push(entry_view(x)));
        proof {
            prev.lemma_filter_push(entry_view(x), |e: EntryView| listed(e, term@, exists_only));
        }
        let ghost filtered = prev.filter(|e: EntryView| listed(e, term@, exists_only));
        assert(filtered.push(entry_view(x)).drop_last() =~= filtered);
        if is_listed(&x, &term, exists_only) {
            proof {
                lemma_listing_len(filtered, ov);
            }
            let xi = saved_index_exec(&order, chars_of(x.path.as_str()).as_slice());
            let m = out.len();
            let mut p: usize = 0;
            while p < m && !listed_before_exec(&x, xi, &out[p], idx[p], Ghost(ov))
                invariant
                    p <= m,
                    m == out@.len(),
                    m == idx@.len(),
                    xi as int == saved_index(ov, x.path@),
                    forall|q: int| 0 <= q < out@.len() ==> (#[trigger] idx@[q]) as int == saved_index(ov, out@[q].path@),
                    forall|q: int| 0 <= q < p ==> !listed_before(entry_view(x), #[trigger] entries_view(out@)[q], ov),
                decreases m - p,
            {
                p = p + 1;
            }
            proof {
                lemma_listing_pos(entries_view(out@), entry_view(x), ov, p as int);
            }
            let ghost ev = entries_view(out@);
            let ghost out0 = out@;
            let ghost idx0 = idx@;
            out.insert(p, x);
            idx.insert(p, xi);
            assert(entries_view(out@) =~= ev.insert(p as int, entry_view(x)));
            assert forall|q: int| 0 <= q < out@.len() implies (#[trigger] idx@[q]) as int == saved_index(ov, out@[q].path@) by {
                if q < p {
                    assert(idx@[q] == idx0[q] && out@[q] == out0[q]);
                } else if q == p {
                } else {
                    assert(idx@[q] == idx0[q - 1] && out@[q] == out0[q - 1]);
                }
            }
        }
        i = i + 1;
    }
    assert(s.subrange(0, n as int) =~= s);
    let total = out.len();
    let l: u64 = match limit {
        Some(v) => if v < 1 { 1 } else if v > MAX_PROJECT_LIMIT { MAX_PROJECT_LIMIT } else { v },
        None => DEFAULT_PROJECT_LIMIT,
    };
    let ghost all = entries_view(out@);
    let ghost out_s = out@;
    let mut items: Vec<ProjectEntry> = Vec::new();
    let mut next_cursor: Option<u64> = None;
    if cursor < total as u64 {
        let start = cursor as usize;
        let end: usize = if l >= total as u64 - cursor { total } else { (cursor + l) as usize };
        if l < total as u64 - cursor {
            next_cursor = Some(cursor + l);
        }
        let mut rest2 = out;
        let mut j: usize = 0;
        while j < start
            invariant
                j <= start,
                start <= total,
                total == out_s.len(),
                rest2@ == out_s.subrange(j as int, total as int),
            decreases start - j,
        {
            rest2.remove(0);
            j = j + 1;
            assert(rest2@ =~= out_s.subrange(j as int, total as int));
        }
        while j < end
            invariant
                start <= j <= end,
                end <= total,
                total == out_s.len(),
                all == entries_view(out_s),
                rest2@ == out_s.subrange(j as int, total as int),
                entries_view(items@) == all.subrange(start as int, j as int),
            decreases end - j,
        {
            let e = rest2.remove(0);
            let ghost before = items@;
            items.push(e);
            assert(entries_view(items@) =~= entries_view(before).push(entry_view(e)));
            j = j + 1;
            assert(rest2@ =~= out_s.subrange(j as int, total as int));
            assert(all.subrange(start as int, j as int) =~= all.subrange(start as int, j - 1).push(all[j - 1]));
        }
    } else {
        assert(entries_view(items@) =~= Seq::<EntryView>::empty());
    }
    ProjectPage { items, total, next_cursor }
}

// ---------------------------------------------------------------------------
// The listing order

proof fn lemma_before_total(a: EntryView, b: EntryView, order: Seq<Seq<char>>)
    requires
        a.path != b.path,
    ensures
        listed_before(a, b, order) || listed_before(b, a, order),
{
    if a.title != b.title {
        lemma_lex_total(a.title, b.title);
    }
    lemma_lex_total(a.path, b.path);
}

proof fn lemma_before_transitive(a: EntryView, b: EntryView, c: EntryView, order: Seq<Seq<char>>)
    requires
        listed_before(a, b, order),
        listed_before(b, c, order),
    ensures
        listed_before(a, c, order),
{
    let (ia, ib, ic) = (saved_index(order, a.path), saved_index(order, b.path), saved_index(order, c.path));
    if a.pinned == b.pinned && b.pinned == c.pinned && ia == ib && ib == ic {
        if a.title == b.title && b.title == c.title {
            lemma_lex_transitive(a.path, b.path, c.path);
        } else if a.title == b.title {
        } else if b.title == c.title {
        } else {
            lemma_lex_transitive(a.title, b.title, c.title);
            if a.title == c.title {
                lemma_lex_asymmetric(a.title, b.title);
            }
        }
    }
}

/// Each listed project precedes the ones after it.
pub open spec fn listing_sorted(r: Seq<EntryView>, order: Seq<Seq<char>>) -> bool {
    forall|i: int, j: int| 0 <= i < j < r.len() ==> listed_before(#[trigger] r[i], #[trigger] r[j], order)
}

proof fn lemma_listing_pos_facts(r: Seq<EntryView>, x: EntryView, order: Seq<Seq<char>>)
    ensures
        0 <= listing_pos(r, x, order) <= r.len(),
        forall|q: int| 0 <= q < listing_pos(r, x, order) ==> !listed_before(x, #[trigger] r[q], order),
        listing_pos(r, x, order) < r.len() ==> listed_before(x, r[listing_pos(r, x, order)], order),
    decreases r.len(),
{
    if r.len() > 0 && !listed_before(x, r[0], order) {
        let t = r.drop_first();
        lemma_listing_pos_facts(t, x, order);
        assert forall|q: int| 0 <= q < listing_pos(r, x, order) implies !listed_before(x, #[trigger] r[q], order) by {
            if q > 0 {
                assert(r[q] == t[q - 1]);
            }
        }
        if listing_pos(r, x, order) < r.len() {
            assert(r[listing_pos(r, x, order)] == t[listing_pos(t, x, order)]);
        }
    }
}

/// The listing holds exactly the projects given, each before the next:
/// pinned ones first, then in saved order, then by title, then by path.
pub proof fn lemma_listing_sorted(s: Seq<EntryView>, order: Seq<Seq<char>>)
    requires
        paths_unique(s),
    ensures
        listing_sorted(listing_order(s, order), order),
        listing_order(s, order).to_multiset() == s.to_multiset(),
    decreases s.len(),
{
    broadcast use vstd::seq_lib::group_to_multiset_ensures;
    if s.len() > 0 {
        let d = s.drop_last();
        let x = s.last();
        assert(paths_unique(d)) by {
            assert forall|i: int, j: int| 0 <= i < j < d.len() implies d[i].path != d[j].path by {
                assert(d[i] == s[i] && d[j] == s[j]);
            }
        }
        lemma_listing_sorted(d, order);
        let r = listing_order(d, order);
        lemma_listing_pos_facts(r, x, order);
        let p = listing_pos(r, x, order);
        let n = r.insert(p, x);
        assert(s =~= d.push(x));
        assert(n.to_multiset() == r.to_multiset().insert(x));
        // no project of r is at x's path
        assert forall|q: int| 0 <= q < r.len() implies (#[trigger] r[q]).path != x.path by {
            assert(r.to_multiset().count(r[q]) > 0);
            assert(d.to_multiset().count(r[q]) > 0);
            assert(d.contains(r[q]));
            let k = choose|k: int| 0 <= k < d.len() && d[k] == r[q];
            assert(s[k] == d[k]);
            assert(s[s.len() - 1] == x);
        }
        assert forall|i: int, j: int| 0 <= i < j < n.len() implies listed_before(#[trigger] n[i], #[trigger] n[j], order) by {
            if j < p {
                assert(n[i] == r[i] && n[j] == r[j]);
            } else if j == p {
                assert(n[i] == r[i] && n[j] == x);
                assert(!listed_before(x, r[i], order));
                lemma_before_total(r[i], x, order);
            } else if i == p {
                assert(n[i] == x && n[j] == r[j - 1]);
                if j - 1 > p {
                    assert(listed_before(r[p], r[j - 1], order));
                    lemma_before_transitive(x, r[p], r[j - 1], order);
                }
            } else if i < p {
                assert(n[i] == r[i] && n[j] == r[j - 1]);
            } else {
                assert(n[i] == r[i - 1] && n[j] == r[j - 1]);
            }
        }
    }
}

/// A page of the listing shows each listed project of the catalog once, in
/// listing order.
pub proof fn lemma_project_listing(cat: Seq<EntryView>, order: Seq<Seq<char>>, term: Seq<char>, exists_only: bool)
    requires
        paths_unique(cat),
    ensures
        listing_sorted(listing(cat, order, term, exists_only), order),
        listing(cat, order, term, exists_only).to_multiset() == cat.filter(
            |e: EntryView| listed(e, term, exists_only),
        ).to_multiset(),
{
    let f = cat.filter(|e: EntryView| listed(e, term, exists_only));
    assert(paths_unique(f)) by {
        assert forall|i: int, j: int| 0 <= i < j < f.len() implies f[i].path != f[j].path by {
            lemma_filter_paths(cat, term, exists_only, i, j);
        }
    }
    lemma_listing_sorted(f, order);
}

/// The listing order: pinned projects come before all others; among
/// equally pinned ones, a project earlier in the saved order comes first
/// (unsaved ones last); then titles ascend, and paths break ties.
pub proof fn lemma_listing_order_law(cat: Seq<EntryView>, order: Seq<Seq<char>>, term: Seq<char>, exists_only: bool)
    requires
        paths_unique(cat),
    ensures
        ({
            let r = listing(cat, order, term, exists_only);
            forall|i: int, j: int| 0 <= i < j < r.len() ==> {
                &&& (#[trigger] r[j]).pinned ==> (#[trigger] r[i]).pinned
                &&& r[i].pinned == r[j].pinned ==> saved_index(order, r[i].path) <= saved_index(order, r[j].path)
                &&& r[i].pinned == r[j].pinned && saved_index(order, r[i].path) == saved_index(order, r[j].path)
                    && r[i].title != r[j].title ==> lex_lt(r[i].title, r[j].title)
                &&& r[i].pinned == r[j].pinned && saved_index(order, r[i].path) == saved_index(order, r[j].path)
                    && r[i].title == r[j].title ==> lex_lt(r[i].path, r[j].path)
            }
        }),
{
    lemma_project_listing(cat, order, term, exists_only);
    let r = listing(cat, order, term, exists_only);
    assert forall|i: int, j: int| 0 <= i < j < r.len() implies {
        &&& (#[trigger] r[j]).pinned ==> (#[trigger] r[i]).pinned
        &&& r[i].pinned == r[j].pinned ==> saved_index(order, r[i].path) <= saved_index(order, r[j].path)
        &&& r[i].pinned == r[j].pinned && saved_index(order, r[i].path) == saved_index(order, r[j].path)
            && r[i].title != r[j].title ==> lex_lt(r[i].title, r[j].title)
        &&& r[i].pinned == r[j].pinned && saved_index(order, r[i].path) == saved_index(order, r[j].path)
            && r[i].title == r[j].title ==> lex_lt(r[i].path, r[j].path)
    } by {
        assert(listed_before(r[i], r[j], order));
    }
}

proof fn lemma_filter_paths(cat: Seq<EntryView>, term: Seq<char>, exists_only: bool, i: int, j: int)
    requires
        paths_unique(cat),
        0 <= i < j < cat.filter(|e: EntryView| listed(e, term, exists_only)).len(),
    ensures
        cat.filter(|e: EntryView| listed(e, term, exists_only))[i].path != cat.filter(
            |e: EntryView| listed(e, term, exists_only),
        )[j].path,
    decreases cat.len(),
{
    let pred = |e: EntryView| listed(e, term, exists_only);
    let d = cat.drop_last();
    let x = cat.last();
    assert(cat =~= d.push(x));
    d.lemma_filter_push(x, pred);
    assert(paths_unique(d)) by {
        assert forall|a: int, b: int| 0 <= a < b < d.len() implies d[a].path != d[b].path by {
            assert(d[a] == cat[a] && d[b] == cat[b]);
        }
    }
    let fd = d.filter(pred);
    if pred(x) {
        if j < fd.len() {
            lemma_filter_paths(d, term, exists_only, i, j);
        } else {
            // the last one is x; the i-th comes from d
            assert(fd.contains(fd[i]));
            d.lemma_filter_contains_rev(pred, fd[i]);
            let k = choose|k: int| 0 <= k < d.len() && d[k] == fd[i];
            assert(cat[k] == d[k]);
            assert(cat[cat.len() - 1] == x);
        }
    } else {
        lemma_filter_paths(d, term, exists_only, i, j);
    }
}

/// The distinct texts hold no blank text and no repeat, and every text of
/// the input that is not blank is among them.
pub proof fn lemma_unique_texts(values: Seq<Seq<char>>)
    ensures
        forall|i: int, j: int| 0 <= i < j < unique_texts(values).len() ==> unique_texts(values)[i] != unique_texts(values)[j],
        forall|i: int| 0 <= i < unique_texts(values).len() ==> trim(#[trigger] unique_texts(values)[i]).len() > 0,
        forall|v: Seq<char>| #[trigger] values.contains(v) && trim(v).len() > 0 ==> unique_texts(values).contains(v),
        forall|v: Seq<char>| #[trigger] unique_texts(values).contains(v) ==> values.contains(v),
    decreases values.len(),
{
    if values.len() > 0 {
        let d = values.drop_last();
        let x = values.last();
        lemma_unique_texts(d);
        let r = unique_texts(d);
        assert forall|v: Seq<char>| #[trigger] values.contains(v) && trim(v).len() > 0 implies unique_texts(values).contains(v) by {
            let k = choose|k: int| 0 <= k < values.len() && values[k] == v;
            if k < values.len() - 1 {
                assert(d[k] == v);
                assert(d.contains(v));
                let q = choose|q: int| 0 <= q < r.len() && r[q] == v;
                assert(unique_texts(values)[q] == v);
            } else if !r.contains(x) {
                assert(unique_texts(values)[r.len() as int] == x);
            } else {
                assert(unique_texts(values) == r);
            }
        }
        assert forall|v: Seq<char>| #[trigger] unique_texts(values).contains(v) implies values.contains(v) by {
            let q = choose|q: int| 0 <= q < unique_texts(values).len() && unique_texts(values)[q] == v;
            if q < r.len() {
                assert(r[q] == v);
                assert(r.contains(v));
                let k = choose|k: int| 0 <= k < d.len() && d[k] == v;
                assert(values[k] == v);
            } else {
                assert(values[values.len() - 1] == v);
            }
        }
    }
}

} // verus!

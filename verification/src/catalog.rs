//! The Codex CLI version the connector requires: read from the published
//! artifact catalog (or its verified cache), never below the protocol
//! floor that paginated thread history needs.
use vstd::prelude::*;
use semver::Version;
use crate::text::{decimal, trim, trim_chars, chars_of, chars_eq, has_prefix, starts_with, slice_range, string_from_chars};

verus! {

#[verifier::external_type_specification]
#[verifier::external_body]
pub struct ExVersion(semver::Version);

/// The catalog format this connector reads.
pub const MANIFEST_SCHEMA_VERSION: u32 = 4;
/// The version of the cache file.
pub const CACHE_SCHEMA_VERSION: u32 = 1;

/// A version as plain values: major, minor, patch, pre-release text and
/// build metadata text.
pub type VersionV = (u64, u64, u64, Seq<char>, Seq<char>);

/// A SemVer version: its parts as plain values, together with the
/// `semver::Version` they were read from. The fields are private, and the
/// only functions that make one ([`parse_version`], [`version_new`]) read
/// every part from that version, so the parts always describe it.
#[derive(Debug, PartialEq, Eq)]
pub struct SemVersion {
    major: u64,
    minor: u64,
    patch: u64,
    pre: String,
    build: String,
    value: Version,
}

impl View for SemVersion {
    type V = VersionV;

    closed spec fn view(&self) -> VersionV {
        (self.major, self.minor, self.patch, self.pre@, self.build@)
    }
}

impl SemVersion {
    /// The parts: major, minor, patch, pre-release and build metadata.
    pub fn parts(&self) -> (r: (u64, u64, u64, String, String))
        ensures
            (r.0, r.1, r.2, r.3@, r.4@) == self@,
    {
        (self.major, self.minor, self.patch, self.pre.clone(), self.build.clone())
    }
}

/// The parts of the version `Version::parse` reads from a text, or none
/// when the text is not SemVer.
pub uninterp spec fn spec_parse_version(text: Seq<char>) -> Option<VersionV>;

/// `major.minor.patch` written in decimal, as `Display` writes it.
pub open spec fn dotted(major: u64, minor: u64, patch: u64) -> Seq<char> {
    decimal(major as nat) + "."@ + decimal(minor as nat) + "."@ + decimal(patch as nat)
}

/// The numbers of a text that is `major.minor.patch` written in decimal
/// (the numbers are unique: see [`lemma_release_parts`]).
pub open spec fn release_parts(text: Seq<char>) -> Option<(u64, u64, u64)> {
    if exists|n: (u64, u64, u64)| text == #[trigger] dotted(n.0, n.1, n.2) {
        Some(choose|n: (u64, u64, u64)| text == #[trigger] dotted(n.0, n.1, n.2))
    } else {
        None
    }
}

proof fn lemma_decimal_digits(v: nat)
    ensures
        decimal(v).len() >= 1,
        forall|k: int| 0 <= k < decimal(v).len() ==> (decimal(v)[k] as u32) >= 48 && (decimal(v)[k] as u32) <= 57,
    decreases v,
{
    if v >= 10 {
        lemma_decimal_digits(v / 10);
        let p = decimal(v / 10);
        assert forall|k: int| 0 <= k < decimal(v).len() implies (decimal(v)[k] as u32) >= 48 && (decimal(v)[k] as u32)
            <= 57 by {
            if k < p.len() {
                assert(decimal(v)[k] == p[k]);
            }
        }
    }
}

proof fn lemma_decimal_injective(a: nat, b: nat)
    requires
        decimal(a) == decimal(b),
    ensures
        a == b,
    decreases a,
{
    lemma_decimal_digits(a);
    lemma_decimal_digits(b);
    if a < 10 && b < 10 {
        assert(decimal(a)[0] == decimal(b)[0]);
    } else if a >= 10 && b >= 10 {
        lemma_decimal_digits(a / 10);
        lemma_decimal_digits(b / 10);
        let da = decimal(a);
        assert(da.last() == decimal(b).last());
        assert(da.drop_last() =~= decimal(a / 10));
        assert(decimal(b).drop_last() =~= decimal(b / 10));
        lemma_decimal_injective(a / 10, b / 10);
    } else if a < 10 {
        lemma_decimal_digits(b / 10);
        assert(decimal(b).len() == decimal(b / 10).len() + 1);
    } else {
        lemma_decimal_digits(a / 10);
        assert(decimal(a).len() == decimal(a / 10).len() + 1);
    }
}

proof fn lemma_split_at_dot(x: Seq<char>, y: Seq<char>, x2: Seq<char>, y2: Seq<char>)
    requires
        !x.contains('.'),
        !x2.contains('.'),
        x + "."@ + y == x2 + "."@ + y2,
    ensures
        x == x2,
        y == y2,
{
    reveal_strlit(".");
    let s = x + "."@ + y;
    let t = x2 + "."@ + y2;
    if x.len() < x2.len() {
        assert(s[x.len() as int] == '.');
        assert(t[x.len() as int] == x2[x.len() as int]);
    } else if x2.len() < x.len() {
        assert(t[x2.len() as int] == '.');
        assert(s[x2.len() as int] == x[x2.len() as int]);
    }
    assert(x =~= s.subrange(0, x.len() as int));
    assert(x2 =~= t.subrange(0, x2.len() as int));
    assert(y =~= s.subrange(x.len() as int + 1, s.len() as int));
    assert(y2 =~= t.subrange(x2.len() as int + 1, t.len() as int));
}

proof fn lemma_decimal_has_no_dot(v: nat)
    ensures
        !decimal(v).contains('.'),
{
    lemma_decimal_digits(v);
    if decimal(v).contains('.') {
        let k = choose|k: int| 0 <= k < decimal(v).len() && decimal(v)[k] == '.';
        assert((decimal(v)[k] as u32) >= 48);
    }
}

/// A text written as `major.minor.patch` in decimal names exactly those
/// three numbers.
pub proof fn lemma_release_parts(major: u64, minor: u64, patch: u64)
    ensures
        release_parts(dotted(major, minor, patch)) == Some((major, minor, patch)),
{
    let t = dotted(major, minor, patch);
    assert(t == dotted((major, minor, patch).0, (major, minor, patch).1, (major, minor, patch).2));
    let n = choose|n: (u64, u64, u64)| t == #[trigger] dotted(n.0, n.1, n.2);
    lemma_decimal_has_no_dot(major as nat);
    lemma_decimal_has_no_dot(minor as nat);
    lemma_decimal_has_no_dot(n.0 as nat);
    lemma_decimal_has_no_dot(n.1 as nat);
    let a = decimal(major as nat);
    let b = decimal(minor as nat);
    let c = decimal(patch as nat);
    let a2 = decimal(n.0 as nat);
    let b2 = decimal(n.1 as nat);
    let c2 = decimal(n.2 as nat);
    assert(t =~= a + "."@ + (b + "."@ + c));
    assert(dotted(n.0, n.1, n.2) =~= a2 + "."@ + (b2 + "."@ + c2));
    lemma_split_at_dot(a, b + "."@ + c, a2, b2 + "."@ + c2);
    lemma_split_at_dot(b, c, b2, c2);
    lemma_decimal_injective(major as nat, n.0 as nat);
    lemma_decimal_injective(minor as nat, n.1 as nat);
    lemma_decimal_injective(patch as nat, n.2 as nat);
}

/// A release with no pre-release and no build metadata.
pub open spec fn release_version(n: (u64, u64, u64)) -> VersionV {
    (n.0, n.1, n.2, Seq::<char>::empty(), Seq::<char>::empty())
}

/// `semver::Version::parse`: the version whose parts
/// [`spec_parse_version`] names, or none when the text is not SemVer. As
/// its source shows, three decimal numbers joined by dots (no leading
/// zeros) parse to those numbers with no pre-release or build metadata,
/// and a text without a dot never parses.
#[verifier::external_body]
fn parse_version(text: &str) -> (r: Option<SemVersion>)
    ensures
        (r is Some) == (spec_parse_version(text@) is Some),
        r matches Some(v) ==> spec_parse_version(text@) == Some(v@),
        r matches Some(v) ==> (release_parts(text@) matches Some(n) ==> v@ == release_version(n)),
        release_parts(text@) is Some ==> r is Some,
        !text@.contains('.') ==> r is None,
{
    match Version::parse(text) {
        Ok(v) => {
            let (pre, build) = (v.pre.as_str().to_string(), v.build.as_str().to_string());
            Some(SemVersion { major: v.major, minor: v.minor, patch: v.patch, pre, build, value: v })
        },
        Err(_) => None,
    }
}

/// `semver::Version::new`: the given numbers, with no pre-release and no
/// build metadata.
#[verifier::external_body]
fn version_new(major: u64, minor: u64, patch: u64) -> (r: SemVersion)
    ensures
        r@ == (major, minor, patch, Seq::<char>::empty(), Seq::<char>::empty()),
{
    let v = Version::new(major, minor, patch);
    let (pre, build) = (v.pre.as_str().to_string(), v.build.as_str().to_string());
    SemVersion { major, minor, patch, pre, build, value: v }
}

/// Whether the first version precedes the second in SemVer precedence
/// (`<` on `semver::Version`, which compares major, minor, patch,
/// pre-release and build metadata in turn).
pub uninterp spec fn spec_version_precedes(a: VersionV, b: VersionV) -> bool;

/// `<` on the two `semver::Version` values. Its result depends on their
/// parts alone, which [`spec_version_precedes`] names.
#[verifier::external_body]
fn version_lt(a: &SemVersion, b: &SemVersion) -> (r: bool)
    ensures
        r == spec_version_precedes(a@, b@),
{
    a.value < b.value
}

/// The later of two versions by precedence (the second when neither
/// precedes the other).
pub open spec fn max_by_precedence(a: VersionV, b: VersionV) -> VersionV {
    if spec_version_precedes(b, a) {
        a
    } else {
        b
    }
}

/// The protocol floor: 0.149.0.
pub open spec fn floor_version() -> VersionV {
    (0u64, 149u64, 0u64, Seq::<char>::empty(), Seq::<char>::empty())
}

/// A version that is the protocol floor or comes after it.
pub open spec fn at_or_above_floor(v: VersionV) -> bool {
    v == floor_version() || spec_version_precedes(floor_version(), v)
}

/// The later of `v` and the protocol floor.
fn raise_to_floor(v: SemVersion) -> (r: SemVersion)
    ensures
        r@ == max_by_precedence(v@, floor_version()),
        at_or_above_floor(r@),
{
    let floor = protocol_minimum();
    if version_lt(&floor, &v) {
        v
    } else {
        floor
    }
}

/// The version text of a release tag: trimmed, without a `rust-v` (or
/// else `v`) prefix.
pub open spec fn tag_version(tag: Seq<char>) -> Seq<char> {
    let t = trim(tag);
    if has_prefix(t, "rust-v"@) {
        t.subrange(6, t.len() as int)
    } else if has_prefix(t, "v"@) {
        t.subrange(1, t.len() as int)
    } else {
        t
    }
}

/// The version text of a release tag.
pub fn release_version_text(tag: &str) -> (r: String)
    ensures
        r@ == tag_version(tag@),
{
    proof {
        reveal_strlit("rust-v");
        reveal_strlit("v");
    }
    let t = trim_chars(chars_of(tag).as_slice());
    let long = chars_of("rust-v");
    let short = chars_of("v");
    if starts_with(t.as_slice(), long.as_slice()) {
        string_from_chars(slice_range(t.as_slice(), 6, t.len()).as_slice())
    } else if starts_with(t.as_slice(), short.as_slice()) {
        string_from_chars(slice_range(t.as_slice(), 1, t.len()).as_slice())
    } else {
        string_from_chars(t.as_slice())
    }
}

/// The release a Codex CLI tag names, when its version text is SemVer.
pub fn parse_release_tag(tag: &str) -> (r: Option<SemVersion>)
    ensures
        match spec_parse_version(tag_version(tag@)) {
            Some(p) => r matches Some(v) && v@ == p,
            None => r is None,
        },
        release_parts(tag_version(tag@)) matches Some(n) ==> (r matches Some(v) && v@ == release_version(n)),
        !tag_version(tag@).contains('.') ==> r is None,
{
    let text = release_version_text(tag);
    parse_version(text.as_str())
}

/// The oldest CLI whose app-server pages thread history: 0.149.0.
pub fn protocol_minimum() -> (r: SemVersion)
    ensures
        r@ == floor_version(),
{
    version_new(0, 149, 0)
}

/// The required CLI version and where it came from.
#[derive(Debug)]
pub struct CliRequirement {
    pub target: SemVersion,
    pub snapshot_id: Option<String>,
    pub source: &'static str,
    pub warning: Option<String>,
}

/// The fields of the artifact catalog that identify it.
#[derive(Clone, Debug)]
pub struct ManifestIdentity {
    pub schema_version: u32,
    pub manifest_kind: String,
    pub snapshot_id: String,
    pub codex_cli_tag: String,
}

/// Why a catalog is refused.
#[derive(Clone, Debug, PartialEq, Eq)]
pub enum CatalogError {
    /// The catalog's format version is not supported.
    UnsupportedSchema(u32),
    /// It is not the customer install catalog, or has no snapshot.
    InvalidIdentity,
    /// The CLI's release tag is not SemVer.
    InvalidTag(String),
}

/// The requirement a catalog sets: its format must be supported and its
/// identity valid, and the CLI version it publishes is raised to the
/// protocol floor.
pub fn requirement_from_manifest(manifest: ManifestIdentity) -> (r: Result<CliRequirement, CatalogError>)
    ensures
        manifest.schema_version != MANIFEST_SCHEMA_VERSION ==> (r matches Err(CatalogError::UnsupportedSchema(v))
            && v == manifest.schema_version),
        manifest.schema_version == MANIFEST_SCHEMA_VERSION && (manifest.manifest_kind@
            != "baijimu.codex.customer-install-artifacts"@ || trim(manifest.snapshot_id@).len() == 0) ==> r
            matches Err(CatalogError::InvalidIdentity),
        manifest.schema_version == MANIFEST_SCHEMA_VERSION && manifest.manifest_kind@
            == "baijimu.codex.customer-install-artifacts"@ && trim(manifest.snapshot_id@).len() > 0 ==> match spec_parse_version(
            tag_version(manifest.codex_cli_tag@),
        ) {
            None => (r matches Err(CatalogError::InvalidTag(t)) && t@ == manifest.codex_cli_tag@),
            Some(p) => (r matches Ok(req) && req.target@ == max_by_precedence(p, floor_version())
                && req.snapshot_id == Some(manifest.snapshot_id) && req.source@ == "artifact_catalog"@
                && req.warning is None),
        },
        r matches Ok(req) ==> at_or_above_floor(req.target@),
        (manifest.schema_version == MANIFEST_SCHEMA_VERSION && manifest.manifest_kind@ == "baijimu.codex.customer-install-artifacts"@ && trim(manifest.snapshot_id@).len() > 0 && release_parts(tag_version(manifest.codex_cli_tag@)) is Some) ==> (r matches Ok(req) && req.target@ == max_by_precedence(release_version(release_parts(tag_version(manifest.codex_cli_tag@))->Some_0), floor_version())),
        (manifest.schema_version == MANIFEST_SCHEMA_VERSION && manifest.manifest_kind@ == "baijimu.codex.customer-install-artifacts"@ && trim(manifest.snapshot_id@).len() > 0 && !tag_version(manifest.codex_cli_tag@).contains('.')) ==> (r matches Err(CatalogError::InvalidTag(t)) && t@ == manifest.codex_cli_tag@),
{
    if manifest.schema_version != MANIFEST_SCHEMA_VERSION {
        return Err(CatalogError::UnsupportedSchema(manifest.schema_version));
    }
    let kind = chars_of(manifest.manifest_kind.as_str());
    let expected = chars_of("baijimu.codex.customer-install-artifacts");
    if !chars_eq(kind.as_slice(), expected.as_slice()) || trim_chars(chars_of(manifest.snapshot_id.as_str()).as_slice()).len()
        == 0 {
        return Err(CatalogError::InvalidIdentity);
    }
    let published = match parse_release_tag(manifest.codex_cli_tag.as_str()) {
        Some(v) => v,
        None => return Err(CatalogError::InvalidTag(manifest.codex_cli_tag)),
    };
    let target = raise_to_floor(published);
    Ok(CliRequirement {
        target,
        snapshot_id: Some(manifest.snapshot_id),
        source: "artifact_catalog",
        warning: None,
    })
}

/// The fields of the cached catalog.
#[derive(Clone, Debug)]
pub struct PersistedCatalog {
    pub schema_version: u32,
    pub snapshot_id: String,
    pub target_version: String,
}

/// The requirement a cached catalog gives, if the cache is usable: its
/// version, its snapshot, and a target that parses (raised to the floor).
pub fn requirement_from_cache(cache: PersistedCatalog) -> (r: Option<CliRequirement>)
    ensures
        r is Some <==> (cache.schema_version == CACHE_SCHEMA_VERSION && trim(cache.snapshot_id@).len() > 0
            && spec_parse_version(cache.target_version@) is Some),
        r matches Some(req) ==> (req.target@ == max_by_precedence(
            spec_parse_version(cache.target_version@)->Some_0,
            floor_version(),
        ) && at_or_above_floor(req.target@) && req.snapshot_id == Some(cache.snapshot_id)
            && req.source@ == "verified_cache"@ && req.warning is None),
{
    if cache.schema_version != CACHE_SCHEMA_VERSION || trim_chars(chars_of(cache.snapshot_id.as_str()).as_slice()).len()
        == 0 {
        return None;
    }
    let cached = match parse_version(cache.target_version.as_str()) {
        Some(v) => v,
        None => return None,
    };
    Some(CliRequirement {
        target: raise_to_floor(cached),
        snapshot_id: Some(cache.snapshot_id),
        source: "verified_cache",
        warning: None,
    })
}

/// The requirement when no catalog can be read: the protocol floor, with
/// the reason.
pub fn protocol_floor(warning: Option<String>) -> (r: CliRequirement)
    ensures
        r.target@ == floor_version(),
        r.snapshot_id is None,
        r.source@ == "protocol_floor"@,
        r.warning == warning,
{
    CliRequirement { target: protocol_minimum(), snapshot_id: None, source: "protocol_floor", warning }
}

/// When the catalog could not be fetched: the cached requirement, marked
/// as such and carrying the warning, or else the protocol floor.
pub fn fallback_requirement(cached: Option<CliRequirement>, warning: String) -> (r: CliRequirement)
    ensures
        cached is Some ==> r.target == cached->Some_0.target && r.snapshot_id == cached->Some_0.snapshot_id
            && r.source@ == "verified_cache"@ && r.warning == Some(warning),
        cached is None ==> r.target@ == floor_version() && r.snapshot_id is None && r.source@ == "protocol_floor"@ && r.warning == Some(warning),
{
    match cached {
        Some(mut req) => {
            req.source = "verified_cache";
            req.warning = Some(warning);
            req
        },
        None => protocol_floor(Some(warning)),
    }
}

/// A requirement checked `elapsed` seconds ago is reused until it is due:
/// six hours after a successful fetch, five minutes after a failed one.
pub fn requirement_fresh(elapsed_seconds: u64, fetched: bool) -> (r: bool)
    ensures
        r == (elapsed_seconds < (if fetched { 21600u64 } else { 300u64 })),
{
    elapsed_seconds < if fetched { 21600 } else { 300 }
}

} // verus!

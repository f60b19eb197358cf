//! Turning a package specifier into a concrete resolution: which version of
//! a registry package, which directory, or which git checkout.

use vstd::prelude::*;

use crate::error::NassunError;
use crate::integrity::{parse_integrity, parsed_integrity};
use crate::metadata::{clone_opt_string, MetadataView, Packument, PackumentView, VersionMetadata};
use crate::semver::{
    lemma_version_order_antisym, lemma_version_order_trans, range_is_any, range_parses,
    range_satisfies, ranges_equal, same_version, version_order, Version, VersionRange,
    VersionView,
};
use crate::spec::{opt_string_view, PackageSpec, SpecView, VersionSpec, VersionSpecView};

verus! {

/// A fully-resolved, specific version of a package as it would be fetched.
#[derive(Debug)]
pub enum PackageResolution {
    Npm { name: String, version: Version, tarball: String, integrity: Option<String> },
    Dir { name: String, path: String },
    Git { name: String, info: String },
}

/// The mathematical value of a [`PackageResolution`].
pub enum ResolutionView {
    Npm { name: Seq<char>, version: VersionView, tarball: Seq<char>, integrity: Option<Seq<char>> },
    Dir { name: Seq<char>, path: Seq<char> },
    Git { name: Seq<char>, info: Seq<char> },
}

impl View for PackageResolution {
    type V = ResolutionView;

    open spec fn view(&self) -> ResolutionView {
        match self {
            PackageResolution::Npm { name, version, tarball, integrity } => ResolutionView::Npm {
                name: name@,
                version: version@,
                tarball: tarball@,
                integrity: opt_string_view(*integrity),
            },
            PackageResolution::Dir { name, path } => ResolutionView::Dir { name: name@, path: path@ },
            PackageResolution::Git { name, info } => ResolutionView::Git { name: name@, info: info@ },
        }
    }
}

impl Clone for PackageResolution {
    fn clone(&self) -> (res: Self)
        ensures
            res@ == self@,
    {
        match self {
            PackageResolution::Npm { name, version, tarball, integrity } => PackageResolution::Npm {
                name: name.clone(),
                version: version.clone(),
                tarball: tarball.clone(),
                integrity: clone_opt_string(integrity),
            },
            PackageResolution::Dir { name, path } => PackageResolution::Dir {
                name: name.clone(),
                path: path.clone(),
            },
            PackageResolution::Git { name, info } => PackageResolution::Git {
                name: name.clone(),
                info: info.clone(),
            },
        }
    }
}

/// Whether a resolution satisfies a specifier whose directory path is
/// canonical: a registry version by exact version or range, a directory by
/// the same path. Git resolutions satisfy nothing yet.
pub open spec fn spec_satisfies(r: ResolutionView, s: SpecView) -> bool {
    match (r, s.target()) {
        (ResolutionView::Npm { version, .. }, SpecView::Npm { requested, .. }) => match requested {
            Some(VersionSpecView::Version(v)) => same_version(version, v),
            Some(VersionSpecView::Range(range)) => range_satisfies(range, version),
            _ => false,
        },
        (ResolutionView::Dir { path: a, .. }, SpecView::Dir { path: b }) => a == b,
        _ => false,
    }
}

impl PackageResolution {
    /// The name the package is resolved under.
    pub fn name(&self) -> (res: &String)
        ensures
            res@ == match self@ {
                ResolutionView::Npm { name, .. } => name,
                ResolutionView::Dir { name, .. } => name,
                ResolutionView::Git { name, .. } => name,
            },
    {
        match self {
            PackageResolution::Npm { name, .. } => name,
            PackageResolution::Dir { name, .. } => name,
            PackageResolution::Git { name, .. } => name,
        }
    }

    /// The integrity of a registry resolution; other kinds have none.
    pub fn integrity(&self) -> (res: Option<&String>)
        ensures
            match self@ {
                ResolutionView::Npm { integrity, .. } => match res {
                    Some(s) => integrity == Some(s@),
                    None => integrity is None,
                },
                _ => res is None,
            },
    {
        match self {
            PackageResolution::Npm { integrity, .. } => match integrity {
                Some(i) => Some(i),
                None => None,
            },
            _ => None,
        }
    }

    /// The version of a registry resolution; other kinds have none.
    pub fn npm_version(&self) -> (res: Option<Version>)
        ensures
            match self@ {
                ResolutionView::Npm { version, .. } => res matches Some(v) && v@ == version,
                _ => res is None,
            },
    {
        match self {
            PackageResolution::Npm { version, .. } => Some(version.clone()),
            _ => None,
        }
    }

    /// Whether this resolution satisfies `spec` (see [`spec_satisfies`]),
    /// taking a directory specifier's path as already canonical, as the
    /// dependency requests held in a graph are.
    pub fn satisfies_canonical(&self, spec: &PackageSpec) -> (res: bool)
        ensures
            res == spec_satisfies(self@, spec@),
    {
        let target = spec.target();
        match (self, target) {
            (PackageResolution::Npm { version, .. }, PackageSpec::Npm { requested, .. }) => {
                match requested {
                    Some(VersionSpec::Version(v)) => version.same(v),
                    Some(VersionSpec::Range(r)) => r.satisfies(version),
                    Some(VersionSpec::Tag(_)) => false,
                    None => false,
                }
            },
            (PackageResolution::Dir { path: a, .. }, PackageSpec::Dir { path: b }) => *a == *b,
            _ => false,
        }
    }

    /// Whether this resolution satisfies `spec` (see
    /// [`satisfies_outcome`]). `canonical_dir` is the canonical form of a
    /// directory specifier's path, or the context and message of the
    /// failure to canonicalize it, as the caller read it from the
    /// filesystem; it is consulted only where both are directories.
    pub fn satisfies(&self, spec: &PackageSpec, canonical_dir: Result<String, (String, String)>) -> (res: Result<
        bool,
        NassunError,
    >)
        ensures
            match satisfies_outcome(self@, spec@, result_view(canonical_dir)) {
                Ok(b) => res == Ok::<bool, NassunError>(b),
                Err(m) => match (res, canonical_dir) {
                    (Err(NassunError::IoError(c, msg)), Err((c2, _))) => msg@ == m && c@ == c2@,
                    _ => false,
                },
            },
    {
        let target = spec.target();
        match (self, target) {
            (PackageResolution::Dir { path: a, .. }, PackageSpec::Dir { .. }) => match canonical_dir {
                Ok(c) => Ok(*a == c),
                Err((context, message)) => Err(NassunError::IoError(context, message)),
            },
            _ => Ok(self.satisfies_canonical(spec)),
        }
    }
}

/// What checking a resolution against a specifier comes to: a directory
/// against a directory specifier compares the resolved path with the
/// specifier's canonical path, and fails where canonicalizing failed (with
/// that failure's message); every other pair is [`spec_satisfies`].
pub open spec fn satisfies_outcome(r: ResolutionView, s: SpecView, canonical_dir: Result<Seq<char>, Seq<char>>) -> Result<
    bool,
    Seq<char>,
> {
    match (r, s.target()) {
        (ResolutionView::Dir { path: a, .. }, SpecView::Dir { .. }) => match canonical_dir {
            Ok(c) => Ok(a == c),
            Err(m) => Err(m),
        },
        _ => Ok(spec_satisfies(r, s)),
    }
}

// ---------------------------------------------------------------------
// Picking the greatest satisfying version
// ---------------------------------------------------------------------

/// Position of the greatest of the first `n` keys that satisfy `range`,
/// taking the later one among equals .
pub open spec fn max_satisfying_upto(keys: Seq<VersionView>, range: Seq<char>, n: int) -> Option<
    int,
>
    decreases n,
{
    if n <= 0 || n > keys.len() {
        None
    } else {
        let prev = max_satisfying_upto(keys, range, n - 1);
        if range_satisfies(range, keys[n - 1]) {
            match prev {
                None => Some(n - 1),
                Some(k) => if version_order(keys[n - 1], keys[k]) >= 0 {
                    Some(n - 1)
                } else {
                    Some(k)
                },
            }
        } else {
            prev
        }
    }
}

/// Position of the greatest key that satisfies `range`, if any does.
pub open spec fn max_satisfying_index(keys: Seq<VersionView>, range: Seq<char>) -> Option<int> {
    max_satisfying_upto(keys, range, keys.len() as int)
}

proof fn lemma_max_satisfying_upto(keys: Seq<VersionView>, range: Seq<char>, n: int)
    requires
        0 <= n <= keys.len(),
    ensures
        max_satisfying_upto(keys, range, n) is None <==> forall|j: int|
            0 <= j < n ==> !range_satisfies(range, #[trigger] keys[j]),
        max_satisfying_upto(keys, range, n) matches Some(k) ==> {
            &&& 0 <= k < n
            &&& range_satisfies(range, keys[k])
            &&& forall|j: int|
                0 <= j < n && range_satisfies(range, #[trigger] keys[j]) ==> version_order(
                    keys[j],
                    keys[k],
                ) <= 0
            &&& forall|j: int|
                k < j < n && range_satisfies(range, #[trigger] keys[j]) ==> version_order(
                    keys[j],
                    keys[k],
                ) < 0
        },
    decreases n,
{
    if n > 0 {
        lemma_max_satisfying_upto(keys, range, n - 1);
        let prev = max_satisfying_upto(keys, range, n - 1);
        let v = keys[n - 1];
        if range_satisfies(range, v) {
            match prev {
                None => {
                    lemma_version_order_antisym(v, v);
                },
                Some(k) => {
                    lemma_version_order_antisym(v, keys[k]);
                    if version_order(v, keys[k]) >= 0 {
                        assert forall|j: int|
                            0 <= j < n && range_satisfies(range, #[trigger] keys[j]) implies version_order(
                                keys[j],
                                v,
                            ) <= 0 by {
                            if j < n - 1 {
                                lemma_version_order_trans(keys[j], keys[k], v);
                            } else {
                                lemma_version_order_antisym(v, v);
                            }
                        }
                    }
                },
            }
        }
    }
}

/// The greatest satisfying version is a satisfying version, no satisfying
/// version is greater, and it is the last of any equals; there is none only
/// when no version satisfies the range.
pub proof fn lemma_max_satisfying(keys: Seq<VersionView>, range: Seq<char>)
    ensures
        max_satisfying_index(keys, range) is None <==> forall|j: int|
            0 <= j < keys.len() ==> !range_satisfies(range, #[trigger] keys[j]),
        max_satisfying_index(keys, range) matches Some(k) ==> {
            &&& 0 <= k < keys.len()
            &&& range_satisfies(range, keys[k])
            &&& forall|j: int|
                0 <= j < keys.len() && range_satisfies(range, #[trigger] keys[j]) ==> version_order(
                    keys[j],
                    keys[k],
                ) <= 0
        },
{
    lemma_max_satisfying_upto(keys, range, keys.len() as int);
}

/// Position of the greatest version of the packument that satisfies
/// `range`, the later one among equals.
pub fn max_satisfying(packument: &Packument, range: &VersionRange) -> (res: Option<usize>)
    ensures
        res matches Some(k) ==> k < packument@.versions.len() && Some(k as int)
            == max_satisfying_index(packument@.version_keys(), range@),
        res is None ==> max_satisfying_index(packument@.version_keys(), range@) is None,
{
    let ghost keys = packument@.version_keys();
    let mut best: Option<usize> = None;
    let mut i: usize = 0;
    while i < packument.versions.len()
        invariant
            keys == packument@.version_keys(),
            keys.len() == packument.versions.len(),
            i <= packument.versions.len(),
            match best {
                Some(k) => Some(k as int) == max_satisfying_upto(keys, range@, i as int),
                None => max_satisfying_upto(keys, range@, i as int) is None,
            },
        decreases packument.versions.len() - i,
    {
        proof {
            lemma_max_satisfying_upto(keys, range@, i as int);
        }
        let v = &packument.versions[i].0;
        assert(keys[i as int] == v@);
        if range.satisfies(v) {
            match best {
                None => {
                    best = Some(i);
                },
                Some(k) => {
                    assert(keys[k as int] == packument.versions@[k as int].0@);
                    if v.precedence(&packument.versions[k].0) >= 0 {
                        best = Some(i);
                    }
                },
            }
        }
        i = i + 1;
    }
    proof {
        lemma_max_satisfying_upto(keys, range@, i as int);
    }
    best
}

// ---------------------------------------------------------------------
// Resolution against a packument
// ---------------------------------------------------------------------

/// The version an npm specifier names directly: an exact version, or the
/// version a dist-tag points to.
pub open spec fn named_version(s: SpecView, p: PackumentView) -> Option<VersionView> {
    match s {
        SpecView::Npm { requested: Some(VersionSpecView::Version(v)), .. } => Some(v),
        SpecView::Npm { requested: Some(VersionSpecView::Tag(t)), .. } => p.lookup_tag(t),
        _ => None,
    }
}

/// Whether the default tag's version may stand for an npm specifier that
/// names no version: a bare name, or a range that the version satisfies.
pub open spec fn default_tag_applies(s: SpecView, tagged: VersionView) -> bool {
    match s {
        SpecView::Npm { requested: None, .. } => true,
        SpecView::Npm { requested: Some(VersionSpecView::Range(r)), .. } => range_satisfies(
            r,
            tagged,
        ),
        _ => false,
    }
}

/// Whether a range is the match-anything range (`*`).
pub open spec fn wildcard_range(r: Seq<char>) -> bool {
    range_is_any(r) || (range_parses("*"@) && ranges_equal(r, "*"@))
}

/// The version that resolution selects for an npm specifier `s`: the
/// version it names; else the default tag's version, where it exists, is
/// published and applies; else the greatest version in the requested range;
/// else, for a wildcard range, the default tag's version.
pub open spec fn selected_version(s: SpecView, p: PackumentView, default_tag: Seq<char>) -> Option<
    VersionView,
> {
    let tagged = p.lookup_tag(default_tag);
    if named_version(s, p) is Some {
        named_version(s, p)
    } else if tagged is Some && p.has_version(tagged.unwrap()) && default_tag_applies(
        s,
        tagged.unwrap(),
    ) {
        tagged
    } else {
        match s {
            SpecView::Npm { requested: Some(VersionSpecView::Range(r)), .. } => {
                match max_satisfying_index(p.version_keys(), r) {
                    Some(k) => Some(p.version_keys()[k]),
                    None => if wildcard_range(r) {
                        tagged
                    } else {
                        None
                    },
                }
            },
            _ => None,
        }
    }
}

/// What resolving a specifier comes to, without the names it carries.
pub enum ResolveOutcome {
    Npm { version: VersionView, tarball: Seq<char>, integrity: Option<Seq<char>> },
    Dir { path: Seq<char> },
    Git { info: Seq<char> },
    NoVersion,
    InvalidSpec,
    NoTarball,
    BadIntegrity,
    Io,
    Misc,
}

pub open spec fn zero_version() -> VersionView {
    VersionView { major: 0, minor: 0, patch: 0, build: Seq::empty(), pre_release: Seq::empty() }
}

/// The integrity that a version's metadata declares: its `integrity`, else
/// its `shasum` as a `sha1-` integrity; `Some(None)` where that text does
/// not parse.
pub open spec fn declared_integrity(m: MetadataView) -> Option<Option<Seq<char>>> {
    match m.integrity {
        Some(i) => Some(parsed_integrity(i)),
        None => match m.shasum {
            Some(sh) => Some(parsed_integrity("sha1-"@ + sh)),
            None => None,
        },
    }
}

/// The resolution of a selected version from its metadata.
pub open spec fn npm_outcome(m: MetadataView) -> ResolveOutcome {
    match m.tarball {
        None => ResolveOutcome::NoTarball,
        Some(t) => {
            let version = match m.version {
                Some(v) => v,
                None => zero_version(),
            };
            match declared_integrity(m) {
                Some(None) => ResolveOutcome::BadIntegrity,
                Some(Some(i)) => ResolveOutcome::Npm { version, tarball: t, integrity: Some(i) },
                None => ResolveOutcome::Npm { version, tarball: t, integrity: None },
            }
        },
    }
}

/// A selected version is checked against the integrity its metadata
/// declares: where it has an `integrity`, the resolution carries that
/// integrity parsed; where it has none but has a `shasum`, the resolution
/// carries the shasum parsed as a `sha1-` integrity. Either way the
/// resolution never goes without an integrity: where the text does not
/// parse, resolving fails instead.
pub proof fn lemma_declared_integrity_kept(m: MetadataView)
    requires
        m.tarball is Some,
        m.integrity is Some || m.shasum is Some,
    ensures
        ({
            let text = match m.integrity {
                Some(i) => i,
                None => "sha1-"@ + m.shasum.unwrap(),
            };
            match npm_outcome(m) {
                ResolveOutcome::Npm { tarball, integrity, .. } => tarball == m.tarball.unwrap() && integrity is Some
                    && integrity == parsed_integrity(text),
                ResolveOutcome::BadIntegrity => parsed_integrity(text) is None,
                _ => false,
            }
        }),
{
}

/// A selected version whose metadata declares neither an `integrity` nor a
/// `shasum` resolves to its tarball with no integrity.
pub proof fn lemma_no_declared_integrity(m: MetadataView)
    requires
        m.tarball is Some,
        m.integrity is None,
        m.shasum is None,
    ensures
        npm_outcome(m) matches ResolveOutcome::Npm { tarball, integrity, .. } && tarball == m.tarball.unwrap()
            && integrity is None,
{
}

/// The caller's canonicalization result: the path, or the failure's
/// message (its context is not part of the outcome).
pub open spec fn result_view(r: Result<String, (String, String)>) -> Result<Seq<char>, Seq<char>> {
    match r {
        Ok(s) => Ok(s@),
        Err(e) => Err(e.1@),
    }
}

/// What resolving `wanted` against `p` comes to. A directory resolves to its
/// canonical path (`canonical_dir`, computed by the caller); a git
/// specifier to itself; an npm specifier to the metadata of the selected
/// version.
pub open spec fn resolution_outcome(
    wanted: SpecView,
    p: PackumentView,
    default_tag: Seq<char>,
    canonical_dir: Result<Seq<char>, Seq<char>>,
) -> ResolveOutcome {
    let s = wanted.target();
    match s {
        SpecView::Dir { .. } => match canonical_dir {
            Ok(path) => ResolveOutcome::Dir { path },
            Err(_) => ResolveOutcome::Io,
        },
        SpecView::Git { info } => ResolveOutcome::Git { info },
        _ => if p.versions.len() == 0 {
            ResolveOutcome::NoVersion
        } else if !(s is Npm) {
            ResolveOutcome::InvalidSpec
        } else {
            match selected_version(s, p, default_tag) {
                None => ResolveOutcome::NoVersion,
                Some(v) => match p.lookup_version(v) {
                    None => ResolveOutcome::NoVersion,
                    Some(m) => npm_outcome(m),
                },
            }
        },
    }
}

/// The outcome that a result reports.
pub open spec fn outcome_of(r: Result<PackageResolution, NassunError>) -> ResolveOutcome {
    match r {
        Ok(PackageResolution::Npm { version, tarball, integrity, .. }) => ResolveOutcome::Npm {
            version: version@,
            tarball: tarball@,
            integrity: opt_string_view(integrity),
        },
        Ok(PackageResolution::Dir { path, .. }) => ResolveOutcome::Dir { path: path@ },
        Ok(PackageResolution::Git { info, .. }) => ResolveOutcome::Git { info: info@ },
        Err(NassunError::NoVersion { .. }) => ResolveOutcome::NoVersion,
        Err(NassunError::InvalidPackageSpec(_)) => ResolveOutcome::InvalidSpec,
        Err(NassunError::NoTarball(..)) => ResolveOutcome::NoTarball,
        Err(NassunError::IntegrityParseError(_)) => ResolveOutcome::BadIntegrity,
        Err(NassunError::IoError(..)) => ResolveOutcome::Io,
        Err(NassunError::MiscError(_)) => ResolveOutcome::Misc,
    }
}

/// The names that a result carries: a resolution's name, and the package
/// name in a `NoVersion` or `NoTarball` error, are `name`.
pub open spec fn names_are(r: Result<PackageResolution, NassunError>, name: Seq<char>) -> bool {
    match r {
        Ok(PackageResolution::Npm { name: n, .. }) => n@ == name,
        Ok(PackageResolution::Dir { name: n, .. }) => n@ == name,
        Ok(PackageResolution::Git { name: n, .. }) => n@ == name,
        Err(NassunError::NoVersion { name: n, .. }) => n@ == name,
        Err(NassunError::NoTarball(n, ..)) => n@ == name,
        _ => true,
    }
}

pub open spec fn versions_view(vs: Seq<Version>) -> Seq<VersionView> {
    vs.map_values(|v: Version| v@)
}

pub(crate) fn version_keys(packument: &Packument) -> (res: Vec<Version>)
    ensures
        versions_view(res@) == packument@.version_keys(),
{
    let mut out: Vec<Version> = Vec::new();
    let mut i: usize = 0;
    while i < packument.versions.len()
        invariant
            i <= packument.versions.len(),
            out@.len() == i,
            forall|k: int| 0 <= k < i ==> (#[trigger] out@[k])@ == packument.versions@[k].0@,
        decreases packument.versions.len() - i,
    {
        out.push(packument.versions[i].0.clone());
        i = i + 1;
    }
    assert(versions_view(out@) =~= packument@.version_keys());
    out
}

/// Builds the registry resolution of a selected version.
fn npm_resolution(name: &str, wanted: &PackageSpec, meta: &VersionMetadata) -> (res: Result<
    PackageResolution,
    NassunError,
>)
    ensures
        outcome_of(res) == npm_outcome(meta@),
        names_are(res, name@),
        res matches Err(NassunError::NoTarball(_, w, m)) ==> w@ == wanted@ && m@ == meta@,
{
    let tarball = match &meta.tarball {
        Some(t) => t.clone(),
        None => {
            return Err(NassunError::NoTarball(name.to_owned(), wanted.clone(), meta.clone()));
        },
    };
    let version = match &meta.version {
        Some(v) => v.clone(),
        None => Version::new(0, 0, 0),
    };
    proof {
        if meta.version is None {
            assert(version@.build =~= Seq::<crate::semver::IdentView>::empty());
            assert(version@.pre_release =~= Seq::<crate::semver::IdentView>::empty());
        }
    }
    let integrity = match &meta.integrity {
        Some(i) => match parse_integrity(i.as_str()) {
            Ok(s) => Some(s),
            Err(e) => {
                return Err(NassunError::IntegrityParseError(e));
            },
        },
        None => match &meta.shasum {
            Some(sh) => {
                let mut text = String::from_str("sha1-");
                text.append(sh.as_str());
                match parse_integrity(text.as_str()) {
                    Ok(s) => Some(s),
                    Err(e) => {
                        return Err(NassunError::IntegrityParseError(e));
                    },
                }
            },
            None => None,
        },
    };
    Ok(PackageResolution::Npm { name: name.to_owned(), version, tarball, integrity })
}

/// Resolves package specifiers against registry metadata.
#[derive(Debug)]
pub struct PackageResolver {
    /// The dist-tag to prefer where a specifier names no version.
    pub default_tag: String,
    /// The directory that relative directory specifiers start from.
    pub base_dir: String,
}

impl PackageResolver {
    /// Selects the resolution of `wanted` from `packument`; see
    /// [`resolution_outcome`]. A directory specifier resolves to
    /// `canonical_dir`, which the caller obtains by canonicalizing
    /// `base_dir` joined with the specifier's path (for other specifiers it
    /// is not read).
    pub fn get_resolution(
        &self,
        name: &str,
        wanted: &PackageSpec,
        packument: &Packument,
        canonical_dir: Result<String, (String, String)>,
    ) -> (res: Result<PackageResolution, NassunError>)
        requires
            packument@.wf(),
        ensures
            outcome_of(res) == resolution_outcome(
                wanted@,
                packument@,
                self.default_tag@,
                result_view(canonical_dir),
            ),
            names_are(res, name@),
            res matches Err(NassunError::NoVersion { versions, .. }) ==> versions_view(versions@)
                == packument@.version_keys(),
            res matches Err(NassunError::NoVersion { spec, .. }) ==> spec@ == wanted@.target(),
            res matches Err(NassunError::InvalidPackageSpec(s)) ==> s@ == wanted@.target(),
            match res {
                Err(NassunError::NoTarball(_, w, m)) => w@ == wanted@ && match selected_version(
                    wanted@.target(),
                    packument@,
                    self.default_tag@,
                ) {
                    Some(v) => packument@.lookup_version(v) == Some(m@),
                    None => false,
                },
                _ => true,
            },
    {
        let spec = wanted.target();
        match spec {
            PackageSpec::Dir { .. } => {
                return match canonical_dir {
                    Ok(path) => Ok(PackageResolution::Dir { name: name.to_owned(), path }),
                    Err((context, message)) => Err(NassunError::IoError(context, message)),
                };
            },
            PackageSpec::Git { info } => {
                return Ok(PackageResolution::Git { name: name.to_owned(), info: info.clone() });
            },
            _ => {},
        }
        if packument.versions.len() == 0 {
            let ghost keys = packument@.version_keys();
            assert(keys =~= Seq::<VersionView>::empty());
            assert(versions_view(Seq::<Version>::empty()) =~= keys);
            return Err(
                NassunError::NoVersion {
                    name: name.to_owned(),
                    spec: spec.clone(),
                    versions: Vec::new(),
                },
            );
        }
        let mut target: Option<Version> = match spec {
            PackageSpec::Npm { requested: Some(VersionSpec::Version(v)), .. } => Some(v.clone()),
            PackageSpec::Npm { requested: Some(VersionSpec::Tag(t)), .. } => match packument.get_tag(
                t.as_str(),
            ) {
                Some(v) => Some(v.clone()),
                None => None,
            },
            PackageSpec::Npm { .. } => None,
            _ => {
                return Err(NassunError::InvalidPackageSpec(spec.clone()));
            },
        };
        let ghost s = spec@;
        let ghost p = packument@;
        assert(match target {
            Some(v) => named_version(s, p) == Some(v@),
            None => named_version(s, p) is None,
        });

        let tag_version = packument.get_tag(self.default_tag.as_str());

        if target.is_none() {
            if let Some(tv) = tag_version {
                if packument.get_version(tv).is_some() {
                    let applies = match spec {
                        PackageSpec::Npm { requested: None, .. } => true,
                        PackageSpec::Npm { requested: Some(VersionSpec::Range(range)), .. } => range.satisfies(tv),
                        _ => false,
                    };
                    if applies {
                        target = Some(tv.clone());
                    }
                }
            }
        }

        if target.is_none() {
            if let PackageSpec::Npm { requested: Some(VersionSpec::Range(range)), .. } = spec {
                match max_satisfying(packument, range) {
                    Some(k) => {
                        assert(packument@.version_keys()[k as int] == packument.versions@[k as int].0@);
                        target = Some(packument.versions[k].0.clone());
                    },
                    None => {},
                }
            }
        }

        if target.is_none() {
            if let PackageSpec::Npm { requested: Some(VersionSpec::Range(range)), .. } = spec {
                let wildcard = if range.is_any() {
                    true
                } else {
                    match VersionRange::parse("*") {
                        Ok(star) => range.same_range(&star),
                        Err(_) => false,
                    }
                };
                if wildcard {
                    target = match tag_version {
                        Some(v) => Some(v.clone()),
                        None => None,
                    };
                }
            }
        }

        assert(match target {
            Some(v) => selected_version(s, p, self.default_tag@) == Some(v@),
            None => selected_version(s, p, self.default_tag@) is None,
        });

        let meta = match target {
            Some(v) => packument.get_version(&v),
            None => None,
        };
        match meta {
            Some(m) => npm_resolution(name, wanted, m),
            None => {
                let versions = version_keys(packument);
                Err(NassunError::NoVersion { name: name.to_owned(), spec: spec.clone(), versions })
            },
        }
    }
}

} // verus!

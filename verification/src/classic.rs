//! The classic (npm-style) resolver: picks a version for a request from the
//! package's packument.

use vstd::prelude::*;

use crate::metadata::{Packument, PackumentView};
use crate::resolution::{
    max_satisfying, result_view, selected_version, versions_view, zero_version,
};
use crate::semver::{Version, VersionRange, VersionView};
use crate::spec::{PackageSpec, SpecView, VersionSpec, VersionSpecView};

verus! {

/// Resolves requests the way the npm CLI classically does.
#[derive(Debug)]
pub struct ClassicResolver {
    /// The dist-tag preferred where a request names no version.
    pub default_tag: String,
}

/// Errors specific to the classic resolver.
#[derive(Debug, Clone, Copy, PartialEq, Eq)]
pub enum ClassicResolverError {
    /// Only Version, Tag, Range, and Alias package args are supported.
    InvalidPackageSpec,
}

/// A resolution picked by the classic resolver.
#[derive(Debug)]
pub enum ClassicResolution {
    Npm { version: Version, tarball: String },
    Dir { path: String },
}

/// Errors from resolving a request.
#[derive(Debug)]
pub enum ResolverError {
    /// No version matches; `versions` lists the versions on offer.
    NoVersion { name: String, spec: PackageSpec, versions: Vec<Version> },
    /// The request is of an unsupported kind.
    Invalid(ClassicResolverError),
    /// Canonicalizing a directory failed; the message says why.
    Io(String),
}

/// What a classic resolution comes to.
pub enum ClassicOutcome {
    Npm { version: VersionView, tarball: Seq<char> },
    Dir { path: Seq<char> },
    NoVersion,
    Invalid,
    Io,
}

/// The request the classic resolver looks at: an alias stands for what it
/// aliases, one level deep.
pub open spec fn classic_spec(wanted: SpecView) -> SpecView {
    match wanted {
        SpecView::Alias { spec, .. } => *spec,
        _ => wanted,
    }
}

/// What the classic resolver makes of `wanted`.
pub open spec fn classic_outcome(
    wanted: SpecView,
    p: PackumentView,
    default_tag: Seq<char>,
    canonical_dir: Result<Seq<char>, Seq<char>>,
) -> ClassicOutcome {
    let s = classic_spec(wanted);
    if s is Dir {
        match canonical_dir {
            Ok(path) => ClassicOutcome::Dir { path },
            Err(_) => ClassicOutcome::Io,
        }
    } else if p.versions.len() == 0 {
        ClassicOutcome::NoVersion
    } else if !(s is Npm) {
        ClassicOutcome::Invalid
    } else {
        match selected_version(s, p, default_tag) {
            None => ClassicOutcome::NoVersion,
            Some(v) => match p.lookup_version(v) {
                None => ClassicOutcome::NoVersion,
                Some(m) => match m.tarball {
                    None => ClassicOutcome::NoVersion,
                    Some(t) => ClassicOutcome::Npm {
                        version: match m.version {
                            Some(mv) => mv,
                            None => zero_version(),
                        },
                        tarball: t,
                    },
                },
            },
        }
    }
}

pub open spec fn classic_outcome_of(r: Result<ClassicResolution, ResolverError>) -> ClassicOutcome {
    match r {
        Ok(ClassicResolution::Npm { version, tarball }) => ClassicOutcome::Npm {
            version: version@,
            tarball: tarball@,
        },
        Ok(ClassicResolution::Dir { path }) => ClassicOutcome::Dir { path: path@ },
        Err(ResolverError::NoVersion { .. }) => ClassicOutcome::NoVersion,
        Err(ResolverError::Invalid(_)) => ClassicOutcome::Invalid,
        Err(ResolverError::Io(_)) => ClassicOutcome::Io,
    }
}

impl ClassicResolver {
    /// A resolver that prefers the `latest` tag.
    pub fn new() -> (res: ClassicResolver)
        ensures
            res.default_tag@ == "latest"@,
    {
        ClassicResolver { default_tag: String::from_str("latest") }
    }

    /// This resolver, preferring `tag` instead.
    pub fn default_tag(self, tag: String) -> (res: ClassicResolver)
        ensures
            res.default_tag == tag,
    {
        let mut me = self;
        me.default_tag = tag;
        me
    }

    /// Resolves `wanted` (requested under `name`) against its packument; see
    /// [`classic_outcome`]. A directory request resolves to `canonical_dir`,
    /// which the caller obtains by canonicalizing the request's path against
    /// the directory it was made from; for other requests it is not read.
    pub fn resolve(
        &self,
        name: &str,
        wanted: &PackageSpec,
        packument: &Packument,
        canonical_dir: Result<String, (String, String)>,
    ) -> (res: Result<ClassicResolution, ResolverError>)
        requires
            packument@.wf(),
        ensures
            classic_outcome_of(res) == classic_outcome(
                wanted@,
                packument@,
                self.default_tag@,
                result_view(canonical_dir),
            ),
            res matches Err(ResolverError::NoVersion { name: n, .. }) ==> n@ == name@,
            res matches Err(ResolverError::NoVersion { spec: s, versions: vs, .. }) ==> s@ == wanted@
                && crate::resolution::versions_view(vs@) == packument@.version_keys(),
    {
        let spec = match wanted {
            PackageSpec::Alias { spec, .. } => &**spec,
            _ => wanted,
        };
        assert(spec@ == classic_spec(wanted@));
        if let PackageSpec::Dir { .. } = spec {
            return match canonical_dir {
                Ok(path) => Ok(ClassicResolution::Dir { path }),
                Err(e) => Err(ResolverError::Io(e.1)),
            };
        }
        if packument.versions.len() == 0 {
            proof {
                assert(packument@.version_keys() =~= Seq::<crate::semver::VersionView>::empty());
                assert(crate::resolution::versions_view(Seq::<Version>::empty()) =~= packument@.version_keys());
            }
            return Err(
                ResolverError::NoVersion {
                    name: name.to_owned(),
                    spec: wanted.clone(),
                    versions: Vec::new(),
                },
            );
        }
        let mut target: Option<Version> = match spec {
            PackageSpec::Npm { requested: Some(VersionSpec::Version(v)), .. } => Some(v.clone()),
            PackageSpec::Npm { requested: Some(VersionSpec::Tag(t)), .. } => match packument.get_tag(
                t.as_str(),
            ) {
                Some(v) => Some(v.clone()),
                None => None,
            },
            PackageSpec::Npm { .. } => None,
            _ => {
                return Err(ResolverError::Invalid(ClassicResolverError::InvalidPackageSpec));
            },
        };
        let tag_version = packument.get_tag(self.default_tag.as_str());
        if target.is_none() {
            if let Some(tv) = tag_version {
                if packument.get_version(tv).is_some() {
                    let applies = match spec {
                        PackageSpec::Npm { requested: None, .. } => true,
                        PackageSpec::Npm { requested: Some(VersionSpec::Range(range)), .. } => range.satisfies(tv),
                        _ => false,
                    };
                    if applies {
                        target = Some(tv.clone());
                    }
                }
            }
        }
        if target.is_none() {
            if let PackageSpec::Npm { requested: Some(VersionSpec::Range(range)), .. } = spec {
                match max_satisfying(packument, range) {
                    Some(k) => {
                        assert(packument@.version_keys()[k as int] == packument.versions@[k as int].0@);
                        target = Some(packument.versions[k].0.clone());
                    },
                    None => {},
                }
            }
        }
        if target.is_none() {
            if let PackageSpec::Npm { requested: Some(VersionSpec::Range(range)), .. } = spec {
                let wildcard = if range.is_any() {
                    true
                } else {
                    match VersionRange::parse("*") {
                        Ok(star) => range.same_range(&star),
                        Err(_) => false,
                    }
                };
                if wildcard {
                    target = match tag_version {
                        Some(v) => Some(v.clone()),
                        None => None,
                    };
                }
            }
        }
        assert(match target {
            Some(v) => selected_version(spec@, packument@, self.default_tag@) == Some(v@),
            None => selected_version(spec@, packument@, self.default_tag@) is None,
        });
        let meta = match target {
            Some(v) => packument.get_version(&v),
            None => None,
        };
        if let Some(m) = meta {
            if let Some(tarball) = &m.tarball {
                let version = match &m.version {
                    Some(v) => v.clone(),
                    None => Version::new(0, 0, 0),
                };
                proof {
                    if m.version is None {
                        assert(version@.build =~= Seq::<crate::semver::IdentView>::empty());
                        assert(version@.pre_release =~= Seq::<crate::semver::IdentView>::empty());
                    }
                }
                return Ok(ClassicResolution::Npm { version, tarball: tarball.clone() });
            }
        }
        let versions = crate::resolution::version_keys(packument);
        Err(ResolverError::NoVersion { name: name.to_owned(), spec: wanted.clone(), versions })
    }
}

} // verus!

//! Package specifiers: what a dependency asks for (`foo@^1.2.0`,
//! `file:../foo`, `git+https://...`, `bar@npm:foo@1`).

use vstd::prelude::*;

use crate::semver::{parse_version, parsed_version, range_parses, Version, VersionRange, VersionView};

verus! {

/// The version part of an npm package specifier.
#[derive(Debug)]
pub enum VersionSpec {
    /// A dist-tag, such as `latest`.
    Tag(String),
    /// An exact version.
    Version(Version),
    /// A version range.
    Range(VersionRange),
}

/// The mathematical value of a [`VersionSpec`].
pub enum VersionSpecView {
    Tag(Seq<char>),
    Version(VersionView),
    Range(Seq<char>),
}

impl View for VersionSpec {
    type V = VersionSpecView;

    open spec fn view(&self) -> VersionSpecView {
        match self {
            VersionSpec::Tag(t) => VersionSpecView::Tag(t@),
            VersionSpec::Version(v) => VersionSpecView::Version(v@),
            VersionSpec::Range(r) => VersionSpecView::Range(r@),
        }
    }
}

impl Clone for VersionSpec {
    fn clone(&self) -> (res: Self)
        ensures
            res@ == self@,
    {
        match self {
            VersionSpec::Tag(t) => VersionSpec::Tag(t.clone()),
            VersionSpec::Version(v) => VersionSpec::Version(v.clone()),
            VersionSpec::Range(r) => VersionSpec::Range(r.clone()),
        }
    }
}

/// A package specifier.
#[derive(Debug)]
pub enum PackageSpec {
    /// A local directory, `file:<path>`.
    Dir { path: String },
    /// An alias, `<name>@npm:<spec>`.
    Alias { name: String, spec: Box<PackageSpec> },
    /// A registry package, `[@scope/]name[@version-spec]`.
    Npm { scope: Option<String>, name: String, requested: Option<VersionSpec> },
    /// A git repository, held by its textual form.
    Git { info: String },
}

/// The mathematical value of a [`PackageSpec`].
pub enum SpecView {
    Dir { path: Seq<char> },
    Alias { name: Seq<char>, spec: Box<SpecView> },
    Npm { scope: Option<Seq<char>>, name: Seq<char>, requested: Option<VersionSpecView> },
    Git { info: Seq<char> },
}

pub open spec fn opt_string_view(o: Option<String>) -> Option<Seq<char>> {
    match o {
        Some(s) => Some(s@),
        None => None,
    }
}

pub open spec fn opt_vspec_view(o: Option<VersionSpec>) -> Option<VersionSpecView> {
    match o {
        Some(v) => Some(v@),
        None => None,
    }
}

impl View for PackageSpec {
    type V = SpecView;

    open spec fn view(&self) -> SpecView
        decreases self,
    {
        match self {
            PackageSpec::Dir { path } => SpecView::Dir { path: path@ },
            PackageSpec::Alias { name, spec } => SpecView::Alias {
                name: name@,
                spec: Box::new((**spec).view()),
            },
            PackageSpec::Npm { scope, name, requested } => SpecView::Npm {
                scope: opt_string_view(*scope),
                name: name@,
                requested: opt_vspec_view(*requested),
            },
            PackageSpec::Git { info } => SpecView::Git { info: info@ },
        }
    }
}

fn clone_opt_string(o: &Option<String>) -> (res: Option<String>)
    ensures
        opt_string_view(res) == opt_string_view(*o),
{
    match o {
        Some(s) => Some(s.clone()),
        None => None,
    }
}

impl Clone for PackageSpec {
    fn clone(&self) -> (res: Self)
        ensures
            res@ == self@,
        decreases self,
    {
        match self {
            PackageSpec::Dir { path } => PackageSpec::Dir { path: path.clone() },
            PackageSpec::Alias { name, spec } => {
                let inner: PackageSpec = (**spec).clone();
                PackageSpec::Alias { name: name.clone(), spec: Box::new(inner) }
            },
            PackageSpec::Npm { scope, name, requested } => {
                let r = match requested {
                    Some(v) => Some(v.clone()),
                    None => None,
                };
                PackageSpec::Npm { scope: clone_opt_string(scope), name: name.clone(), requested: r }
            },
            PackageSpec::Git { info } => PackageSpec::Git { info: info.clone() },
        }
    }
}

impl SpecView {
    /// The specifier that an alias ultimately stands for.
    pub open spec fn target(self) -> SpecView
        decreases self,
    {
        match self {
            SpecView::Alias { spec, .. } => (*spec).target(),
            _ => self,
        }
    }
}

impl PackageSpec {
    /// The specifier that this one ultimately stands for: aliases are
    /// followed to what they alias.
    pub fn target(&self) -> (res: &PackageSpec)
        ensures
            res@ == self@.target(),
            !(res@ is Alias),
        decreases self,
    {
        match self {
            PackageSpec::Alias { spec, .. } => (**spec).target(),
            _ => self,
        }
    }

    /// Whether this is a registry specifier.
    pub fn is_npm(&self) -> (res: bool)
        ensures
            res == (self@ is Npm),
    {
        match self {
            PackageSpec::Npm { .. } => true,
            _ => false,
        }
    }
}

/// The position of the first `/` in `s` at or after `i`.
pub open spec fn first_slash_from(s: Seq<char>, i: int) -> Option<int>
    decreases s.len() - i,
{
    if i < 0 || i >= s.len() {
        None
    } else if s[i] == '/' {
        Some(i)
    } else {
        first_slash_from(s, i + 1)
    }
}

/// The scope of a package name `@scope/name`, without its `@`; none for an
/// unscoped name.
pub open spec fn name_scope(name: Seq<char>) -> Option<Seq<char>> {
    if name.len() > 0 && name[0] == '@' {
        match first_slash_from(name, 1) {
            Some(p) => Some(name.subrange(1, p)),
            None => None,
        }
    } else {
        None
    }
}

/// The scope of a package name (see [`name_scope`]).
pub fn scope_of(name: &str) -> (res: Option<String>)
    ensures
        opt_string_view(res) == name_scope(name@),
{
    let n = name.unicode_len();
    if n == 0 || name.get_char(0) != '@' {
        return None;
    }
    let mut i: usize = 1;
    while i < n && name.get_char(i) != '/'
        invariant
            1 <= i <= n,
            n == name@.len(),
            first_slash_from(name@, 1) == first_slash_from(name@, i as int),
        decreases n - i,
    {
        i = i + 1;
    }
    if i < n {
        let sc = name.substring_char(1, i);
        assert(sc@ =~= name@.subrange(1, i as int));
        Some(sc.to_string())
    } else {
        None
    }
}

/// What a dependency's requested text asks for: a directory for
/// `file:<path>`; otherwise a registry package of that name (in its scope,
/// where the name has one), at the exact version the text parses as, else
/// in the range it parses as, else under the dist-tag it names.
pub open spec fn request_of(name: Seq<char>, text: Seq<char>) -> SpecView {
    let scope = name_scope(name);
    if text.len() >= 5 && text.take(5) == "file:"@ {
        SpecView::Dir { path: text.skip(5) }
    } else if parsed_version(text) is Some {
        SpecView::Npm { scope, name, requested: Some(VersionSpecView::Version(parsed_version(text).unwrap())) }
    } else if range_parses(text) {
        SpecView::Npm { scope, name, requested: Some(VersionSpecView::Range(text)) }
    } else {
        SpecView::Npm { scope, name, requested: Some(VersionSpecView::Tag(text)) }
    }
}

/// The specifier of dependency `name` whose manifest entry reads `text`
/// (see [`request_of`]).
pub fn dependency_request(name: String, text: &str) -> (res: PackageSpec)
    ensures
        res@ == request_of(name@, text@),
{
    proof {
        reveal_strlit("file:");
    }
    let n = text.unicode_len();
    if n >= 5 {
        let head = text.substring_char(0, 5);
        if head.to_string() == String::from_str("file:") {
            assert(head@ =~= text@.take(5));
            let rest = text.substring_char(5, n);
            assert(rest@ =~= text@.skip(5));
            return PackageSpec::Dir { path: rest.to_string() };
        }
        assert(head@ =~= text@.take(5));
    }
    let scope = scope_of(name.as_str());
    match parse_version(text) {
        Ok(v) => PackageSpec::Npm { scope, name, requested: Some(VersionSpec::Version(v)) },
        Err(_) => match VersionRange::parse(text) {
            Ok(r) => PackageSpec::Npm { scope, name, requested: Some(VersionSpec::Range(r)) },
            Err(_) => PackageSpec::Npm { scope, name, requested: Some(VersionSpec::Tag(text.to_string())) },
        },
    }
}

} // verus!

//! Choosing where a package comes from: registries by scope, the fetcher
//! for each kind of specifier, and the metadata a local directory yields.

use vstd::prelude::*;

use crate::error::NassunError;
use crate::graph::Package;
use crate::metadata::{opt_version_view, MetadataView, Packument, VersionMetadata};
use crate::resolution::{zero_version, PackageResolution};
use crate::semver::{Version, VersionView};
use crate::spec::{opt_string_view, PackageSpec, SpecView};

verus! {

/// The registry used for packages whose scope has none configured, when no
/// default registry is configured either.
pub open spec fn npm_registry() -> Seq<char> {
    "https://registry.npmjs.org/"@
}

/// Registries by scope; the entry without a scope is the default registry.
/// Each scope occurs once.
#[derive(Debug)]
pub struct Registries {
    entries: Vec<(Option<String>, String)>,
}

impl View for Registries {
    type V = Seq<(Option<Seq<char>>, Seq<char>)>;

    closed spec fn view(&self) -> Seq<(Option<Seq<char>>, Seq<char>)> {
        self.entries@.map_values(|e: (Option<String>, String)| (opt_string_view(e.0), e.1@))
    }
}

/// The registry configured for `scope`, if any.
pub open spec fn registry_for(r: Seq<(Option<Seq<char>>, Seq<char>)>, scope: Option<Seq<char>>) -> Option<Seq<char>> {
    if exists|k: int| 0 <= k < r.len() && #[trigger] r[k].0 == scope {
        let k = choose|k: int| 0 <= k < r.len() && #[trigger] r[k].0 == scope;
        Some(r[k].1)
    } else {
        None
    }
}

/// The registry a package of `scope` is fetched from: its scope's registry,
/// else the default registry, else the public npm registry.
pub open spec fn picked_registry(r: Seq<(Option<Seq<char>>, Seq<char>)>, scope: Option<Seq<char>>) -> Seq<char> {
    match registry_for(r, scope) {
        Some(u) => u,
        None => match registry_for(r, None) {
            Some(u) => u,
            None => npm_registry(),
        },
    }
}

fn same_scope(a: &Option<String>, b: &Option<String>) -> (res: bool)
    ensures
        res == (opt_string_view(*a) == opt_string_view(*b)),
{
    match (a, b) {
        (Some(x), Some(y)) => *x == *y,
        (None, None) => true,
        _ => false,
    }
}

impl Registries {
    /// Each scope occurs once.
    pub closed spec fn wf(&self) -> bool {
        forall|i: int, j: int|
            0 <= i < self@.len() && 0 <= j < self@.len() && i != j ==> #[trigger] self@[i].0
                != #[trigger] self@[j].0
    }

    /// No registries configured.
    pub fn new() -> (res: Registries)
        ensures
            res.wf(),
            forall|s: Option<Seq<char>>| registry_for(res@, s) is None,
    {
        let res = Registries { entries: Vec::new() };
        assert(res@.len() == 0);
        res
    }

    fn position(&self, scope: &Option<String>) -> (res: Option<usize>)
        ensures
            res matches Some(k) ==> k < self@.len() && self@[k as int].0 == opt_string_view(*scope),
            res is None ==> forall|k: int| 0 <= k < self@.len() ==> #[trigger] self@[k].0 != opt_string_view(*scope),
    {
        let mut i: usize = 0;
        while i < self.entries.len()
            invariant
                i <= self.entries.len(),
                forall|k: int| 0 <= k < i ==> #[trigger] self@[k].0 != opt_string_view(*scope),
            decreases self.entries.len() - i,
        {
            if same_scope(&self.entries[i].0, scope) {
                return Some(i);
            }
            i = i + 1;
        }
        None
    }

    /// Sets the registry of `scope`.
    pub fn insert(&mut self, scope: Option<String>, registry: String)
        requires
            old(self).wf(),
        ensures
            final(self).wf(),
            registry_for(final(self)@, opt_string_view(scope)) == Some(registry@),
            forall|s: Option<Seq<char>>| s != opt_string_view(scope) ==> registry_for(final(self)@, s)
                == registry_for(old(self)@, s),
    {
        let ghost sv = opt_string_view(scope);
        let ghost rv = registry@;
        let ghost before = self@;
        match self.position(&scope) {
            Some(k) => {
                self.entries.set(k, (scope, registry));
                assert(self@ =~= before.update(k as int, (sv, rv)));
                proof {
                    assert(self@[k as int].0 == sv);
                    assert forall|s: Option<Seq<char>>| s != sv implies registry_for(self@, s)
                        == registry_for(before, s) by {
                        if exists|j: int| 0 <= j < before.len() && #[trigger] before[j].0 == s {
                            let j = choose|j: int| 0 <= j < before.len() && #[trigger] before[j].0 == s;
                            assert(self@[j].0 == s);
                        }
                        if exists|j: int| 0 <= j < self@.len() && #[trigger] self@[j].0 == s {
                            let j = choose|j: int| 0 <= j < self@.len() && #[trigger] self@[j].0 == s;
                            assert(before[j].0 == s);
                        }
                    }
                }
            },
            None => {
                self.entries.push((scope, registry));
                assert(self@ =~= before.push((sv, rv)));
                proof {
                    assert(self@[before.len() as int].0 == sv);
                    assert forall|s: Option<Seq<char>>| s != sv implies registry_for(self@, s)
                        == registry_for(before, s) by {
                        if exists|j: int| 0 <= j < before.len() && #[trigger] before[j].0 == s {
                            let j = choose|j: int| 0 <= j < before.len() && #[trigger] before[j].0 == s;
                            assert(self@[j].0 == s);
                        }
                        if exists|j: int| 0 <= j < self@.len() && #[trigger] self@[j].0 == s {
                            let j = choose|j: int| 0 <= j < self@.len() && #[trigger] self@[j].0 == s;
                            assert(j < before.len());
                            assert(before[j].0 == s);
                        }
                    }
                }
            },
        }
    }

    /// The registry configured for `scope`.
    pub fn get(&self, scope: &Option<String>) -> (res: Option<&String>)
        requires
            self.wf(),
        ensures
            registry_for(self@, opt_string_view(*scope)) matches Some(u) ==> res matches Some(r) && r@
                == u,
            registry_for(self@, opt_string_view(*scope)) is None ==> res is None,
    {
        match self.position(scope) {
            Some(k) => {
                proof {
                    let sv = opt_string_view(*scope);
                    let c = choose|j: int| 0 <= j < self@.len() && #[trigger] self@[j].0 == sv;
                    assert(c == k);
                }
                Some(&self.entries[k].1)
            },
            None => None,
        }
    }

    /// The registry a package of `scope` is fetched from
    ///.
    pub fn pick_registry(&self, scope: &Option<String>) -> (res: String)
        requires
            self.wf(),
        ensures
            res@ == picked_registry(self@, opt_string_view(*scope)),
    {
        match self.get(scope) {
            Some(u) => u.clone(),
            None => {
                let none: Option<String> = None;
                match self.get(&none) {
                    Some(u) => u.clone(),
                    None => String::from_str("https://registry.npmjs.org/"),
                }
            },
        }
    }
}

/// `scope` without its leading `@`, if it has one.
pub open spec fn bare_scope(scope: Seq<char>) -> Seq<char> {
    if scope.len() > 0 && scope[0] == '@' {
        scope.drop_first()
    } else {
        scope
    }
}

/// `scope` without its leading `@`.
pub fn strip_scope_prefix(scope: &str) -> (res: String)
    ensures
        res@ == bare_scope(scope@),
{
    let n = scope.unicode_len();
    if n > 0 && scope.get_char(0) == '@' {
        let rest = scope.substring_char(1, n);
        assert(rest@ =~= scope@.drop_first());
        rest.to_string()
    } else {
        scope.to_string()
    }
}

/// Credentials for a registry.
#[derive(Debug)]
pub enum RegistryAuth {
    Basic { username: String, password: Option<String> },
    Token(String),
    Legacy(String),
}

/// Options for a package client, gathered by its builder methods.
#[derive(Debug)]
pub struct NassunOpts {
    pub cache: Option<String>,
    pub base_dir: Option<String>,
    pub default_tag: Option<String>,
    pub registries: Registries,
    pub memoize_metadata: bool,
    pub retries: Option<u32>,
    pub proxy: Option<bool>,
    pub no_proxy_domain: Option<String>,
    /// Credentials by registry, in the order they were given.
    pub auth: Vec<(String, RegistryAuth)>,
}

/// What a client is built with.
#[derive(Debug)]
pub struct NassunConfig {
    pub cache: Option<String>,
    pub base_dir: String,
    pub default_tag: String,
    pub registries: Registries,
    pub memoize_metadata: bool,
}

impl NassunOpts {
    /// No option set.
    pub fn new() -> (res: NassunOpts)
        ensures
            res.cache is None,
            res.base_dir is None,
            res.default_tag is None,
            res.registries.wf(),
            forall|s: Option<Seq<char>>| registry_for(res.registries@, s) is None,
            !res.memoize_metadata,
            res.retries is None,
            res.proxy is None,
            res.no_proxy_domain is None,
            res.auth@.len() == 0,
    {
        NassunOpts {
            cache: None,
            base_dir: None,
            default_tag: None,
            registries: Registries::new(),
            memoize_metadata: false,
            retries: None,
            proxy: None,
            no_proxy_domain: None,
            auth: Vec::new(),
        }
    }

    /// Cache directory to use for requests.
    pub fn cache(self, cache: String) -> (res: NassunOpts)
        ensures
            res.cache == Some(cache),
            res.base_dir == self.base_dir,
            res.default_tag == self.default_tag,
            res.registries == self.registries,
            res.memoize_metadata == self.memoize_metadata,
    {
        NassunOpts { cache: Some(cache), ..self }
    }

    /// Sets the default registry.
    pub fn registry(self, registry: String) -> (res: NassunOpts)
        requires
            self.registries.wf(),
        ensures
            res.registries.wf(),
            registry_for(res.registries@, None) == Some(registry@),
            forall|s: Option<Seq<char>>| s is Some ==> registry_for(res.registries@, s)
                == registry_for(self.registries@, s),
            res.cache == self.cache,
            res.base_dir == self.base_dir,
            res.default_tag == self.default_tag,
    {
        let mut opts = self;
        opts.registries.insert(None, registry);
        opts
    }

    /// Adds a registry for a scope; a leading `@` of the scope is dropped.
    pub fn scope_registry(self, scope: &str, registry: String) -> (res: NassunOpts)
        requires
            self.registries.wf(),
        ensures
            res.registries.wf(),
            registry_for(res.registries@, Some(bare_scope(scope@))) == Some(registry@),
            forall|s: Option<Seq<char>>| s != Some(bare_scope(scope@)) ==> registry_for(
                res.registries@,
                s,
            ) == registry_for(self.registries@, s),
            res.cache == self.cache,
            res.base_dir == self.base_dir,
            res.default_tag == self.default_tag,
    {
        let mut opts = self;
        let bare = strip_scope_prefix(scope);
        opts.registries.insert(Some(bare), registry);
        opts
    }

    /// Adds basic-auth credentials for a registry.
    pub fn basic_auth(self, registry: String, username: String, password: Option<String>) -> (res: NassunOpts)
        ensures
            res.auth@ == self.auth@.push((registry, RegistryAuth::Basic { username, password })),
            res.registries == self.registries,
    {
        let mut opts = self;
        opts.auth.push((registry, RegistryAuth::Basic { username, password }));
        opts
    }

    /// Adds a bearer token for a registry.
    pub fn token_auth(self, registry: String, token: String) -> (res: NassunOpts)
        ensures
            res.auth@ == self.auth@.push((registry, RegistryAuth::Token(token))),
            res.registries == self.registries,
    {
        let mut opts = self;
        opts.auth.push((registry, RegistryAuth::Token(token)));
        opts
    }

    /// Adds a legacy, pre-encoded auth token for a registry.
    pub fn legacy_auth(self, registry: String, token: String) -> (res: NassunOpts)
        ensures
            res.auth@ == self.auth@.push((registry, RegistryAuth::Legacy(token))),
            res.registries == self.registries,
    {
        let mut opts = self;
        opts.auth.push((registry, RegistryAuth::Legacy(token)));
        opts
    }

    /// Base directory for relative paths.
    pub fn base_dir(self, base_dir: String) -> (res: NassunOpts)
        ensures
            res.base_dir == Some(base_dir),
            res.cache == self.cache,
            res.default_tag == self.default_tag,
            res.registries == self.registries,
    {
        NassunOpts { base_dir: Some(base_dir), ..self }
    }

    /// Tag used where a request names no version.
    pub fn default_tag(self, default_tag: String) -> (res: NassunOpts)
        ensures
            res.default_tag == Some(default_tag),
            res.cache == self.cache,
            res.base_dir == self.base_dir,
            res.registries == self.registries,
    {
        NassunOpts { default_tag: Some(default_tag), ..self }
    }

    /// Whether fetched metadata is kept in memory.
    pub fn memoize_metadata(self, keep: bool) -> (res: NassunOpts)
        ensures
            res.memoize_metadata == keep,
            res.registries == self.registries,
    {
        NassunOpts { memoize_metadata: keep, ..self }
    }

    /// Number of times a failed request is retried.
    pub fn retries(self, retries: u32) -> (res: NassunOpts)
        ensures
            res.retries == Some(retries),
            res.registries == self.registries,
    {
        NassunOpts { retries: Some(retries), ..self }
    }

    /// Whether requests go through a proxy.
    pub fn proxy(self, proxy: bool) -> (res: NassunOpts)
        ensures
            res.proxy == Some(proxy),
            res.registries == self.registries,
    {
        NassunOpts { proxy: Some(proxy), ..self }
    }

    /// Domains that bypass the proxy.
    pub fn no_proxy_domain(self, domain: String) -> (res: NassunOpts)
        ensures
            res.no_proxy_domain == Some(domain),
            res.registries == self.registries,
    {
        NassunOpts { no_proxy_domain: Some(domain), ..self }
    }

    /// What the client is built with: the base directory defaults to
    /// `current_dir` (which the caller reads from the process), the default
    /// tag to `latest`.
    pub fn build(self, current_dir: String) -> (res: NassunConfig)
        ensures
            res.cache == self.cache,
            self.base_dir matches Some(b) ==> res.base_dir == b,
            self.base_dir is None ==> res.base_dir == current_dir,
            self.default_tag matches Some(t) ==> res.default_tag == t,
            self.default_tag is None ==> res.default_tag@ == "latest"@,
            res.registries == self.registries,
            res.memoize_metadata == self.memoize_metadata,
    {
        NassunConfig {
            cache: self.cache,
            base_dir: match self.base_dir {
                Some(b) => b,
                None => current_dir,
            },
            default_tag: match self.default_tag {
                Some(t) => t,
                None => String::from_str("latest"),
            },
            registries: self.registries,
            memoize_metadata: self.memoize_metadata,
        }
    }
}

/// Which fetcher serves a specifier.
#[derive(Debug, Clone, Copy, PartialEq, Eq)]
pub enum FetcherKind {
    Npm,
    Dir,
    Git,
}

/// The fetcher for a specifier: an alias is served as what it aliases.
pub open spec fn fetcher_for(s: SpecView) -> FetcherKind
    decreases s,
{
    match s {
        SpecView::Alias { spec, .. } => fetcher_for(*spec),
        SpecView::Npm { .. } => FetcherKind::Npm,
        SpecView::Dir { .. } => FetcherKind::Dir,
        SpecView::Git { .. } => FetcherKind::Git,
    }
}

/// The fetcher for `spec`.
pub fn pick_fetcher(spec: &PackageSpec) -> (res: FetcherKind)
    ensures
        res == fetcher_for(spec@),
    decreases spec,
{
    match spec {
        PackageSpec::Alias { spec: inner, .. } => pick_fetcher(&**inner),
        PackageSpec::Npm { .. } => FetcherKind::Npm,
        PackageSpec::Dir { .. } => FetcherKind::Dir,
        PackageSpec::Git { .. } => FetcherKind::Git,
    }
}

/// The name the registry fetcher asks for: that of a registry or alias
/// specifier.
pub fn npm_name(spec: &PackageSpec) -> (res: &String)
    requires
        spec is Npm || spec is Alias,
    ensures
        spec matches PackageSpec::Npm { name, .. } ==> res == name,
        spec matches PackageSpec::Alias { name, .. } ==> res == name,
{
    match spec {
        PackageSpec::Npm { name, .. } => name,
        PackageSpec::Alias { name, .. } => name,
        PackageSpec::Dir { path } => path,
        PackageSpec::Git { info } => info,
    }
}

/// The package of a project's own manifest, named after the manifest, or
/// `dummy`.
pub fn dummy_from_manifest(name: Option<String>) -> (res: Package)
    ensures
        name matches Some(n) ==> res.name@ == n@,
        name is None ==> res.name@ == "dummy"@,
        res.from@ == (SpecView::Dir { path: "."@ }),
        res.resolved matches PackageResolution::Dir { name: rn, path } && rn@ == res.name@ && path@
            == "."@,
{
    let n = match name {
        Some(n) => n,
        None => String::from_str("dummy"),
    };
    let n2 = n.clone();
    Package {
        name: n,
        from: PackageSpec::Dir { path: String::from_str(".") },
        resolved: PackageResolution::Dir { name: n2, path: String::from_str(".") },
    }
}

/// Fetches packages that live in local directories.
#[derive(Debug)]
pub struct DirFetcher;

impl DirFetcher {
    pub fn new() -> (res: DirFetcher) {
        DirFetcher
    }
}

/// The `name` and `version` of a directory's `package.json`.
#[derive(Debug)]
pub struct Manifest {
    pub name: Option<String>,
    pub version: Option<Version>,
}

/// The message of the error for a directory package without a name.
pub open spec fn no_name_message() -> Seq<char> {
    "Failed to find a valid name. Make sure the package.json has a `name` field, or that it exists inside a named directory."@
}

/// The metadata of a directory package: named after its manifest or else
/// its directory, versioned after its manifest or else `0.0.0`, with no
/// registry fields.
pub open spec fn dir_metadata(name: Option<Seq<char>>, version: Option<VersionView>, dir_name: Option<Seq<char>>) -> Option<MetadataView> {
    let n = match name {
        Some(n) => Some(n),
        None => dir_name,
    };
    match n {
        Some(n) => Some(
            MetadataView {
                name: Some(n),
                version: Some(
                    match version {
                        Some(v) => v,
                        None => zero_version(),
                    },
                ),
                tarball: None,
                integrity: None,
                shasum: None,
                deprecated: None,
                file_count: None,
            },
        ),
        None => None,
    }
}

impl Manifest {
    /// The metadata of the directory package with this manifest
    ///; `dir_name` is the directory's file name.
    pub fn into_metadata(self, dir_name: Option<String>) -> (res: Result<VersionMetadata, NassunError>)
        ensures
            dir_metadata(opt_string_view(self.name), opt_version_view(self.version), opt_string_view(dir_name))
                matches Some(m) ==> res matches Ok(r) && r@ == m,
            dir_metadata(opt_string_view(self.name), opt_version_view(self.version), opt_string_view(dir_name))
                is None ==> (res matches Err(NassunError::MiscError(msg)) && msg@ == no_name_message()),
    {
        let name = match self.name {
            Some(n) => n,
            None => match dir_name {
                Some(d) => d,
                None => {
                    return Err(NassunError::MiscError(String::from_str(
                        "Failed to find a valid name. Make sure the package.json has a `name` field, or that it exists inside a named directory.",
                    )));
                },
            },
        };
        let version = match self.version {
            Some(v) => v,
            None => {
                let v = Version::new(0, 0, 0);
                assert(v@.pre_release =~= zero_version().pre_release);
                assert(v@.build =~= zero_version().build);
                v
            },
        };
        Ok(
            VersionMetadata {
                name: Some(name),
                version: Some(version),
                tarball: None,
                integrity: None,
                shasum: None,
                deprecated: None,
                file_count: None,
            },
        )
    }

    /// The packument of the directory package with this manifest
    ///: its one version, tagged `latest`.
    pub fn into_packument(self, dir_name: Option<String>) -> (res: Result<Packument, NassunError>)
        ensures
            dir_metadata(opt_string_view(self.name), opt_version_view(self.version), opt_string_view(dir_name))
                matches Some(m) ==> res matches Ok(p) && p@.wf() && p@.versions == seq![(m.version.unwrap(), m)]
                && p@.tags == seq![("latest"@, m.version.unwrap())],
            dir_metadata(opt_string_view(self.name), opt_version_view(self.version), opt_string_view(dir_name))
                is None ==> (res matches Err(NassunError::MiscError(msg)) && msg@ == no_name_message()),
    {
        let meta = match self.into_metadata(dir_name) {
            Ok(m) => m,
            Err(e) => {
                return Err(e);
            },
        };
        let version = match &meta.version {
            Some(v) => v.clone(),
            None => Version::new(0, 0, 0),
        };
        let tag_version = version.clone();
        let mut versions: Vec<(Version, VersionMetadata)> = Vec::new();
        versions.push((version, meta));
        let mut tags: Vec<(String, Version)> = Vec::new();
        tags.push((String::from_str("latest"), tag_version));
        let p = Packument { versions, tags };
        assert(p@.versions =~= seq![(p@.versions[0].0, p@.versions[0].1)]);
        Ok(p)
    }
}

// ---------------------------------------------------------------------
// Packing a directory
// ---------------------------------------------------------------------

/// The patterns that are always ignored when a directory is packed.
pub open spec fn default_white_list() -> Seq<Seq<char>> {
    seq![
        "!.npmignore"@,
        "!.gitignore"@,
        "!**/.git"@,
        "!**/.svn"@,
        "!**/.hg"@,
        "!**/CVS"@,
        "!**/.git/**"@,
        "!**/.svn/**"@,
        "!**/.hg/**"@,
        "!**/CVS/**"@,
        "!/.lock-wscript"@,
        "!/.wafpickle-*"@,
        "!/build/config.gypi"@,
        "!npm-debug.log"@,
        "!**/.npmrc"@,
        "!.*.swp"@,
        "!.DS_Store"@,
        "!**/.DS_Store/**"@,
        "!._*"@,
        "!**/._*/**"@,
        "!*.orig"@,
        "!/archived-packages/**"@
    ]
}

/// The patterns added after everything the manifest names: the manifest is
/// always packed; version control, `node_modules` and lockfiles never are.
pub open spec fn closing_patterns() -> Seq<Seq<char>> {
    seq![
        "/package.json"@,
        "!/.git"@,
        "!/node_modules"@,
        "!/package-lock.json"@,
        "!/yarn.lock"@,
        "!/pnpm-lock.yaml"@,
        "!/package-lock.kdl"@
    ]
}

/// An entry of the manifest's `files` as a pattern: a leading `/` or `./`
/// is dropped, else a trailing `/*`.
pub open spec fn pack_entry(f: Seq<char>) -> Seq<char> {
    if f.len() > 0 && f[0] == '/' {
        f.drop_first()
    } else if f.len() >= 2 && f[0] == '.' && f[1] == '/' {
        f.skip(2)
    } else if f.len() >= 2 && f[f.len() - 2] == '/' && f[f.len() - 1] == '*' {
        f.take(f.len() - 2)
    } else {
        f
    }
}

/// `f` without its leading run of `!` (what replacing `^!+` by nothing
/// leaves).
pub open spec fn without_bangs(f: Seq<char>) -> Seq<char>
    decreases f.len(),
{
    if f.len() > 0 && f[0] == '!' {
        without_bangs(f.drop_first())
    } else {
        f
    }
}

/// An entry of the manifest's `files` as a pattern (see [`pack_entry`]),
/// and the path, relative to the package, that is checked for being a
/// directory (the pattern without leading `!`s).
pub fn normalize_pack_entry(file: &str) -> (res: (String, String))
    ensures
        res.0@ == pack_entry(file@),
        res.1@ == without_bangs(pack_entry(file@)),
{
    let n = file.unicode_len();
    let entry: &str = if n > 0 && file.get_char(0) == '/' {
        let r = file.substring_char(1, n);
        assert(r@ =~= file@.drop_first());
        r
    } else if n >= 2 && file.get_char(0) == '.' && file.get_char(1) == '/' {
        let r = file.substring_char(2, n);
        assert(r@ =~= file@.skip(2));
        r
    } else if n >= 2 && file.get_char(n - 2) == '/' && file.get_char(n - 1) == '*' {
        let r = file.substring_char(0, n - 2);
        assert(r@ =~= file@.take(n - 2));
        r
    } else {
        file
    };
    let m = entry.unicode_len();
    let mut k: usize = 0;
    assert(entry@.skip(0) =~= entry@);
    while k < m && entry.get_char(k) == '!'
        invariant
            k <= m,
            m == entry@.len(),
            without_bangs(entry@) == without_bangs(entry@.skip(k as int)),
        decreases m - k,
    {
        assert(entry@.skip(k as int).drop_first() =~= entry@.skip(k + 1));
        k = k + 1;
    }
    let rest = entry.substring_char(k, m);
    proof {
        assert(rest@ =~= entry@.skip(k as int));
        if k < m {
            assert(rest@[0] == entry@[k as int]);
        }
    }
    (entry.to_string(), rest.to_string())
}

/// The patterns one `files` entry contributes: itself, and for a directory
/// everything below it.
pub open spec fn entry_patterns(e: Seq<char>, is_dir: bool) -> Seq<Seq<char>> {
    if is_dir {
        seq![e, e + "/**"@]
    } else {
        seq![e]
    }
}

/// The patterns of all `files` entries, in order.
pub open spec fn files_patterns(files: Seq<(Seq<char>, bool)>) -> Seq<Seq<char>>
    decreases files.len(),
{
    if files.len() == 0 {
        Seq::empty()
    } else {
        files_patterns(files.drop_last()) + entry_patterns(files.last().0, files.last().1)
    }
}

pub open spec fn opt_seq(o: Option<Seq<char>>) -> Seq<Seq<char>> {
    match o {
        Some(t) => seq![t],
        None => Seq::empty(),
    }
}

/// The override patterns for packing a directory whose manifest is known
/// in full: the default ignores, the `files` entries (each with whether it
/// names a directory), `browser`, `main`, the executables' paths, then
/// [`closing_patterns`].
pub open spec fn pack_patterns(
    files: Seq<(Seq<char>, bool)>,
    browser: Option<Seq<char>>,
    main: Option<Seq<char>>,
    bins: Seq<Seq<char>>,
) -> Seq<Seq<char>> {
    default_white_list() + files_patterns(files) + opt_seq(browser) + opt_seq(main) + bins + closing_patterns()
}

pub open spec fn entries_seq(f: Seq<(String, bool)>) -> Seq<(Seq<char>, bool)> {
    f.map_values(|e: (String, bool)| (e.0@, e.1))
}

/// The override patterns for packing a directory (the overrides built in
/// : `files` holds the normalized
/// entries of the manifest's `files` (see [`normalize_pack_entry`]), each
/// with whether it names a directory.
pub fn pack_overrides(
    files: &Vec<(String, bool)>,
    browser: &Option<String>,
    main: &Option<String>,
    bins: &Vec<String>,
) -> (res: Vec<String>)
    ensures
        crate::graph::strings_view(res@) == pack_patterns(
            entries_seq(files@),
            opt_string_view(*browser),
            opt_string_view(*main),
            crate::graph::strings_view(bins@),
        ),
{
    let mut out: Vec<String> = Vec::new();
    out.push(String::from_str("!.npmignore"));
    out.push(String::from_str("!.gitignore"));
    out.push(String::from_str("!**/.git"));
    out.push(String::from_str("!**/.svn"));
    out.push(String::from_str("!**/.hg"));
    out.push(String::from_str("!**/CVS"));
    out.push(String::from_str("!**/.git/**"));
    out.push(String::from_str("!**/.svn/**"));
    out.push(String::from_str("!**/.hg/**"));
    out.push(String::from_str("!**/CVS/**"));
    out.push(String::from_str("!/.lock-wscript"));
    out.push(String::from_str("!/.wafpickle-*"));
    out.push(String::from_str("!/build/config.gypi"));
    out.push(String::from_str("!npm-debug.log"));
    out.push(String::from_str("!**/.npmrc"));
    out.push(String::from_str("!.*.swp"));
    out.push(String::from_str("!.DS_Store"));
    out.push(String::from_str("!**/.DS_Store/**"));
    out.push(String::from_str("!._*"));
    out.push(String::from_str("!**/._*/**"));
    out.push(String::from_str("!*.orig"));
    out.push(String::from_str("!/archived-packages/**"));
    assert(crate::graph::strings_view(out@) =~= default_white_list());
    let ghost fs = entries_seq(files@);
    let mut k: usize = 0;
    while k < files.len()
        invariant
            k <= files.len(),
            fs == entries_seq(files@),
            crate::graph::strings_view(out@) == default_white_list() + files_patterns(fs.take(k as int)),
        decreases files.len() - k,
    {
        let ghost before = crate::graph::strings_view(out@);
        let e = &files[k];
        out.push(e.0.clone());
        if e.1 {
            let mut all = e.0.clone();
            all.append("/**");
            out.push(all);
        }
        proof {
            assert(fs[k as int] == (e.0@, e.1));
            assert(fs.take(k + 1).drop_last() =~= fs.take(k as int));
            assert(crate::graph::strings_view(out@) =~= before + entry_patterns(e.0@, e.1));
        }
        k = k + 1;
    }
    assert(fs.take(k as int) =~= fs);
    let ghost mid = crate::graph::strings_view(out@);
    match browser {
        Some(b) => out.push(b.clone()),
        None => {},
    }
    match main {
        Some(m) => out.push(m.clone()),
        None => {},
    }
    assert(crate::graph::strings_view(out@) =~= mid + opt_seq(opt_string_view(*browser)) + opt_seq(opt_string_view(*main)));
    let ghost mid2 = crate::graph::strings_view(out@);
    let mut j: usize = 0;
    while j < bins.len()
        invariant
            j <= bins.len(),
            crate::graph::strings_view(out@) == mid2 + crate::graph::strings_view(bins@).take(j as int),
        decreases bins.len() - j,
    {
        let ghost before = crate::graph::strings_view(out@);
        out.push(bins[j].clone());
        assert(crate::graph::strings_view(bins@).take(j + 1) =~= crate::graph::strings_view(bins@).take(j as int).push(bins@[j as int]@));
        assert(crate::graph::strings_view(out@) =~= before.push(bins@[j as int]@));
        j = j + 1;
    }
    assert(crate::graph::strings_view(bins@).take(j as int) =~= crate::graph::strings_view(bins@));
    let ghost mid3 = crate::graph::strings_view(out@);
    out.push(String::from_str("/package.json"));
    out.push(String::from_str("!/.git"));
    out.push(String::from_str("!/node_modules"));
    out.push(String::from_str("!/package-lock.json"));
    out.push(String::from_str("!/yarn.lock"));
    out.push(String::from_str("!/pnpm-lock.yaml"));
    out.push(String::from_str("!/package-lock.kdl"));
    assert(crate::graph::strings_view(out@) =~= mid3 + closing_patterns());
    out
}

/// The ignore file that decides what is packed when the manifest names no
/// `files`: `.npmignore` where the directory has one, else `.gitignore`.
pub fn custom_ignore_file(npmignore_exists: bool) -> (res: String)
    ensures
        npmignore_exists ==> res@ == ".npmignore"@,
        !npmignore_exists ==> res@ == ".gitignore"@,
{
    if npmignore_exists {
        String::from_str(".npmignore")
    } else {
        String::from_str(".gitignore")
    }
}

/// The name a directory fetcher gives a specifier
/// : an alias's name, or for a
/// directory what its manifest and path say (`name_of_dir`, computed by the
/// caller from the directory).
pub fn dir_fetcher_name(spec: &PackageSpec, name_of_dir: Result<String, NassunError>) -> (res: Result<String, NassunError>)
    requires
        spec is Alias || spec is Dir,
    ensures
        spec matches PackageSpec::Alias { name, .. } ==> res matches Ok(n) && n@ == name@,
        spec is Dir ==> res == name_of_dir,
{
    match spec {
        PackageSpec::Alias { name, .. } => Ok(name.clone()),
        _ => name_of_dir,
    }
}

} // verus!

//! Decisions made while unpacking a package tarball into `node_modules`:
//! where each entry goes, with which permissions, how files are brought out
//! of the content cache, and what the cache's index for the tarball records.

use vstd::prelude::*;

use crate::error::joined_with;
use crate::graph::strings_view;
use crate::lockfile::join_with;


verus! {

/// How files are placed into `node_modules` from the content cache.
#[derive(Debug, Clone, Copy, PartialEq, Eq, Hash)]
pub enum ExtractMode {
    /// Automatically decide whether to Copy or Reflink, based on fallbacks. Will never hardlink.
    Auto,
    /// Copy contents from the cache in their entirety.
    Copy,
    /// Reflink contents from the cache instead of doing full copies.
    Reflink,
    /// Try to hard link contents from the cache. Fall back to reflink, then copy if that fails.
    AutoHardlink,
    /// Hard link contents from the cache instead of doing full copies.
    Hardlink,
}

impl ExtractMode {
    /// Whether this mode produces independent copies of the cached files
    /// (as opposed to hard links into the cache).
    pub open spec fn spec_is_copy(self) -> bool {
        self is Copy || self is Auto || self is Reflink
    }

    pub fn is_copy(&self) -> (res: bool)
        ensures
            res == self.spec_is_copy(),
    {
        match self {
            ExtractMode::Copy | ExtractMode::Auto | ExtractMode::Reflink => true,
            _ => false,
        }
    }
}

/// The default mode for an extracted entry: `ExtractMode::Auto`.
pub fn default_extract_mode() -> (res: ExtractMode)
    ensures
        res == ExtractMode::Auto,
{
    ExtractMode::Auto
}

/// One way of bringing a file out of the content cache.
#[derive(Debug, Clone, Copy, PartialEq, Eq)]
pub enum LinkStrategy {
    Reflink,
    Copy,
    HardLink,
}

/// The strategies to try, in order, for a mode: each is tried when the ones
/// before it failed, and the last failure is reported. Hard links are
/// retried a few times before falling back.
pub open spec fn spec_strategies(mode: ExtractMode) -> Seq<LinkStrategy> {
    match mode {
        ExtractMode::Auto => seq![LinkStrategy::Reflink, LinkStrategy::Copy],
        ExtractMode::AutoHardlink => seq![
            LinkStrategy::HardLink,
            LinkStrategy::Reflink,
            LinkStrategy::Copy,
        ],
        ExtractMode::Hardlink => seq![LinkStrategy::HardLink, LinkStrategy::Reflink, LinkStrategy::Copy],
        ExtractMode::Copy => seq![LinkStrategy::Copy],
        ExtractMode::Reflink => seq![LinkStrategy::Reflink],
    }
}

/// The strategies to try, in order, to bring a file out of the cache (see
/// [`spec_strategies`]).
pub fn extract_strategies(mode: ExtractMode) -> (res: Vec<LinkStrategy>)
    ensures
        res@ == spec_strategies(mode),
{
    let mut v: Vec<LinkStrategy> = Vec::new();
    match mode {
        ExtractMode::Auto => {
            v.push(LinkStrategy::Reflink);
            v.push(LinkStrategy::Copy);
        },
        ExtractMode::AutoHardlink | ExtractMode::Hardlink => {
            v.push(LinkStrategy::HardLink);
            v.push(LinkStrategy::Reflink);
            v.push(LinkStrategy::Copy);
        },
        ExtractMode::Copy => {
            v.push(LinkStrategy::Copy);
        },
        ExtractMode::Reflink => {
            v.push(LinkStrategy::Reflink);
        },
    }
    assert(v@ =~= spec_strategies(mode));
    v
}

/// The file mode a file with the default permissions (`0o644`) keeps; any
/// other mode is set on the extracted file.
pub fn needs_chmod(mode: u32) -> (res: bool)
    ensures
        res == (mode != 0o644),
{
    mode != 0o644
}

/// The permissions of an extracted entry: its header's mode, or `0o644`
/// where it has none, always readable and writable by the owner.
pub fn entry_mode(header_mode: Option<u32>) -> (res: u32)
    ensures
        res == (match header_mode {
            Some(m) => m,
            None => 0o644u32,
        }) | 0o600u32,
{
    let m = match header_mode {
        Some(m) => m,
        None => 0o644u32,
    };
    m | 0o600u32
}

/// The permissions of an executable: `mode` with every execute bit set.
pub fn bin_mode(mode: u32) -> (res: u32)
    ensures
        res == mode | 0o111u32,
{
    mode | 0o111u32
}

// ---------------------------------------------------------------------
// Paths of tarball entries
// ---------------------------------------------------------------------

/// The components of a path as `std::path::Path::components` yields them,
/// each written out as text.
pub uninterp spec fn path_components(path: Seq<char>) -> Seq<Seq<char>>;

/// Splits a path into its components (`std::path::Path::components`).
///
/// Trusted: the result is the named sequence of components of the text.
#[verifier::external_body]
pub(crate) fn components_of(path: &str) -> (res: Vec<String>)
    ensures
        res@.map_values(|s: String| s@) == path_components(path@),
{
    std::path::Path::new(path).components().map(|c| c.as_os_str().to_string_lossy().into_owned()).collect()
}

/// The path below a tarball entry's top-level directory: its components
/// after the first, or `None` for a path with no components.
pub fn strip_one(path: &str) -> (res: Option<Vec<String>>)
    ensures
        match res {
            Some(rest) => path_components(path@).len() > 0 && strings_view(rest@) == path_components(
                path@,
            ).drop_first(),
            None => path_components(path@).len() == 0,
        },
{
    let comps = components_of(path);
    if comps.len() == 0 {
        return None;
    }
    let mut rest: Vec<String> = Vec::new();
    let mut i: usize = 1;
    while i < comps.len()
        invariant
            1 <= i <= comps.len(),
            rest@.len() == i - 1,
            forall|j: int| 0 <= j < i - 1 ==> (#[trigger] rest@[j])@ == comps@[j + 1]@,
        decreases comps.len() - i,
    {
        rest.push(comps[i].clone());
        i = i + 1;
    }
    assert(strings_view(rest@) =~= strings_view(comps@).drop_first());
    Some(rest)
}

/// The path an entry is extracted to, below the target directory: the
/// entry's path without its top-level directory, or the whole path where it
/// has no components.
pub fn entry_subpath(path: &str) -> (res: Vec<String>)
    ensures
        path_components(path@).len() > 0 ==> strings_view(res@) == path_components(
            path@,
        ).drop_first(),
        path_components(path@).len() == 0 ==> strings_view(res@) == path_components(path@),
{
    match strip_one(path) {
        Some(rest) => rest,
        None => {
            let all = components_of(path);
            all
        },
    }
}

/// Joins path components with `/`.
pub fn join_slash(parts: &Vec<String>) -> (res: String)
    ensures
        res@ == joined_with(strings_view(parts@), "/"@),
{
    join_with(parts, "/")
}

/// The content-cache key under which a tarball's index is stored.
pub fn tarball_key(integrity: &str) -> (res: String)
    ensures
        res@ == "nassun::package::"@ + integrity@,
{
    let mut key = String::from_str("nassun::package::");
    key.append(integrity);
    key
}

/// Names the integrity that `ssri` computes for `bytes` with its xxh3
/// algorithm, as it writes it out.
pub uninterp spec fn xxh3_integrity(bytes: Seq<u8>) -> Seq<char>;

/// Hashes bytes with `ssri::IntegrityOpts` set to `Algorithm::Xxh3`.
///
/// Trusted: the result is the named integrity [`xxh3_integrity`] of the
/// bytes, which `ssri` computes from them alone.
#[verifier::external_body]
fn xxh3_integrity_of(bytes: &[u8]) -> (sri: String)
    ensures
        sri@ == xxh3_integrity(bytes@),
{
    ssri::IntegrityOpts::new().algorithm(ssri::Algorithm::Xxh3).chain(bytes).result().to_string()
}

/// The integrity an extraction reports for a tarball, and the cache key
/// under which the tarball's index is stored: the package's declared
/// integrity where it has one, else the xxh3 integrity of the tarball's
/// bytes (all of them, trailing data included).
pub fn extraction_integrity(declared: Option<String>, tarball: &[u8]) -> (res: (String, String))
    ensures
        res.0@ == match declared {
            Some(d) => d@,
            None => xxh3_integrity(tarball@),
        },
        res.1@ == "nassun::package::"@ + res.0@,
{
    let sri = match declared {
        Some(d) => d,
        None => xxh3_integrity_of(tarball),
    };
    let key = tarball_key(sri.as_str());
    (sri, key)
}

// ---------------------------------------------------------------------
// The tarball index
// ---------------------------------------------------------------------

/// What the content cache records about an extracted tarball: whether its
/// files must be copied (the package has install scripts), which files are
/// executables, and each file's content hash and permissions by subpath.
#[derive(Debug)]
pub struct TarballIndex {
    pub should_copy: bool,
    pub bin_paths: Vec<String>,
    pub files: Vec<(String, String, u32)>,
}

/// The mathematical value of a [`TarballIndex`].
pub struct IndexView {
    pub should_copy: bool,
    pub bin_paths: Seq<Seq<char>>,
    pub files: Seq<(Seq<char>, Seq<char>, u32)>,
}

impl View for TarballIndex {
    type V = IndexView;

    open spec fn view(&self) -> IndexView {
        IndexView {
            should_copy: self.should_copy,
            bin_paths: strings_view(self.bin_paths@),
            files: self.files@.map_values(|f: (String, String, u32)| (f.0@, f.1@, f.2)),
        }
    }
}

/// Position of the file recorded under `path`.
pub open spec fn file_pos(files: Seq<(Seq<char>, Seq<char>, u32)>, path: Seq<char>) -> Option<int> {
    if exists|k: int| 0 <= k < files.len() && #[trigger] files[k].0 == path {
        Some(choose|k: int| 0 <= k < files.len() && #[trigger] files[k].0 == path)
    } else {
        None
    }
}

impl IndexView {
    /// No path is recorded twice.
    pub open spec fn wf(self) -> bool {
        forall|a: int, b: int|
            0 <= a < self.files.len() && 0 <= b < self.files.len() && a != b ==> #[trigger] self.files[a].0
                != #[trigger] self.files[b].0
    }
}

/// The install lifecycle scripts whose presence forces full copies.
pub open spec fn is_install_script(name: Seq<char>) -> bool {
    name == "preinstall"@ || name == "install"@ || name == "postinstall"@
}

impl TarballIndex {
    /// An index with nothing recorded.
    pub fn new() -> (res: TarballIndex)
        ensures
            res@.wf(),
            !res@.should_copy,
            res@.bin_paths.len() == 0,
            res@.files.len() == 0,
    {
        let res = TarballIndex { should_copy: false, bin_paths: Vec::new(), files: Vec::new() };
        assert(res@.bin_paths =~= Seq::<Seq<char>>::empty());
        assert(res@.files =~= Seq::<(Seq<char>, Seq<char>, u32)>::empty());
        res
    }

    /// Records a file's content hash and permissions under its subpath,
    /// replacing an earlier record of the same path.
    pub fn record_file(&mut self, path: String, sri: String, mode: u32)
        requires
            old(self)@.wf(),
        ensures
            final(self)@.wf(),
            final(self)@.should_copy == old(self)@.should_copy,
            final(self)@.bin_paths == old(self)@.bin_paths,
            match file_pos(old(self)@.files, path@) {
                Some(k) => final(self)@.files == old(self)@.files.update(k, (path@, sri@, mode)),
                None => final(self)@.files == old(self)@.files.push((path@, sri@, mode)),
            },
    {
        let ghost before = self@.files;
        let mut i: usize = 0;
        while i < self.files.len()
            invariant
                i <= self.files.len(),
                self@ == old(self)@,
                before == self@.files,
                self@.wf(),
                forall|j: int| 0 <= j < i ==> #[trigger] before[j].0 != path@,
            decreases self.files.len() - i,
        {
            assert(before[i as int].0 == self.files@[i as int].0@);
            if self.files[i].0 == path {
                let ghost pv = path@;
                let ghost sv = sri@;
                self.files.set(i, (path, sri, mode));
                proof {
                    let k = choose|k: int| 0 <= k < before.len() && #[trigger] before[k].0 == pv;
                    assert(before[k].0 == before[i as int].0);
                    assert(k == i as int);
                    assert(self@.files =~= before.update(i as int, (pv, sv, mode)));
                    assert forall|a: int, b: int|
                        0 <= a < self@.files.len() && 0 <= b < self@.files.len() && a != b
                            implies #[trigger] self@.files[a].0 != #[trigger] self@.files[b].0 by {
                        assert(before[a].0 != before[b].0);
                    }
                    assert(self@.bin_paths == old(self)@.bin_paths);
                }
                return;
            }
            i = i + 1;
        }
        let ghost pv = path@;
        let ghost sv = sri@;
        self.files.push((path, sri, mode));
        proof {
            assert(self@.files =~= before.push((pv, sv, mode)));
            assert forall|a: int, b: int|
                0 <= a < self@.files.len() && 0 <= b < self@.files.len() && a != b
                    implies #[trigger] self@.files[a].0 != #[trigger] self@.files[b].0 by {
                if a == before.len() {
                    assert(before[b].0 != pv);
                } else if b == before.len() {
                    assert(before[a].0 != pv);
                } else {
                    assert(before[a].0 != before[b].0);
                }
            }
            assert(self@.bin_paths == old(self)@.bin_paths);
        }
    }

    /// Records an executable's subpath.
    pub fn record_bin(&mut self, path: String)
        ensures
            final(self)@.should_copy == old(self)@.should_copy,
            final(self)@.files == old(self)@.files,
            final(self)@.bin_paths == old(self)@.bin_paths.push(path@),
    {
        let ghost pv = path@;
        self.bin_paths.push(path);
        assert(self@.bin_paths =~= old(self)@.bin_paths.push(pv));
    }

    /// Whether `path` is recorded as an executable.
    pub fn is_bin(&self, path: &String) -> (res: bool)
        ensures
            res == self@.bin_paths.contains(path@),
    {
        let mut i: usize = 0;
        while i < self.bin_paths.len()
            invariant
                i <= self.bin_paths.len(),
                forall|j: int| 0 <= j < i ==> self@.bin_paths[j] != path@,
            decreases self.bin_paths.len() - i,
        {
            if self.bin_paths[i] == *path {
                assert(self@.bin_paths[i as int] == path@);
                return true;
            }
            i = i + 1;
        }
        false
    }

    /// The permissions a cached file gets when it is extracted again:
    /// executables get every execute bit.
    pub fn cached_file_mode(&self, path: &String, mode: u32) -> (res: u32)
        ensures
            res == if self@.bin_paths.contains(path@) {
                mode | 0o111u32
            } else {
                mode
            },
    {
        if self.is_bin(path) {
            bin_mode(mode)
        } else {
            mode
        }
    }
}

/// The mode to extract a cached tarball with: where the package must be
/// copied and the requested mode would link, files are copied instead.
pub fn cache_extract_mode(should_copy: bool, requested: ExtractMode) -> (res: ExtractMode)
    ensures
        res == if should_copy && !requested.spec_is_copy() {
            ExtractMode::Copy
        } else {
            requested
        },
{
    if should_copy && !requested.is_copy() {
        ExtractMode::Copy
    } else {
        requested
    }
}

/// Whether a manifest's script names include an install lifecycle script.
pub fn has_install_script(script_names: &Vec<String>) -> (res: bool)
    ensures
        res == exists|i: int| 0 <= i < script_names@.len() && is_install_script(
            #[trigger] script_names@[i]@,
        ),
{
    let mut i: usize = 0;
    while i < script_names.len()
        invariant
            i <= script_names.len(),
            forall|j: int| 0 <= j < i ==> !is_install_script(#[trigger] script_names@[j]@),
        decreases script_names.len() - i,
    {
        let pre = String::from_str("preinstall");
        let ins = String::from_str("install");
        let post = String::from_str("postinstall");
        if script_names[i] == pre || script_names[i] == ins || script_names[i] == post {
            assert(is_install_script(script_names@[i as int]@));
            return true;
        }
        i = i + 1;
    }
    false
}

/// The state of extracting one tarball with a content cache: the mode files
/// are currently extracted with, and the index being built.
#[derive(Debug)]
pub struct Extraction {
    pub mode: ExtractMode,
    pub index: TarballIndex,
}

impl Extraction {
    /// The start of an extraction in `mode`.
    pub fn new(mode: ExtractMode) -> (res: Extraction)
        ensures
            res.mode == mode,
            res.index@.wf(),
            !res.index@.should_copy,
            res.index@.files.len() == 0,
            res.index@.bin_paths.len() == 0,
    {
        Extraction { mode, index: TarballIndex::new() }
    }

    /// The package's `package.json` was extracted, and whether it declares
    /// an install script is known. Where it does, the package must be
    /// copied: the index says so, and where the current mode would link,
    /// extraction switches to `Auto` and every file extracted so far is
    /// returned, to be extracted again (with its recorded hash and mode).
    pub fn manifest_seen(&mut self, has_install_scripts: bool) -> (res: Vec<(String, String, u32)>)
        requires
            old(self).index@.wf(),
        ensures
            final(self).index@.wf(),
            final(self).index@.files == old(self).index@.files,
            final(self).index@.bin_paths == old(self).index@.bin_paths,
            final(self).index@.should_copy == (old(self).index@.should_copy || has_install_scripts),
            final(self).mode == if has_install_scripts && !old(self).mode.spec_is_copy() {
                ExtractMode::Auto
            } else {
                old(self).mode
            },
            res@.map_values(|f: (String, String, u32)| (f.0@, f.1@, f.2)) == if has_install_scripts
                && !old(self).mode.spec_is_copy() {
                old(self).index@.files
            } else {
                Seq::empty()
            },
    {
        let mut redo: Vec<(String, String, u32)> = Vec::new();
        if has_install_scripts {
            self.index.should_copy = true;
            if !self.mode.is_copy() {
                self.mode = ExtractMode::Auto;
                let mut i: usize = 0;
                while i < self.index.files.len()
                    invariant
                        i <= self.index.files.len(),
                        self.index.files == old(self).index.files,
                        old(self).index@.wf(),
                        redo@.len() == i,
                        forall|j: int|
                            0 <= j < i ==> (#[trigger] redo@[j]).0@ == self.index.files@[j].0@
                                && redo@[j].1@ == self.index.files@[j].1@ && redo@[j].2
                                == self.index.files@[j].2,
                    decreases self.index.files.len() - i,
                {
                    let f = &self.index.files[i];
                    redo.push((f.0.clone(), f.1.clone(), f.2));
                    i = i + 1;
                }
                assert(redo@.map_values(|f: (String, String, u32)| (f.0@, f.1@, f.2)) =~= self.index@.files);
                assert(self.index@.files == old(self).index@.files);
                return redo;
            }
        }
        assert(redo@.map_values(|f: (String, String, u32)| (f.0@, f.1@, f.2)) =~= Seq::<(Seq<char>, Seq<char>, u32)>::empty());
        assert(self.index.files == old(self).index.files);
        assert(self.index@.files == old(self).index@.files);
        redo
    }
}

// ---------------------------------------------------------------------
// Where a package's files come from
// ---------------------------------------------------------------------

/// Where the files of a package being extracted come from.
#[derive(Debug, Clone, Copy, PartialEq, Eq)]
pub enum ExtractSource {
    /// The content cache, which has the tarball's index.
    Cache,
    /// The tarball, checked against the package's integrity.
    CheckedTarball,
    /// The tarball, unchecked: the package declares no integrity.
    UncheckedTarball,
}

/// Where a package's files are extracted from:
/// from the cache when the package's integrity is known, there is a cache,
/// and the cache indexes that tarball; otherwise from the tarball, checked
/// when the integrity is known.
pub fn extract_source(has_integrity: bool, has_cache: bool, indexed: bool) -> (res: ExtractSource)
    ensures
        res == if !has_integrity {
            ExtractSource::UncheckedTarball
        } else if has_cache && indexed {
            ExtractSource::Cache
        } else {
            ExtractSource::CheckedTarball
        },
{
    if !has_integrity {
        ExtractSource::UncheckedTarball
    } else if has_cache && indexed {
        ExtractSource::Cache
    } else {
        ExtractSource::CheckedTarball
    }
}

/// What happens after extracting from the cache failed: where the cache
/// still indexes the tarball, its entries are removed (they are presumed
/// corrupt); then the checked tarball is extracted. Returns whether to
/// remove the entries.
pub fn clean_after_cache_failure(still_indexed: bool) -> (res: (bool, ExtractSource))
    ensures
        res.0 == still_indexed,
        res.1 == ExtractSource::CheckedTarball,
{
    (still_indexed, ExtractSource::CheckedTarball)
}

/// The extraction mode of the hoisted layout:
/// with a cache, reflinks where the filesystem supports them, else copies
/// where copies are preferred, else hard links where supported, else
/// copies; without a cache, hard links with fallbacks.
pub fn hoisted_extract_mode(has_cache: bool, reflinks: bool, prefer_copy: bool, hardlinks: bool) -> (res: ExtractMode)
    ensures
        res == if !has_cache {
            ExtractMode::AutoHardlink
        } else if reflinks {
            ExtractMode::Reflink
        } else if prefer_copy {
            ExtractMode::Copy
        } else if hardlinks {
            ExtractMode::Hardlink
        } else {
            ExtractMode::Copy
        },
{
    if !has_cache {
        ExtractMode::AutoHardlink
    } else if reflinks {
        ExtractMode::Reflink
    } else if prefer_copy {
        ExtractMode::Copy
    } else if hardlinks {
        ExtractMode::Hardlink
    } else {
        ExtractMode::Copy
    }
}

/// Whether the isolated layout copies files:
/// when copies are preferred, or a cache exists on a filesystem with
/// reflinks.
pub fn isolated_prefers_copy(prefer_copy: bool, has_cache: bool, reflinks: bool) -> (res: bool)
    ensures
        res == (prefer_copy || (has_cache && reflinks)),
{
    prefer_copy || (has_cache && reflinks)
}

/// A lifecycle script whose presence, like that of executables, makes an
/// extracted package wait for the rebuild step.
pub open spec fn is_rebuild_script(name: Seq<char>) -> bool {
    is_install_script(name) || name == "prepare"@
}

/// Whether an extracted package is rebuilt: it has a `preinstall`,
/// `install`, `postinstall` or `prepare` script, or executables.
pub fn needs_rebuild(script_names: &Vec<String>, has_bins: bool) -> (res: bool)
    ensures
        res == (has_bins || exists|i: int| 0 <= i < script_names@.len() && is_rebuild_script(
            #[trigger] script_names@[i]@,
        )),
{
    if has_bins {
        return true;
    }
    let mut i: usize = 0;
    while i < script_names.len()
        invariant
            i <= script_names.len(),
            forall|j: int| 0 <= j < i ==> !is_rebuild_script(#[trigger] script_names@[j]@),
        decreases script_names.len() - i,
    {
        let pre = String::from_str("preinstall");
        let ins = String::from_str("install");
        let post = String::from_str("postinstall");
        let prep = String::from_str("prepare");
        if script_names[i] == pre || script_names[i] == ins || script_names[i] == post || script_names[i] == prep {
            return true;
        }
        i = i + 1;
    }
    false
}

} // verus!

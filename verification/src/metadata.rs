//! Registry metadata: the packument (all versions and dist-tags of a
//! package) and the per-version metadata that resolution reads.

use vstd::prelude::*;

use crate::semver::{same_version, Version, VersionView};
use crate::spec::opt_string_view;

verus! {

/// The part of a version's metadata that resolution and installation read.
#[derive(Debug)]
pub struct VersionMetadata {
    /// `name` from the manifest, if it has one.
    pub name: Option<String>,
    /// `version` from the manifest, if it has one.
    pub version: Option<Version>,
    /// `dist.tarball`: where the package's tarball can be fetched.
    pub tarball: Option<String>,
    /// `dist.integrity`: a subresource-integrity string.
    pub integrity: Option<String>,
    /// `dist.shasum`: a legacy hex SHA-1 of the tarball.
    pub shasum: Option<String>,
    /// `deprecated`: a deprecation message, if the version is deprecated.
    pub deprecated: Option<String>,
    /// `dist.fileCount`: the number of files in the tarball, where recorded.
    pub file_count: Option<u64>,
}

/// The mathematical value of [`VersionMetadata`].
pub struct MetadataView {
    pub name: Option<Seq<char>>,
    pub version: Option<VersionView>,
    pub tarball: Option<Seq<char>>,
    pub integrity: Option<Seq<char>>,
    pub shasum: Option<Seq<char>>,
    pub deprecated: Option<Seq<char>>,
    pub file_count: Option<u64>,
}

pub open spec fn opt_version_view(o: Option<Version>) -> Option<VersionView> {
    match o {
        Some(v) => Some(v@),
        None => None,
    }
}

impl View for VersionMetadata {
    type V = MetadataView;

    open spec fn view(&self) -> MetadataView {
        MetadataView {
            name: opt_string_view(self.name),
            version: opt_version_view(self.version),
            tarball: opt_string_view(self.tarball),
            integrity: opt_string_view(self.integrity),
            shasum: opt_string_view(self.shasum),
            deprecated: opt_string_view(self.deprecated),
            file_count: self.file_count,
        }
    }
}

pub fn clone_opt_string(o: &Option<String>) -> (res: Option<String>)
    ensures
        opt_string_view(res) == opt_string_view(*o),
{
    match o {
        Some(s) => Some(s.clone()),
        None => None,
    }
}

pub fn clone_opt_version(o: &Option<Version>) -> (res: Option<Version>)
    ensures
        opt_version_view(res) == opt_version_view(*o),
{
    match o {
        Some(v) => Some(v.clone()),
        None => None,
    }
}

impl Clone for VersionMetadata {
    fn clone(&self) -> (res: Self)
        ensures
            res@ == self@,
    {
        VersionMetadata {
            name: clone_opt_string(&self.name),
            version: clone_opt_version(&self.version),
            tarball: clone_opt_string(&self.tarball),
            integrity: clone_opt_string(&self.integrity),
            shasum: clone_opt_string(&self.shasum),
            deprecated: clone_opt_string(&self.deprecated),
            file_count: self.file_count,
        }
    }
}

/// All versions of a package, with its dist-tags.
///
/// Each version occurs at most once (versions that differ only in build
/// metadata count as the same), and so does each tag; see
/// [`Packument::wf`]. Entries keep the order in which they were inserted.
#[derive(Debug)]
pub struct Packument {
    pub versions: Vec<(Version, VersionMetadata)>,
    pub tags: Vec<(String, Version)>,
}

/// The mathematical value of a [`Packument`].
pub struct PackumentView {
    pub versions: Seq<(VersionView, MetadataView)>,
    pub tags: Seq<(Seq<char>, VersionView)>,
}

impl View for Packument {
    type V = PackumentView;

    open spec fn view(&self) -> PackumentView {
        PackumentView {
            versions: self.versions@.map_values(|e: (Version, VersionMetadata)| (e.0@, e.1@)),
            tags: self.tags@.map_values(|e: (String, Version)| (e.0@, e.1@)),
        }
    }
}

impl PackumentView {
    /// No version and no tag occurs twice.
    pub open spec fn wf(self) -> bool {
        &&& forall|i: int, j: int|
            0 <= i < self.versions.len() && 0 <= j < self.versions.len() && i != j ==> !same_version(
                #[trigger] self.versions[i].0,
                #[trigger] self.versions[j].0,
            )
        &&& forall|i: int, j: int|
            0 <= i < self.tags.len() && 0 <= j < self.tags.len() && i != j ==> #[trigger] self.tags[i].0
                != #[trigger] self.tags[j].0
    }

    /// The versions, in order.
    pub open spec fn version_keys(self) -> Seq<VersionView> {
        self.versions.map_values(|e: (VersionView, MetadataView)| e.0)
    }

    /// Whether `v` is one of the versions.
    pub open spec fn has_version(self, v: VersionView) -> bool {
        exists|k: int| 0 <= k < self.versions.len() && same_version(#[trigger] self.versions[k].0, v)
    }

    /// The metadata of version `v`, if it is present.
    pub open spec fn lookup_version(self, v: VersionView) -> Option<MetadataView> {
        if self.has_version(v) {
            let k = choose|k: int| 0 <= k < self.versions.len() && same_version(#[trigger] self.versions[k].0, v);
            Some(self.versions[k].1)
        } else {
            None
        }
    }

    /// The version that tag `t` points to, if the tag exists.
    pub open spec fn lookup_tag(self, t: Seq<char>) -> Option<VersionView> {
        if exists|k: int| 0 <= k < self.tags.len() && #[trigger] self.tags[k].0 == t {
            let k = choose|k: int| 0 <= k < self.tags.len() && #[trigger] self.tags[k].0 == t;
            Some(self.tags[k].1)
        } else {
            None
        }
    }
}

impl Packument {
    /// A packument with no versions and no tags.
    pub fn new() -> (res: Packument)
        ensures
            res@.versions.len() == 0,
            res@.tags.len() == 0,
            res@.wf(),
    {
        Packument { versions: Vec::new(), tags: Vec::new() }
    }

    /// Position of version `v` among the versions.
    pub fn position_of_version(&self, v: &Version) -> (res: Option<usize>)
        requires
            self@.wf(),
        ensures
            res is None <==> !self@.has_version(v@),
            res matches Some(k) ==> k < self@.versions.len() && same_version(
                self@.versions[k as int].0,
                v@,
            ) && self@.lookup_version(v@) == Some(self@.versions[k as int].1),
    {
        let mut i: usize = 0;
        while i < self.versions.len()
            invariant
                i <= self.versions.len(),
                self@.wf(),
                self@.versions.len() == self.versions.len(),
                forall|j: int| 0 <= j < i ==> !same_version(#[trigger] self@.versions[j].0, v@),
            decreases self.versions.len() - i,
        {
            assert(self@.versions[i as int].0 == self.versions@[i as int].0@);
            if self.versions[i].0.same(v) {
                let ghost k = choose|k: int|
                    0 <= k < self@.versions.len() && same_version(
                        #[trigger] self@.versions[k].0,
                        v@,
                    );
                assert(same_version(self@.versions[k].0, self@.versions[i as int].0));
                assert(k == i as int);
                return Some(i);
            }
            i = i + 1;
        }
        None
    }

    /// The metadata of version `v`, if present.
    pub fn get_version(&self, v: &Version) -> (res: Option<&VersionMetadata>)
        requires
            self@.wf(),
        ensures
            res is None <==> self@.lookup_version(v@) is None,
            res matches Some(m) ==> self@.lookup_version(v@) == Some(m@),
    {
        match self.position_of_version(v) {
            Some(k) => Some(&self.versions[k].1),
            None => None,
        }
    }

    /// The version that tag `t` points to, if present.
    pub fn get_tag(&self, t: &str) -> (res: Option<&Version>)
        requires
            self@.wf(),
        ensures
            res is None <==> self@.lookup_tag(t@) is None,
            res matches Some(v) ==> self@.lookup_tag(t@) == Some(v@),
    {
        let owned: String = t.to_owned();
        let mut i: usize = 0;
        while i < self.tags.len()
            invariant
                i <= self.tags.len(),
                self@.wf(),
                self@.tags.len() == self.tags.len(),
                owned@ == t@,
                forall|j: int| 0 <= j < i ==> #[trigger] self@.tags[j].0 != t@,
            decreases self.tags.len() - i,
        {
            assert(self@.tags[i as int].0 == self.tags@[i as int].0@);
            if self.tags[i].0 == owned {
                let ghost k = choose|k: int| 0 <= k < self@.tags.len() && #[trigger] self@.tags[k].0 == t@;
                assert(self@.tags[k].0 == self@.tags[i as int].0);
                assert(k == i as int);
                return Some(&self.tags[i].1);
            }
            i = i + 1;
        }
        None
    }

    /// Adds version `v` with its metadata; where the version is already
    /// present, its entry is replaced in place.
    pub fn insert_version(&mut self, v: Version, meta: VersionMetadata)
        requires
            old(self)@.wf(),
        ensures
            final(self)@.wf(),
            final(self)@.tags == old(self)@.tags,
            old(self)@.has_version(v@) ==> exists|k: int|
                0 <= k < old(self)@.versions.len() && same_version(old(self)@.versions[k].0, v@)
                    && final(self)@.versions == old(self)@.versions.update(k, (v@, meta@)),
            !old(self)@.has_version(v@) ==> final(self)@.versions == old(self)@.versions.push(
                (v@, meta@),
            ),
    {
        match self.position_of_version(&v) {
            Some(k) => {
                let ghost before = self@.versions;
                self.versions.set(k, (v, meta));
                proof {
                    assert(self@.tags == old(self)@.tags);
                    assert(self@.versions =~= before.update(k as int, (v@, meta@)));
                    assert forall|i: int, j: int|
                        0 <= i < self@.versions.len() && 0 <= j < self@.versions.len() && i != j
                            implies !same_version(
                        #[trigger] self@.versions[i].0,
                        #[trigger] self@.versions[j].0,
                    ) by {
                        if i == k {
                            assert(!same_version(before[k as int].0, before[j].0));
                            assert(self@.versions[j] == before[j]);
                        } else if j == k {
                            assert(!same_version(before[i].0, before[k as int].0));
                            assert(self@.versions[i] == before[i]);
                        } else {
                            assert(self@.versions[i] == before[i]);
                            assert(self@.versions[j] == before[j]);
                        }
                    }
                }
            },
            None => {
                let ghost before = self@.versions;
                let ghost vv = v@;
                self.versions.push((v, meta));
                proof {
                    assert(self@.tags == old(self)@.tags);
                    assert(self@.versions =~= before.push((vv, meta@)));
                    assert forall|i: int, j: int|
                        0 <= i < self@.versions.len() && 0 <= j < self@.versions.len() && i != j
                            implies !same_version(
                        #[trigger] self@.versions[i].0,
                        #[trigger] self@.versions[j].0,
                    ) by {
                        if i == before.len() {
                            assert(!same_version(before[j].0, vv));
                        } else if j == before.len() {
                            assert(!same_version(before[i].0, vv));
                        } else {
                            assert(self@.versions[i] == before[i]);
                            assert(self@.versions[j] == before[j]);
                        }
                    }
                }
            },
        }
    }

    /// Points tag `t` at version `v`, replacing where the tag exists
    ///.
    pub fn insert_tag(&mut self, t: String, v: Version)
        requires
            old(self)@.wf(),
        ensures
            final(self)@.wf(),
            final(self)@.versions == old(self)@.versions,
            final(self)@.lookup_tag(t@) == Some(v@),
            forall|u: Seq<char>| u != t@ ==> final(self)@.lookup_tag(u) == old(self)@.lookup_tag(u),
    {
        let ghost before = self@.tags;
        let mut i: usize = 0;
        while i < self.tags.len()
            invariant
                i <= self.tags.len(),
                self@ == old(self)@,
                old(self)@.wf(),
                self@.tags.len() == self.tags.len(),
                self@.tags == before,
                forall|j: int| 0 <= j < i ==> #[trigger] self@.tags[j].0 != t@,
            decreases self.tags.len() - i,
        {
            assert(self@.tags[i as int].0 == self.tags@[i as int].0@);
            if self.tags[i].0 == t {
                self.tags.set(i, (t, v));
                proof {
                    assert(self@.versions == old(self)@.versions);
                    assert(self@.tags =~= before.update(i as int, (t@, v@)));
                    assert(self@.tags[i as int].0 == t@);
                    assert forall|a: int, b: int|
                        0 <= a < self@.tags.len() && 0 <= b < self@.tags.len() && a != b
                            implies #[trigger] self@.tags[a].0 != #[trigger] self@.tags[b].0 by {
                        assert(before[a].0 != before[b].0);
                    }
                    assert forall|u: Seq<char>| u != t@ implies self@.lookup_tag(u) == old(
                        self,
                    )@.lookup_tag(u) by {
                        if exists|k: int| 0 <= k < before.len() && #[trigger] before[k].0 == u {
                            let k = choose|k: int| 0 <= k < before.len() && #[trigger] before[k].0 == u;
                            assert(self@.tags[k].0 == u);
                        }
                        if exists|k: int| 0 <= k < self@.tags.len() && #[trigger] self@.tags[k].0 == u {
                            let k = choose|k: int| 0 <= k < self@.tags.len() && #[trigger] self@.tags[k].0 == u;
                            assert(before[k].0 == u);
                        }
                    }
                }
                return;
            }
            i = i + 1;
        }
        let ghost tv = t@;
        let ghost vv = v@;
        self.tags.push((t, v));
        proof {
            assert(self@.versions == old(self)@.versions);
            assert(self@.tags =~= before.push((tv, vv)));
            assert(self@.tags[before.len() as int].0 == tv);
            assert forall|a: int, b: int|
                0 <= a < self@.tags.len() && 0 <= b < self@.tags.len() && a != b
                    implies #[trigger] self@.tags[a].0 != #[trigger] self@.tags[b].0 by {
                if a == before.len() {
                    assert(before[b].0 != tv);
                } else if b == before.len() {
                    assert(before[a].0 != tv);
                } else {
                    assert(before[a].0 != before[b].0);
                }
            }
            assert forall|u: Seq<char>| u != t@ implies self@.lookup_tag(u) == old(self)@.lookup_tag(
                u,
            ) by {
                if exists|k: int| 0 <= k < before.len() && #[trigger] before[k].0 == u {
                    let k = choose|k: int| 0 <= k < before.len() && #[trigger] before[k].0 == u;
                    assert(self@.tags[k].0 == u);
                }
                if exists|k: int| 0 <= k < self@.tags.len() && #[trigger] self@.tags[k].0 == u {
                    let k = choose|k: int| 0 <= k < self@.tags.len() && #[trigger] self@.tags[k].0 == u;
                    assert(before[k].0 == u);
                }
            }
        }
    }
}

} // verus!

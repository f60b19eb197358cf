//! Options of a dependency install, and the choices made from them before
//! resolution starts: which lockfile to follow and how `node_modules/` is
//! laid out.

use vstd::prelude::*;

use crate::fetch::NassunOpts;
use crate::lockfile::Lockfile;

verus! {

/// Default number of concurrent fetches and extractions.
pub const DEFAULT_CONCURRENCY: usize = 50;

/// Default number of scripts run at once.
pub const DEFAULT_SCRIPT_CONCURRENCY: usize = 6;

/// How `node_modules/` is laid out.
#[derive(Debug, Clone, Copy, PartialEq, Eq)]
pub enum Layout {
    /// Packages nested under each other, hoisted as high as they can go.
    Hoisted,
    /// Packages in a content store, linked where they are needed.
    Isolated,
}

/// Options for resolving and installing a project's dependencies.
#[derive(Debug)]
pub struct NodeMaintainerOptions {
    pub nassun_opts: NassunOpts,
    pub concurrency: usize,
    pub locked: bool,
    pub kdl_lock: Option<Lockfile>,
    pub npm_lock: Option<Lockfile>,
    pub hoisted: bool,
    pub script_concurrency: usize,
    pub cache: Option<String>,
    pub prefer_copy: bool,
    pub validate: bool,
    pub root: Option<String>,
}

impl NodeMaintainerOptions {
    /// Every option at its default.
    pub fn new() -> (res: NodeMaintainerOptions)
        ensures
            res.nassun_opts.registries.wf(),
            res.concurrency == DEFAULT_CONCURRENCY,
            !res.locked,
            res.kdl_lock is None,
            res.npm_lock is None,
            !res.hoisted,
            res.script_concurrency == DEFAULT_SCRIPT_CONCURRENCY,
            res.cache is None,
            !res.prefer_copy,
            !res.validate,
            res.root is None,
    {
        NodeMaintainerOptions {
            nassun_opts: NassunOpts::new(),
            concurrency: DEFAULT_CONCURRENCY,
            locked: false,
            kdl_lock: None,
            npm_lock: None,
            hoisted: false,
            script_concurrency: DEFAULT_SCRIPT_CONCURRENCY,
            cache: None,
            prefer_copy: false,
            validate: false,
            root: None,
        }
    }

    /// The cache directory, for fetching too.
    pub fn cache(self, cache: String) -> (res: NodeMaintainerOptions)
        ensures
            res.cache == Some(cache),
            res.nassun_opts.cache == Some(cache),
            res.root == self.root,
    {
        let c2 = cache.clone();
        let opts = self.nassun_opts.cache(c2);
        NodeMaintainerOptions { nassun_opts: opts, cache: Some(cache), ..self }
    }

    /// The project root, which is also where relative paths start.
    pub fn root(self, path: String) -> (res: NodeMaintainerOptions)
        ensures
            res.root == Some(path),
            res.nassun_opts.base_dir == Some(path),
            res.cache == self.cache,
    {
        let p2 = path.clone();
        let opts = self.nassun_opts.base_dir(p2);
        NodeMaintainerOptions { nassun_opts: opts, root: Some(path), ..self }
    }

    /// Number of concurrent fetches and extractions.
    pub fn concurrency(self, concurrency: usize) -> (res: NodeMaintainerOptions)
        ensures
            res.concurrency == concurrency,
            res.script_concurrency == self.script_concurrency,
    {
        NodeMaintainerOptions { concurrency, ..self }
    }

    /// Number of scripts run at once.
    pub fn script_concurrency(self, concurrency: usize) -> (res: NodeMaintainerOptions)
        ensures
            res.script_concurrency == concurrency,
            res.concurrency == self.concurrency,
    {
        NodeMaintainerOptions { script_concurrency: concurrency, ..self }
    }

    /// Whether resolution must reproduce the lockfile exactly.
    pub fn locked(self, locked: bool) -> (res: NodeMaintainerOptions)
        ensures
            res.locked == locked,
            res.hoisted == self.hoisted,
    {
        NodeMaintainerOptions { locked, ..self }
    }

    /// Whether the hoisted layout is used.
    pub fn hoisted(self, hoisted: bool) -> (res: NodeMaintainerOptions)
        ensures
            res.hoisted == hoisted,
            res.locked == self.locked,
    {
        NodeMaintainerOptions { hoisted, ..self }
    }

    /// Whether files are copied rather than linked out of the cache.
    pub fn prefer_copy(self, prefer_copy: bool) -> (res: NodeMaintainerOptions)
        ensures
            res.prefer_copy == prefer_copy,
            res.hoisted == self.hoisted,
    {
        NodeMaintainerOptions { prefer_copy, ..self }
    }

    /// A lockfile given in KDL form (already read).
    pub fn kdl_lock(self, lock: Lockfile) -> (res: NodeMaintainerOptions)
        ensures
            res.kdl_lock == Some(lock),
            res.npm_lock == self.npm_lock,
    {
        NodeMaintainerOptions { kdl_lock: Some(lock), ..self }
    }

    /// A lockfile given in npm's form (already read).
    pub fn npm_lock(self, lock: Lockfile) -> (res: NodeMaintainerOptions)
        ensures
            res.npm_lock == Some(lock),
            res.kdl_lock == self.kdl_lock,
    {
        NodeMaintainerOptions { npm_lock: Some(lock), ..self }
    }

    /// The layout of `node_modules/`.
    pub fn layout(&self) -> (res: Layout)
        ensures
            res == if self.hoisted {
                Layout::Hoisted
            } else {
                Layout::Isolated
            },
    {
        if self.hoisted {
            Layout::Hoisted
        } else {
            Layout::Isolated
        }
    }

    /// The project root: the configured one, else `.`.
    pub fn project_root(&self) -> (res: String)
        ensures
            self.root matches Some(r) ==> res@ == r@,
            self.root is None ==> res@ == "."@,
    {
        match &self.root {
            Some(r) => r.clone(),
            None => String::from_str("."),
        }
    }

    /// The lockfile resolution follows: a KDL lockfile
    /// given as an option, else an npm one given as an option, else the
    /// first of the project's `package-lock.kdl`, `package-lock.json` and
    /// `npm-shrinkwrap.json` that exists and parses (`on_disk`, read by the
    /// caller in that order; each entry `None` where the file is missing or
    /// does not parse).
    pub fn pick_lockfile(self, on_disk: Vec<Option<Lockfile>>) -> (res: Option<Lockfile>)
        ensures
            self.kdl_lock is Some ==> res == self.kdl_lock,
            self.kdl_lock is None && self.npm_lock is Some ==> res == self.npm_lock,
            self.kdl_lock is None && self.npm_lock is None ==> (res is None <==> forall|i: int|
                0 <= i < on_disk@.len() ==> #[trigger] on_disk@[i] is None),
            self.kdl_lock is None && self.npm_lock is None && res is Some ==> exists|i: int|
                0 <= i < on_disk@.len() && #[trigger] on_disk@[i] == res && forall|j: int|
                    0 <= j < i ==> on_disk@[j] is None,
    {
        if self.kdl_lock.is_some() {
            return self.kdl_lock;
        }
        if self.npm_lock.is_some() {
            return self.npm_lock;
        }
        let mut rest = on_disk;
        let ghost all = rest@;
        let n = rest.len();
        let mut taken: usize = 0;
        while rest.len() > 0
            invariant
                self.kdl_lock is None,
                self.npm_lock is None,
                all == on_disk@,
                all.len() == n,
                all.len() == taken + rest@.len(),
                rest@ == all.skip(taken as int),
                forall|j: int| 0 <= j < taken ==> all[j] is None,
            decreases rest.len(),
        {
            let first = rest.remove(0);
            proof {
                assert(all[taken as int] == first);
                assert(rest@ =~= all.skip(taken + 1));
            }
            if first.is_some() {
                let found = first;
                proof {
                    assert(all[taken as int] == found);
                    assert(on_disk@[taken as int] == found);
                    assert(forall|j: int| 0 <= j < taken ==> on_disk@[j] is None);
                    assert(!(forall|i: int| 0 <= i < on_disk@.len() ==> #[trigger] on_disk@[i] is None));
                }
                return found;
            }
            taken = taken + 1;
        }
        assert forall|i: int| 0 <= i < on_disk@.len() implies #[trigger] on_disk@[i] is None by {
            assert(all[i] is None);
        }
        None
    }
}

} // verus!

//! Verified core of a `node_modules/` package manager: version selection
//! from registry metadata, placement of packages in the hoisted
//! `node_modules/` hierarchy, the resolution loop as a step function, the
//! lockfile that records it, what pruning
//! keeps and what links lead where in the hoisted and isolated layouts,
//! the order of lifecycle scripts, the bookkeeping around tarball
//! extraction and the content cache, and the choice of what a git
//! dependency checks out.

pub mod extract;
pub mod semver;
pub mod spec;
pub mod metadata;
pub mod integrity;
pub mod error;
pub mod resolution;
pub mod classic;
pub mod names;
pub mod graph;
pub mod resolver;
pub mod commands;
pub mod fetch;
pub mod lockfile;
pub mod linkers;
pub mod view;
pub mod queue;
pub mod scripts;
pub mod cache;
pub mod maintainer;
pub mod paths;
pub mod git;
pub mod resolve;

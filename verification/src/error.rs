//! Errors reported while resolving and fetching packages.

use vstd::prelude::*;

use crate::metadata::VersionMetadata;
use crate::semver::Version;
use crate::spec::PackageSpec;

verus! {

/// Errors from package resolution.
#[derive(Debug)]
pub enum NassunError {
    /// No version of the package matches the request. `versions` lists the
    /// versions that the packument offers.
    NoVersion { name: String, spec: PackageSpec, versions: Vec<Version> },
    /// The specifier is of a kind that this resolver does not handle.
    InvalidPackageSpec(PackageSpec),
    /// The selected version's metadata has no tarball URL.
    NoTarball(String, PackageSpec, VersionMetadata),
    /// An integrity string in the metadata failed to parse.
    IntegrityParseError(String),
    /// A filesystem operation failed: what was being done, and the
    /// operating system's message.
    IoError(String, String),
    /// Anything else; refer to the message.
    MiscError(String),
}

/// Attaches what was being done to a failed filesystem operation.
pub trait IoContext {
    type T;

    /// Turns a failure into [`NassunError::IoError`] carrying `context`.
    fn io_context(self, context: String) -> Result<Self::T, NassunError>;
}

/// A filesystem result whose failure is held as the operating system's
/// message.
impl<T> IoContext for Result<T, String> {
    type T = T;

    fn io_context(self, context: String) -> (res: Result<T, NassunError>)
        ensures
            self matches Ok(v) ==> res matches Ok(w) && w == v,
            self matches Err(m) ==> res matches Err(NassunError::IoError(c, n)) && c@ == context@
                && n@ == m@,
    {
        match self {
            Ok(v) => Ok(v),
            Err(m) => Err(NassunError::IoError(context, m)),
        }
    }
}

/// Errors from the macOS file provider integration.
#[derive(Debug)]
pub enum AlabasterError {
    /// Failed to initialize the macOS File Provider for managing
    /// `node_modules/`.
    FileProviderInitError(String),
}

impl AlabasterError {
    /// The error's message.
    pub fn message(&self) -> (res: String)
        ensures
            self matches AlabasterError::FileProviderInitError(m) ==> res@
                == "Failed to initialize macOS File Provider: "@ + m@,
    {
        match self {
            AlabasterError::FileProviderInitError(m) => {
                let mut out = String::from_str("Failed to initialize macOS File Provider: ");
                out.append(m.as_str());
                out
            },
        }
    }
}

/// An internal failure of the cache: the underlying error's message and the
/// context lines that were attached to it.
#[derive(Debug)]
pub struct InternalError {
    pub source: String,
    pub context: Vec<String>,
}

/// `lines` joined with `sep` between them.
pub open spec fn joined_with(lines: Seq<Seq<char>>, sep: Seq<char>) -> Seq<char>
    decreases lines.len(),
{
    if lines.len() == 0 {
        Seq::empty()
    } else if lines.len() == 1 {
        lines[0]
    } else {
        joined_with(lines.drop_last(), sep) + sep + lines.last()
    }
}

impl InternalError {
    /// The error's message: the source, a blank line, then each context
    /// line indented by two spaces.
    pub fn message(&self) -> (res: String)
        ensures
            res@ == self.source@ + "\n\n  "@ + joined_with(
                self.context@.map_values(|c: String| c@),
                "\n  "@,
            ),
    {
        let mut out = self.source.clone();
        out.append("\n\n  ");
        let ghost ctx = self.context@.map_values(|c: String| c@);
        let ghost head = out@;
        let mut i: usize = 0;
        while i < self.context.len()
            invariant
                i <= self.context.len(),
                ctx == self.context@.map_values(|c: String| c@),
                out@ == head + joined_with(ctx.take(i as int), "\n  "@),
            decreases self.context.len() - i,
        {
            proof {
                reveal_strlit("\n  ");
            }
            if i > 0 {
                out.append("\n  ");
            }
            out.append(self.context[i].as_str());
            proof {
                assert(ctx.take(i + 1).drop_last() =~= ctx.take(i as int));
            }
            i = i + 1;
        }
        assert(ctx.take(i as int) =~= ctx);
        out
    }
}

/// Conversion of a failed result into an [`InternalError`].
pub trait Internal<T> {
    /// The failure with no context.
    fn to_internal(self) -> Result<T, InternalError>;

    /// The failure with `context` as its one context line.
    fn with_context(self, context: String) -> Result<T, InternalError>;
}

/// A result whose failure is held as the underlying error's message.
impl<T> Internal<T> for Result<T, String> {
    fn to_internal(self) -> (res: Result<T, InternalError>)
        ensures
            self matches Ok(v) ==> res matches Ok(w) && w == v,
            self matches Err(m) ==> res matches Err(e) && e.source@ == m@ && e.context@.len() == 0,
    {
        match self {
            Ok(v) => Ok(v),
            Err(m) => Err(InternalError { source: m, context: Vec::new() }),
        }
    }

    fn with_context(self, context: String) -> (res: Result<T, InternalError>)
        ensures
            self matches Ok(v) ==> res matches Ok(w) && w == v,
            self matches Err(m) ==> res matches Err(e) && e.source@ == m@ && e.context@.len() == 1
                && e.context@[0]@ == context@,
    {
        match self {
            Ok(v) => Ok(v),
            Err(m) => Err(InternalError { source: m, context: vec![context] }),
        }
    }
}

} // verus!

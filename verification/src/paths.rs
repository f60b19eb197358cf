//! Path texts: a path below a directory, the directory that holds a path,
//! and the relative path from a directory to a path, which `pathdiff`
//! computes. Links on disk hold such relative paths.

use vstd::prelude::*;

use crate::spec::opt_string_view;

verus! {

/// `p` below the directory `dir`, as `PathBuf::push` forms it on Unix: an
/// absolute `p` stands for itself, an empty `dir` adds nothing, and a `/`
/// goes between them unless `dir` ends with one.
pub open spec fn path_join(dir: Seq<char>, p: Seq<char>) -> Seq<char> {
    if p.len() > 0 && p[0] == '/' {
        p
    } else if dir.len() == 0 {
        p
    } else if dir[dir.len() - 1] == '/' {
        dir + p
    } else {
        dir + "/"@ + p
    }
}

/// `p` below the directory `dir` (see [`path_join`]).
pub fn join_path(dir: &str, p: &str) -> (res: String)
    ensures
        res@ == path_join(dir@, p@),
{
    let n = p.unicode_len();
    let m = dir.unicode_len();
    if n > 0 && p.get_char(0) == '/' {
        p.to_string()
    } else if m == 0 {
        p.to_string()
    } else if dir.get_char(m - 1) == '/' {
        let mut s = dir.to_string();
        s.append(p);
        s
    } else {
        let mut s = dir.to_string();
        proof {
            reveal_strlit("/");
        }
        s.append("/");
        s.append(p);
        s
    }
}

/// The position of the last `/` among the first `n` characters of `p`.
pub open spec fn last_slash(p: Seq<char>, n: int) -> Option<int>
    decreases n,
{
    if n <= 0 {
        None
    } else if p[n - 1] == '/' {
        Some(n - 1)
    } else {
        last_slash(p, n - 1)
    }
}

/// The directory that holds the path `p`: what comes before its last `/`
/// (`/` itself where that is the first character), or the empty path
/// where `p` has no `/`.
pub open spec fn parent_path(p: Seq<char>) -> Seq<char> {
    match last_slash(p, p.len() as int) {
        None => Seq::empty(),
        Some(i) => if i == 0 {
            "/"@
        } else {
            p.take(i)
        },
    }
}

/// The directory that holds the path `p` (see [`parent_path`]).
pub fn parent_of(p: &str) -> (res: String)
    ensures
        res@ == parent_path(p@),
{
    let n = p.unicode_len();
    let mut k: usize = n;
    while k > 0 && p.get_char(k - 1) != '/'
        invariant
            k <= n,
            n == p@.len(),
            last_slash(p@, n as int) == last_slash(p@, k as int),
        decreases k,
    {
        k = k - 1;
    }
    if k == 0 {
        String::new()
    } else if k == 1 {
        proof {
            reveal_strlit("/");
        }
        String::from_str("/")
    } else {
        let r = p.substring_char(0, k - 1);
        assert(r@ =~= p@.take(k - 1));
        r.to_string()
    }
}

/// Names the path that `pathdiff::diff_paths` leads from the directory
/// `base` to `path`, or `None` where it finds none.
pub uninterp spec fn relative_path(path: Seq<char>, base: Seq<char>) -> Option<Seq<char>>;

/// `pathdiff::diff_paths` on two path texts. Claims only that the result,
/// as text, is the one that [`relative_path`] names for the two
/// arguments: the crate computes it from their components alone.
#[verifier::external_body]
fn diff_paths(path: &str, base: &str) -> (res: Option<String>)
    ensures
        opt_string_view(res) == relative_path(path@, base@),
{
    match pathdiff::diff_paths(path, base) {
        Some(p) => Some(p.to_string_lossy().into_owned()),
        None => None,
    }
}

/// Where a file found below the directory `dir` goes in a package
/// tarball: below `./package`, at its path relative to `dir`
///; `None` where `diff_paths` finds no
/// relative path.
pub fn tarball_entry_path(file: &str, dir: &str) -> (res: Option<String>)
    ensures
        match relative_path(file@, dir@) {
            Some(r) => res is Some && res->0@ == path_join("./package"@, r),
            None => res is None,
        },
{
    match diff_paths(file, dir) {
        Some(r) => {
            proof {
                reveal_strlit("./package");
            }
            Some(join_path("./package", r.as_str()))
        },
        None => None,
    }
}

/// What a symbolic link at `link` holds to lead to `target`: the relative
/// path from the directory holding the link.
pub open spec fn link_text(target: Seq<char>, link: Seq<char>) -> Option<Seq<char>> {
    relative_path(target, parent_path(link))
}

/// What a symbolic link at `link` holds to lead to `target` (see
/// [`link_text`]).
pub fn link_target(target: &str, link: &str) -> (res: Option<String>)
    ensures
        opt_string_view(res) == link_text(target@, link@),
{
    let base = parent_of(link);
    diff_paths(target, base.as_str())
}

} // verus!

//! Which commit a git dependency checks out: the committish it names, or,
//! for a semver range, the greatest tagged version that satisfies it,
//! read from the output of `git show-ref --tags`.

use vstd::prelude::*;

use crate::error::NassunError;
use crate::graph::strings_view;
use crate::paths::last_slash;
use crate::resolution::{lemma_max_satisfying, max_satisfying_index, max_satisfying_upto, versions_view};
use crate::semver::{
    parse_version, parsed_version, range_satisfies, version_order, version_string, version_text, Version,
    VersionRange, VersionView,
};
use crate::spec::{opt_string_view, PackageSpec, SpecView};

verus! {

// ---------------------------------------------------------------------
// Lines of text
// ---------------------------------------------------------------------

/// The pieces of `t` between its `\n`s: one more than there are `\n`s.
pub open spec fn nl_pieces(t: Seq<char>) -> Seq<Seq<char>>
    decreases t.len(),
{
    if t.len() == 0 {
        seq![Seq::empty()]
    } else {
        let pre = nl_pieces(t.drop_last());
        if t.last() == '\n' {
            pre.push(Seq::empty())
        } else {
            pre.update(pre.len() - 1, pre.last().push(t.last()))
        }
    }
}

proof fn lemma_nl_pieces_len(t: Seq<char>)
    ensures
        nl_pieces(t).len() >= 1,
    decreases t.len(),
{
    if t.len() > 0 {
        lemma_nl_pieces_len(t.drop_last());
    }
}

/// A line that a `\n` ended, without the `\r` of a `\r\n`.
pub open spec fn strip_cr(l: Seq<char>) -> Seq<char> {
    if l.len() > 0 && l.last() == '\r' {
        l.drop_last()
    } else {
        l
    }
}

/// The lines of `t`, as `str::lines` gives them: the pieces between
/// `\n`s, each without the `\r` of a `\r\n`, and no empty last line after
/// a final `\n`.
pub open spec fn text_lines(t: Seq<char>) -> Seq<Seq<char>> {
    let p = nl_pieces(t);
    let ended = p.drop_last().map_values(|l: Seq<char>| strip_cr(l));
    if p.last().len() == 0 {
        ended
    } else {
        ended.push(p.last())
    }
}

/// The lines of `text` (see [`text_lines`]).
pub fn lines_of(text: &str) -> (res: Vec<String>)
    ensures
        strings_view(res@) == text_lines(text@),
{
    let ghost t = text@;
    let n = text.unicode_len();
    let mut out: Vec<String> = Vec::new();
    let mut start: usize = 0;
    let mut i: usize = 0;
    proof {
        assert(t.take(0) =~= Seq::<char>::empty());
        assert(out@.map_values(|s: String| s@) =~= nl_pieces(t.take(0)).drop_last().map_values(
            |l: Seq<char>| strip_cr(l),
        ));
    }
    while i < n
        invariant
            t == text@,
            n == t.len(),
            start <= i <= n,
            nl_pieces(t.take(i as int)).len() >= 1,
            nl_pieces(t.take(i as int)).last() == t.subrange(start as int, i as int),
            strings_view(out@) == nl_pieces(t.take(i as int)).drop_last().map_values(
                |l: Seq<char>| strip_cr(l),
            ),
        decreases n - i,
    {
        let ghost pre = nl_pieces(t.take(i as int));
        proof {
            assert(t.take(i + 1).drop_last() =~= t.take(i as int));
            assert(t.take(i + 1).last() == t[i as int]);
        }
        let c = text.get_char(i);
        if c == '\n' {
            let end: usize = if i > start && text.get_char(i - 1) == '\r' {
                i - 1
            } else {
                i
            };
            let piece = text.substring_char(start, end);
            let ghost before = strings_view(out@);
            out.push(piece.to_string());
            proof {
                let raw = t.subrange(start as int, i as int);
                assert(piece@ =~= strip_cr(raw));
                assert(nl_pieces(t.take(i + 1)) == pre.push(Seq::empty()));
                assert(pre.push(Seq::<char>::empty()).drop_last() =~= pre);
                assert(strings_view(out@) =~= before.push(piece@));
                assert(pre.drop_last().push(pre.last()) =~= pre);
                assert(pre.map_values(|l: Seq<char>| strip_cr(l)) =~= pre.drop_last().map_values(
                    |l: Seq<char>| strip_cr(l),
                ).push(strip_cr(pre.last())));
                assert(t.subrange(i + 1, i + 1) =~= Seq::<char>::empty());
            }
            start = i + 1;
        } else {
            proof {
                let post = pre.update(pre.len() - 1, pre.last().push(t[i as int]));
                assert(nl_pieces(t.take(i + 1)) == post);
                assert(post.last() =~= t.subrange(start as int, i + 1));
                assert(post.drop_last() =~= pre.drop_last());
            }
        }
        i = i + 1;
    }
    proof {
        assert(t.take(n as int) =~= t);
    }
    if start < n {
        let last = text.substring_char(start, n);
        let ghost before = strings_view(out@);
        out.push(last.to_string());
        proof {
            assert(last@ =~= t.subrange(start as int, n as int));
            assert(strings_view(out@) =~= before.push(last@));
        }
    } else {
        proof {
            assert(t.subrange(start as int, n as int) =~= Seq::<char>::empty());
        }
    }
    out
}

// ---------------------------------------------------------------------
// Tags
// ---------------------------------------------------------------------

/// The tag a line of `git show-ref --tags` names: what follows its last
/// `/`, or the whole line where it has none.
pub open spec fn tag_text(line: Seq<char>) -> Seq<char> {
    match last_slash(line, line.len() as int) {
        None => line,
        Some(k) => line.skip(k + 1),
    }
}

/// The tag a line names (see [`tag_text`]).
pub fn tag_of(line: &str) -> (res: String)
    ensures
        res@ == tag_text(line@),
{
    let n = line.unicode_len();
    let mut k: usize = n;
    while k > 0 && line.get_char(k - 1) != '/'
        invariant
            k <= n,
            n == line@.len(),
            last_slash(line@, n as int) == last_slash(line@, k as int),
        decreases k,
    {
        k = k - 1;
    }
    if k == 0 {
        line.to_string()
    } else {
        let r = line.substring_char(k, n);
        assert(r@ =~= line@.skip(k as int));
        r.to_string()
    }
}

/// The versions that the tags of `lines` name, in order: each line's tag
/// that parses as a version.
pub open spec fn tag_versions(lines: Seq<Seq<char>>) -> Seq<VersionView>
    decreases lines.len(),
{
    if lines.len() == 0 {
        Seq::empty()
    } else {
        let pre = tag_versions(lines.drop_last());
        match parsed_version(tag_text(lines.last())) {
            Some(v) => pre.push(v),
            None => pre,
        }
    }
}

/// The versions that the tags of `lines` name (see [`tag_versions`]).
pub fn versions_of_tags(lines: &Vec<String>) -> (res: Vec<Version>)
    ensures
        versions_view(res@) == tag_versions(strings_view(lines@)),
{
    let ghost ls = strings_view(lines@);
    let mut out: Vec<Version> = Vec::new();
    let mut i: usize = 0;
    while i < lines.len()
        invariant
            ls == strings_view(lines@),
            i <= lines.len(),
            versions_view(out@) == tag_versions(ls.take(i as int)),
        decreases lines.len() - i,
    {
        proof {
            assert(ls.take(i + 1).drop_last() =~= ls.take(i as int));
            assert(ls.take(i + 1).last() == lines@[i as int]@);
        }
        let tag = tag_of(lines[i].as_str());
        match parse_version(tag.as_str()) {
            Ok(v) => {
                let ghost before = versions_view(out@);
                out.push(v);
                assert(versions_view(out@) =~= before.push(v@));
            },
            Err(_) => {},
        }
        i = i + 1;
    }
    assert(ls.take(lines.len() as int) =~= ls);
    out
}

// ---------------------------------------------------------------------
// Choosing what to check out
// ---------------------------------------------------------------------

/// Position of the greatest of `versions` that satisfies `range`, the
/// later one among equals (see [`max_satisfying_index`]).
pub fn max_satisfying_version(versions: &Vec<Version>, range: &VersionRange) -> (res: Option<usize>)
    ensures
        match res {
            Some(k) => k < versions.len() && Some(k as int) == max_satisfying_index(
                versions_view(versions@),
                range@,
            ),
            None => max_satisfying_index(versions_view(versions@), range@) is None,
        },
{
    let ghost keys = versions_view(versions@);
    let mut best: Option<usize> = None;
    let mut i: usize = 0;
    while i < versions.len()
        invariant
            keys == versions_view(versions@),
            keys.len() == versions.len(),
            i <= versions.len(),
            match best {
                Some(k) => k < i && Some(k as int) == max_satisfying_upto(keys, range@, i as int),
                None => max_satisfying_upto(keys, range@, i as int) is None,
            },
        decreases versions.len() - i,
    {
        let v = &versions[i];
        assert(keys[i as int] == v@);
        if range.satisfies(v) {
            match best {
                None => {
                    best = Some(i);
                },
                Some(k) => {
                    assert(keys[k as int] == versions@[k as int]@);
                    if v.precedence(&versions[k]) >= 0 {
                        best = Some(i);
                    }
                },
            }
        }
        i = i + 1;
    }
    best
}

/// What a git dependency checks out: with a semver range, the text of the
/// greatest version among the tags of `tags` (the output of
/// `git show-ref --tags`) that satisfies it, or, where none does, an
/// error listing the tagged versions; without one, the committish, if
/// any.
pub open spec fn checkout_choice(range: Option<Seq<char>>, committish: Option<Seq<char>>, tags: Seq<char>) -> Result<
    Option<Seq<char>>,
    Seq<VersionView>,
> {
    match range {
        None => Ok(committish),
        Some(r) => {
            let vs = tag_versions(text_lines(tags));
            match max_satisfying_index(vs, r) {
                Some(k) => Ok(Some(version_text(vs[k]))),
                None => Err(vs),
            }
        },
    }
}

/// With a range, a git dependency checks out a tagged version that
/// satisfies the range and that no satisfying tagged version exceeds; it
/// fails only when no tagged version satisfies the range.
pub proof fn lemma_checkout_is_greatest_tag(r: Seq<char>, committish: Option<Seq<char>>, tags: Seq<char>)
    ensures
        ({
            let vs = tag_versions(text_lines(tags));
            match checkout_choice(Some(r), committish, tags) {
                Ok(Some(t)) => exists|k: int|
                    0 <= k < vs.len() && t == version_text(#[trigger] vs[k]) && range_satisfies(r, vs[k])
                        && forall|j: int|
                        0 <= j < vs.len() && range_satisfies(r, #[trigger] vs[j]) ==> version_order(vs[j], vs[k])
                            <= 0,
                Ok(None) => false,
                Err(e) => e == vs && forall|j: int| 0 <= j < vs.len() ==> !range_satisfies(r, #[trigger] vs[j]),
            }
        }),
{
    let vs = tag_versions(text_lines(tags));
    lemma_max_satisfying(vs, r);
}

pub open spec fn opt_range_view(r: Option<&VersionRange>) -> Option<Seq<char>> {
    match r {
        Some(x) => Some(x@),
        None => None,
    }
}

/// What the git dependency `info`, cloned from `repo`, checks out
/// (see [`checkout_choice`]): `tags` is only
/// read when a range is given. Where no tagged version satisfies the
/// range, the error is `NoVersion` for the repository, the git
/// specifier, and the tagged versions.
pub fn checkout_ref(
    range: Option<&VersionRange>,
    committish: &Option<String>,
    tags: &str,
    repo: &String,
    info: &String,
) -> (res: Result<Option<String>, NassunError>)
    ensures
        match checkout_choice(opt_range_view(range), opt_string_view(*committish), tags@) {
            Ok(c) => res is Ok && opt_string_view(res->Ok_0) == c,
            Err(vs) => match res {
                Err(NassunError::NoVersion { name, spec, versions }) => name@ == repo@ && spec@ == (
                SpecView::Git { info: info@ }) && versions_view(versions@) == vs,
                _ => false,
            },
        },
{
    match range {
        None => Ok(committish.clone()),
        Some(r) => {
            let lines = lines_of(tags);
            let versions = versions_of_tags(&lines);
            match max_satisfying_version(&versions, r) {
                Some(k) => {
                    let text = version_string(&versions[k]);
                    Ok(Some(text))
                },
                None => Err(
                    NassunError::NoVersion {
                        name: repo.clone(),
                        spec: PackageSpec::Git { info: info.clone() },
                        versions,
                    },
                ),
            }
        },
    }
}

} // verus!

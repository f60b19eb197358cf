//! The summary that `oro view` prints for a package version: which lines,
//! in which order, with which emphasis.

use vstd::prelude::*;
use vstd::seq_lib::*;

use humansize::file_size_opts;
use humansize::FileSize;

use crate::semver::{chars_order, chars_order_from, lemma_chars_order_antisym, lemma_chars_order_trans};
use crate::spec::opt_string_view;

verus! {

/// A pair of texts, by value.
pub open spec fn pair_view(p: (String, String)) -> (Seq<char>, Seq<char>) {
    (p.0@, p.1@)
}

pub open spec fn pairs_view(s: Seq<(String, String)>) -> Seq<(Seq<char>, Seq<char>)> {
    s.map_values(|p: (String, String)| pair_view(p))
}

/// Pairs of texts ordered by their first text, then by their second, each
/// compared character by character (`Ord` of `(&String, &String)`).
pub open spec fn pair_le(a: (Seq<char>, Seq<char>), b: (Seq<char>, Seq<char>)) -> bool {
    let c = chars_order_from(a.0, b.0, 0);
    c < 0 || (c == 0 && chars_order_from(a.1, b.1, 0) <= 0)
}

/// A sequence of pairs in ascending [`pair_le`] order.
pub open spec fn sorted_pairs(s: Seq<(Seq<char>, Seq<char>)>) -> bool {
    forall|i: int, j: int| 0 <= i < j < s.len() ==> pair_le(#[trigger] s[i], #[trigger] s[j])
}

proof fn lemma_pair_le_total(a: (Seq<char>, Seq<char>), b: (Seq<char>, Seq<char>))
    ensures
        pair_le(a, b) || pair_le(b, a),
{
    lemma_chars_order_antisym(a.0, b.0, 0);
    lemma_chars_order_antisym(a.1, b.1, 0);
}

proof fn lemma_pair_le_trans(a: (Seq<char>, Seq<char>), b: (Seq<char>, Seq<char>), c: (Seq<char>, Seq<char>))
    requires
        pair_le(a, b),
        pair_le(b, c),
    ensures
        pair_le(a, c),
{
    lemma_chars_order_antisym(a.0, b.0, 0);
    lemma_chars_order_antisym(b.0, c.0, 0);
    lemma_chars_order_antisym(a.0, c.0, 0);
    lemma_chars_order_trans(a.0, b.0, c.0, 0);
    if chars_order_from(a.0, c.0, 0) == 0 {
        assert(a.0.skip(0) =~= a.0);
        assert(c.0.skip(0) =~= c.0);
        assert(a.0 =~= c.0);
        lemma_chars_order_trans(a.1, b.1, c.1, 0);
    }
}

fn pair_le_exec(a: &(String, String), b: &(String, String)) -> (res: bool)
    ensures
        res == pair_le(pair_view(*a), pair_view(*b)),
{
    let c = chars_order(&a.0, &b.0);
    if c < 0 {
        true
    } else if c == 0 {
        chars_order(&a.1, &b.1) <= 0
    } else {
        false
    }
}

/// The pairs of `v`, sorted by their first text, then their second.
pub fn sort_pairs(v: &Vec<(String, String)>) -> (res: Vec<(String, String)>)
    ensures
        sorted_pairs(pairs_view(res@)),
        pairs_view(res@).to_multiset() == pairs_view(v@).to_multiset(),
{
    broadcast use to_multiset_insert, to_multiset_build;

    let mut out: Vec<(String, String)> = Vec::new();
    let mut i: usize = 0;
    proof {
        assert(pairs_view(out@) =~= Seq::<(Seq<char>, Seq<char>)>::empty());
        assert(pairs_view(v@).take(0) =~= Seq::<(Seq<char>, Seq<char>)>::empty());
    }
    while i < v.len()
        invariant
            i <= v.len(),
            sorted_pairs(pairs_view(out@)),
            pairs_view(out@).to_multiset() == pairs_view(v@).take(i as int).to_multiset(),
        decreases v.len() - i,
    {
        let x = (v[i].0.clone(), v[i].1.clone());
        let ghost xv = pair_view(x);
        let ghost ov = pairs_view(out@);
        assert(xv == pairs_view(v@)[i as int]);
        let mut p: usize = 0;
        while p < out.len() && pair_le_exec(&out[p], &x)
            invariant
                p <= out.len(),
                ov == pairs_view(out@),
                xv == pair_view(x),
                forall|k: int| 0 <= k < p ==> pair_le(#[trigger] ov[k], xv),
            decreases out.len() - p,
        {
            p = p + 1;
        }
        proof {
            if p < out.len() {
                assert(!pair_le(ov[p as int], xv));
                lemma_pair_le_total(ov[p as int], xv);
                assert forall|k: int| p <= k < ov.len() implies pair_le(xv, #[trigger] ov[k]) by {
                    if k > p {
                        assert(pair_le(ov[p as int], ov[k]));
                        if pair_le(ov[k], xv) {
                            lemma_pair_le_trans(ov[p as int], ov[k], xv);
                        }
                        lemma_pair_le_total(ov[k], xv);
                    }
                }
            }
        }
        out.insert(p, x);
        proof {
            let nv = pairs_view(out@);
            assert(nv =~= ov.insert(p as int, xv));
            assert forall|a: int, b: int| 0 <= a < b < nv.len() implies pair_le(#[trigger] nv[a], #[trigger] nv[b]) by {
                if b < p {
                    assert(nv[a] == ov[a] && nv[b] == ov[b]);
                } else if b == p {
                    assert(nv[a] == ov[a]);
                } else if a < p {
                    assert(nv[a] == ov[a] && nv[b] == ov[b - 1]);
                    assert(pair_le(ov[a], xv));
                    assert(pair_le(xv, ov[b - 1]));
                    lemma_pair_le_trans(ov[a], xv, ov[b - 1]);
                } else if a == p {
                    assert(nv[b] == ov[b - 1]);
                } else {
                    assert(nv[a] == ov[a - 1] && nv[b] == ov[b - 1]);
                }
            }
            assert(pairs_view(v@).take(i + 1) =~= pairs_view(v@).take(i as int).push(xv));
            to_multiset_insert(ov, p as int, xv);
            to_multiset_build(pairs_view(v@).take(i as int), xv);
        }
        i = i + 1;
    }
    assert(pairs_view(v@).take(i as int) =~= pairs_view(v@));
    out
}

// ---------------------------------------------------------------------
// The summary
// ---------------------------------------------------------------------

/// How a piece of text is emphasised.
#[derive(Debug, Clone, Copy, PartialEq, Eq)]
pub enum Tone {
    Plain,
    /// Bright green and underlined.
    Title,
    Green,
    Cyan,
    Yellow,
    /// Bright red.
    Alert,
}

/// A piece of text with its emphasis.
#[derive(Debug)]
pub struct Span {
    pub text: String,
    pub tone: Tone,
}

/// A part of the summary.
#[derive(Debug)]
pub enum Block {
    /// One line of text.
    Line(Vec<Span>),
    /// The `dependencies:` grid: one cell per dependency shown, laid out to
    /// the terminal's width, then `(...and N more)` where `more` is not 0.
    Dependencies { cells: Vec<Vec<Span>>, more: usize },
}

pub open spec fn span_view(s: Span) -> (Seq<char>, Tone) {
    (s.text@, s.tone)
}

pub open spec fn spans_view(s: Seq<Span>) -> Seq<(Seq<char>, Tone)> {
    s.map_values(|x: Span| span_view(x))
}

/// The mathematical value of a [`Block`].
pub enum BlockView {
    Line(Seq<(Seq<char>, Tone)>),
    Dependencies { cells: Seq<Seq<(Seq<char>, Tone)>>, more: nat },
}

pub open spec fn block_view(b: Block) -> BlockView {
    match b {
        Block::Line(spans) => BlockView::Line(spans_view(spans@)),
        Block::Dependencies { cells, more } => BlockView::Dependencies {
            cells: cells@.map_values(|c: Vec<Span>| spans_view(c@)),
            more: more as nat,
        },
    }
}

pub open spec fn blocks_view(s: Seq<Block>) -> Seq<BlockView> {
    s.map_values(|b: Block| block_view(b))
}

/// The executables a package declares: one under the package's own name,
/// or several by name.
#[derive(Debug)]
pub enum Bins {
    Single,
    Named(Vec<String>),
}

/// A maintainer, as text or by parts.
#[derive(Debug)]
pub enum Person {
    Text(String),
    Parts { name: Option<String>, email: Option<String>, url: Option<String> },
}

/// When and by whom the version was published: `when` already in words.
#[derive(Debug)]
pub struct Published {
    pub when: String,
    pub by: String,
    pub email: Option<String>,
}

/// What the summary shows of a package version.
#[derive(Debug)]
pub struct ViewInfo {
    pub name: Option<String>,
    /// The version, as text.
    pub version: Option<String>,
    pub license: Option<String>,
    pub description: Option<String>,
    pub homepage: Option<String>,
    pub deprecated: Option<String>,
    pub keywords: Vec<String>,
    pub bin: Option<Bins>,
    pub tarball: Option<String>,
    pub shasum: Option<String>,
    pub integrity: Option<String>,
    /// The unpacked size, in bytes.
    pub unpacked_size: Option<u64>,
    /// Dependency names with what they ask for.
    pub dependencies: Vec<(String, String)>,
    /// How many versions the package has.
    pub releases: usize,
    pub maintainers: Vec<Person>,
    pub published: Option<Published>,
}

/// What `humansize` writes for a number of bytes in decimal units
/// (`FileSize::file_size` with `file_size_opts::DECIMAL`).
pub uninterp spec fn decimal_size(bytes: u64) -> Seq<char>;

/// Writes a number of bytes in decimal units with `humansize`.
///
/// Trusted: the result is the named text [`decimal_size`] of the number;
/// the crate never fails on an unsigned number.
#[verifier::external_body]
fn decimal_size_text(bytes: u64) -> (res: String)
    ensures
        res@ == decimal_size(bytes),
{
    match bytes.file_size(file_size_opts::DECIMAL) {
        Ok(s) => s,
        Err(e) => e,
    }
}

pub open spec fn opt_size(o: Option<u64>) -> Option<Seq<char>> {
    match o {
        Some(n) => Some(decimal_size(n)),
        None => None,
    }
}

/// The decimal digits of `n`.
pub open spec fn decimal(n: nat) -> Seq<char>
    decreases n,
{
    if n < 10 {
        seq![digit(n)]
    } else {
        decimal(n / 10).push(digit(n % 10))
    }
}

pub open spec fn digit(d: nat) -> char {
    if d == 0 { '0' } else if d == 1 { '1' } else if d == 2 { '2' } else if d == 3 { '3' }
    else if d == 4 { '4' } else if d == 5 { '5' } else if d == 6 { '6' } else if d == 7 { '7' }
    else if d == 8 { '8' } else { '9' }
}

fn digit_str(d: usize) -> (res: &'static str)
    requires
        d < 10,
    ensures
        res@ == seq![digit(d as nat)],
{
    proof {
        reveal_strlit("0");
        reveal_strlit("1");
        reveal_strlit("2");
        reveal_strlit("3");
        reveal_strlit("4");
        reveal_strlit("5");
        reveal_strlit("6");
        reveal_strlit("7");
        reveal_strlit("8");
        reveal_strlit("9");
    }
    let r = if d == 0 { "0" } else if d == 1 { "1" } else if d == 2 { "2" } else if d == 3 { "3" }
    else if d == 4 { "4" } else if d == 5 { "5" } else if d == 6 { "6" } else if d == 7 { "7" }
    else if d == 8 { "8" } else { "9" };
    assert(r@ =~= seq![digit(d as nat)]);
    r
}

/// `n` in decimal.
pub fn decimal_text(n: usize) -> (res: String)
    ensures
        res@ == decimal(n as nat),
    decreases n,
{
    if n < 10 {
        String::from_str(digit_str(n))
    } else {
        let mut s = decimal_text(n / 10);
        s.append(digit_str(n % 10));
        s
    }
}

pub open spec fn span(t: Seq<char>, tone: Tone) -> (Seq<char>, Tone) {
    (t, tone)
}

pub open spec fn or_text(o: Option<Seq<char>>, d: Seq<char>) -> Seq<char> {
    match o {
        Some(t) => t,
        None => d,
    }
}

/// The first line: `name@version | license | deps: N | releases: N`.
pub open spec fn headline(i: ViewInfo) -> Seq<(Seq<char>, Tone)> {
    seq![
        span(or_text(opt_string_view(i.name), ""@), Tone::Title),
        span("@"@, Tone::Plain),
        span(or_text(opt_string_view(i.version), "0.0.0"@), Tone::Title),
        span(" | "@, Tone::Plain),
        span(or_text(opt_string_view(i.license), "Proprietary"@), Tone::Green),
        span(" | deps: "@, Tone::Plain),
        span(decimal(i.dependencies@.len()), Tone::Cyan),
        span(" | releases: "@, Tone::Plain),
        span(decimal(i.releases as nat), Tone::Yellow),
    ]
}

/// `items` in yellow, separated by plain `, `.
pub open spec fn listed(items: Seq<Seq<char>>) -> Seq<(Seq<char>, Tone)>
    decreases items.len(),
{
    if items.len() == 0 {
        Seq::empty()
    } else if items.len() == 1 {
        seq![span(items[0], Tone::Yellow)]
    } else {
        listed(items.drop_last()) + seq![span(", "@, Tone::Plain), span(items.last(), Tone::Yellow)]
    }
}

pub open spec fn line(s: Seq<(Seq<char>, Tone)>) -> BlockView {
    BlockView::Line(s)
}

pub open spec fn blank() -> BlockView {
    BlockView::Line(Seq::empty())
}

/// A line of one plain text, where there is one.
pub open spec fn opt_line(o: Option<Seq<char>>, tone: Tone) -> Seq<BlockView> {
    match o {
        Some(t) => seq![line(seq![span(t, tone)])],
        None => Seq::empty(),
    }
}

/// A `label` line with a value in `tone`, where there is a value.
pub open spec fn labelled(label: Seq<char>, o: Option<Seq<char>>, tone: Tone) -> Seq<BlockView> {
    match o {
        Some(t) => seq![line(seq![span(label, Tone::Plain), span(t, tone)])],
        None => Seq::empty(),
    }
}

/// The names the `bins:` line lists.
pub open spec fn bin_names(i: ViewInfo) -> Seq<Seq<char>> {
    match i.bin {
        Some(Bins::Single) => seq![or_text(opt_string_view(i.name), ""@)],
        Some(Bins::Named(names)) => crate::graph::strings_view(names@),
        None => Seq::empty(),
    }
}

/// The dependency cells: the first 25 dependencies in sorted order, each
/// its name in yellow and `: ` and what it asks for.
pub open spec fn dep_cells(sorted: Seq<(Seq<char>, Seq<char>)>) -> Seq<Seq<(Seq<char>, Tone)>> {
    sorted.take(if sorted.len() < 25 { sorted.len() as int } else { 25 }).map_values(
        |d: (Seq<char>, Seq<char>)| seq![span(d.0, Tone::Yellow), span(": "@ + d.1, Tone::Plain)],
    )
}

/// One maintainer line.
pub open spec fn person_line(p: Person) -> Seq<(Seq<char>, Tone)> {
    match p {
        Person::Text(t) => seq![span("- "@, Tone::Plain), span(t@, Tone::Yellow)],
        Person::Parts { name, email, url } => seq![span("-"@, Tone::Plain)] + match name {
            Some(n) => seq![span(" "@ + n@, Tone::Plain)],
            None => Seq::empty(),
        } + match email {
            Some(e) => seq![span(" <"@, Tone::Plain), span(e@, Tone::Cyan), span(">"@, Tone::Plain)],
            None => Seq::empty(),
        } + match url {
            Some(u) => seq![span(" ("@, Tone::Plain), span(u@, Tone::Cyan), span(")"@, Tone::Plain)],
            None => Seq::empty(),
        },
    }
}

/// Headline, description, homepage and a blank line.
pub open spec fn top_blocks(i: ViewInfo) -> Seq<BlockView> {
    seq![line(headline(i))] + opt_line(opt_string_view(i.description), Tone::Plain) + opt_line(
        opt_string_view(i.homepage),
        Tone::Cyan,
    ) + seq![blank()]
}

/// The deprecation notice, if the version is deprecated.
pub open spec fn deprecated_blocks(i: ViewInfo) -> Seq<BlockView> {
    match i.deprecated {
        Some(m) => seq![line(seq![span("DEPRECATED"@, Tone::Alert), span(" - "@ + m@, Tone::Plain)]), blank()],
        None => Seq::empty(),
    }
}

/// The keywords, if there are any.
pub open spec fn keyword_blocks(i: ViewInfo) -> Seq<BlockView> {
    if i.keywords@.len() > 0 {
        seq![line(seq![span("keywords: "@, Tone::Plain)] + listed(crate::graph::strings_view(i.keywords@))), blank()]
    } else {
        Seq::empty()
    }
}

/// The executables, if the package declares any.
pub open spec fn bin_blocks(i: ViewInfo) -> Seq<BlockView> {
    if i.bin is Some {
        seq![line(seq![span("bins: "@, Tone::Plain)] + listed(bin_names(i))), blank()]
    } else {
        Seq::empty()
    }
}

/// The `dist` fields.
pub open spec fn dist_blocks(i: ViewInfo) -> Seq<BlockView> {
    seq![line(seq![span("dist"@, Tone::Plain)])] + labelled(".tarball: "@, opt_string_view(i.tarball), Tone::Cyan)
        + labelled(".shasum: "@, opt_string_view(i.shasum), Tone::Yellow) + labelled(
        ".integrity: "@,
        opt_string_view(i.integrity),
        Tone::Yellow,
    ) + labelled(".unpackedSize: "@, opt_size(i.unpacked_size), Tone::Yellow) + seq![blank()]
}

/// The dependencies, if there are any.
pub open spec fn dep_blocks(i: ViewInfo, sorted: Seq<(Seq<char>, Seq<char>)>) -> Seq<BlockView> {
    let deps = i.dependencies@.len();
    if deps > 0 {
        seq![
            BlockView::Dependencies {
                cells: dep_cells(sorted),
                more: if deps > 25 { (deps - 25) as nat } else { 0 },
            },
            blank(),
        ]
    } else {
        Seq::empty()
    }
}

/// The maintainers, if there are any.
pub open spec fn maintainer_blocks(i: ViewInfo) -> Seq<BlockView> {
    if i.maintainers@.len() > 0 {
        seq![line(seq![span("maintainers:"@, Tone::Plain)])] + i.maintainers@.map_values(
            |p: Person| line(person_line(p)),
        ) + seq![blank()]
    } else {
        Seq::empty()
    }
}

/// Who published the version, when that is known.
pub open spec fn published_blocks(i: ViewInfo) -> Seq<BlockView> {
    match i.published {
        Some(p) => seq![
            line(
                seq![
                    span("published "@, Tone::Plain),
                    span(p.when@, Tone::Yellow),
                    span(" by "@, Tone::Plain),
                    span(p.by@, Tone::Yellow),
                ] + match p.email {
                    Some(e) => seq![span(" <"@, Tone::Plain), span(e@, Tone::Cyan), span(">"@, Tone::Plain)],
                    None => Seq::empty(),
                },
            ),
        ],
        None => Seq::empty(),
    }
}

/// The whole summary, given the dependencies in sorted order.
pub open spec fn summary(i: ViewInfo, sorted: Seq<(Seq<char>, Seq<char>)>) -> Seq<BlockView> {
    top_blocks(i) + deprecated_blocks(i) + keyword_blocks(i) + bin_blocks(i) + dist_blocks(i) + dep_blocks(
        i,
        sorted,
    ) + maintainer_blocks(i) + published_blocks(i)
}

/// The summary opens with the headline; then, each on a line of its own
/// and only where the version has one, its description in plain text and
/// its homepage in cyan; then a blank line.
pub proof fn lemma_summary_opening(i: ViewInfo, sorted: Seq<(Seq<char>, Seq<char>)>)
    ensures
        ({
            let s = summary(i, sorted);
            let d: int = if i.description is Some { 1 } else { 0 };
            let h: int = if i.homepage is Some { 1 } else { 0 };
            &&& s.len() > 1 + d + h
            &&& s[0] == BlockView::Line(headline(i))
            &&& (i.description matches Some(t) ==> s[1] == BlockView::Line(seq![(t@, Tone::Plain)]))
            &&& (i.homepage matches Some(t) ==> s[1 + d] == BlockView::Line(seq![(t@, Tone::Cyan)]))
            &&& s[1 + d + h] == BlockView::Line(Seq::empty())
        }),
{
    lemma_top_blocks(i);
    let t = top_blocks(i);
    let s = summary(i, sorted);
    let x1 = t + deprecated_blocks(i);
    let x2 = x1 + keyword_blocks(i);
    let x3 = x2 + bin_blocks(i);
    let x4 = x3 + dist_blocks(i);
    let x5 = x4 + dep_blocks(i, sorted);
    let x6 = x5 + maintainer_blocks(i);
    assert(s == x6 + published_blocks(i));
    assert forall|k: int| 0 <= k < t.len() implies s[k] == t[k] by {
        assert(s[k] == x6[k]);
        assert(x6[k] == x5[k]);
        assert(x5[k] == x4[k]);
        assert(x4[k] == x3[k]);
        assert(x3[k] == x2[k]);
        assert(x2[k] == x1[k]);
        assert(x1[k] == t[k]);
    }
}

/// The opening blocks: the headline; the description in plain text and the
/// homepage in cyan, each where there is one; a blank line.
proof fn lemma_top_blocks(i: ViewInfo)
    ensures
        ({
            let t = top_blocks(i);
            let d: int = if i.description is Some { 1 } else { 0 };
            let h: int = if i.homepage is Some { 1 } else { 0 };
            &&& t.len() == 2 + d + h
            &&& t[0] == BlockView::Line(headline(i))
            &&& (i.description matches Some(x) ==> t[1] == BlockView::Line(seq![(x@, Tone::Plain)]))
            &&& (i.homepage matches Some(x) ==> t[1 + d] == BlockView::Line(seq![(x@, Tone::Cyan)]))
            &&& t[1 + d + h] == BlockView::Line(Seq::empty())
        }),
{
    let d: int = if i.description is Some { 1 } else { 0 };
    let h: int = if i.homepage is Some { 1 } else { 0 };
    let a = seq![line(headline(i))] + opt_line(opt_string_view(i.description), Tone::Plain);
    let b = a + opt_line(opt_string_view(i.homepage), Tone::Cyan);
    let t = top_blocks(i);
    assert(t == b + seq![blank()]);
    assert(a.len() == 1 + d);
    assert(b.len() == 1 + d + h);
    assert(t[0] == a[0]);
    if i.description is Some {
        assert(t[1] == b[1]);
        assert(b[1] == a[1]);
    }
    if i.homepage is Some {
        assert(t[1 + d] == b[1 + d]);
    }
}

fn sp(text: String, tone: Tone) -> (res: Span)
    ensures
        span_view(res) == span(text@, tone),
{
    Span { text, tone }
}

fn lit(text: &str, tone: Tone) -> (res: Span)
    ensures
        span_view(res) == span(text@, tone),
{
    Span { text: String::from_str(text), tone }
}

fn prefixed(prefix: &str, text: &String) -> (res: String)
    ensures
        res@ == prefix@ + text@,
{
    let mut s = String::from_str(prefix);
    s.append(text.as_str());
    s
}

fn text_or(o: &Option<String>, d: &str) -> (res: String)
    ensures
        res@ == or_text(opt_string_view(*o), d@),
{
    match o {
        Some(t) => t.clone(),
        None => String::from_str(d),
    }
}

fn push_line(out: &mut Vec<Block>, spans: Vec<Span>)
    ensures
        blocks_view(final(out)@) == blocks_view(old(out)@).push(line(spans_view(spans@))),
{
    let ghost before = blocks_view(out@);
    out.push(Block::Line(spans));
    assert(blocks_view(out@) =~= before.push(line(spans_view(spans@))));
}

fn push_listed(spans: &mut Vec<Span>, items: &Vec<String>)
    ensures
        spans_view(final(spans)@) == spans_view(old(spans)@) + listed(crate::graph::strings_view(items@)),
{
    let ghost start = spans_view(spans@);
    let ghost all = crate::graph::strings_view(items@);
    let mut k: usize = 0;
    assert(all.take(0) =~= Seq::<Seq<char>>::empty());
    assert(start + listed(all.take(0)) =~= start);
    while k < items.len()
        invariant
            k <= items.len(),
            all == crate::graph::strings_view(items@),
            spans_view(spans@) == start + listed(all.take(k as int)),
        decreases items.len() - k,
    {
        let ghost before = spans_view(spans@);
        if k > 0 {
            spans.push(lit(", ", Tone::Plain));
        }
        spans.push(sp(items[k].clone(), Tone::Yellow));
        proof {
            assert(all.take(k + 1).drop_last() =~= all.take(k as int));
            assert(all.take(k + 1).last() == items@[k as int]@);
            if k == 0 {
                assert(spans_view(spans@) =~= before.push(span(items@[0]@, Tone::Yellow)));
                assert(listed(all.take(1)) =~= seq![span(all.take(1)[0], Tone::Yellow)]);
                assert(spans_view(spans@) =~= start + listed(all.take(1)));
            } else {
                assert(spans_view(spans@) =~= before + seq![span(", "@, Tone::Plain), span(items@[k as int]@, Tone::Yellow)]);
                assert(spans_view(spans@) =~= start + listed(all.take(k + 1)));
            }
        }
        k = k + 1;
    }
    assert(all.take(k as int) =~= all);
}

fn push_opt_line(out: &mut Vec<Block>, o: &Option<String>, tone: Tone)
    ensures
        blocks_view(final(out)@) == blocks_view(old(out)@) + opt_line(opt_string_view(*o), tone),
{
    let ghost before = blocks_view(out@);
    match o {
        Some(t) => {
            let mut v: Vec<Span> = Vec::new();
            v.push(sp(t.clone(), tone));
            assert(spans_view(v@) =~= seq![span(t@, tone)]);
            push_line(out, v);
            assert(blocks_view(out@) =~= before + opt_line(opt_string_view(*o), tone));
        },
        None => {
            assert(blocks_view(out@) =~= before + opt_line(opt_string_view(*o), tone));
        },
    }
}

fn push_labelled(out: &mut Vec<Block>, label: &str, o: &Option<String>, tone: Tone)
    ensures
        blocks_view(final(out)@) == blocks_view(old(out)@) + labelled(label@, opt_string_view(*o), tone),
{
    let ghost before = blocks_view(out@);
    match o {
        Some(t) => {
            let mut v: Vec<Span> = Vec::new();
            v.push(lit(label, Tone::Plain));
            v.push(sp(t.clone(), tone));
            push_line(out, v);
            assert(spans_view(v@) =~= seq![span(label@, Tone::Plain), span(t@, tone)]);
            assert(blocks_view(out@) =~= before + labelled(label@, opt_string_view(*o), tone));
        },
        None => {
            assert(blocks_view(out@) =~= before + labelled(label@, opt_string_view(*o), tone));
        },
    }
}

fn push_blank(out: &mut Vec<Block>)
    ensures
        blocks_view(final(out)@) == blocks_view(old(out)@).push(blank()),
{
    let v: Vec<Span> = Vec::new();
    assert(spans_view(v@) =~= Seq::<(Seq<char>, Tone)>::empty());
    push_line(out, v);
}

fn email_spans(spans: &mut Vec<Span>, email: &Option<String>)
    ensures
        spans_view(final(spans)@) == spans_view(old(spans)@) + match *email {
            Some(e) => seq![span(" <"@, Tone::Plain), span(e@, Tone::Cyan), span(">"@, Tone::Plain)],
            None => Seq::empty(),
        },
{
    let ghost before = spans_view(spans@);
    match email {
        Some(e) => {
            spans.push(lit(" <", Tone::Plain));
            spans.push(sp(e.clone(), Tone::Cyan));
            spans.push(lit(">", Tone::Plain));
            assert(spans_view(spans@) =~= before + seq![span(" <"@, Tone::Plain), span(e@, Tone::Cyan), span(">"@, Tone::Plain)]);
        },
        None => {
            assert(spans_view(spans@) =~= before);
        },
    }
}

fn person_spans(p: &Person) -> (res: Vec<Span>)
    ensures
        spans_view(res@) == person_line(*p),
{
    let mut v: Vec<Span> = Vec::new();
    match p {
        Person::Text(t) => {
            v.push(lit("- ", Tone::Plain));
            v.push(sp(t.clone(), Tone::Yellow));
            assert(spans_view(v@) =~= person_line(*p));
        },
        Person::Parts { name, email, url } => {
            v.push(lit("-", Tone::Plain));
            let ghost s0 = spans_view(v@);
            match name {
                Some(n) => {
                    v.push(sp(prefixed(" ", n), Tone::Plain));
                },
                None => {},
            }
            let ghost s1 = spans_view(v@);
            email_spans(&mut v, email);
            let ghost s2 = spans_view(v@);
            match url {
                Some(u) => {
                    v.push(lit(" (", Tone::Plain));
                    v.push(sp(u.clone(), Tone::Cyan));
                    v.push(lit(")", Tone::Plain));
                },
                None => {},
            }
            proof {
                assert(s0 =~= seq![span("-"@, Tone::Plain)]);
                let nm = match name {
                    Some(n) => seq![span(" "@ + n@, Tone::Plain)],
                    None => Seq::<(Seq<char>, Tone)>::empty(),
                };
                assert(s1 =~= s0 + nm);
                let ur = match url {
                    Some(u) => seq![span(" ("@, Tone::Plain), span(u@, Tone::Cyan), span(")"@, Tone::Plain)],
                    None => Seq::<(Seq<char>, Tone)>::empty(),
                };
                assert(spans_view(v@) =~= s2 + ur);
                assert(spans_view(v@) =~= person_line(*p));
            }
        },
    }
    v
}

fn dep_cells_exec(sorted: &Vec<(String, String)>) -> (res: Vec<Vec<Span>>)
    ensures
        res@.map_values(|c: Vec<Span>| spans_view(c@)) == dep_cells(pairs_view(sorted@)),
{
    let ghost sv = pairs_view(sorted@);
    let n = if sorted.len() < 25 { sorted.len() } else { 25 };
    let mut cells: Vec<Vec<Span>> = Vec::new();
    let mut k: usize = 0;
    while k < n
        invariant
            k <= n,
            n <= sorted.len(),
            n == (if sorted@.len() < 25 { sorted@.len() } else { 25 }),
            sv == pairs_view(sorted@),
            cells@.map_values(|c: Vec<Span>| spans_view(c@)) == sv.take(k as int).map_values(
                |d: (Seq<char>, Seq<char>)| seq![span(d.0, Tone::Yellow), span(": "@ + d.1, Tone::Plain)],
            ),
        decreases n - k,
    {
        let ghost before = cells@;
        let mut cell: Vec<Span> = Vec::new();
        cell.push(sp(sorted[k].0.clone(), Tone::Yellow));
        cell.push(sp(prefixed(": ", &sorted[k].1), Tone::Plain));
        proof {
            assert(spans_view(cell@) =~= seq![span(sv[k as int].0, Tone::Yellow), span(": "@ + sv[k as int].1, Tone::Plain)]);
        }
        let ghost cv = spans_view(cell@);
        cells.push(cell);
        proof {
            assert(cells@ =~= before.push(cell));
            assert(cells@.map_values(|c: Vec<Span>| spans_view(c@)) =~= before.map_values(|c: Vec<Span>| spans_view(c@)).push(cv));
            assert(sv.take(k + 1) =~= sv.take(k as int).push(sv[k as int]));
            assert(sv.take(k + 1).map_values(
                |d: (Seq<char>, Seq<char>)| seq![span(d.0, Tone::Yellow), span(": "@ + d.1, Tone::Plain)],
            ) =~= sv.take(k as int).map_values(
                |d: (Seq<char>, Seq<char>)| seq![span(d.0, Tone::Yellow), span(": "@ + d.1, Tone::Plain)],
            ).push(cv));
            assert(cells@.map_values(|c: Vec<Span>| spans_view(c@)) =~= sv.take(k + 1).map_values(
                |d: (Seq<char>, Seq<char>)| seq![span(d.0, Tone::Yellow), span(": "@ + d.1, Tone::Plain)],
            ));
        }
        k = k + 1;
    }
    cells
}

fn push_top(out: &mut Vec<Block>, info: &ViewInfo)
    ensures
        blocks_view(final(out)@) == blocks_view(old(out)@) + top_blocks(*info),
{
    let ghost before = blocks_view(out@);
    let mut head: Vec<Span> = Vec::new();
    head.push(sp(text_or(&info.name, ""), Tone::Title));
    head.push(lit("@", Tone::Plain));
    head.push(sp(text_or(&info.version, "0.0.0"), Tone::Title));
    head.push(lit(" | ", Tone::Plain));
    head.push(sp(text_or(&info.license, "Proprietary"), Tone::Green));
    head.push(lit(" | deps: ", Tone::Plain));
    head.push(sp(decimal_text(info.dependencies.len()), Tone::Cyan));
    head.push(lit(" | releases: ", Tone::Plain));
    head.push(sp(decimal_text(info.releases), Tone::Yellow));
    assert(spans_view(head@) =~= headline(*info));
    push_line(out, head);
    push_opt_line(out, &info.description, Tone::Plain);
    push_opt_line(out, &info.homepage, Tone::Cyan);
    push_blank(out);
    assert(blocks_view(out@) =~= before + top_blocks(*info));
}

fn push_deprecated(out: &mut Vec<Block>, info: &ViewInfo)
    ensures
        blocks_view(final(out)@) == blocks_view(old(out)@) + deprecated_blocks(*info),
{
    let ghost before = blocks_view(out@);
    match &info.deprecated {
        Some(m) => {
            let mut v: Vec<Span> = Vec::new();
            v.push(lit("DEPRECATED", Tone::Alert));
            v.push(sp(prefixed(" - ", m), Tone::Plain));
            assert(spans_view(v@) =~= seq![span("DEPRECATED"@, Tone::Alert), span(" - "@ + m@, Tone::Plain)]);
            push_line(out, v);
            push_blank(out);
        },
        None => {},
    }
    assert(blocks_view(out@) =~= before + deprecated_blocks(*info));
}

fn push_keywords(out: &mut Vec<Block>, info: &ViewInfo)
    ensures
        blocks_view(final(out)@) == blocks_view(old(out)@) + keyword_blocks(*info),
{
    let ghost before = blocks_view(out@);
    if info.keywords.len() > 0 {
        let mut v: Vec<Span> = Vec::new();
        v.push(lit("keywords: ", Tone::Plain));
        assert(spans_view(v@) =~= seq![span("keywords: "@, Tone::Plain)]);
        push_listed(&mut v, &info.keywords);
        push_line(out, v);
        push_blank(out);
    }
    assert(blocks_view(out@) =~= before + keyword_blocks(*info));
}

fn bin_names_exec(info: &ViewInfo) -> (res: Vec<String>)
    ensures
        crate::graph::strings_view(res@) == bin_names(*info),
{
    match &info.bin {
        Some(Bins::Single) => {
            let mut n: Vec<String> = Vec::new();
            n.push(text_or(&info.name, ""));
            assert(crate::graph::strings_view(n@) =~= bin_names(*info));
            n
        },
        Some(Bins::Named(ns)) => {
            let mut n: Vec<String> = Vec::new();
            let mut k: usize = 0;
            while k < ns.len()
                invariant
                    k <= ns.len(),
                    crate::graph::strings_view(n@) == crate::graph::strings_view(ns@).take(k as int),
                decreases ns.len() - k,
            {
                let ghost b = crate::graph::strings_view(n@);
                n.push(ns[k].clone());
                assert(crate::graph::strings_view(n@) =~= b.push(ns@[k as int]@));
                assert(crate::graph::strings_view(ns@).take(k + 1) =~= crate::graph::strings_view(ns@).take(k as int).push(ns@[k as int]@));
                k = k + 1;
            }
            assert(crate::graph::strings_view(ns@).take(k as int) =~= crate::graph::strings_view(ns@));
            n
        },
        None => {
            let n: Vec<String> = Vec::new();
            assert(crate::graph::strings_view(n@) =~= bin_names(*info));
            n
        },
    }
}

fn push_bins(out: &mut Vec<Block>, info: &ViewInfo)
    ensures
        blocks_view(final(out)@) == blocks_view(old(out)@) + bin_blocks(*info),
{
    let ghost before = blocks_view(out@);
    if info.bin.is_some() {
        let names = bin_names_exec(info);
        let mut v: Vec<Span> = Vec::new();
        v.push(lit("bins: ", Tone::Plain));
        assert(spans_view(v@) =~= seq![span("bins: "@, Tone::Plain)]);
        push_listed(&mut v, &names);
        push_line(out, v);
        push_blank(out);
    }
    assert(blocks_view(out@) =~= before + bin_blocks(*info));
}

fn push_dist(out: &mut Vec<Block>, info: &ViewInfo)
    ensures
        blocks_view(final(out)@) == blocks_view(old(out)@) + dist_blocks(*info),
{
    let ghost before = blocks_view(out@);
    let mut dist: Vec<Span> = Vec::new();
    dist.push(lit("dist", Tone::Plain));
    assert(spans_view(dist@) =~= seq![span("dist"@, Tone::Plain)]);
    push_line(out, dist);
    push_labelled(out, ".tarball: ", &info.tarball, Tone::Cyan);
    push_labelled(out, ".shasum: ", &info.shasum, Tone::Yellow);
    push_labelled(out, ".integrity: ", &info.integrity, Tone::Yellow);
    let size = match info.unpacked_size {
        Some(n) => Some(decimal_size_text(n)),
        None => None,
    };
    assert(opt_string_view(size) == opt_size(info.unpacked_size));
    push_labelled(out, ".unpackedSize: ", &size, Tone::Yellow);
    push_blank(out);
    assert(blocks_view(out@) =~= before + dist_blocks(*info));
}

fn push_deps(out: &mut Vec<Block>, info: &ViewInfo, sorted: &Vec<(String, String)>)
    requires
        sorted@.len() == info.dependencies@.len(),
    ensures
        blocks_view(final(out)@) == blocks_view(old(out)@) + dep_blocks(*info, pairs_view(sorted@)),
{
    let ghost before = blocks_view(out@);
    let count = info.dependencies.len();
    if count > 0 {
        let cells = dep_cells_exec(sorted);
        let more = if count > 25 { count - 25 } else { 0 };
        out.push(Block::Dependencies { cells, more });
        assert(blocks_view(out@) =~= before.push(BlockView::Dependencies {
            cells: dep_cells(pairs_view(sorted@)),
            more: more as nat,
        }));
        push_blank(out);
    }
    assert(blocks_view(out@) =~= before + dep_blocks(*info, pairs_view(sorted@)));
}

fn push_maintainers(out: &mut Vec<Block>, info: &ViewInfo)
    ensures
        blocks_view(final(out)@) == blocks_view(old(out)@) + maintainer_blocks(*info),
{
    let ghost before = blocks_view(out@);
    if info.maintainers.len() > 0 {
        let mut v: Vec<Span> = Vec::new();
        v.push(lit("maintainers:", Tone::Plain));
        assert(spans_view(v@) =~= seq![span("maintainers:"@, Tone::Plain)]);
        push_line(out, v);
        let ghost head6 = blocks_view(out@);
        let mut k: usize = 0;
        assert(info.maintainers@.take(0).map_values(|p: Person| line(person_line(p))) =~= Seq::<BlockView>::empty());
        while k < info.maintainers.len()
            invariant
                k <= info.maintainers.len(),
                blocks_view(out@) == head6 + info.maintainers@.take(k as int).map_values(
                    |p: Person| line(person_line(p)),
                ),
            decreases info.maintainers.len() - k,
        {
            let spans = person_spans(&info.maintainers[k]);
            let ghost pv = line(person_line(info.maintainers@[k as int]));
            push_line(out, spans);
            proof {
                assert(info.maintainers@.take(k + 1) =~= info.maintainers@.take(k as int).push(info.maintainers@[k as int]));
                assert(info.maintainers@.take(k + 1).map_values(|p: Person| line(person_line(p))) =~= info.maintainers@.take(
                    k as int,
                ).map_values(|p: Person| line(person_line(p))).push(pv));
            }
            k = k + 1;
        }
        assert(info.maintainers@.take(k as int) =~= info.maintainers@);
        push_blank(out);
    }
    assert(blocks_view(out@) =~= before + maintainer_blocks(*info));
}

fn push_published(out: &mut Vec<Block>, info: &ViewInfo)
    ensures
        blocks_view(final(out)@) == blocks_view(old(out)@) + published_blocks(*info),
{
    let ghost before = blocks_view(out@);
    match &info.published {
        Some(p) => {
            let mut v: Vec<Span> = Vec::new();
            v.push(lit("published ", Tone::Plain));
            v.push(sp(p.when.clone(), Tone::Yellow));
            v.push(lit(" by ", Tone::Plain));
            v.push(sp(p.by.clone(), Tone::Yellow));
            assert(spans_view(v@) =~= seq![
                span("published "@, Tone::Plain),
                span(p.when@, Tone::Yellow),
                span(" by "@, Tone::Plain),
                span(p.by@, Tone::Yellow),
            ]);
            email_spans(&mut v, &p.email);
            push_line(out, v);
        },
        None => {},
    }
    assert(blocks_view(out@) =~= before + published_blocks(*info));
}

/// The summary of a package version (without the
/// printing): a headline, description and homepage, a deprecation notice,
/// keywords, executables, the `dist` fields, up to 25 dependencies in
/// sorted order, maintainers, and who published it.
pub fn view_summary(info: &ViewInfo) -> (res: Vec<Block>)
    ensures
        exists|sorted: Seq<(Seq<char>, Seq<char>)>|
            sorted_pairs(sorted) && sorted.to_multiset() == pairs_view(info.dependencies@).to_multiset()
                && blocks_view(res@) == summary(*info, sorted),
{
    broadcast use to_multiset_len;

    let mut out: Vec<Block> = Vec::new();
    assert(blocks_view(out@) =~= Seq::<BlockView>::empty());
    push_top(&mut out, info);
    push_deprecated(&mut out, info);
    push_keywords(&mut out, info);
    push_bins(&mut out, info);
    push_dist(&mut out, info);
    let sorted = sort_pairs(&info.dependencies);
    proof {
        assert(pairs_view(sorted@).to_multiset().len() == pairs_view(info.dependencies@).to_multiset().len());
    }
    push_deps(&mut out, info, &sorted);
    push_maintainers(&mut out, info);
    push_published(&mut out, info);
    proof {
        assert(blocks_view(out@) =~= summary(*info, pairs_view(sorted@)));
    }
    out
}

} // verus!

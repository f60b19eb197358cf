//! Semantic versions and version ranges, as used by npm.
//!
//! A [`Version`] is held by value, and its precedence is computed and proved
//! here. A [`VersionRange`] is parsed and matched by the `node-semver` crate;
//! what that crate computes about a range is named by the uninterpreted
//! functions below and reached only through the trusted wrappers in this
//! module.

use vstd::prelude::*;
use vstd::string::*;

use node_semver::Identifier as NsIdentifier;
use node_semver::Range as NsRange;
use node_semver::Version as NsVersion;

use crate::view::decimal;

verus! {

/// An identifier of a prerelease or build component of a version.
#[derive(Debug)]
pub enum Identifier {
    /// An identifier that's solely numbers.
    Numeric(u64),
    /// An identifier with letters and numbers.
    AlphaNumeric(String),
}

/// The mathematical value of an [`Identifier`].
pub enum IdentView {
    Numeric(u64),
    AlphaNumeric(Seq<char>),
}

impl View for Identifier {
    type V = IdentView;

    open spec fn view(&self) -> IdentView {
        match self {
            Identifier::Numeric(n) => IdentView::Numeric(*n),
            Identifier::AlphaNumeric(s) => IdentView::AlphaNumeric(s@),
        }
    }
}

impl Clone for Identifier {
    fn clone(&self) -> (res: Self)
        ensures
            res == *self,
    {
        match self {
            Identifier::Numeric(n) => Identifier::Numeric(*n),
            Identifier::AlphaNumeric(s) => Identifier::AlphaNumeric(s.clone()),
        }
    }
}

fn clone_idents(ids: &Vec<Identifier>) -> (res: Vec<Identifier>)
    ensures
        res@ == ids@,
{
    let mut out: Vec<Identifier> = Vec::new();
    let mut i: usize = 0;
    while i < ids.len()
        invariant
            i <= ids.len(),
            out@.len() == i,
            forall|k: int| 0 <= k < i ==> out@[k] == ids@[k],
        decreases ids.len() - i,
    {
        out.push(ids[i].clone());
        i = i + 1;
    }
    assert(out@ =~= ids@);
    out
}

/// A semantic version.
#[derive(Debug)]
pub struct Version {
    pub major: u64,
    pub minor: u64,
    pub patch: u64,
    pub build: Vec<Identifier>,
    pub pre_release: Vec<Identifier>,
}

/// The mathematical value of a [`Version`].
pub struct VersionView {
    pub major: u64,
    pub minor: u64,
    pub patch: u64,
    pub build: Seq<IdentView>,
    pub pre_release: Seq<IdentView>,
}

pub open spec fn idents_view(ids: Seq<Identifier>) -> Seq<IdentView> {
    ids.map_values(|i: Identifier| i@)
}

impl View for Version {
    type V = VersionView;

    open spec fn view(&self) -> VersionView {
        VersionView {
            major: self.major,
            minor: self.minor,
            patch: self.patch,
            build: idents_view(self.build@),
            pre_release: idents_view(self.pre_release@),
        }
    }
}

/// Two versions are the same version when they agree on everything but
/// build metadata.
pub open spec fn same_version(a: VersionView, b: VersionView) -> bool {
    &&& a.major == b.major
    &&& a.minor == b.minor
    &&& a.patch == b.patch
    &&& a.pre_release == b.pre_release
}

/// Three-way comparison of integers: -1, 0 or 1.
pub open spec fn int_order(a: int, b: int) -> int {
    if a < b {
        -1
    } else if a > b {
        1
    } else {
        0
    }
}

/// Lexicographic comparison of character sequences from position `i` on,
/// by code point (which is also the byte order of their UTF-8 encoding); a
/// proper prefix comes first.
pub open spec fn chars_order_from(a: Seq<char>, b: Seq<char>, i: int) -> int
    decreases a.len() - i,
{
    if i < 0 || i >= a.len() {
        if i >= 0 && i < b.len() {
            -1
        } else {
            0
        }
    } else if i >= b.len() {
        1
    } else if a[i] == b[i] {
        chars_order_from(a, b, i + 1)
    } else if a[i] < b[i] {
        -1
    } else {
        1
    }
}

/// Identifiers order numeric ones first, numbers by value, others by text.
pub open spec fn ident_order(a: IdentView, b: IdentView) -> int {
    match (a, b) {
        (IdentView::Numeric(x), IdentView::Numeric(y)) => int_order(x as int, y as int),
        (IdentView::Numeric(_), IdentView::AlphaNumeric(_)) => -1,
        (IdentView::AlphaNumeric(_), IdentView::Numeric(_)) => 1,
        (IdentView::AlphaNumeric(x), IdentView::AlphaNumeric(y)) => chars_order_from(x, y, 0),
    }
}

/// Lexicographic comparison of identifier sequences from position `i` on.
pub open spec fn idents_order_from(a: Seq<IdentView>, b: Seq<IdentView>, i: int) -> int
    decreases a.len() - i,
{
    if i < 0 || i >= a.len() {
        if i >= 0 && i < b.len() {
            -1
        } else {
            0
        }
    } else if i >= b.len() {
        1
    } else if ident_order(a[i], b[i]) != 0 {
        ident_order(a[i], b[i])
    } else {
        idents_order_from(a, b, i + 1)
    }
}

/// Semantic-version precedence: major, minor and patch by value; then a
/// version without prerelease identifiers comes after one with them; then the
/// prerelease identifiers lexicographically. Build metadata is ignored.
pub open spec fn version_order(a: VersionView, b: VersionView) -> int {
    if a.major != b.major {
        int_order(a.major as int, b.major as int)
    } else if a.minor != b.minor {
        int_order(a.minor as int, b.minor as int)
    } else if a.patch != b.patch {
        int_order(a.patch as int, b.patch as int)
    } else if a.pre_release.len() == 0 && b.pre_release.len() == 0 {
        0
    } else if a.pre_release.len() == 0 {
        1
    } else if b.pre_release.len() == 0 {
        -1
    } else {
        idents_order_from(a.pre_release, b.pre_release, 0)
    }
}

// ---------------------------------------------------------------------
// Order laws
// ---------------------------------------------------------------------

pub proof fn lemma_chars_order_antisym(a: Seq<char>, b: Seq<char>, i: int)
    requires
        i >= 0,
    ensures
        chars_order_from(a, b, i) == -chars_order_from(b, a, i),
        chars_order_from(a, b, i) == 0 ==> a.skip(i) =~= b.skip(i) || (i >= a.len() && i >= b.len()),
    decreases a.len() - i,
{
    if i < a.len() && i < b.len() && a[i] == b[i] {
        lemma_chars_order_antisym(a, b, i + 1);
        if chars_order_from(a, b, i) == 0 {
            if a.skip(i + 1) =~= b.skip(i + 1) {
                assert(a[i] == b[i]);
                assert forall|k: int| 0 <= k < a.skip(i).len() implies a.skip(i)[k] == b.skip(i)[k] by {
                    if k > 0 {
                        assert(a.skip(i)[k] == a.skip(i + 1)[k - 1]);
                        assert(b.skip(i)[k] == b.skip(i + 1)[k - 1]);
                    }
                }
            }
        }
    }
}

pub proof fn lemma_chars_order_trans(a: Seq<char>, b: Seq<char>, c: Seq<char>, i: int)
    requires
        i >= 0,
        chars_order_from(a, b, i) <= 0,
        chars_order_from(b, c, i) <= 0,
    ensures
        chars_order_from(a, c, i) <= 0,
    decreases a.len() - i,
{
    if i < a.len() && i < b.len() && i < c.len() && a[i] == b[i] && b[i] == c[i] {
        lemma_chars_order_trans(a, b, c, i + 1);
    }
}

proof fn lemma_ident_order_antisym(a: IdentView, b: IdentView)
    ensures
        ident_order(a, b) == -ident_order(b, a),
        ident_order(a, b) == 0 ==> a == b,
{
    match (a, b) {
        (IdentView::AlphaNumeric(x), IdentView::AlphaNumeric(y)) => {
            lemma_chars_order_antisym(x, y, 0);
            if ident_order(a, b) == 0 {
                if !(x.len() == 0 && y.len() == 0) {
                    assert(x.skip(0) =~= x);
                    assert(y.skip(0) =~= y);
                } else {
                    assert(x =~= y);
                }
            }
        },
        _ => {},
    }
}

proof fn lemma_ident_order_trans(a: IdentView, b: IdentView, c: IdentView)
    requires
        ident_order(a, b) <= 0,
        ident_order(b, c) <= 0,
    ensures
        ident_order(a, c) <= 0,
{
    match (a, b, c) {
        (
            IdentView::AlphaNumeric(x),
            IdentView::AlphaNumeric(y),
            IdentView::AlphaNumeric(z),
        ) => {
            lemma_chars_order_trans(x, y, z, 0);
        },
        _ => {},
    }
}

proof fn lemma_idents_order_antisym(a: Seq<IdentView>, b: Seq<IdentView>, i: int)
    requires
        i >= 0,
    ensures
        idents_order_from(a, b, i) == -idents_order_from(b, a, i),
        idents_order_from(a, b, i) == 0 ==> a.skip(i) =~= b.skip(i) || (i >= a.len() && i
            >= b.len()),
    decreases a.len() - i,
{
    if i < a.len() && i < b.len() {
        lemma_ident_order_antisym(a[i], b[i]);
        if ident_order(a[i], b[i]) == 0 {
            lemma_idents_order_antisym(a, b, i + 1);
            if idents_order_from(a, b, i) == 0 {
                assert forall|k: int| 0 <= k < a.skip(i).len() implies a.skip(i)[k] == b.skip(
                    i,
                )[k] by {
                    if k > 0 {
                        assert(a.skip(i)[k] == a.skip(i + 1)[k - 1]);
                        assert(b.skip(i)[k] == b.skip(i + 1)[k - 1]);
                    }
                }
            }
        }
    }
}

proof fn lemma_idents_order_trans(a: Seq<IdentView>, b: Seq<IdentView>, c: Seq<IdentView>, i: int)
    requires
        i >= 0,
        idents_order_from(a, b, i) <= 0,
        idents_order_from(b, c, i) <= 0,
    ensures
        idents_order_from(a, c, i) <= 0,
    decreases a.len() - i,
{
    if i < a.len() && i < b.len() && i < c.len() {
        lemma_ident_order_antisym(a[i], b[i]);
        lemma_ident_order_antisym(b[i], c[i]);
        lemma_ident_order_antisym(a[i], c[i]);
        lemma_ident_order_trans(a[i], b[i], c[i]);
        if ident_order(a[i], b[i]) == 0 && ident_order(b[i], c[i]) == 0 {
            lemma_idents_order_trans(a, b, c, i + 1);
        } else if ident_order(a[i], c[i]) == 0 {
            // a[i] == c[i], so a[i] <= b[i] <= a[i] forces both equalities
            lemma_ident_order_trans(b[i], c[i], a[i]);
            lemma_ident_order_trans(c[i], a[i], b[i]);
        }
    }
}

/// Precedence is antisymmetric, and only the same version compares equal.
pub proof fn lemma_version_order_antisym(a: VersionView, b: VersionView)
    ensures
        version_order(a, b) == -version_order(b, a),
        version_order(a, b) == 0 <==> same_version(a, b),
{
    lemma_idents_order_antisym(a.pre_release, b.pre_release, 0);
    if version_order(a, b) == 0 {
        if a.pre_release.len() > 0 && b.pre_release.len() > 0 {
            assert(a.pre_release.skip(0) =~= a.pre_release);
            assert(b.pre_release.skip(0) =~= b.pre_release);
        } else {
            assert(a.pre_release =~= b.pre_release);
        }
    }
    if same_version(a, b) && a.pre_release.len() > 0 {
        lemma_idents_refl(a.pre_release, 0);
    }
}

proof fn lemma_idents_refl(a: Seq<IdentView>, i: int)
    requires
        i >= 0,
    ensures
        idents_order_from(a, a, i) == 0,
    decreases a.len() - i,
{
    if i < a.len() {
        lemma_ident_order_antisym(a[i], a[i]);
        lemma_idents_refl(a, i + 1);
    }
}

/// Precedence is transitive.
pub proof fn lemma_version_order_trans(a: VersionView, b: VersionView, c: VersionView)
    requires
        version_order(a, b) <= 0,
        version_order(b, c) <= 0,
    ensures
        version_order(a, c) <= 0,
{
    if a.major == b.major && b.major == c.major && a.minor == b.minor && b.minor == c.minor
        && a.patch == b.patch && b.patch == c.patch && a.pre_release.len() > 0
        && b.pre_release.len() > 0 && c.pre_release.len() > 0 {
        lemma_idents_order_trans(a.pre_release, b.pre_release, c.pre_release, 0);
    }
}

// ---------------------------------------------------------------------
// Executable comparison
// ---------------------------------------------------------------------

pub fn chars_order(a: &String, b: &String) -> (res: i8)
    ensures
        res as int == chars_order_from(a@, b@, 0),
{
    let sa = a.as_str();
    let sb = b.as_str();
    let la = sa.unicode_len();
    let lb = sb.unicode_len();
    let mut i: usize = 0;
    while i < la && i < lb
        invariant
            la == a@.len(),
            lb == b@.len(),
            sa@ == a@,
            sb@ == b@,
            i <= la,
            i <= lb,
            chars_order_from(a@, b@, 0) == chars_order_from(a@, b@, i as int),
        decreases la - i,
    {
        let x = sa.get_char(i);
        let y = sb.get_char(i);
        if x != y {
            if x < y {
                return -1;
            } else {
                return 1;
            }
        }
        i = i + 1;
    }
    if i < lb {
        -1
    } else if i < la {
        1
    } else {
        0
    }
}

fn u64_order(a: u64, b: u64) -> (res: i8)
    ensures
        res as int == int_order(a as int, b as int),
{
    if a < b {
        -1
    } else if a > b {
        1
    } else {
        0
    }
}

fn ident_order_exec(a: &Identifier, b: &Identifier) -> (res: i8)
    ensures
        res as int == ident_order(a@, b@),
{
    match (a, b) {
        (Identifier::Numeric(x), Identifier::Numeric(y)) => u64_order(*x, *y),
        (Identifier::Numeric(_), Identifier::AlphaNumeric(_)) => -1,
        (Identifier::AlphaNumeric(_), Identifier::Numeric(_)) => 1,
        (Identifier::AlphaNumeric(x), Identifier::AlphaNumeric(y)) => chars_order(x, y),
    }
}

fn idents_order(a: &Vec<Identifier>, b: &Vec<Identifier>) -> (res: i8)
    ensures
        res as int == idents_order_from(idents_view(a@), idents_view(b@), 0),
{
    let ghost va = idents_view(a@);
    let ghost vb = idents_view(b@);
    let mut i: usize = 0;
    while i < a.len() && i < b.len()
        invariant
            va == idents_view(a@),
            vb == idents_view(b@),
            va.len() == a.len(),
            vb.len() == b.len(),
            i <= a.len(),
            i <= b.len(),
            idents_order_from(va, vb, 0) == idents_order_from(va, vb, i as int),
        decreases a.len() - i,
    {
        let c = ident_order_exec(&a[i], &b[i]);
        assert(va[i as int] == a@[i as int]@);
        assert(vb[i as int] == b@[i as int]@);
        if c != 0 {
            return c;
        }
        i = i + 1;
    }
    if i < b.len() {
        -1
    } else if i < a.len() {
        1
    } else {
        0
    }
}

impl Clone for Version {
    fn clone(&self) -> (res: Self)
        ensures
            res@ == self@,
    {
        Version {
            major: self.major,
            minor: self.minor,
            patch: self.patch,
            build: clone_idents(&self.build),
            pre_release: clone_idents(&self.pre_release),
        }
    }
}

impl Version {
    /// The version as text (see [`version_text`]), as `node-semver` writes
    /// it.
    pub fn to_text(&self) -> (res: String)
        ensures
            res@ == version_text(self@),
    {
        version_string(self)
    }

    /// A version with the given major, minor and patch numbers and no
    /// prerelease or build identifiers.
    pub fn new(major: u64, minor: u64, patch: u64) -> (res: Version)
        ensures
            res@.major == major,
            res@.minor == minor,
            res@.patch == patch,
            res@.pre_release.len() == 0,
            res@.build.len() == 0,
    {
        Version { major, minor, patch, build: Vec::new(), pre_release: Vec::new() }
    }

    /// Semantic-version precedence: -1 if `self` comes first, 1 if `other`
    /// does, 0 when they are the same version.
    pub fn precedence(&self, other: &Version) -> (res: i8)
        ensures
            res as int == version_order(self@, other@),
    {
        if self.major != other.major {
            return u64_order(self.major, other.major);
        }
        if self.minor != other.minor {
            return u64_order(self.minor, other.minor);
        }
        if self.patch != other.patch {
            return u64_order(self.patch, other.patch);
        }
        let la = self.pre_release.len();
        let lb = other.pre_release.len();
        if la == 0 && lb == 0 {
            0
        } else if la == 0 {
            1
        } else if lb == 0 {
            -1
        } else {
            idents_order(&self.pre_release, &other.pre_release)
        }
    }

    /// Whether two versions are the same version (build metadata is
    /// ignored).
    pub fn same(&self, other: &Version) -> (res: bool)
        ensures
            res == same_version(self@, other@),
    {
        let c = self.precedence(other);
        proof {
            lemma_version_order_antisym(self@, other@);
        }
        c == 0
    }
}

// ---------------------------------------------------------------------
// Writing a version
// ---------------------------------------------------------------------

/// The text of an identifier: its number in decimal, or its characters.
pub open spec fn ident_text(i: IdentView) -> Seq<char> {
    match i {
        IdentView::Numeric(n) => decimal(n as nat),
        IdentView::AlphaNumeric(s) => s,
    }
}

/// Identifiers joined by dots after `lead`; nothing where there are none.
pub open spec fn idents_text(ids: Seq<IdentView>, lead: char) -> Seq<char>
    decreases ids.len(),
{
    if ids.len() == 0 {
        Seq::empty()
    } else if ids.len() == 1 {
        seq![lead] + ident_text(ids[0])
    } else {
        idents_text(ids.drop_last(), lead) + seq!['.'] + ident_text(ids.last())
    }
}

/// The text of a version: `major.minor.patch`, then `-` and the
/// prerelease identifiers, then `+` and the build identifiers.
pub open spec fn version_text(v: VersionView) -> Seq<char> {
    decimal(v.major as nat) + seq!['.'] + decimal(v.minor as nat) + seq!['.'] + decimal(v.patch as nat)
        + idents_text(v.pre_release, '-') + idents_text(v.build, '+')
}

/// Writes a version with `node_semver::Version`'s `Display`.
///
/// Trusted: the text is [`version_text`] of the version, which is what
/// that implementation writes: the three numbers joined by dots, each
/// identifier list after its `-` or `+`, its identifiers joined by dots.
#[verifier::external_body]
pub(crate) fn version_string(version: &Version) -> (res: String)
    ensures
        res@ == version_text(version@),
{
    let conv = |ids: &Vec<Identifier>| -> Vec<NsIdentifier> {
        ids.iter().map(|i| match i {
            Identifier::Numeric(n) => NsIdentifier::Numeric(*n),
            Identifier::AlphaNumeric(s) => NsIdentifier::AlphaNumeric(s.clone()),
        }).collect()
    };
    NsVersion { major: version.major, minor: version.minor, patch: version.patch,
        build: conv(&version.build), pre_release: conv(&version.pre_release) }.to_string()
}

// ---------------------------------------------------------------------
// Parsing (node-semver)
// ---------------------------------------------------------------------

/// What `node_semver::Version::parse` makes of a text: `None` where it
/// reports an error, else the version it parses.
pub uninterp spec fn parsed_version(text: Seq<char>) -> Option<VersionView>;

/// A parse failure reported by `node-semver`, with its message.
#[derive(Debug, Clone)]
pub struct SemverError {
    pub message: String,
}

/// Parses a version with `node_semver::Version::parse`.
///
/// Trusted: the result is `Ok` exactly when the crate's parser accepts the
/// text, and then holds the version that it parsed, identifier for
/// identifier. The error message is not specified.
#[verifier::external_body]
fn ns_parse_version(text: &str) -> (res: Result<Version, SemverError>)
    ensures
        res is Ok <==> parsed_version(text@) is Some,
        res matches Ok(v) ==> parsed_version(text@) == Some(v@),
{
    let conv = |ids: Vec<NsIdentifier>| -> Vec<Identifier> {
        ids.into_iter().map(|i| match i {
            NsIdentifier::Numeric(n) => Identifier::Numeric(n),
            NsIdentifier::AlphaNumeric(s) => Identifier::AlphaNumeric(s),
        }).collect()
    };
    match NsVersion::parse(text) {
        Ok(v) => Ok(Version { major: v.major, minor: v.minor, patch: v.patch,
            build: conv(v.build), pre_release: conv(v.pre_release) }),
        Err(e) => Err(SemverError { message: e.to_string() }),
    }
}

/// Parses a version (see [`parsed_version`]).
pub fn parse_version(text: &str) -> (res: Result<Version, SemverError>)
    ensures
        res is Ok <==> parsed_version(text@) is Some,
        res matches Ok(v) ==> parsed_version(text@) == Some(v@),
{
    ns_parse_version(text)
}

/// Whether `node_semver::Range::parse` accepts a text.
pub uninterp spec fn range_parses(text: Seq<char>) -> bool;

/// Whether the range parsed from `range` by `node-semver` is satisfied by
/// `version` (`node_semver::Range::satisfies`).
pub uninterp spec fn range_satisfies(range: Seq<char>, version: VersionView) -> bool;

#[verifier::external_type_specification]
#[verifier::external_body]
pub struct ExNsRange(NsRange);

/// Clones a parsed range (`Clone` derived in `node-semver`).
///
/// Trusted: the clone is the same range.
pub assume_specification[ <NsRange as Clone>::clone ](r: &NsRange) -> (res: NsRange)
    ensures
        res == *r,
;

/// Whether the range parsed from a text equals `node_semver::Range::any()`.
pub uninterp spec fn range_is_any(range: Seq<char>) -> bool;

/// Whether the ranges parsed from two texts are equal (`PartialEq` derived
/// in `node-semver`).
pub uninterp spec fn ranges_equal(a: Seq<char>, b: Seq<char>) -> bool;

/// A version range, held with the text it was parsed from.
///
/// Its fields are private and its only constructor is [`VersionRange::parse`],
/// so the parsed range is always the one that `node-semver` makes of `text`.
#[derive(Debug)]
pub struct VersionRange {
    text: String,
    range: NsRange,
}

impl View for VersionRange {
    type V = Seq<char>;

    closed spec fn view(&self) -> Seq<char> {
        self.text@
    }
}

impl Clone for VersionRange {
    fn clone(&self) -> (res: Self)
        ensures
            res == *self,
    {
        VersionRange { text: self.text.clone(), range: self.range.clone() }
    }
}

/// Parses a range with `node_semver::Range::parse`.
///
/// Trusted: `Ok` exactly when the crate accepts the text; the range then
/// keeps the text, which is what its view is. The error message is not
/// specified.
#[verifier::external_body]
fn ns_range_parse(text: &str) -> (res: Result<VersionRange, SemverError>)
    ensures
        res is Ok <==> range_parses(text@),
        res matches Ok(r) ==> r@ == text@,
{
    match NsRange::parse(text) {
        Ok(range) => Ok(VersionRange { text: text.to_string(), range }),
        Err(e) => Err(SemverError { message: e.to_string() }),
    }
}

/// Whether a parsed range equals `node_semver::Range::any()`.
///
/// Trusted: the result is the named value [`range_is_any`] of the range's
/// text.
#[verifier::external_body]
fn ns_range_is_any(r: &VersionRange) -> (res: bool)
    ensures
        res == range_is_any(r@),
{
    r.range == NsRange::any()
}

/// Whether two parsed ranges are equal (`PartialEq` of `node_semver::Range`).
///
/// Trusted: the result is the named value [`ranges_equal`] of the two
/// texts; ranges parsed from the same text are equal.
#[verifier::external_body]
fn ns_ranges_equal(a: &VersionRange, b: &VersionRange) -> (res: bool)
    ensures
        res == ranges_equal(a@, b@),
        a@ == b@ ==> res,
{
    a.range == b.range
}

/// Whether `version` lies in a parsed range (`node_semver::Range::satisfies`).
///
/// Trusted: the result is the named value [`range_satisfies`] of the
/// range's text and the version, which is what the crate computes for the
/// range it parsed from that text.
#[verifier::external_body]
fn ns_range_satisfies(r: &VersionRange, version: &Version) -> (res: bool)
    ensures
        res == range_satisfies(r@, version@),
{
    let conv = |ids: &Vec<Identifier>| -> Vec<NsIdentifier> {
        ids.iter().map(|i| match i {
            Identifier::Numeric(n) => NsIdentifier::Numeric(*n),
            Identifier::AlphaNumeric(s) => NsIdentifier::AlphaNumeric(s.clone()),
        }).collect()
    };
    r.range.satisfies(&NsVersion { major: version.major, minor: version.minor,
        patch: version.patch, build: conv(&version.build), pre_release: conv(&version.pre_release) })
}

impl VersionRange {
    /// Parses a range (see [`range_parses`]); the range keeps its text.
    pub fn parse(text: &str) -> (res: Result<VersionRange, SemverError>)
        ensures
            res is Ok <==> range_parses(text@),
            res matches Ok(r) ==> r@ == text@,
    {
        ns_range_parse(text)
    }

    /// Whether this range is the one that matches any version.
    pub fn is_any(&self) -> (res: bool)
        ensures
            res == range_is_any(self@),
    {
        ns_range_is_any(self)
    }

    /// Whether two ranges are equal as parsed ranges; ranges parsed from
    /// the same text are.
    pub fn same_range(&self, other: &VersionRange) -> (res: bool)
        ensures
            res == ranges_equal(self@, other@),
            self@ == other@ ==> res,
    {
        ns_ranges_equal(self, other)
    }

    /// The text this range was parsed from.
    pub fn as_text(&self) -> (res: &str)
        ensures
            res@ == self@,
    {
        self.text.as_str()
    }

    /// Whether `version` lies in this range (see [`range_satisfies`]).
    pub fn satisfies(&self, version: &Version) -> (res: bool)
        ensures
            res == range_satisfies(self@, version@),
    {
        ns_range_satisfies(self, version)
    }
}

} // verus!

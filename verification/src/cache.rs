//! The content cache's bookkeeping: when written content is buffered in
//! memory, the size header that starts each content file, and the checks
//! a write must pass before it is committed.

use vstd::prelude::*;

use ssri::Integrity;

use crate::integrity::{parse_integrity, parsed_integrity};

verus! {

/// Content of at least this many bytes is buffered in memory when its size
/// is known in advance (and of at most [`max_buffered`] bytes).
pub open spec fn min_buffered() -> int {
    1048576
}

/// The largest content buffered in memory.
pub open spec fn max_buffered() -> int {
    10485760
}

/// Whether content of announced size `size` is buffered in memory rather
/// than streamed to a temporary file.
pub fn buffered_in_memory(size: Option<usize>) -> (res: bool)
    ensures
        res == (size matches Some(s) && min_buffered() <= s <= max_buffered()),
{
    match size {
        Some(s) => 1048576 <= s && s <= 10485760,
        None => false,
    }
}

/// Byte `i` (0 is the most significant) of the big-endian encoding of `v`.
pub open spec fn be_byte(v: u64, i: int) -> u8 {
    ((v >> ((7 - i) * 8) as u64) & 0xff) as u8
}

/// The value of eight big-endian bytes.
pub open spec fn be_value(b: Seq<u8>) -> u64 {
    ((b[0] as u64) << 56) | ((b[1] as u64) << 48) | ((b[2] as u64) << 40) | ((b[3] as u64) << 32)
        | ((b[4] as u64) << 24) | ((b[5] as u64) << 16) | ((b[6] as u64) << 8) | (b[7] as u64)
}

/// The eight-byte header of a content file: the content's size, big-endian
/// (`u64::to_be_bytes`).
pub fn size_header(size: u64) -> (res: Vec<u8>)
    ensures
        res@.len() == 8,
        forall|i: int| 0 <= i < 8 ==> #[trigger] res@[i] == be_byte(size, i),
{
    let mut out: Vec<u8> = Vec::new();
    out.push(((size >> 56u64) & 0xff) as u8);
    out.push(((size >> 48u64) & 0xff) as u8);
    out.push(((size >> 40u64) & 0xff) as u8);
    out.push(((size >> 32u64) & 0xff) as u8);
    out.push(((size >> 24u64) & 0xff) as u8);
    out.push(((size >> 16u64) & 0xff) as u8);
    out.push(((size >> 8u64) & 0xff) as u8);
    out.push((size & 0xff) as u8);
    proof {
        assert(size >> 0u64 == size) by (bit_vector);
    }
    out
}

/// The size a content file's header announces (`u64::from_be_bytes`).
pub fn header_size(header: &Vec<u8>) -> (res: u64)
    requires
        header@.len() == 8,
    ensures
        res == be_value(header@),
{
    ((header[0] as u64) << 56u64) | ((header[1] as u64) << 48u64) | ((header[2] as u64) << 40u64)
        | ((header[3] as u64) << 32u64) | ((header[4] as u64) << 24u64) | ((header[5] as u64) << 16u64)
        | ((header[6] as u64) << 8u64) | (header[7] as u64)
}

/// Reading a header gives back the size it was written with.
pub proof fn lemma_header_round_trip(size: u64, header: Seq<u8>)
    requires
        header.len() == 8,
        forall|i: int| 0 <= i < 8 ==> #[trigger] header[i] == be_byte(size, i),
    ensures
        be_value(header) == size,
{
    let b0 = header[0];
    let b1 = header[1];
    let b2 = header[2];
    let b3 = header[3];
    let b4 = header[4];
    let b5 = header[5];
    let b6 = header[6];
    let b7 = header[7];
    assert(b0 == be_byte(size, 0));
    assert(b1 == be_byte(size, 1));
    assert(b2 == be_byte(size, 2));
    assert(b3 == be_byte(size, 3));
    assert(b4 == be_byte(size, 4));
    assert(b5 == be_byte(size, 5));
    assert(b6 == be_byte(size, 6));
    assert(b7 == be_byte(size, 7));
    assert(((b0 as u64) << 56) | ((b1 as u64) << 48) | ((b2 as u64) << 40) | ((b3 as u64) << 32)
        | ((b4 as u64) << 24) | ((b5 as u64) << 16) | ((b6 as u64) << 8) | (b7 as u64) == size) by (bit_vector)
        requires
            b0 == ((size >> 56u64) & 0xff) as u8,
            b1 == ((size >> 48u64) & 0xff) as u8,
            b2 == ((size >> 40u64) & 0xff) as u8,
            b3 == ((size >> 32u64) & 0xff) as u8,
            b4 == ((size >> 24u64) & 0xff) as u8,
            b5 == ((size >> 16u64) & 0xff) as u8,
            b6 == ((size >> 8u64) & 0xff) as u8,
            b7 == ((size >> 0u64) & 0xff) as u8,
    ;
}

/// Why a write to the cache was refused.
#[derive(Debug)]
pub enum CommitError {
    /// The content's integrity does not match the one the write expected.
    IntegrityCheck { wanted: String, found: String },
    /// Fewer or more bytes were written than announced.
    Size { expected: usize, written: usize },
}

/// Whether `ssri` finds that `actual` matches `expected`: both parse, and
/// a hash of `expected` under the algorithm `actual` prefers equals one of
/// `actual`'s.
pub uninterp spec fn integrity_matches(expected: Seq<char>, actual: Seq<char>) -> bool;

/// Whether an integrity text parses to at least one hash (what `ssri`
/// writes back for a parsed integrity is empty exactly when it holds no
/// hash).
pub open spec fn has_hashes(text: Seq<char>) -> bool {
    parsed_integrity(text) matches Some(s) && s.len() > 0
}

/// Whether `actual` has hashes and `expected` matches it.
pub open spec fn sri_match(expected: Seq<char>, actual: Seq<char>) -> bool {
    has_hashes(actual) && integrity_matches(expected, actual)
}

/// Compares two integrities with `ssri::Integrity::matches`.
///
/// Trusted: the result is the named value [`integrity_matches`] of the two
/// texts; a text that does not parse matches nothing. `matches` reads the
/// first hash of `actual`, so `actual` must parse to at least one.
#[verifier::external_body]
fn sri_matches(expected: &str, actual: &str) -> (res: bool)
    requires
        has_hashes(actual@),
    ensures
        res == integrity_matches(expected@, actual@),
{
    match (expected.parse::<Integrity>(), actual.parse::<Integrity>()) {
        (Ok(e), Ok(a)) => e.matches(&a).is_some(),
        _ => false,
    }
}

/// What a commit comes to.
pub enum CommitOutcome {
    Recorded(Seq<char>),
    IntegrityCheck(Seq<char>, Seq<char>),
    Size(usize, usize),
}

/// A commit records the content's integrity, unless an expected integrity
/// was given that it does not match (an integrity with no hash matches
/// nothing), or else a size was announced that is
/// not the number of bytes written.
pub open spec fn commit_outcome(
    expected_sri: Option<Seq<char>>,
    actual_sri: Seq<char>,
    expected_size: Option<usize>,
    written: usize,
) -> CommitOutcome {
    match expected_sri {
        Some(e) if !sri_match(e, actual_sri) => CommitOutcome::IntegrityCheck(e, actual_sri),
        _ => match expected_size {
            Some(s) if s != written => CommitOutcome::Size(s, written),
            _ => CommitOutcome::Recorded(actual_sri),
        },
    }
}

pub open spec fn commit_outcome_of(r: Result<String, CommitError>) -> CommitOutcome {
    match r {
        Ok(s) => CommitOutcome::Recorded(s@),
        Err(CommitError::IntegrityCheck { wanted, found }) => CommitOutcome::IntegrityCheck(wanted@, found@),
        Err(CommitError::Size { expected, written }) => CommitOutcome::Size(expected, written),
    }
}

/// The integrity a finished write records (see [`commit_outcome`]).
pub fn commit_check(
    expected_sri: &Option<String>,
    actual_sri: String,
    expected_size: Option<usize>,
    written: usize,
) -> (res: Result<String, CommitError>)
    ensures
        commit_outcome_of(res) == commit_outcome(
            crate::spec::opt_string_view(*expected_sri),
            actual_sri@,
            expected_size,
            written,
        ),
{
    if let Some(e) = expected_sri {
        let usable = match parse_integrity(actual_sri.as_str()) {
            Ok(t) => t.as_str().unicode_len() > 0,
            Err(_) => false,
        };
        if !usable || !sri_matches(e.as_str(), actual_sri.as_str()) {
            return Err(CommitError::IntegrityCheck { wanted: e.clone(), found: actual_sri });
        }
    }
    if let Some(s) = expected_size {
        if s != written {
            return Err(CommitError::Size { expected: s, written });
        }
    }
    Ok(actual_sri)
}

/// Byte accounting of one content write: the announced size, if any, and
/// the bytes written so far.
#[derive(Debug)]
pub struct ContentWriter {
    pub expected_size: Option<usize>,
    pub written: usize,
}

impl ContentWriter {
    /// A write of content of announced size `size`; its header is written
    /// first, holding that size, or 0 where none was announced.
    pub fn new(size: Option<usize>) -> (res: (ContentWriter, Vec<u8>))
        ensures
            res.0.expected_size == size,
            res.0.written == 0,
            res.1@.len() == 8,
            forall|i: int| 0 <= i < 8 ==> #[trigger] res.1@[i] == be_byte(
                match size {
                    Some(s) => s as u64,
                    None => 0,
                },
                i,
            ),
    {
        let header = match size {
            Some(s) => size_header(s as u64),
            None => size_header(0),
        };
        (ContentWriter { expected_size: size, written: 0 }, header)
    }

    /// `n` more bytes were written.
    pub fn wrote(&mut self, n: usize)
        requires
            old(self).written + n <= usize::MAX,
        ensures
            final(self).written == old(self).written + n,
            final(self).expected_size == old(self).expected_size,
    {
        self.written = self.written + n;
    }

    /// The end of the write: where a size was announced,
    /// it must be the number of bytes written; where none was, the header
    /// is rewritten with that number, which is returned.
    pub fn close(&self) -> (res: Result<Option<Vec<u8>>, CommitError>)
        ensures
            match self.expected_size {
                Some(s) => if s != self.written {
                    res matches Err(CommitError::Size { expected, written }) && expected == s && written == self.written
                } else {
                    res matches Ok(None)
                },
                None => res matches Ok(Some(h)) && h@.len() == 8 && forall|i: int|
                    0 <= i < 8 ==> #[trigger] h@[i] == be_byte(self.written as u64, i),
            },
    {
        match self.expected_size {
            None => Ok(Some(size_header(self.written as u64))),
            Some(s) => {
                if s != self.written {
                    Err(CommitError::Size { expected: s, written: self.written })
                } else {
                    Ok(None)
                }
            },
        }
    }
}

/// What committing a write comes to: the write is closed first, which
/// fails where an announced size is not the number of bytes written; then
/// the integrity is checked as in [`commit_outcome`].
pub open spec fn write_commit_outcome(
    expected_size: Option<usize>,
    written: usize,
    expected_sri: Option<Seq<char>>,
    actual_sri: Seq<char>,
) -> CommitOutcome {
    match expected_size {
        Some(s) if s != written => CommitOutcome::Size(s, written),
        _ => commit_outcome(expected_sri, actual_sri, expected_size, written),
    }
}

impl ContentWriter {
    /// Commits the write: closes it, then checks the content's integrity
    /// `actual_sri` against the expected one (see
    /// [`write_commit_outcome`]). On success, returns the integrity to
    /// record and, where no size was announced, the rewritten header.
    pub fn commit(&self, expected_sri: &Option<String>, actual_sri: String) -> (res: Result<
        (String, Option<Vec<u8>>),
        CommitError,
    >)
        ensures
            match res {
                Ok((sri, header)) => write_commit_outcome(
                    self.expected_size,
                    self.written,
                    crate::spec::opt_string_view(*expected_sri),
                    actual_sri@,
                ) == CommitOutcome::Recorded(sri@) && (self.expected_size is None <==> header is Some) && (
                header matches Some(h) ==> h@.len() == 8 && forall|i: int|
                    0 <= i < 8 ==> #[trigger] h@[i] == be_byte(self.written as u64, i)),
                Err(e) => commit_outcome_of(Err(e)) == write_commit_outcome(
                    self.expected_size,
                    self.written,
                    crate::spec::opt_string_view(*expected_sri),
                    actual_sri@,
                ),
            },
    {
        let header = match self.close() {
            Ok(h) => h,
            Err(e) => {
                return Err(e);
            },
        };
        match commit_check(expected_sri, actual_sri, self.expected_size, self.written) {
            Ok(sri) => Ok((sri, header)),
            Err(e) => Err(e),
        }
    }
}

} // verus!

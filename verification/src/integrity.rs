//! Subresource-integrity strings, parsed and hashed by the `ssri` crate.

use vstd::prelude::*;

use ssri::Integrity;

verus! {

/// What `ssri` makes of an integrity text: `None` where `str::parse` for
/// `ssri::Integrity` reports an error, else the parsed value written back
/// out with its `Display` (hashes sorted, separated by single spaces).
pub uninterp spec fn parsed_integrity(text: Seq<char>) -> Option<Seq<char>>;

/// Parses an integrity string with `ssri::Integrity`'s `FromStr`.
///
/// Trusted: `Ok` exactly when `ssri` accepts the text, holding the parsed
/// value as `ssri` writes it out. The error message is not specified.
#[verifier::external_body]
pub(crate) fn parse_integrity(text: &str) -> (res: Result<String, String>)
    ensures
        res is Ok <==> parsed_integrity(text@) is Some,
        res matches Ok(s) ==> parsed_integrity(text@) == Some(s@),
{
    match text.parse::<Integrity>() {
        Ok(sri) => Ok(sri.to_string()),
        Err(e) => Err(e.to_string()),
    }
}

/// The lowercase hex digest of the SHA-256 of `data`
/// (`ssri::Integrity::from(data).to_hex().1`).
pub uninterp spec fn sha256_hex(data: Seq<char>) -> Seq<char>;

/// Hashes a text with `ssri::Integrity::from` and returns the hex digest
/// from `to_hex`.
///
/// Trusted: the result is the named digest of the text, which `ssri`
/// computes from the text's UTF-8 bytes alone; it is 64 hex characters
/// long. `Integrity::from` always produces one hash, so `to_hex` does not
/// panic here.
#[verifier::external_body]
pub(crate) fn sha256_hex_of(data: &str) -> (res: String)
    ensures
        res@ == sha256_hex(data@),
        res@.len() == 64,
{
    Integrity::from(data).to_hex().1
}

} // verus!

//! The `http` crate's URI type, and the call into it that parses a URI.
use vstd::prelude::*;
use vstd::string::StringSliceAdditionalSpecFns;

verus! {

/// A URI of the `http` crate (also `hyper::Uri`).
#[verifier::external_type_specification]
#[verifier::external_body]
pub struct ExUri(http::Uri);

/// The error of URI parsing in the `http` crate.
#[verifier::external_type_specification]
#[verifier::external_body]
pub struct ExInvalidUri(http::uri::InvalidUri);

/// What `http::Uri`'s parser gives for the text `s`: the URI, or the error.
pub uninterp spec fn parsed_uri(s: Seq<char>) -> Result<http::Uri, http::uri::InvalidUri>;

/// `<http::Uri as FromStr>::from_str`: parses the text of a URI. Its result,
/// a function of the text alone, is named `parsed_uri`; as the crate's source
/// shows, an empty text and one of more than 65534 bytes are refused. What
/// the parsed URI holds is not stated: the type is opaque here.
#[verifier::external_body]
pub(crate) fn parse_uri(s: &str) -> (r: Result<http::Uri, http::uri::InvalidUri>)
    ensures
        r == parsed_uri(s@),
        s@.len() == 0 ==> r is Err,
        s.spec_bytes().len() > 65534 ==> r is Err,
{
    s.parse::<http::Uri>()
}

} // verus!

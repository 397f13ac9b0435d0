//! The failure taxonomy of a run and the append-only record line one
//! failed URL leaves behind.

use vstd::prelude::*;
use vstd::string::*;

use crate::bytes::{append_bytes, contains_bytes, contains_spec, slice_to_vec_u8};

verus! {

/// How one URL's failure is classified in the failure record.
#[derive(Debug, Clone, Copy, PartialEq, Eq, Structural)]
pub enum FailureCode {
    /// The repository exists but no README was found.
    NoReadme,
    /// The repository itself was not found.
    NoRepo,
    /// The request ran into a rate limit.
    RateLimit,
    /// An authenticated fetch was needed but no token was available.
    NoTokens,
    /// No provider could be produced for the URL.
    InvalidProvider,
    /// Anything else.
    Unknown,
}

/// The code word each classification writes.
pub open spec fn code_bytes(c: FailureCode) -> Seq<u8> {
    match c {
        FailureCode::NoReadme => "NO-README".spec_bytes(),
        FailureCode::NoRepo => "NO-REPO".spec_bytes(),
        FailureCode::RateLimit => "RATE-LIMIT".spec_bytes(),
        FailureCode::NoTokens => "NO-TOKENS".spec_bytes(),
        FailureCode::InvalidProvider => "INVALID-PROVIDER".spec_bytes(),
        FailureCode::Unknown => "UNKNOWN".spec_bytes(),
    }
}

impl FailureCode {
    /// The code word as text.
    pub fn code(&self) -> (r: &'static str)
        ensures
            r.spec_bytes() == code_bytes(*self),
    {
        match self {
            FailureCode::NoReadme => "NO-README",
            FailureCode::NoRepo => "NO-REPO",
            FailureCode::RateLimit => "RATE-LIMIT",
            FailureCode::NoTokens => "NO-TOKENS",
            FailureCode::InvalidProvider => "INVALID-PROVIDER",
            FailureCode::Unknown => "UNKNOWN",
        }
    }
}

/// How a fetch error's text is classified: a mention of 404 means the
/// README was not found; `Not Found` without it means the repository
/// was not; anything else stays unknown.
pub open spec fn classify_spec(msg: Seq<u8>) -> FailureCode {
    if contains_spec(msg, "404".spec_bytes()) {
        FailureCode::NoReadme
    } else if contains_spec(msg, "Not Found".spec_bytes()) {
        FailureCode::NoRepo
    } else {
        FailureCode::Unknown
    }
}

/// Classifies a fetch error's text.
pub fn classify_failure(msg: &[u8]) -> (r: FailureCode)
    ensures
        r == classify_spec(msg@),
{
    if contains_bytes(msg, "404".as_bytes()) {
        FailureCode::NoReadme
    } else if contains_bytes(msg, "Not Found".as_bytes()) {
        FailureCode::NoRepo
    } else {
        FailureCode::Unknown
    }
}

/// One line of the failure record: the URL, a space, the code word, and
/// a newline.
pub fn format_failure_record(url: &[u8], code: FailureCode) -> (r: Vec<u8>)
    ensures
        r@ == url@ + seq![32u8] + code_bytes(code) + seq![10u8],
{
    let mut r = slice_to_vec_u8(url);
    r.push(32);
    append_bytes(&mut r, code.code().as_bytes());
    r.push(10);
    proof {
        assert(r@ =~= url@ + seq![32u8] + code_bytes(code) + seq![10u8]);
    }
    r
}

} // verus!

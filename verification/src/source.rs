//! The conviction source: what is asked of it, what it may answer, and what
//! each answer means for the fetch.
//!
//! The exchange itself is left to the caller. It sends a request for the
//! address that [`conviction_url`] gives and hands what came back to
//! [`check_response`]; where that hands the response on, it reads and decodes
//! the body and hands the outcome to [`check_body`].

use crate::binary64::Binary64;
use crate::decimal::decimal;
use vstd::prelude::*;
use vstd::string::StringExecFns;

verus! {

/// The address of the conviction source.
pub const CORTEX_API: &'static str = "http://76.13.193.103/api";

/// What the conviction source knows of a wallet.
#[derive(Clone, Debug, PartialEq, Eq)]
pub struct ConvictionScore {
    pub wallet: String,
    pub score: Binary64,
    pub defi_activity: Binary64,
    pub prediction_market_activity: Binary64,
    pub cross_domain_correlation: Binary64,
}

/// The status code of an HTTP response: a number from 100 to 999.
#[derive(Clone, Copy, Debug, PartialEq, Eq)]
pub struct HttpStatus {
    code: u16,
}

/// The phrase that `reqwest::StatusCode` shows after a status code: the
/// canonical reason phrase of the code, or a fixed text where it has none.
pub uninterp spec fn reason_phrase(code: u16) -> Seq<char>;

/// The text of a status: the code in decimal, a space, and the reason phrase.
pub open spec fn status_text(code: u16) -> Seq<char> {
    decimal(code as nat) + seq![' '] + reason_phrase(code)
}

/// Calls `reqwest::StatusCode::is_success` on the status with this code. The
/// method holds exactly of the codes from 200 to 299.
#[verifier::external_body]
fn status_is_success(code: u16) -> (success: bool)
    requires
        100 <= code <= 999,
    ensures
        success == (200 <= code <= 299),
{
    match reqwest::StatusCode::from_u16(code) {
        Ok(status) => status.is_success(),
        Err(_) => false,
    }
}

/// Formats the status with this code by the `Display` impl of
/// `reqwest::StatusCode`, which writes the code as a decimal number, a space,
/// and the canonical reason phrase of the code or, where it has none, a fixed
/// text. Of the phrase the contract claims only that the code decides it.
#[verifier::external_body]
fn status_to_string(code: u16) -> (text: String)
    requires
        100 <= code <= 999,
    ensures
        text@ == decimal(code as nat) + seq![' '] + reason_phrase(code),
{
    match reqwest::StatusCode::from_u16(code) {
        Ok(status) => status.to_string(),
        Err(_) => String::new(),
    }
}

impl HttpStatus {
    #[verifier::type_invariant]
    spec fn in_range(self) -> bool {
        100 <= self.code <= 999
    }

    /// The status code.
    pub closed spec fn spec_code(&self) -> u16 {
        self.code
    }

    /// Whether the code says that the request succeeded: 200 to 299.
    pub open spec fn spec_is_success(&self) -> bool {
        200 <= self.code() <= 299
    }

    /// The status with the given code, if the code is one: from 100 to 999.
    pub fn new(code: u16) -> (status: Option<HttpStatus>)
        ensures
            status is Some <==> 100 <= code <= 999,
            status matches Some(s) ==> s.code() == code,
    {
        if 100 <= code && code <= 999 {
            Some(HttpStatus { code })
        } else {
            None
        }
    }

    /// The status code.
    #[verifier::when_used_as_spec(spec_code)]
    pub fn code(&self) -> (code: u16)
        ensures
            code == self.code(),
            100 <= code <= 999,
    {
        proof {
            use_type_invariant(self);
        }
        self.code
    }

    /// Whether the code says that the request succeeded.
    #[verifier::when_used_as_spec(spec_is_success)]
    pub fn is_success(&self) -> (success: bool)
        ensures
            success == self.is_success(),
    {
        proof {
            use_type_invariant(self);
        }
        status_is_success(self.code)
    }

    /// The code and its reason phrase.
    pub fn text(&self) -> (text: String)
        ensures
            text@ == status_text(self.code()),
    {
        proof {
            use_type_invariant(self);
        }
        status_to_string(self.code)
    }
}

/// Why a fetch from the conviction source failed.
#[derive(Clone, Debug, PartialEq, Eq)]
pub enum FetchFailure {
    /// The request could not be carried out. Holds the transport's account.
    Transport(String),
    /// The source answered with a status that is not a success.
    Status(HttpStatus),
    /// The body of the answer is no conviction score. Holds the decoder's
    /// account.
    Decode(String),
}

impl FetchFailure {
    /// The description of the failure.
    pub open spec fn message_text(self) -> Seq<char> {
        match self {
            FetchFailure::Transport(account) => "Request failed: "@ + account@,
            FetchFailure::Status(status) => "API error: "@ + status_text(status.code()),
            FetchFailure::Decode(account) => "Parse error: "@ + account@,
        }
    }

    /// The description of the failure.
    pub fn message(&self) -> (text: String)
        ensures
            text@ == self.message_text(),
    {
        match self {
            FetchFailure::Transport(account) => String::from_str("Request failed: ").concat(
                account.as_str(),
            ),
            FetchFailure::Status(status) => {
                let shown = status.text();
                String::from_str("API error: ").concat(shown.as_str())
            },
            FetchFailure::Decode(account) => String::from_str("Parse error: ").concat(
                account.as_str(),
            ),
        }
    }
}

/// The address to ask for the conviction score of a wallet.
pub open spec fn conviction_url_text(wallet: Seq<char>) -> Seq<char> {
    CORTEX_API@ + "/conviction/"@ + wallet
}

/// The address to ask for the conviction score of a wallet.
pub fn conviction_url(wallet: &str) -> (url: String)
    ensures
        url@ == conviction_url_text(wallet@),
{
    String::from_str(CORTEX_API).concat("/conviction/").concat(wallet)
}

/// What follows from the arrival of a response, or from its failure to
/// arrive. The caller hands over the status together with the response
/// itself, whatever it holds it in, and has the response back where its body
/// is to be read: where the status is a success.
pub fn check_response<R>(arrival: Result<(HttpStatus, R), String>) -> (outcome: Result<
    R,
    FetchFailure,
>)
    ensures
        match arrival {
            Ok((status, response)) => if status.is_success() {
                outcome == Ok::<R, FetchFailure>(response)
            } else {
                outcome == Err::<R, FetchFailure>(FetchFailure::Status(status))
            },
            Err(account) => outcome == Err::<R, FetchFailure>(FetchFailure::Transport(account)),
        },
{
    match arrival {
        Ok((status, response)) => if status.is_success() {
            Ok(response)
        } else {
            Err(FetchFailure::Status(status))
        },
        Err(account) => Err(FetchFailure::Transport(account)),
    }
}

/// What follows from the decoding of the body: the score, or the failure to
/// decode.
pub fn check_body(decoded: Result<ConvictionScore, String>) -> (outcome: Result<
    ConvictionScore,
    FetchFailure,
>)
    ensures
        match decoded {
            Ok(conviction) => outcome == Ok::<ConvictionScore, FetchFailure>(conviction),
            Err(account) => outcome == Err::<ConvictionScore, FetchFailure>(
                FetchFailure::Decode(account),
            ),
        },
{
    match decoded {
        Ok(conviction) => Ok(conviction),
        Err(account) => Err(FetchFailure::Decode(account)),
    }
}

} // verus!

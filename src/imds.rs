//! Decisions of the instance-metadata region lookup: the lookup URL, and
//! what to do after each HTTP response (finish with the region, finish with
//! an error, or wait and retry with a linear backoff).

use vstd::prelude::*;
use vstd::string::*;
use crate::conncheck::opt_view;

verus! {

/// Address of the instance-metadata service.
pub const IMDS_HOST: &'static str = "169.254.169.254";

/// Path and query of the instance-metadata request, after the host.
pub const IMDS_PATH: &'static str = "/metadata/instance?api-version=2021-12-13";

/// JSON Pointer of the region within the instance metadata.
pub const LOCATION_POINTER: &'static str = "/compute/location";

/// Requests that one lookup may send, the first included: after a retriable
/// status the lookup retries only while fewer than this many were sent.
pub const MAX_ATTEMPTS: u8 = 5;

/// Seconds of backoff per retry: the n-th retry waits n times this.
pub const BACKOFF_STEP_SECS: u64 = 10;

/// The string found at a JSON Pointer within a JSON document: `None` when
/// the document does not parse, or holds nothing or no string there.
pub uninterp spec fn json_string_at(doc: Seq<char>, pointer: Seq<char>) -> Option<Seq<char>>;

/// Relies on serde_json: `from_str` parses `doc` into a `Value`,
/// `Value::pointer` looks up `pointer` in it and `Value::as_str` reads the
/// string found there. The result depends on the two arguments alone.
#[verifier::external_body]
fn string_at_pointer(doc: &str, pointer: &str) -> (r: Option<String>)
    ensures
        opt_view(r) == json_string_at(doc@, pointer@),
{
    match serde_json::from_str::<serde_json::Value>(doc) {
        Ok(value) => match value.pointer(pointer) {
            Some(found) => found.as_str().map(String::from),
            None => None,
        },
        Err(_) => None,
    }
}

/// Why the region lookup failed.
#[derive(Debug)]
pub enum RegionError {
    /// Status 400: the request was malformed; retrying cannot help.
    BadRequest { body: String },
    /// Status 404 or 405: no metadata there, or the method is not accepted.
    NotAvailable { status: u16, body: String },
    /// The last allowed attempt also got a retriable status.
    AttemptsExhausted { status: u16 },
    /// Any other client or server error status.
    UnexpectedStatus { status: u16, body: String },
    /// A success status whose body holds no non-empty region.
    MissingRegion { body: String },
}

/// What to do after a response.
#[derive(Debug)]
pub enum ImdsAction {
    /// Wait `delay_secs` seconds, then send the request again.
    Retry { delay_secs: u64 },
    /// The lookup is over.
    Finish(Result<String, RegionError>),
}

/// State of one region lookup: how many retries it has made, so the response
/// at hand answers attempt `retries + 1`.
#[derive(Debug)]
pub struct RegionQuery {
    pub retries: u8,
}

/// A client or server error status.
pub open spec fn is_error_status(status: u16) -> bool {
    400 <= status < 600
}

/// A status after which the request is worth sending again.
pub open spec fn is_retriable_status(status: u16) -> bool {
    status == 410 || status == 429 || status == 500
}

/// `r` is the outcome of a successful response whose body is `body` and
/// whose region lookup found `location`: the region when it is a non-empty
/// string, else `MissingRegion`.
pub open spec fn is_region_outcome(
    r: Result<String, RegionError>,
    location: Option<Seq<char>>,
    body: Seq<char>,
) -> bool {
    match location {
        Some(l) if l.len() > 0 => r matches Ok(s) && s@ == l,
        _ => r matches Err(RegionError::MissingRegion { body: b }) && b@ == body,
    }
}

/// The request URL for the metadata service at `host`.
pub fn imds_url(host: &str) -> (r: String)
    ensures
        r@ == "http://"@ + host@ + IMDS_PATH@,
{
    let mut url = "http://".to_owned();
    url.append(host);
    url.append(IMDS_PATH);
    url
}

/// The outcome of a successful response whose body is `body`, given the
/// string found at `LOCATION_POINTER` in it.
pub fn region_from_location(location: Option<String>, body: &str) -> (r: Result<String, RegionError>)
    ensures
        is_region_outcome(r, opt_view(location), body@),
{
    match location {
        Some(l) => {
            if l.unicode_len() > 0 {
                Ok(l)
            } else {
                Err(RegionError::MissingRegion { body: body.to_owned() })
            }
        },
        None => Err(RegionError::MissingRegion { body: body.to_owned() }),
    }
}

impl RegionQuery {
    /// A lookup that has not retried yet.
    pub fn new() -> (r: Self)
        ensures
            r.retries == 0,
    {
        RegionQuery { retries: 0 }
    }

    /// Decides what follows a response with `status` and `body`.
    pub fn on_response(&mut self, status: u16, body: &str) -> (r: ImdsAction)
        ensures
            is_retriable_status(status) && old(self).retries + 1 < MAX_ATTEMPTS ==> {
                &&& final(self).retries == old(self).retries + 1
                &&& r == ImdsAction::Retry {
                    delay_secs: (BACKOFF_STEP_SECS * (old(self).retries + 1)) as u64,
                }
            },
            is_retriable_status(status) && old(self).retries + 1 >= MAX_ATTEMPTS ==> {
                &&& final(self).retries == old(self).retries
                &&& r == ImdsAction::Finish(Err(RegionError::AttemptsExhausted { status }))
            },
            !is_retriable_status(status) ==> final(self).retries == old(self).retries,
            status == 400 ==> (r matches ImdsAction::Finish(
                Err(RegionError::BadRequest { body: b }),
            ) && b@ == body@),
            status == 404 || status == 405 ==> (r matches ImdsAction::Finish(
                Err(RegionError::NotAvailable { status: s, body: b }),
            ) && s == status && b@ == body@),
            is_error_status(status) && !is_retriable_status(status) && status != 400 && status != 404
                && status != 405 ==> (r matches ImdsAction::Finish(
                Err(RegionError::UnexpectedStatus { status: s, body: b }),
            ) && s == status && b@ == body@),
            !is_error_status(status) ==> (r matches ImdsAction::Finish(res) && is_region_outcome(
                res,
                json_string_at(body@, LOCATION_POINTER@),
                body@,
            )),
    {
        if status == 410 || status == 429 || status == 500 {
            if self.retries >= MAX_ATTEMPTS - 1 {
                ImdsAction::Finish(Err(RegionError::AttemptsExhausted { status }))
            } else {
                self.retries = self.retries + 1;
                ImdsAction::Retry { delay_secs: BACKOFF_STEP_SECS * self.retries as u64 }
            }
        } else if status == 400 {
            ImdsAction::Finish(Err(RegionError::BadRequest { body: body.to_owned() }))
        } else if status == 404 || status == 405 {
            ImdsAction::Finish(Err(RegionError::NotAvailable { status, body: body.to_owned() }))
        } else if 400 <= status && status < 600 {
            ImdsAction::Finish(Err(RegionError::UnexpectedStatus { status, body: body.to_owned() }))
        } else {
            let location = string_at_pointer(body, LOCATION_POINTER);
            ImdsAction::Finish(region_from_location(location, body))
        }
    }
}

} // verus!

//! What the library asks of the network and what it is told in return. The
//! library performs no request itself: it names the next one, and is handed
//! its outcome.

use vstd::prelude::*;

verus! {

/// One GET request.
pub struct Request {
    /// The address to fetch.
    pub url: String,
    /// After how many seconds the request is given up.
    pub timeout_secs: u64,
}

/// A request as a value of specifications.
pub struct RequestView {
    pub url: Seq<char>,
    pub timeout_secs: u64,
}

impl View for Request {
    type V = RequestView;

    open spec fn view(&self) -> RequestView {
        RequestView { url: self.url@, timeout_secs: self.timeout_secs }
    }
}

/// How a request ended.
pub enum Outcome {
    /// No answer came within the time allowed.
    TimedOut,
    /// The request failed on the way; the text describes the failure.
    Failed(String),
    /// The server answered with a status that is no success; the text is the
    /// status.
    Refused(String),
    /// The server answered with success, but the body could not be read; the
    /// text describes the failure.
    Unreadable(String),
    /// The server answered with success and this body.
    Body(String),
}

/// The body that an outcome carries.
pub open spec fn body_of(o: Outcome) -> Option<Seq<char>> {
    match o {
        Outcome::Body(b) => Some(b@),
        _ => None,
    }
}

/// Whether the server answered with success, whatever became of the body.
pub open spec fn is_success(o: Outcome) -> bool {
    o is Body || o is Unreadable
}

/// The views of optional requests.
pub open spec fn request_view(r: Option<Request>) -> Option<RequestView> {
    match r {
        Some(q) => Some(q@),
        None => None,
    }
}

/// A request for `url` with the given time allowance.
pub fn request(url: String, timeout_secs: u64) -> (r: Request)
    ensures
        r@ == (RequestView { url: url@, timeout_secs }),
{
    Request { url, timeout_secs }
}

} // verus!

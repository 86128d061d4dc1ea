//! Connection settings of the LocalAI client and the interpretation of its
//! HTTP responses. Sending the requests is the caller's part.

use vstd::prelude::*;
use crate::json::{parse_json, parsed_json, Json};
use crate::report::ErrorReport;
use crate::text::{chars_of, concat, is_blank, is_blank_str, string_of};

verus! {

broadcast use vstd::string::group_string_axioms;

/// Where the API is and how to authenticate.
pub struct LocalAIClient {
    pub base_url: String,
    pub api_key: Option<String>,
}

/// `s` without its trailing slashes (as `str::trim_end_matches('/')`).
pub open spec fn trim_slashes(s: Seq<char>) -> Seq<char>
    decreases s.len(),
{
    if s.len() > 0 && s.last() == '/' {
        trim_slashes(s.drop_last())
    } else {
        s
    }
}

/// What a response gives when the request succeeded: an empty object for a
/// blank body, else the body to be read as JSON.
#[derive(Debug)]
pub enum ResponseBody {
    EmptyObject,
    Json(String),
}

/// The error text of a response whose status is not a success.
pub open spec fn http_error_text(status: Seq<char>, text: Seq<char>) -> Seq<char> {
    "HTTP "@ + status + ": "@ + text
}

/// The error context of a body that is not valid JSON.
pub open spec fn invalid_json_text(text: Seq<char>) -> Seq<char> {
    "invalid JSON response: "@ + text
}

impl LocalAIClient {
    /// A client for the API at `base_url` (trailing slashes removed),
    /// authenticating with `api_key` when there is one.
    pub fn new(base_url: String, api_key: Option<String>) -> (res: Self)
        ensures
            res.base_url@ == trim_slashes(base_url@),
            res.api_key == api_key,
    {
        let cs = chars_of(base_url.as_str());
        let mut n = cs.len();
        assert(cs@.take(n as int) =~= cs@);
        while n > 0 && cs[n - 1] == '/'
            invariant
                n <= cs.len(),
                trim_slashes(cs@) == trim_slashes(cs@.take(n as int)),
            decreases n,
        {
            assert(cs@.take(n as int).drop_last() =~= cs@.take(n - 1));
            n = n - 1;
        }
        let mut kept: Vec<char> = Vec::new();
        for i in 0..n
            invariant
                n <= cs.len(),
                kept@ == cs@.take(i as int),
        {
            kept.push(cs[i]);
            assert(cs@.take(i + 1) =~= cs@.take(i as int).push(cs@[i as int]));
        }
        proof {
            assert(cs@.take(cs.len() as int) =~= cs@);
            assert(kept@ == cs@.take(n as int));
        }
        Self { base_url: string_of(&kept), api_key }
    }

    /// The URL of `path` on this API: the base URL followed by the path.
    pub fn url(&self, path: &str) -> (res: String)
        ensures
            res@ == self.base_url@ + path@,
    {
        concat(self.base_url.as_str(), path)
    }

    /// The `Authorization` header value, `Bearer <key>`, when there is a key.
    pub fn authorization(&self) -> (res: Option<String>)
        ensures
            match self.api_key {
                Some(k) => res is Some && res->0@ == "Bearer "@ + k@,
                None => res is None,
            },
    {
        match &self.api_key {
            Some(k) => Some(concat("Bearer ", k.as_str())),
            None => None,
        }
    }
}

/// How a response is read: on success, a blank body is an empty object and
/// any other body is JSON; otherwise the error is `HTTP <status>: <body>`.
pub fn interpret_response(success: bool, status: &str, text: String) -> (res: Result<
    ResponseBody,
    String,
>)
    ensures
        success && is_blank(text@) ==> res matches Ok(ResponseBody::EmptyObject),
        success && !is_blank(text@) ==> (res matches Ok(ResponseBody::Json(t)) && t == text),
        !success ==> (res matches Err(e) && e@ == http_error_text(status@, text@)),
{
    if success {
        if is_blank_str(text.as_str()) {
            Ok(ResponseBody::EmptyObject)
        } else {
            Ok(ResponseBody::Json(text))
        }
    } else {
        let mut e = concat("HTTP ", status);
        e.append(": ");
        e.append(text.as_str());
        Err(e)
    }
}

/// The error context for a response body that is not valid JSON.
pub fn invalid_json_context(text: &str) -> (res: String)
    ensures
        res@ == invalid_json_text(text@),
{
    concat("invalid JSON response: ", text)
}

/// What a response gives: on success the JSON value of its body (an empty
/// object for a blank body; for a body that is not JSON, the error
/// `invalid JSON response: <body>` caused by the parser's error); otherwise
/// the error `HTTP <status>: <body>`.
pub fn read_json_body(success: bool, status: &str, text: String) -> (res: Result<Json, ErrorReport>)
    ensures
        !success ==> (res matches Err(r) && r.is_plain(http_error_text(status@, text@))),
        success && is_blank(text@) ==> (res matches Ok(Json::Object(ms)) && ms@.len() == 0),
        success && !is_blank(text@) ==> match parsed_json(text@) {
            Ok(j) => res == Ok::<Json, ErrorReport>(j),
            Err(cause) => res matches Err(r) && r.is_caused(invalid_json_text(text@), cause),
        },
{
    match interpret_response(success, status, text) {
        Ok(ResponseBody::EmptyObject) => Ok(Json::Object(Vec::new())),
        Ok(ResponseBody::Json(body)) => match parse_json(body.as_str()) {
            Ok(j) => Ok(j),
            Err(cause) => Err(ErrorReport { context: invalid_json_context(body.as_str()), cause: Some(cause) }),
        },
        Err(e) => Err(ErrorReport { context: e, cause: None }),
    }
}

} // verus!

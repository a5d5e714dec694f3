//! The decisions of the request relay: which method a request goes out with
//! and what a response comes back as. Sending and receiving are the
//! caller's business.

use crate::text::{decimal, push_decimal};
use vstd::prelude::*;
use vstd::string::StringExecFns;

verus! {

/// The HTTP method of an outbound request: the methods of the HTTP
/// standard, and `PATCH`.
#[derive(Debug, Clone, Copy, PartialEq, Eq, Structural)]
pub enum RequestMethod {
    Get,
    Post,
    Put,
    Delete,
    Patch,
    Head,
    Options,
    Trace,
    Connect,
}

/// The upper-case form of `s`, as `str::to_uppercase` computes it from the
/// Unicode case tables.
pub uninterp spec fn uppercase(s: Seq<char>) -> Seq<char>;

/// Trusted: calls `str::to_uppercase`. The contract only gives the result
/// its name, [`uppercase`].
#[verifier::external_body]
fn to_uppercase(s: &str) -> (upper: String)
    ensures
        upper@ == uppercase(s@),
{
    s.to_uppercase()
}

/// The method that an upper-case method name names. A name that names no
/// method falls back to [`RequestMethod::Post`].
pub open spec fn method_named(upper: Seq<char>) -> RequestMethod {
    if upper == "GET"@ {
        RequestMethod::Get
    } else if upper == "POST"@ {
        RequestMethod::Post
    } else if upper == "PUT"@ {
        RequestMethod::Put
    } else if upper == "DELETE"@ {
        RequestMethod::Delete
    } else if upper == "PATCH"@ {
        RequestMethod::Patch
    } else if upper == "HEAD"@ {
        RequestMethod::Head
    } else if upper == "OPTIONS"@ {
        RequestMethod::Options
    } else if upper == "TRACE"@ {
        RequestMethod::Trace
    } else if upper == "CONNECT"@ {
        RequestMethod::Connect
    } else {
        RequestMethod::Post
    }
}

/// The method that the optional method name of a request selects. A given
/// name selects the method that it names, without regard to case; a request
/// without a name is posted.
pub open spec fn method_for(name: Option<Seq<char>>) -> RequestMethod {
    match name {
        Some(name) => method_named(uppercase(name)),
        None => RequestMethod::Post,
    }
}

/// The name of a method, in upper case.
pub open spec fn method_name(method: RequestMethod) -> Seq<char> {
    match method {
        RequestMethod::Get => "GET"@,
        RequestMethod::Post => "POST"@,
        RequestMethod::Put => "PUT"@,
        RequestMethod::Delete => "DELETE"@,
        RequestMethod::Patch => "PATCH"@,
        RequestMethod::Head => "HEAD"@,
        RequestMethod::Options => "OPTIONS"@,
        RequestMethod::Trace => "TRACE"@,
        RequestMethod::Connect => "CONNECT"@,
    }
}

/// Every method is selected by its own name: none is shadowed by another
/// or lost to the fallback.
pub proof fn lemma_method_named_by_its_name(method: RequestMethod)
    ensures
        method_named(method_name(method)) == method,
{
    reveal_strlit("GET");
    reveal_strlit("POST");
    reveal_strlit("PUT");
    reveal_strlit("DELETE");
    reveal_strlit("PATCH");
    reveal_strlit("HEAD");
    reveal_strlit("OPTIONS");
    reveal_strlit("TRACE");
    reveal_strlit("CONNECT");
    // No two names begin with the same two letters.
    assert("GET"@[0] == 'G');
    assert("POST"@[0] == 'P' && "POST"@[1] == 'O');
    assert("PUT"@[0] == 'P' && "PUT"@[1] == 'U');
    assert("DELETE"@[0] == 'D');
    assert("PATCH"@[0] == 'P' && "PATCH"@[1] == 'A');
    assert("HEAD"@[0] == 'H');
    assert("OPTIONS"@[0] == 'O');
    assert("TRACE"@[0] == 'T');
    assert("CONNECT"@[0] == 'C');
}

/// Whether `text` reads exactly as `literal`.
fn reads_as(text: &String, literal: &str) -> (b: bool)
    ensures
        b == (text@ == literal@),
{
    let other = String::from_str(literal);
    *text == other
}

/// Selects the method that a name names which is already in upper case.
pub fn method_from_upper(upper: &String) -> (method: RequestMethod)
    ensures
        method == method_named(upper@),
{
    if reads_as(upper, "GET") {
        RequestMethod::Get
    } else if reads_as(upper, "POST") {
        RequestMethod::Post
    } else if reads_as(upper, "PUT") {
        RequestMethod::Put
    } else if reads_as(upper, "DELETE") {
        RequestMethod::Delete
    } else if reads_as(upper, "PATCH") {
        RequestMethod::Patch
    } else if reads_as(upper, "HEAD") {
        RequestMethod::Head
    } else if reads_as(upper, "OPTIONS") {
        RequestMethod::Options
    } else if reads_as(upper, "TRACE") {
        RequestMethod::Trace
    } else if reads_as(upper, "CONNECT") {
        RequestMethod::Connect
    } else {
        RequestMethod::Post
    }
}

/// Selects the method of a request from its optional method name.
pub fn request_method(name: Option<String>) -> (method: RequestMethod)
    ensures
        method == method_for(
            match name {
                Some(name) => Some(name@),
                None => None,
            },
        ),
{
    match name {
        Some(name) => {
            let upper = to_uppercase(name.as_str());
            method_from_upper(&upper)
        },
        None => RequestMethod::Post,
    }
}

/// Whether a status code lies in the success range, 200 to 299.
pub open spec fn is_success(status: u16) -> bool {
    200 <= status < 300
}

/// The message that reports a response outside the success range.
pub open spec fn failure_message(status: u16, body: Seq<char>) -> Seq<char> {
    "HTTP "@ + decimal(status as nat) + ": "@ + body
}

/// Turns a received response into the result of the relay: the body of a
/// successful response, or a message with the status code and the body of
/// any other.
pub fn response_result(status: u16, body: String) -> (result: Result<String, String>)
    ensures
        match result {
            Ok(text) => is_success(status) && text@ == body@,
            Err(message) => !is_success(status) && message@ == failure_message(status, body@),
        },
{
    if 200 <= status && status < 300 {
        Ok(body)
    } else {
        let mut message = String::from_str("HTTP ");
        push_decimal(&mut message, status as u64);
        message.append(": ");
        message.append(body.as_str());
        Err(message)
    }
}

} // verus!

//! Reading the values of a run from the text in which they are given.
use crate::client::{header_value, header_value_bytes, valid_header_value};
use crate::text::{cut, cut_at_first, same_text};
use crate::work::BasicAuth;
use http::header::HeaderValue;
use http::Method;
use reqwest::Url;
use std::time::Duration;
use vstd::prelude::*;
use vstd::utf8::encode_utf8;

verus! {

#[verifier::external_type_specification]
#[verifier::external_body]
pub struct ExMethod(Method);

#[verifier::external_type_specification]
#[verifier::external_body]
pub struct ExUrl(Url);

/// What `duration_str::parse` makes of `s`: a duration, or none where `s`
/// does not describe one.
pub uninterp spec fn parsed_duration(s: Seq<char>) -> Option<Duration>;

/// What `Method::from_str` makes of `s`: a method, or none where `s` cannot
/// name one.
pub uninterp spec fn parsed_method(s: Seq<char>) -> Option<Method>;

/// The name of a method: what its `as_str` returns.
pub uninterp spec fn method_name(method: Method) -> Seq<char>;

/// What `Url::parse` makes of `s`: a URL, or none where `s` is not one.
pub uninterp spec fn parsed_url(s: Seq<char>) -> Option<Url>;

/// Whether `s` names one of the methods that a run may use.
pub open spec fn is_valid_method(s: Seq<char>) -> bool {
    ||| s == "GET"@
    ||| s == "POST"@
    ||| s == "PUT"@
    ||| s == "DELETE"@
    ||| s == "HEAD"@
    ||| s == "PATCH"@
    ||| s == "OPTIONS"@
    ||| s == "TRACE"@
    ||| s == "CONNECT"@
}

/// Reads a duration with `duration_str::parse`.
#[verifier::external_body]
fn duration_from_str(s: &str) -> (duration: Option<Duration>)
    ensures
        duration == parsed_duration(s@),
{
    duration_str::parse(s).ok()
}

/// Reads a method with `Method::from_str`, which knows each of the names
/// `GET`, `POST`, `PUT`, `DELETE`, `HEAD`, `PATCH`, `OPTIONS`, `TRACE` and
/// `CONNECT`, and makes no method whose name is not the text that it was
/// made of.
#[verifier::external_body]
fn method_from_str(s: &str) -> (method: Option<Method>)
    ensures
        method == parsed_method(s@),
        is_valid_method(s@) ==> method is Some,
        method matches Some(m) ==> method_name(m) == s@,
{
    s.parse::<Method>().ok()
}

/// Reads a URL with `Url::parse`.
#[verifier::external_body]
fn url_from_str(s: &str) -> (url: Option<Url>)
    ensures
        url == parsed_url(s@),
{
    Url::parse(s).ok()
}

/// Reads how long a run may take, as in `10s` or `3m`.
pub fn parse_duration(s: &str) -> (duration: Result<Duration, &'static str>)
    ensures
        match duration {
            Ok(d) => parsed_duration(s@) == Some(d),
            Err(e) => parsed_duration(s@) is None && e@ == "not a standard duration string"@,
        },
{
    match duration_from_str(s) {
        Some(duration) => Ok(duration),
        None => Err("not a standard duration string"),
    }
}

/// Whether `s` names one of the methods that a run may use.
pub fn names_valid_method(s: &str) -> (valid: bool)
    ensures
        valid == is_valid_method(s@),
{
    same_text(s, "GET") || same_text(s, "POST") || same_text(s, "PUT") || same_text(s, "DELETE")
        || same_text(s, "HEAD") || same_text(s, "PATCH") || same_text(s, "OPTIONS") || same_text(
        s,
        "TRACE",
    ) || same_text(s, "CONNECT")
}

/// Reads the method of the requests: one of `GET`, `POST`, `PUT`, `DELETE`,
/// `HEAD`, `PATCH`, `OPTIONS`, `TRACE` and `CONNECT`, in capitals.
pub fn parse_method(s: &str) -> (method: Result<Method, &'static str>)
    ensures
        match method {
            Ok(m) => is_valid_method(s@) && parsed_method(s@) == Some(m) && method_name(m) == s@,
            Err(e) => !is_valid_method(s@) && e@ == "invalid method"@,
        },
{
    match method_from_str(s) {
        None => Err("invalid method"),
        Some(method) => if names_valid_method(s) {
            Ok(method)
        } else {
            Err("invalid method")
        },
    }
}

/// Reads the target of the requests.
pub fn parse_url(s: &str) -> (url: Result<Url, &'static str>)
    ensures
        match url {
            Ok(u) => parsed_url(s@) == Some(u),
            Err(e) => parsed_url(s@) is None && e@ == "invalid url"@,
        },
{
    match url_from_str(s) {
        Some(url) => Ok(url),
        None => Err("invalid url"),
    }
}

/// Reads a name and a password from `name:password`. The name ends at the
/// first colon; text without a colon is a name without a password.
pub fn parse_basic_auth(s: &str) -> (auth: Result<BasicAuth, &'static str>)
    ensures
        auth matches Ok(a) && a.username@ == cut(s@, ':').0 && match (
            a.password,
            cut(s@, ':').1,
        ) {
            (Some(password), Some(rest)) => password@ == rest,
            (None, None) => true,
            _ => false,
        },
{
    let (name, rest) = cut_at_first(s, ':');
    Ok(
        BasicAuth {
            username: name.to_owned(),
            password: match rest {
                Some(password) => Some(password.to_owned()),
                None => None,
            },
        },
    )
}

/// Whether `result` is the header value that `s` makes, or the error
/// `message` where `s` cannot be a header value.
pub open spec fn is_header_value_of(
    result: Result<HeaderValue, &'static str>,
    s: Seq<char>,
    message: Seq<char>,
) -> bool {
    match result {
        Ok(value) => valid_header_value(s) && header_value_bytes(value) == encode_utf8(s),
        Err(e) => !valid_header_value(s) && e@ == message,
    }
}

/// Reads the value of the `Content-Type` header.
pub fn parse_content_type(s: &str) -> (value: Result<HeaderValue, &'static str>)
    ensures
        is_header_value_of(value, s@, "invalid content-type"@),
{
    match header_value(s) {
        Some(value) => Ok(value),
        None => Err("invalid content-type"),
    }
}

/// Reads the value of the `Accept` header.
pub fn parse_accept(s: &str) -> (value: Result<HeaderValue, &'static str>)
    ensures
        is_header_value_of(value, s@, "invalid accept"@),
{
    match header_value(s) {
        Some(value) => Ok(value),
        None => Err("invalid accept"),
    }
}

/// Reads the value of the `User-Agent` header.
pub fn parse_user_agent(s: &str) -> (value: Result<HeaderValue, &'static str>)
    ensures
        is_header_value_of(value, s@, "invalid user agent"@),
{
    match header_value(s) {
        Some(value) => Ok(value),
        None => Err("invalid user agent"),
    }
}

/// Reads the value of the `Host` header.
pub fn parse_host(s: &str) -> (value: Result<HeaderValue, &'static str>)
    ensures
        is_header_value_of(value, s@, "invalid host"@),
{
    match header_value(s) {
        Some(value) => Ok(value),
        None => Err("invalid host"),
    }
}

} // verus!

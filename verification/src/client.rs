//! The headers that go with every request of a run.
use crate::text::{cut, cut_at_first, trim, trimmed};
use http::header::{HeaderMap, HeaderName, HeaderValue, MaxSizeReached};
use reqwest::Proxy;
use std::time::Duration;
use vstd::prelude::*;
use vstd::string::StringExecFns;
use vstd::utf8::encode_utf8;

verus! {

#[verifier::external_type_specification]
#[verifier::external_body]
pub struct ExHeaderValue(HeaderValue);

#[verifier::external_type_specification]
#[verifier::external_body]
pub struct ExHeaderName(HeaderName);

#[verifier::external_type_specification]
#[verifier::external_body]
#[verifier::reject_recursive_types(T)]
pub struct ExHeaderMap<T>(HeaderMap<T>);

#[verifier::external_type_specification]
#[verifier::external_body]
pub struct ExMaxSizeReached(MaxSizeReached);

#[verifier::external_type_specification]
#[verifier::external_body]
pub struct ExProxy(Proxy);

/// What `Proxy::all` makes of `s`: a proxy for every request, or none where
/// `s` is not the address of a proxy.
pub uninterp spec fn parsed_proxy(s: Seq<char>) -> Option<Proxy>;

/// The number of names that a header map holds for certain: a map with no
/// more names than these takes one more, whatever the names are. A fuller
/// map may have to grow beyond its limit, and then it refuses.
pub const MAX_HEADERS: usize = 6553;

/// The number of headers that a client gets beside those asked for, at
/// most: `Content-Type`, `User-Agent`, `Accept` and `Host`.
pub const FIXED_HEADERS: usize = 4;

/// What a header map holds: for each name that it has, the bytes of the
/// first value under that name, which is what its `get` returns.
pub uninterp spec fn headers_of(map: HeaderMap<HeaderValue>) -> Map<Seq<char>, Seq<u8>>;

/// The content of a header map without headers.
pub open spec fn no_header() -> Map<Seq<char>, Seq<u8>> {
    Map::empty()
}

/// The bytes of a header value: what its `as_bytes` returns.
pub uninterp spec fn header_value_bytes(value: HeaderValue) -> Seq<u8>;

/// The text of a header name: what its `as_str` returns.
pub uninterp spec fn header_name_text(name: HeaderName) -> Seq<char>;

/// Whether `c` may stand in a header value that is given as text: every
/// character but the control characters, and of those the tab.
pub open spec fn is_value_char(c: char) -> bool {
    (c as u32 >= 32 && c as u32 != 127) || c == '\t'
}

/// Whether `s` can be a header value.
pub open spec fn valid_header_value(s: Seq<char>) -> bool {
    forall|i: int| 0 <= i < s.len() ==> is_value_char(#[trigger] s[i])
}

/// Whether `c` may stand in a header name: a letter, a digit or one of
/// ``!#$%&'*+-.^_`|~``.
pub open spec fn is_name_char(c: char) -> bool {
    ||| 'a' <= c <= 'z'
    ||| 'A' <= c <= 'Z'
    ||| '0' <= c <= '9'
    ||| c == '!'
    ||| c == '#'
    ||| c == '$'
    ||| c == '%'
    ||| c == '&'
    ||| c == '\''
    ||| c == '*'
    ||| c == '+'
    ||| c == '-'
    ||| c == '.'
    ||| c == '^'
    ||| c == '_'
    ||| c == '`'
    ||| c == '|'
    ||| c == '~'
}

/// The longest header name, in characters.
pub const MAX_NAME_LEN: usize = 65535;

/// Whether `s` can be a header name.
pub open spec fn valid_header_name(s: Seq<char>) -> bool {
    &&& 0 < s.len() <= MAX_NAME_LEN
    &&& forall|i: int| 0 <= i < s.len() ==> is_name_char(#[trigger] s[i])
}

/// `c` in lower case, where it is one of the letters `A` to `Z`.
pub open spec fn lower(c: char) -> char {
    if 'A' <= c <= 'Z' {
        ((c as u8) + 32) as char
    } else {
        c
    }
}

/// `s` with its letters `A` to `Z` in lower case.
pub open spec fn lowered(s: Seq<char>) -> Seq<char> {
    s.map_values(|c: char| lower(c))
}

/// Makes a header value of `s` with `HeaderValue::try_from`, which takes any
/// text whose bytes are all 32 or more and not 127, or a tab, and keeps its
/// bytes as they are.
#[verifier::external_body]
pub(crate) fn header_value(s: &str) -> (value: Option<HeaderValue>)
    ensures
        value is Some <==> valid_header_value(s@),
        value matches Some(v) ==> header_value_bytes(v) == encode_utf8(s@),
{
    HeaderValue::try_from(s).ok()
}

/// Makes a header name of `s` with `HeaderName::try_from`, which takes 1 to
/// 65535 characters that may stand in a name and puts the letters in lower
/// case.
#[verifier::external_body]
pub(crate) fn header_name(s: &str) -> (name: Option<HeaderName>)
    ensures
        name is Some <==> valid_header_name(s@),
        name matches Some(n) ==> header_name_text(n) == lowered(s@),
{
    HeaderName::try_from(s).ok()
}

/// A header map without headers, from `HeaderMap::new`.
#[verifier::external_body]
pub(crate) fn no_headers() -> (map: HeaderMap<HeaderValue>)
    ensures
        headers_of(map) == no_header(),
{
    HeaderMap::new()
}

/// Whether a header map that holds `held` has room for one more name for
/// certain.
pub open spec fn map_has_room(held: Map<Seq<char>, Seq<u8>>) -> bool {
    held.dom().finite() && held.dom().len() <= MAX_HEADERS
}

/// Puts `value` under `name` with `HeaderMap::try_insert`. Where that
/// succeeds `value` has taken the place of whatever stood under `name`, and
/// the other names keep what they had. It fails only where the table of the
/// map would have to grow beyond 32768 places, which a map of 6553 names or
/// fewer never asks for.
#[verifier::external_body]
pub(crate) fn set_header(
    map: &mut HeaderMap<HeaderValue>,
    name: HeaderName,
    value: HeaderValue,
) -> (set: Result<(), MaxSizeReached>)
    ensures
        set is Ok ==> headers_of(*final(map)) == headers_of(*old(map)).insert(
            header_name_text(name),
            header_value_bytes(value),
        ),
        map_has_room(headers_of(*old(map))) ==> set is Ok,
{
    match map.try_insert(name, value) {
        Ok(_) => Ok(()),
        Err(full) => Err(full),
    }
}

/// Reads the address of a proxy for every request with `Proxy::all`.
#[verifier::external_body]
pub(crate) fn proxy_from_str(s: &str) -> (proxy: Option<Proxy>)
    ensures
        proxy == parsed_proxy(s@),
{
    Proxy::all(s).ok()
}

/// Why a list of headers was refused.
#[derive(Debug, PartialEq, Eq)]
pub enum HeaderError {
    /// This line is no header.
    Invalid(String),
    /// There are more headers than a header map takes. That does not
    /// happen with `MAX_HEADERS` headers or fewer.
    TooMany,
}

impl HeaderError {
    /// The error in words.
    pub fn message(&self) -> (message: String)
        ensures
            message@ == match self {
                HeaderError::Invalid(line) => line@ + " is not a valid header"@,
                HeaderError::TooMany => "too many headers"@,
            },
    {
        match self {
            HeaderError::Invalid(line) => line.clone().concat(" is not a valid header"),
            HeaderError::TooMany => String::from_str("too many headers"),
        }
    }
}

/// The name and the value that the line `s` gives, both as they stand in
/// it: what is before its first colon and what is behind it, each without
/// the white space at its ends. None where `s` has no colon.
pub open spec fn header_parts(s: Seq<char>) -> Option<(Seq<char>, Seq<char>)> {
    match cut(s, ':').1 {
        Some(rest) => Some((trimmed(cut(s, ':').0), trimmed(rest))),
        None => None,
    }
}

/// Whether the line `s` is a header: a name, a colon and a value.
pub open spec fn is_header(s: Seq<char>) -> bool {
    match header_parts(s) {
        Some((name, value)) => valid_header_name(name) && valid_header_value(value),
        None => false,
    }
}

/// The name of the header `s`, as a header map keeps it.
pub open spec fn name_of(s: Seq<char>) -> Seq<char> {
    lowered(header_parts(s).unwrap().0)
}

/// The bytes of the value of the header `s`.
pub open spec fn value_of(s: Seq<char>) -> Seq<u8> {
    encode_utf8(header_parts(s).unwrap().1)
}

/// Reads one header from a line `name: value`.
pub fn try_into_header(s: &str) -> (header: Result<(HeaderName, HeaderValue), HeaderError>)
    ensures
        match header {
            Ok((name, value)) => is_header(s@) && header_name_text(name) == name_of(s@)
                && header_value_bytes(value) == value_of(s@),
            Err(HeaderError::Invalid(line)) => !is_header(s@) && line@ == s@,
            Err(HeaderError::TooMany) => false,
        },
{
    let (before, behind) = cut_at_first(s, ':');
    match behind {
        None => Err(HeaderError::Invalid(s.to_owned())),
        Some(behind) => match header_name(trim(before)) {
            None => Err(HeaderError::Invalid(s.to_owned())),
            Some(name) => match header_value(trim(behind)) {
                None => Err(HeaderError::Invalid(s.to_owned())),
                Some(value) => Ok((name, value)),
            },
        },
    }
}

/// What a header map holds after the headers `lines` were put into it in
/// turn: under each name the value of the last header of that name.
pub open spec fn headers_from(lines: Seq<Seq<char>>) -> Map<Seq<char>, Seq<u8>>
    decreases lines.len(),
{
    if lines.len() == 0 {
        Map::empty()
    } else {
        headers_from(lines.drop_last()).insert(name_of(lines.last()), value_of(lines.last()))
    }
}

/// The lines as text.
pub open spec fn texts(lines: Seq<String>) -> Seq<Seq<char>> {
    lines.map_values(|line: String| line@)
}

/// The index of the first of `lines` that is no header; their number where
/// all of them are headers.
pub open spec fn first_invalid(lines: Seq<Seq<char>>) -> int
    decreases lines.len(),
{
    if lines.len() == 0 {
        0
    } else if !is_header(lines.first()) {
        0
    } else {
        1 + first_invalid(lines.drop_first())
    }
}

/// `first_invalid` is the first index at which no header stands.
pub proof fn lemma_first_invalid(lines: Seq<Seq<char>>, k: int)
    requires
        0 <= k <= lines.len(),
        forall|i: int| 0 <= i < k ==> is_header(#[trigger] lines[i]),
        k < lines.len() ==> !is_header(lines[k]),
    ensures
        first_invalid(lines) == k,
    decreases lines.len(),
{
    if lines.len() > 0 && k > 0 {
        let rest = lines.drop_first();
        assert(is_header(lines[0]));
        assert forall|i: int| 0 <= i < k - 1 implies is_header(#[trigger] rest[i]) by {
            assert(rest[i] == lines[i + 1]);
        }
        lemma_first_invalid(rest, k - 1);
    }
}

/// Whether `error` is what the headers asked for in `lines` are refused
/// with, where `beside` more headers go with them: the first line that is no
/// header or, where all are headers, that they are too many. They are never
/// too many where they are no more than `MAX_HEADERS` in all.
pub open spec fn refuses(lines: Seq<Seq<char>>, beside: nat, error: HeaderError) -> bool {
    match error {
        HeaderError::Invalid(line) => first_invalid(lines) < lines.len() && line@
            == lines[first_invalid(lines)],
        HeaderError::TooMany => first_invalid(lines) == lines.len() && lines.len() + beside
            > MAX_HEADERS,
    }
}

/// One more header is at most one more name.
pub proof fn lemma_one_more_name(held: Map<Seq<char>, Seq<u8>>, name: Seq<char>, value: Seq<u8>)
    requires
        held.dom().finite(),
    ensures
        held.insert(name, value).dom().finite(),
        held.insert(name, value).dom().len() <= held.dom().len() + 1,
{
    assert(held.insert(name, value).dom() =~= held.dom().insert(name));
    vstd::set::axiom_set_insert_finite(held.dom(), name);
    vstd::set::axiom_set_insert_len(held.dom(), name);
}

/// The headers of `lines` are under no more names than there are lines.
pub proof fn lemma_names_of_headers(lines: Seq<Seq<char>>)
    ensures
        headers_from(lines).dom().finite(),
        headers_from(lines).dom().len() <= lines.len(),
    decreases lines.len(),
{
    if lines.len() > 0 {
        lemma_names_of_headers(lines.drop_last());
        lemma_one_more_name(
            headers_from(lines.drop_last()),
            name_of(lines.last()),
            value_of(lines.last()),
        );
    }
}

/// Reads a list of headers into a header map. Each line is `name: value`;
/// of two headers with one name the later one stays. The first line that is
/// no header is the error. Where all are headers the map holds them; only a
/// list of more than `MAX_HEADERS` lines may be too much for it.
pub fn try_into_headers(strs: &[String]) -> (headers: Result<HeaderMap<HeaderValue>, HeaderError>)
    ensures
        match headers {
            Ok(map) => first_invalid(texts(strs@)) == strs@.len() && headers_of(map)
                == headers_from(texts(strs@)),
            Err(error) => refuses(texts(strs@), 0, error),
        },
{
    let ghost lines = texts(strs@);
    let mut parsed: Vec<(HeaderName, HeaderValue)> = Vec::new();
    let mut i: usize = 0;
    while i < strs.len()
        invariant
            i <= strs.len(),
            lines == texts(strs@),
            parsed@.len() == i,
            forall|k: int| 0 <= k < i ==> is_header(#[trigger] lines[k]),
            forall|k: int|
                0 <= k < i ==> header_name_text((#[trigger] parsed@[k]).0) == name_of(lines[k])
                    && header_value_bytes(parsed@[k].1) == value_of(lines[k]),
        decreases strs.len() - i,
    {
        match try_into_header(strs[i].as_str()) {
            Ok(header) => {
                parsed.push(header);
            },
            Err(error) => {
                proof {
                    assert(lines[i as int] == strs@[i as int]@);
                    lemma_first_invalid(lines, i as int);
                }
                return Err(error);
            },
        }
        assert(lines[i as int] == strs@[i as int]@);
        i += 1;
    }
    proof {
        lemma_first_invalid(lines, i as int);
    }
    let mut map = no_headers();
    let ghost all = parsed@;
    assert(lines.take(0) =~= Seq::<Seq<char>>::empty());
    for header in it: parsed
        invariant
            it.seq() == all,
            all.len() == lines.len(),
            lines == texts(strs@),
            first_invalid(lines) == lines.len(),
            headers_of(map) == headers_from(lines.take(it.index() as int)),
            forall|k: int|
                0 <= k < all.len() ==> header_name_text((#[trigger] all[k]).0) == name_of(lines[k])
                    && header_value_bytes(all[k].1) == value_of(lines[k]),
    {
        let ghost taken = it.index() as int;
        let (name, value) = header;
        proof {
            assert(lines.take(taken + 1).drop_last() =~= lines.take(taken));
            assert(lines.take(taken + 1).last() == lines[taken]);
        }
        proof {
            lemma_names_of_headers(lines.take(taken));
        }
        match set_header(&mut map, name, value) {
            Ok(()) => {},
            Err(_) => {
                return Err(HeaderError::TooMany);
            },
        }
    }
    assert(lines.take(lines.len() as int) =~= lines);
    Ok(map)
}

/// What the client of a run is built from.
#[derive(Debug)]
pub struct ClientBuilder {
    /// The headers that were asked for, each as `name: value`.
    pub headers: Vec<String>,
    /// How long a request may take; none for as long as it takes.
    pub timeout: Option<Duration>,
    /// The value of the `Content-Type` header.
    pub content_type: HeaderValue,
    /// The value of the `Accept` header, if one is sent.
    pub accept: Option<HeaderValue>,
    /// The value of the `User-Agent` header.
    pub user_agent: HeaderValue,
    /// The proxy through which the requests go, if any.
    pub proxy: Option<String>,
    /// The value of the `Host` header, where it is not the target's.
    pub host: Option<HeaderValue>,
    /// Whether redirects are not followed.
    pub disable_redirect: bool,
}

/// The header name `name`, which is written in lower case.
fn lower_case_name(name: &str) -> (header: HeaderName)
    requires
        valid_header_name(name@),
        lowered(name@) == name@,
    ensures
        header_name_text(header) == name@,
{
    match header_name(name) {
        Some(header) => header,
        None => vstd::pervasive::unreached(),
    }
}

/// The headers of every request: those that were asked for in `lines` and,
/// in their place where the names are the same, `Content-Type` and
/// `User-Agent`, and `Accept` and `Host` where they are given.
pub open spec fn sent_headers(
    lines: Seq<Seq<char>>,
    content_type: HeaderValue,
    user_agent: HeaderValue,
    accept: Option<HeaderValue>,
    host: Option<HeaderValue>,
) -> Map<Seq<char>, Seq<u8>> {
    let asked = headers_from(lines);
    let fixed = asked.insert("content-type"@, header_value_bytes(content_type)).insert(
        "user-agent"@,
        header_value_bytes(user_agent),
    );
    let accepting = match accept {
        Some(accept) => fixed.insert("accept"@, header_value_bytes(accept)),
        None => fixed,
    };
    match host {
        Some(host) => accepting.insert("host"@, header_value_bytes(host)),
        None => accepting,
    }
}

/// Reads the headers that were asked for and puts the given ones in their
/// place.
fn fixed_headers(
    asked: &[String],
    content_type: HeaderValue,
    user_agent: HeaderValue,
    accept: Option<HeaderValue>,
    host: Option<HeaderValue>,
) -> (headers: Result<HeaderMap<HeaderValue>, HeaderError>)
    ensures
        match headers {
            Ok(map) => first_invalid(texts(asked@)) == asked@.len() && headers_of(map)
                == sent_headers(texts(asked@), content_type, user_agent, accept, host),
            Err(error) => refuses(texts(asked@), FIXED_HEADERS as nat, error),
        },
{
    let mut map = match try_into_headers(asked) {
        Ok(map) => map,
        Err(error) => {
            return Err(error);
        },
    };
    let ghost lines = texts(asked@);
    proof {
        reveal_strlit("content-type");
        reveal_strlit("user-agent");
        reveal_strlit("accept");
        reveal_strlit("host");
        assert(lowered("content-type"@) =~= "content-type"@);
        assert(lowered("user-agent"@) =~= "user-agent"@);
        assert(lowered("accept"@) =~= "accept"@);
        assert(lowered("host"@) =~= "host"@);
        lemma_names_of_headers(lines);
    }
    let ghost held = headers_of(map);
    if set_header(&mut map, lower_case_name("content-type"), content_type).is_err() {
        return Err(HeaderError::TooMany);
    }
    proof {
        lemma_one_more_name(held, "content-type"@, header_value_bytes(content_type));
    }
    let ghost held = headers_of(map);
    if set_header(&mut map, lower_case_name("user-agent"), user_agent).is_err() {
        return Err(HeaderError::TooMany);
    }
    proof {
        lemma_one_more_name(held, "user-agent"@, header_value_bytes(user_agent));
    }
    let ghost held = headers_of(map);
    if let Some(accept) = accept {
        if set_header(&mut map, lower_case_name("accept"), accept).is_err() {
            return Err(HeaderError::TooMany);
        }
        proof {
            lemma_one_more_name(held, "accept"@, header_value_bytes(accept));
        }
    }
    assert(headers_of(map).dom().finite() && headers_of(map).dom().len() <= lines.len() + 3);
    if let Some(host) = host {
        if set_header(&mut map, lower_case_name("host"), host).is_err() {
            return Err(HeaderError::TooMany);
        }
    }
    Ok(map)
}

/// Why no client can be built.
#[derive(Debug, PartialEq, Eq)]
pub enum ClientError {
    /// The headers that were asked for were refused.
    Header(HeaderError),
    /// The address of the proxy is none.
    InvalidProxy,
}

impl ClientError {
    /// The error in words.
    pub fn message(&self) -> (message: String)
        ensures
            message@ == match self {
                ClientError::Header(error) => match error {
                    HeaderError::Invalid(line) => line@ + " is not a valid header"@,
                    HeaderError::TooMany => "too many headers"@,
                },
                ClientError::InvalidProxy => "invalid proxy"@,
            },
    {
        match self {
            ClientError::Header(error) => error.message(),
            ClientError::InvalidProxy => String::from_str("invalid proxy"),
        }
    }
}

/// What a client is built with.
#[derive(Debug)]
pub struct ClientPlan {
    /// The headers of every request.
    pub headers: HeaderMap<HeaderValue>,
    /// How long a request may take from its start to the end of the
    /// response; none for as long as it takes.
    pub timeout: Option<Duration>,
    /// How long connecting may take; none for as long as it takes.
    pub connect_timeout: Option<Duration>,
    /// Whether redirects are followed.
    pub follow_redirects: bool,
    /// The proxy through which every request goes, if any.
    pub proxy: Option<Proxy>,
}

impl ClientBuilder {
    /// The headers of every request.
    pub open spec fn sent_headers(&self) -> Map<Seq<char>, Seq<u8>> {
        sent_headers(
            texts(self.headers@),
            self.content_type,
            self.user_agent,
            self.accept,
            self.host,
        )
    }

    /// What the client is built with: the headers of every request, the
    /// timeout, which holds for connecting too, whether redirects are
    /// followed, and the proxy. Headers that are refused are the first
    /// error, an address that is not one of a proxy the second.
    pub fn plan(self) -> (plan: Result<ClientPlan, ClientError>)
        ensures
            match plan {
                Ok(plan) => {
                    &&& first_invalid(texts(self.headers@)) == self.headers@.len()
                    &&& headers_of(plan.headers) == self.sent_headers()
                    &&& plan.timeout == self.timeout
                    &&& plan.connect_timeout == self.timeout
                    &&& plan.follow_redirects == !self.disable_redirect
                    &&& match self.proxy {
                        Some(address) => plan.proxy is Some && plan.proxy == parsed_proxy(address@),
                        None => plan.proxy is None,
                    }
                },
                Err(ClientError::Header(error)) => refuses(
                    texts(self.headers@),
                    FIXED_HEADERS as nat,
                    error,
                ),
                Err(ClientError::InvalidProxy) => first_invalid(texts(self.headers@))
                    == self.headers@.len() && (self.proxy matches Some(address) && parsed_proxy(
                    address@,
                ) is None),
            },
    {
        let headers = match fixed_headers(
            self.headers.as_slice(),
            self.content_type,
            self.user_agent,
            self.accept,
            self.host,
        ) {
            Ok(headers) => headers,
            Err(error) => {
                return Err(ClientError::Header(error));
            },
        };
        let proxy = match self.proxy {
            Some(address) => match proxy_from_str(address.as_str()) {
                Some(proxy) => Some(proxy),
                None => {
                    return Err(ClientError::InvalidProxy);
                },
            },
            None => None,
        };
        Ok(
            ClientPlan {
                headers,
                timeout: self.timeout,
                connect_timeout: self.timeout,
                follow_redirects: !self.disable_redirect,
                proxy,
            },
        )
    }
}

} // verus!

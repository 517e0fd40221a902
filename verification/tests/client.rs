use rey::arg::{parse_accept, parse_content_type, parse_host, parse_user_agent};
use rey::client::{
    try_into_header, try_into_headers, ClientBuilder, ClientError, HeaderError, FIXED_HEADERS,
    MAX_HEADERS,
};
use std::time::Duration;

fn builder(headers: &[&str]) -> ClientBuilder {
    ClientBuilder {
        headers: headers.iter().map(|s| s.to_string()).collect(),
        timeout: None,
        content_type: parse_content_type("text/html").unwrap(),
        accept: None,
        user_agent: parse_user_agent("rey/0.1.0").unwrap(),
        proxy: None,
        host: None,
        disable_redirect: false,
    }
}

#[test]
fn try_into_header_should_work() {
    let (name, value) = try_into_header("Token: abcdefg").unwrap();
    assert_eq!(name.as_str(), "token");
    assert_eq!(value.to_str().unwrap(), "abcdefg");
    let (name, value) = try_into_header("Accept-Language: gzip, deflate").unwrap();
    assert_eq!(name.as_str(), "accept-language");
    assert_eq!(value.to_str().unwrap(), "gzip, deflate");
}

#[test]
fn try_into_headers_should_work() {
    let vec = vec![
        "Token: abcdefg".to_string(),
        "Accept-Language: gzip, deflate".to_string(),
    ];
    let headers = try_into_headers(&vec).unwrap();
    assert_eq!(headers.get("Token").unwrap().to_str().unwrap(), "abcdefg");
    assert_eq!(
        headers.get("Accept-Language").unwrap().to_str().unwrap(),
        "gzip, deflate"
    );
}

#[test]
fn try_into_header_trims_name_and_value() {
    let (name, value) = try_into_header("  X-Trace\t:\t  a b  ").unwrap();
    assert_eq!(name.as_str(), "x-trace");
    assert_eq!(value.to_str().unwrap(), "a b");
    let (name, value) = try_into_header("Link: <http://a/b>; rel=next").unwrap();
    assert_eq!(name.as_str(), "link");
    assert_eq!(value.to_str().unwrap(), "<http://a/b>; rel=next");
    let (name, value) = try_into_header("Empty:").unwrap();
    assert_eq!(name.as_str(), "empty");
    assert_eq!(value.as_bytes(), b"");
}

#[test]
fn try_into_header_return_error() {
    for line in ["", "Token", ": abc", "To ken: abc", "Token: a\u{7f}", "Tok\u{e9}n: abc"] {
        assert_eq!(
            try_into_header(line),
            Err(HeaderError::Invalid(line.to_string()))
        );
    }
}

#[test]
fn header_error_in_words() {
    assert_eq!(
        HeaderError::Invalid("Token".to_string()).message(),
        "Token is not a valid header"
    );
    assert_eq!(HeaderError::TooMany.message(), "too many headers");
}

#[test]
fn try_into_headers_keeps_the_later_of_two() {
    let lines = vec![
        "Token: first".to_string(),
        "Other: x".to_string(),
        "TOKEN: second".to_string(),
    ];
    let headers = try_into_headers(&lines).unwrap();
    assert_eq!(headers.len(), 2);
    assert_eq!(headers.get("token").unwrap(), "second");
    assert_eq!(headers.get_all("token").iter().count(), 1);
    assert_eq!(headers.get("other").unwrap(), "x");
    assert!(try_into_headers(&vec![]).unwrap().is_empty());
}

#[test]
fn try_into_headers_reports_the_first_line_that_is_no_header() {
    let lines = vec![
        "Token: first".to_string(),
        "nothing".to_string(),
        "also nothing".to_string(),
    ];
    assert_eq!(
        try_into_headers(&lines),
        Err(HeaderError::Invalid("nothing".to_string()))
    );
}

#[test]
fn default_headers_hold_content_type_and_user_agent() {
    let headers = builder(&["Token: abc"]).plan().unwrap().headers;
    assert_eq!(headers.len(), 3);
    assert_eq!(headers.get("token").unwrap(), "abc");
    assert_eq!(headers.get("content-type").unwrap(), "text/html");
    assert_eq!(headers.get("user-agent").unwrap(), "rey/0.1.0");
    assert!(headers.get("accept").is_none());
    assert!(headers.get("host").is_none());
}

#[test]
fn default_headers_hold_accept_and_host_where_given() {
    let mut builder = builder(&[]);
    builder.accept = Some(parse_accept("*/*").unwrap());
    builder.host = Some(parse_host("rey-tools.io").unwrap());
    let headers = builder.plan().unwrap().headers;
    assert_eq!(headers.len(), 4);
    assert_eq!(headers.get("accept").unwrap(), "*/*");
    assert_eq!(headers.get("host").unwrap(), "rey-tools.io");
}

#[test]
fn default_headers_take_the_place_of_those_asked_for() {
    let mut builder = builder(&[
        "Content-Type: application/xml",
        "User-Agent: other",
        "Accept: text/plain",
        "Host: asked.example",
    ]);
    builder.accept = Some(parse_accept("*/*").unwrap());
    let headers = builder.plan().unwrap().headers;
    assert_eq!(headers.len(), 4);
    assert_eq!(headers.get("content-type").unwrap(), "text/html");
    assert_eq!(headers.get("user-agent").unwrap(), "rey/0.1.0");
    assert_eq!(headers.get("accept").unwrap(), "*/*");
    assert_eq!(headers.get("host").unwrap(), "asked.example");
}

#[test]
fn default_headers_report_a_line_that_is_no_header() {
    assert_eq!(
        builder(&["Token: abc", "Bad Header"]).plan().unwrap_err(),
        ClientError::Header(HeaderError::Invalid("Bad Header".to_string()))
    );
}

#[test]
fn try_into_headers_refuses_more_than_a_map_takes() {
    let lines: Vec<String> = (0..40_000).map(|i| format!("x-header-{}: {}", i, i)).collect();
    assert_eq!(try_into_headers(&lines), Err(HeaderError::TooMany));
    let lines: Vec<String> = (0..1_000).map(|i| format!("x-header-{}: {}", i, i)).collect();
    let headers = try_into_headers(&lines).unwrap();
    assert_eq!(headers.len(), 1_000);
    assert_eq!(headers.get("x-header-999").unwrap(), "999");
}

#[test]
fn plan_holds_what_the_builder_asks_for() {
    let mut builder = builder(&["Token: abc"]);
    builder.timeout = Some(Duration::from_secs(20));
    builder.disable_redirect = true;
    builder.proxy = Some("127.0.0.1:8080".to_string());
    let plan = builder.plan().unwrap();
    assert_eq!(plan.headers.len(), 3);
    assert_eq!(plan.headers.get("token").unwrap(), "abc");
    assert_eq!(plan.headers.get("content-type").unwrap(), "text/html");
    assert_eq!(plan.timeout, Some(Duration::from_secs(20)));
    assert_eq!(plan.connect_timeout, Some(Duration::from_secs(20)));
    assert!(!plan.follow_redirects);
    assert!(plan.proxy.is_some());
}

#[test]
fn plan_without_timeout_redirect_ban_and_proxy() {
    let plan = builder(&[]).plan().unwrap();
    assert_eq!(plan.headers.len(), 2);
    assert_eq!(plan.timeout, None);
    assert_eq!(plan.connect_timeout, None);
    assert!(plan.follow_redirects);
    assert!(plan.proxy.is_none());
}

#[test]
fn plan_refuses_what_is_no_proxy() {
    for address in ["", "not a proxy", "http://"] {
        let mut builder = builder(&[]);
        builder.proxy = Some(address.to_string());
        assert_eq!(builder.plan().unwrap_err(), ClientError::InvalidProxy);
    }
    for address in ["http://proxy.example:3128", "localhost:8080", "socks5://127.0.0.1"] {
        let mut builder = builder(&[]);
        builder.proxy = Some(address.to_string());
        assert!(builder.plan().unwrap().proxy.is_some());
    }
}

#[test]
fn plan_reports_the_headers_before_the_proxy() {
    let mut builder = builder(&["Token: abc", "Bad Header"]);
    builder.proxy = Some("".to_string());
    assert_eq!(
        builder.plan().unwrap_err(),
        ClientError::Header(HeaderError::Invalid("Bad Header".to_string()))
    );
}

#[test]
fn client_error_in_words() {
    assert_eq!(ClientError::InvalidProxy.message(), "invalid proxy");
    assert_eq!(
        ClientError::Header(HeaderError::Invalid("Bad Header".to_string())).message(),
        "Bad Header is not a valid header"
    );
    assert_eq!(
        ClientError::Header(HeaderError::TooMany).message(),
        "too many headers"
    );
}

#[test]
fn try_into_headers_takes_as_many_as_a_map_holds_for_certain() {
    let lines: Vec<String> = (0..MAX_HEADERS).map(|i| format!("x-{}: {}", i, i)).collect();
    let headers = try_into_headers(&lines).unwrap();
    assert_eq!(headers.len(), MAX_HEADERS);
    assert_eq!(headers.get("x-0").unwrap(), "0");
    assert_eq!(headers.get("x-6552").unwrap(), "6552");
    let same: Vec<String> = (0..20_000).map(|i| format!("Token: {}", i)).collect();
    let headers = try_into_headers(&same).unwrap();
    assert_eq!(headers.len(), 1);
    assert_eq!(headers.get("token").unwrap(), "19999");
}

#[test]
fn plan_takes_as_many_headers_as_a_map_holds_for_certain() {
    let lines: Vec<String> = (0..MAX_HEADERS - FIXED_HEADERS)
        .map(|i| format!("x-{}: {}", i, i))
        .collect();
    let asked: Vec<&str> = lines.iter().map(|s| s.as_str()).collect();
    let mut builder = builder(&asked);
    builder.accept = Some(parse_accept("*/*").unwrap());
    builder.host = Some(parse_host("rey-tools.io").unwrap());
    let plan = builder.plan().unwrap();
    assert_eq!(plan.headers.len(), MAX_HEADERS);
}

#[test]
fn plan_refuses_a_bad_proxy_where_the_headers_are_good() {
    let mut builder = builder(&["Token: abcdefg", "Accept-Language: gzip, deflate"]);
    builder.proxy = Some("not a proxy".to_string());
    assert_eq!(builder.plan().unwrap_err(), ClientError::InvalidProxy);
}

#[test]
fn try_into_headers_of_nothing_is_an_empty_map() {
    let headers = try_into_headers(&[]).unwrap();
    assert_eq!(headers.len(), 0);
}

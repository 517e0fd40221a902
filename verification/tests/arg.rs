use http::Method;
use rey::arg::{
    parse_accept, parse_basic_auth, parse_content_type, parse_duration, parse_host, parse_method,
    parse_url, parse_user_agent,
};
use rey::work::BasicAuth;
use std::time::Duration;

#[test]
fn parse_method_should_work() {
    assert_eq!(Ok(Method::GET), parse_method("GET"));
    assert_eq!(Ok(Method::POST), parse_method("POST"));
    assert_eq!(Ok(Method::PUT), parse_method("PUT"));
    assert_eq!(Ok(Method::DELETE), parse_method("DELETE"));
    assert_eq!(Ok(Method::HEAD), parse_method("HEAD"));
    assert_eq!(Ok(Method::OPTIONS), parse_method("OPTIONS"));
    assert_eq!(Ok(Method::CONNECT), parse_method("CONNECT"));
    assert_eq!(Ok(Method::TRACE), parse_method("TRACE"));
    assert_eq!(Ok(Method::PATCH), parse_method("PATCH"));
}

#[test]
fn parse_method_return_error() {
    assert_eq!(Err("invalid method"), parse_method(""));
    assert_eq!(Err("invalid method"), parse_method("HELLO"));
    assert_eq!(Err("invalid method"), parse_method("get"));
    assert_eq!(Err("invalid method"), parse_method("Get"));
    assert_eq!(Err("invalid method"), parse_method("大便"));
}

#[test]
fn parse_method_keeps_the_name() {
    for name in [
        "GET", "POST", "PUT", "DELETE", "HEAD", "PATCH", "OPTIONS", "TRACE", "CONNECT",
    ] {
        assert_eq!(parse_method(name).unwrap().as_str(), name);
    }
}

#[test]
fn parse_method_refuses_what_is_no_token() {
    assert_eq!(Err("invalid method"), parse_method("GET "));
    assert_eq!(Err("invalid method"), parse_method("QUERY"));
    assert_eq!(Err("invalid method"), parse_method("G"));
}

#[test]
fn parse_url_should_work() {
    let url = parse_url("https://localhost:8080/api/v1/users?profile=true");
    let url = url.unwrap();
    assert_eq!("https", url.scheme());
    assert_eq!(Some("localhost"), url.host_str());
    assert_eq!(Some(8080_u16), url.port());
    assert_eq!("/api/v1/users", url.path());
    assert_eq!(Some("profile=true"), url.query());
}

#[test]
fn parse_url_return_error() {
    assert_eq!(Err("invalid url"), parse_url(""));
    assert_eq!(Err("invalid url"), parse_url("not a url"));
    assert_eq!(Err("invalid url"), parse_url("不是url"));
    assert_eq!(Err("invalid url"), parse_url("127.0.0.1"));
}

#[test]
fn parse_header_should_work() {
    assert_eq!(parse_accept("*/*").unwrap().to_str().unwrap(), "*/*");
    assert_eq!(
        parse_content_type("application/json")
            .unwrap()
            .to_str()
            .unwrap(),
        "application/json"
    );
    assert_eq!(parse_user_agent("Mozilla/5.0 (Windows NT 10.0; Win64; x64) AppleWebKit/537.36 (KHTML, like Gecko) Chrome/58.0.3029.110 Safari/537.3").unwrap(),
                   "Mozilla/5.0 (Windows NT 10.0; Win64; x64) AppleWebKit/537.36 (KHTML, like Gecko) Chrome/58.0.3029.110 Safari/537.3");
    assert_eq!(parse_host("rey-tools.io").unwrap(), "rey-tools.io");
}

#[test]
fn parse_header_return_error() {
    assert_eq!(Err("invalid accept"), parse_accept("text/\nhtml"));
    assert_eq!(Err("invalid content-type"), parse_content_type("\u{7f}"));
    assert_eq!(Err("invalid user agent"), parse_user_agent("a\rb"));
    assert_eq!(Err("invalid host"), parse_host("\u{0}"));
}

#[test]
fn parse_header_takes_tabs_and_text_beyond_ascii() {
    assert_eq!(parse_accept("a\tb").unwrap().as_bytes(), b"a\tb");
    assert_eq!(
        parse_user_agent("caf\u{e9}").unwrap().as_bytes(),
        "caf\u{e9}".as_bytes()
    );
    assert_eq!(parse_host("").unwrap().as_bytes(), b"");
}

#[test]
fn parse_basic_auth_should_work() {
    assert_eq!(
        parse_basic_auth("root:123456"),
        Ok(BasicAuth {
            username: "root".to_string(),
            password: Some("123456".to_string())
        })
    );
    assert_eq!(
        parse_basic_auth("root"),
        Ok(BasicAuth {
            username: "root".to_string(),
            password: None
        })
    );
}

#[test]
fn parse_basic_auth_cuts_at_the_first_colon() {
    assert_eq!(
        parse_basic_auth("root:12:34"),
        Ok(BasicAuth {
            username: "root".to_string(),
            password: Some("12:34".to_string())
        })
    );
    assert_eq!(
        parse_basic_auth(":secret"),
        Ok(BasicAuth {
            username: "".to_string(),
            password: Some("secret".to_string())
        })
    );
    assert_eq!(
        parse_basic_auth("root:"),
        Ok(BasicAuth {
            username: "root".to_string(),
            password: Some("".to_string())
        })
    );
    assert_eq!(
        parse_basic_auth(""),
        Ok(BasicAuth {
            username: "".to_string(),
            password: None
        })
    );
    assert_eq!(
        parse_basic_auth("r\u{f6}\u{f6}t:p\u{e4}ss"),
        Ok(BasicAuth {
            username: "r\u{f6}\u{f6}t".to_string(),
            password: Some("p\u{e4}ss".to_string())
        })
    );
}

#[test]
fn parse_duration_should_work() {
    assert_eq!(parse_duration("10s"), Ok(Duration::from_secs(10)));
    assert_eq!(parse_duration("3m"), Ok(Duration::from_secs(180)));
    assert_eq!(parse_duration("1m31"), Ok(Duration::from_secs(91)));
}

#[test]
fn parse_duration_return_error() {
    assert_eq!(parse_duration(""), Err("not a standard duration string"));
    assert_eq!(
        parse_duration("soon"),
        Err("not a standard duration string")
    );
}

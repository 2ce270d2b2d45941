use rocket::http::{ContentType, Cookie, Header, HeaderMap, IpAddr, Method, SocketAddr, Status};
use rocket::text::{decimal_chars, str_eq_ignore_case};

#[test]
fn status_codes() {
    assert_eq!(Status::ok().code, 200);
    assert_eq!(Status::created().code, 201);
    assert_eq!(Status::accepted().code, 202);
    assert_eq!(Status::no_content().code, 204);
    assert_eq!(Status::reset_content().code, 205);
    assert_eq!(Status::bad_request().code, 400);
    assert_eq!(Status::not_found().code, 404);
    assert_eq!(Status::internal_server_error().code, 500);
    assert_eq!(Status::new(418).code, 418);
}

#[test]
fn method_names_parse_without_case() {
    assert_eq!(Method::from_name("GET"), Some(Method::Get));
    assert_eq!(Method::from_name("get"), Some(Method::Get));
    assert_eq!(Method::from_name("PaTcH"), Some(Method::Patch));
    assert_eq!(Method::from_name("delete"), Some(Method::Delete));
    assert_eq!(Method::from_name("options"), Some(Method::Options));
    assert_eq!(Method::from_name("FOO"), None);
    assert_eq!(Method::from_name(""), None);
    assert_eq!(Method::from_name("GETS"), None);
}

#[test]
fn method_names_round_trip() {
    for m in Method::all() {
        let name = m.as_string();
        assert_eq!(Method::from_name(&name), Some(m));
        assert_eq!(Method::from_name(&name.to_lowercase()), Some(m));
    }
    assert_eq!(Method::Connect.as_string(), "CONNECT");
}

#[test]
fn content_type_from_extension() {
    assert_eq!(ContentType::from_extension("txt").unwrap().media, "text/plain");
    assert_eq!(ContentType::from_extension("TXT").unwrap().media, "text/plain");
    assert_eq!(ContentType::from_extension("htm").unwrap().media, "text/html");
    assert_eq!(ContentType::from_extension("Html").unwrap().media, "text/html");
    assert_eq!(ContentType::from_extension("jpg").unwrap().media, "image/jpeg");
    assert_eq!(ContentType::from_extension("json").unwrap().media, "application/json");
    assert_eq!(ContentType::from_extension("woff2").unwrap().media, "font/woff2");
    assert!(ContentType::from_extension("xyz").is_none());
    assert!(ContentType::from_extension("").is_none());
}

#[test]
fn content_type_constants_and_header() {
    assert_eq!(ContentType::plain().media, "text/plain");
    assert_eq!(ContentType::html().media, "text/html");
    assert_eq!(ContentType::json().media, "application/json");
    assert_eq!(ContentType::xml().media, "text/xml");
    assert_eq!(ContentType::msgpack().media, "application/msgpack");
    assert_eq!(ContentType::css().media, "text/css");
    assert_eq!(ContentType::javascript().media, "application/javascript");
    assert_eq!(ContentType::form().media, "application/x-www-form-urlencoded");
    let h = ContentType::json().to_header();
    assert_eq!(h.name, "Content-Type");
    assert_eq!(h.value, "application/json");
}

#[test]
fn header_map_replace_is_case_insensitive() {
    let mut m = HeaderMap::new();
    m.add(Header::new("X-A", "1"));
    m.add(Header::new("Other", "o"));
    m.add(Header::new("x-a", "2"));
    assert_eq!(m.len(), 3);
    assert_eq!(m.get_one("X-A").as_deref(), Some("1"));
    m.replace(Header::new("X-a", "3"));
    assert_eq!(m.len(), 2);
    assert_eq!(m.get(0).name, "Other");
    assert_eq!(m.get(1).name, "X-a");
    assert_eq!(m.get_one("x-A").as_deref(), Some("3"));
    assert!(m.contains("OTHER"));
    m.remove("other");
    assert_eq!(m.len(), 1);
    assert!(!m.contains("Other"));
    assert!(m.get_one("missing").is_none());
}

#[test]
fn header_map_get_one_gives_first() {
    let mut m = HeaderMap::new();
    m.add(Header::new("Accept", "a"));
    m.add(Header::new("ACCEPT", "b"));
    assert_eq!(m.get_one("accept").as_deref(), Some("a"));
}

#[test]
fn cookie_header() {
    let c = Cookie::new("user_id", "12");
    let h = c.to_header();
    assert_eq!(h.name, "Set-Cookie");
    assert_eq!(h.value, "user_id=12");
}

#[test]
fn socket_addr_parts() {
    let a = SocketAddr::new(IpAddr::V4(8, 8, 8, 8), 80);
    assert_eq!(a.ip, IpAddr::V4(8, 8, 8, 8));
    assert_eq!(a.port, 80);
}

#[test]
fn decimal_digits() {
    let s: String = decimal_chars(0).into_iter().collect();
    assert_eq!(s, "0");
    let s: String = decimal_chars(1234).into_iter().collect();
    assert_eq!(s, "1234");
    let s: String = decimal_chars(u64::MAX).into_iter().collect();
    assert_eq!(s, u64::MAX.to_string());
}

#[test]
fn ignore_case_compare() {
    assert!(str_eq_ignore_case("Content-Type", "content-type"));
    assert!(!str_eq_ignore_case("Content-Type", "content-typ"));
    assert!(!str_eq_ignore_case("a", "b"));
}

use rocket::http::{ContentType, Header, IpAddr, Method, SocketAddr};
use rocket::request::{is_form_media, method_override, preprocess, Request};

fn form_post(body_type: &str) -> Request {
    let mut r = Request::new(Method::Post, "/submit");
    r.add_header(Header::new("Content-Type", body_type));
    r
}

#[test]
fn form_media_detection() {
    assert!(is_form_media("application/x-www-form-urlencoded"));
    assert!(is_form_media("Application/X-WWW-Form-URLEncoded"));
    assert!(is_form_media("  application/x-www-form-urlencoded ; charset=utf-8"));
    assert!(!is_form_media("application/json"));
    assert!(!is_form_media(""));
}

#[test]
fn method_field_parsing() {
    assert_eq!(method_override(b"_method=delete"), Some(Method::Delete));
    assert_eq!(method_override(b"_method=PUT&x=1"), Some(Method::Put));
    assert_eq!(method_override(b"_method=get"), Some(Method::Get));
    assert_eq!(method_override(b"_method=nope"), None);
    assert_eq!(method_override(b"method=put"), None);
    assert_eq!(method_override(b"x=1&_method=put"), None);
    assert_eq!(method_override(b"_method="), None);
    assert_eq!(method_override(&[b'_', b'm', b'e', b't', b'h', b'o', b'd', b'=', 0xC3, 0xA9]), None);
}

#[test]
fn form_post_method_is_rewritten() {
    let mut r = form_post(&ContentType::form().media);
    preprocess(&mut r, b"_method=delete&name=x", None);
    assert_eq!(r.method(), Method::Delete);

    let mut r = form_post("application/x-www-form-urlencoded");
    preprocess(&mut r, b"_method=put", None);
    assert_eq!(r.method(), Method::Put);
}

#[test]
fn only_long_enough_form_posts_are_rewritten() {
    // Shorter than `_method=get`.
    let mut r = form_post("application/x-www-form-urlencoded");
    preprocess(&mut r, b"_method=pu", None);
    assert_eq!(r.method(), Method::Post);

    // Not a form.
    let mut r = form_post("application/json");
    preprocess(&mut r, b"_method=delete", None);
    assert_eq!(r.method(), Method::Post);

    // Not a POST.
    let mut r = Request::new(Method::Put, "/");
    r.add_header(Header::new("Content-Type", "application/x-www-form-urlencoded"));
    preprocess(&mut r, b"_method=delete", None);
    assert_eq!(r.method(), Method::Put);

    // Only the first 14 bytes are looked at: `_method=delete` fits, a longer name does not.
    let mut r = form_post("application/x-www-form-urlencoded");
    preprocess(&mut r, b"_method=patchy", None);
    assert_eq!(r.method(), Method::Post);
}

#[test]
fn real_ip_replaces_remote_keeping_port() {
    let mut r = Request::new(Method::Get, "/");
    r.set_remote(SocketAddr::new(IpAddr::V4(127, 0, 0, 1), 8000));
    preprocess(&mut r, b"", Some(IpAddr::V4(10, 0, 0, 7)));
    assert_eq!(r.remote(), Some(SocketAddr::new(IpAddr::V4(10, 0, 0, 7), 8000)));

    // Without a remote address there is nothing to rewrite.
    let mut r = Request::new(Method::Get, "/");
    preprocess(&mut r, b"", Some(IpAddr::V4(10, 0, 0, 7)));
    assert_eq!(r.remote(), None);
}

#[test]
fn request_cookies_and_copy() {
    let mut r = Request::new(Method::Get, "/x");
    r.add_client_cookie(rocket::http::Cookie::new("a", "1"));
    r.set_cookie(rocket::http::Cookie::new("b", "2"));
    assert_eq!(r.delta_len(), 1);
    assert_eq!(r.delta_header(0).value, "b=2");
    let c = r.duplicate();
    assert_eq!(c.uri(), "/x");
    assert_eq!(c.delta_len(), 1);
    assert_eq!(c.method(), Method::Get);
}

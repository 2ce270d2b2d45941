use rocket::data::Data;
use rocket::http::{ContentType, Cookie, IpAddr, Method, SocketAddr};
use rocket::local::{LocalRequest, LocalResponse};
use rocket::request::Request;
use rocket::response::Response;

#[test]
fn builder_methods() {
    let req = LocalRequest::new(Request::new(Method::Post, "/"))
        .header(ContentType::json().to_header())
        .remote(SocketAddr::new(IpAddr::V4(127, 0, 0, 1), 8000))
        .cookie(Cookie::new("name", "value"))
        .body(br#"{ "value": 42 }"#);
    let inner = req.inner();
    assert_eq!(inner.method(), Method::Post);
    assert_eq!(inner.headers().get_one("Content-Type").as_deref(), Some("application/json"));
    assert_eq!(inner.remote(), Some(SocketAddr::new(IpAddr::V4(127, 0, 0, 1), 8000)));
    let (r, d): (Request, Data<()>) = req.dispatch();
    assert_eq!(r.uri(), "/");
    assert_eq!(d.peek(), br#"{ "value": 42 }"#);
    assert!(d.peek_complete());
}

#[test]
fn set_body_and_add_header_in_place() {
    let mut req = LocalRequest::new(Request::new(Method::Post, "/"));
    req.add_header(ContentType::json().to_header());
    req.set_body(b"{}");
    let (r, d): (Request, Data<()>) = req.cloned_dispatch();
    assert_eq!(d.peek(), b"{}");
    assert_eq!(r.headers().len(), 1);
    // The request can be dispatched again.
    let (_, d2): (Request, Data<()>) = req.cloned_dispatch();
    assert_eq!(d2.peek(), b"{}");
}

#[test]
fn local_response_holds_response() {
    let mut resp: Response<()> = Response::new();
    resp.set_status(rocket::http::Status::new(202));
    let mut lr = LocalResponse::new(Request::new(Method::Get, "/"), resp);
    assert_eq!(lr.response().status().code, 202);
    lr.response_mut().set_status(rocket::http::Status::new(203));
    assert_eq!(lr.response().status().code, 203);
}

#[test]
fn cookies_are_found_by_name_and_replaced() {
    let req = LocalRequest::new(Request::new(Method::Get, "/"))
        .cookie(Cookie::new("username", "sb"))
        .cookie(Cookie::new("user_id", "12"));
    assert_eq!(req.inner().cookie("username").as_deref(), Some("sb"));
    assert_eq!(req.inner().cookie("user_id").as_deref(), Some("12"));
    assert!(req.inner().cookie("other").is_none());
    let req = req.cookie(Cookie::new("username", "jb"));
    assert_eq!(req.inner().cookie("username").as_deref(), Some("jb"));
    assert_eq!(req.inner().cookie("user_id").as_deref(), Some("12"));
}

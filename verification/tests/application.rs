use rocket::data::Data;
use rocket::http::{Cookie, Header, Method, Status};
use rocket::outcome::Outcome;
use rocket::request::Request;
use rocket::response::{Body, Response};
use rocket::rocket::{
    after_route, default_catchers, finish_response, AfterRoute, CatchStep, Catcher, Config, LaunchErrorKind, Rocket,
    Route, RouteStep,
};
use rocket::router::{split_segments, uri_matches, uris_collide};
use rocket::uri::mount_uri;

type App = Rocket<u32, u32>;

fn app() -> App {
    Rocket::custom(Config::new("localhost", 8000, 4), false, 1)
}

#[test]
fn custom_starts_empty() {
    let r = app();
    assert_eq!(r.routes().len(), 0);
    assert_eq!(r.config().address, "localhost");
    assert_eq!(r.config().port, 8000);
    assert_eq!(r.config().workers, 4);
    assert_eq!(r.catcher(404).unwrap().handler, 1);
    assert!(r.catcher(404).unwrap().is_default);
    assert!(r.catcher(419).is_none());
    assert_eq!(r.catcher(500).unwrap().handler, 1);
    assert_eq!(r.catcher(510).unwrap().code, 510);
}

#[test]
fn default_catchers_cover_common_codes() {
    let cs = default_catchers(7u32);
    let codes: Vec<u16> = cs.iter().map(|c| c.code).collect();
    assert_eq!(
        codes,
        vec![
            400, 401, 402, 403, 404, 405, 406, 407, 408, 409, 410, 411, 412, 413, 414, 415, 416, 417,
            418, 421, 426, 428, 429, 431, 451, 500, 501, 503, 510
        ]
    );
    assert!(cs.iter().all(|c| c.handler == 7 && c.is_default));
}

#[test]
fn mount_uri_joins_and_normalizes() {
    assert_eq!(mount_uri("/", "/hello"), "/hello");
    assert_eq!(mount_uri("/hi", "/hello"), "/hi/hello");
    assert_eq!(mount_uri("/a/", "b//c/"), "/a/b/c");
    assert_eq!(mount_uri("", ""), "/");
    assert_eq!(mount_uri("/", "/"), "/");
    assert_eq!(mount_uri("/api", "/search?q=<q>"), "/api/search?q=<q>");
}

#[test]
fn mount_example_from_routes_docs() {
    let r = app()
        .mount("/", vec![Route::new(Method::Get, "/hello", 10)])
        .mount("/hi", vec![Route::new(Method::Get, "/hello", 10)]);
    assert_eq!(r.routes().len(), 2);
    for route in r.routes() {
        match route.base.as_str() {
            "/" => assert_eq!(route.uri, "/hello"),
            "/hi" => assert_eq!(route.uri, "/hi/hello"),
            _ => unreachable!("only /hello, /hi/hello are expected"),
        }
    }
}

#[test]
fn routes_are_kept_in_rank_order() {
    let r = app().mount(
        "/",
        vec![
            Route::ranked(2, Method::Get, "/a", 1),
            Route::ranked(-1, Method::Get, "/b", 2),
            Route::ranked(2, Method::Get, "/c", 3),
            Route::ranked(0, Method::Get, "/d", 4),
        ],
    );
    let handlers: Vec<u32> = r.routes().iter().map(|x| x.handler).collect();
    assert_eq!(handlers, vec![2, 4, 1, 3]);
    let r = r.mount("/x", vec![Route::ranked(0, Method::Get, "/e", 5)]);
    let handlers: Vec<u32> = r.routes().iter().map(|x| x.handler).collect();
    assert_eq!(handlers, vec![2, 4, 5, 1, 3]);
}

#[test]
fn segment_matching() {
    let segs = split_segments(&['/', 'a', '/', '/', 'b', 'c', '/']);
    assert_eq!(segs, vec![vec!['a'], vec!['b', 'c']]);
    assert!(uri_matches("/hello/<name>", "/hello/bob"));
    assert!(uri_matches("/hello/<name>", "/hello/bob?x=1"));
    assert!(!uri_matches("/hello/<name>", "/hello"));
    assert!(!uri_matches("/hello/<name>", "/hello/bob/more"));
    assert!(uri_matches("/files/<path..>", "/files/a/b/c"));
    assert!(!uri_matches("/files/<path..>", "/files"));
    assert!(uri_matches("/", "/"));
    assert!(!uri_matches("/a", "/b"));
    assert!(uris_collide("/a/<x>", "/a/b"));
    assert!(uris_collide("/a/b", "/a/<x>"));
    assert!(!uris_collide("/a/b", "/a/c"));
    assert!(uris_collide("/<p..>", "/x/y"));
    assert!(!uris_collide("/a", "/a/b"));
}

#[test]
fn matching_routes_follow_method_and_path() {
    let r = app().mount(
        "/",
        vec![
            Route::new(Method::Get, "/hello/<name>", 1),
            Route::new(Method::Post, "/hello/<name>", 2),
            Route::ranked(1, Method::Get, "/<any..>", 3),
        ],
    );
    let req = Request::new(Method::Get, "/hello/bob");
    let m = r.matching_routes(&req);
    let hs: Vec<u32> = m.iter().map(|&i| *r.handler(i)).collect();
    assert_eq!(hs, vec![1, 3]);
    let req = Request::new(Method::Post, "/hello/bob");
    let m = r.matching_routes(&req);
    assert_eq!(m.len(), 1);
    assert_eq!(*r.handler(m[0]), 2);
    let req = Request::new(Method::Delete, "/hello/bob");
    assert!(r.matching_routes(&req).is_empty());
}

#[test]
fn routing_tries_matches_in_order() {
    let r = app().mount("/", vec![Route::new(Method::Get, "/<a>", 1), Route::ranked(1, Method::Get, "/x", 2)]);
    let req = Request::new(Method::Get, "/x");
    let mut routing = r.start_routing(&req);
    let first = routing.next_route().unwrap();
    assert_eq!(*r.handler(first), 1);
    let second = routing.next_route().unwrap();
    assert_eq!(*r.handler(second), 2);
    assert!(routing.next_route().is_none());
    assert!(routing.next_route().is_none());
}

type Step = RouteStep<(), ()>;

#[test]
fn routing_stops_at_first_success_or_failure() {
    let r = app().mount(
        "/",
        vec![
            Route::new(Method::Get, "/<a>", 1),
            Route::ranked(1, Method::Get, "/x", 2),
            Route::ranked(2, Method::Get, "/<b..>", 3),
        ],
    );
    let mut req = Request::new(Method::Get, "/x");
    let mut routing = r.start_routing(&req);
    let step: Step = routing.on_outcome(&mut req, Outcome::Forward(Data::local(b"body".to_vec())));
    let (first, data) = match step {
        RouteStep::Try(i, d) => (i, d),
        RouteStep::Done(_) => panic!("a route matches"),
    };
    assert_eq!(*r.handler(first), 1);
    assert_eq!(req.route(), Some(first));
    // The first route forwards: the second gets the same data.
    let step: Step = routing.on_outcome(&mut req, Outcome::Forward(data));
    let (second, data) = match step {
        RouteStep::Try(i, d) => (i, d),
        RouteStep::Done(_) => panic!("two routes match"),
    };
    assert_eq!(*r.handler(second), 2);
    assert_eq!(req.route(), Some(second));
    assert_eq!(data.peek(), b"body");
    // The second fails: routing ends with that failure.
    let step: Step = routing.on_outcome(&mut req, Outcome::Failure(Status::new(401)));
    match step {
        RouteStep::Done(Outcome::Failure(s)) => assert_eq!(s.code, 401),
        _ => panic!("routing ends at a failure"),
    }
    assert_eq!(req.route(), Some(second));
}

#[test]
fn routing_forwards_when_every_route_forwards() {
    let r = app().mount("/", vec![Route::new(Method::Get, "/a", 1)]);
    let mut req = Request::new(Method::Get, "/a");
    let mut routing = r.start_routing(&req);
    let step: Step = routing.on_outcome(&mut req, Outcome::Forward(Data::local(vec![1])));
    let data = match step {
        RouteStep::Try(_, d) => d,
        _ => panic!(),
    };
    let step: Step = routing.on_outcome(&mut req, Outcome::Forward(data));
    match step {
        RouteStep::Done(Outcome::Forward(d)) => assert_eq!(d.peek(), &[1u8][..]),
        _ => panic!("every route forwarded"),
    }
    // No route at all: the data is forwarded at once.
    let mut req = Request::new(Method::Get, "/none");
    let mut routing = r.start_routing(&req);
    let step: Step = routing.on_outcome(&mut req, Outcome::Forward(Data::local(vec![])));
    assert!(matches!(step, RouteStep::Done(Outcome::Forward(_))));
    assert_eq!(req.route(), None);
    // A success ends routing at once.
    let step: Step = routing.on_outcome(&mut req, Outcome::Success(Response::new()));
    assert!(matches!(step, RouteStep::Done(Outcome::Success(_))));
}

#[test]
fn failing_catcher_falls_back_to_default_500() {
    let r = app().catch(vec![Catcher::new(404, 30)]);
    let step: CatchStep<(), u32> = r.after_catcher(Ok(Response::new()), false);
    assert!(matches!(step, CatchStep::Respond(_)));
    let step: CatchStep<(), u32> = r.after_catcher(Err(Status::new(418)), false);
    match step {
        CatchStep::Retry(c, s) => {
            assert_eq!(c.handler, 1);
            assert_eq!(c.code, 500);
            assert_eq!(s.code, 500);
        }
        _ => panic!("a failing catcher falls back"),
    }
    let step: CatchStep<(), u32> = r.after_catcher(Err(Status::new(500)), true);
    assert!(matches!(step, CatchStep::Abort));
}

#[test]
fn collisions_block_launch() {
    let r = app().mount("/", vec![Route::new(Method::Get, "/a/<x>", 1), Route::new(Method::Get, "/a/b", 2)]);
    assert!(r.has_collisions());
    assert_eq!(r.prelaunch_check(false), Some(LaunchErrorKind::Collision));
    assert_eq!(r.prelaunch_check(true), Some(LaunchErrorKind::Collision));

    let r = app().mount("/", vec![Route::new(Method::Get, "/a/<x>", 1), Route::ranked(1, Method::Get, "/a/b", 2)]);
    assert!(!r.has_collisions());
    assert_eq!(r.prelaunch_check(false), None);
    assert_eq!(r.prelaunch_check(true), Some(LaunchErrorKind::FailedFairing));

    let r = app().mount("/", vec![Route::new(Method::Get, "/a", 1), Route::new(Method::Post, "/a", 2)]);
    assert!(!r.has_collisions());
}

#[test]
fn catchers_replace_by_code() {
    let r = app().catch(vec![Catcher::new(404, 10), Catcher::new(418, 11), Catcher::new(404, 12)]);
    assert_eq!(r.catcher(404).unwrap().handler, 12);
    assert!(!r.catcher(404).unwrap().is_default);
    assert_eq!(r.catcher(418).unwrap().handler, 11);
    assert_eq!(r.catcher(500).unwrap().handler, 1);
}

#[test]
fn catcher_choice_falls_back_to_500() {
    let r = app().catch(vec![Catcher::new(500, 20)]);
    assert_eq!(r.catcher_for(Status::not_found()).handler, 1);
    assert_eq!(r.catcher_for(Status::new(503)).code, 503);
    assert_eq!(r.catcher_for(Status::new(599)).handler, 20);
    assert_eq!(r.catcher_for(Status::new(599)).code, 500);
    assert_eq!(r.default_catcher().handler, 1);
}

#[test]
fn success_gets_cookie_headers() {
    let mut req = Request::new(Method::Get, "/");
    req.set_cookie(Cookie::new("a", "1"));
    req.set_cookie(Cookie::new("b", "2"));
    let mut resp: Response<()> = Response::new();
    resp.set_header(Header::new("X", "y"));
    match after_route::<(), ()>(&mut req, Outcome::Success(resp)) {
        AfterRoute::Respond(r) => {
            assert_eq!(r.headers().len(), 3);
            assert_eq!(r.headers().get(1).name, "Set-Cookie");
            assert_eq!(r.headers().get(1).value, "a=1");
            assert_eq!(r.headers().get(2).value, "b=2");
        }
        _ => panic!("expected a response"),
    }
}

#[test]
fn forwarded_head_is_retried_as_get() {
    let mut req = Request::new(Method::Head, "/");
    match after_route::<(), ()>(&mut req, Outcome::Forward(Data::local(b"d".to_vec()))) {
        AfterRoute::Retry(d) => assert_eq!(d.peek(), b"d"),
        _ => panic!("expected a retry"),
    }
    assert_eq!(req.method(), Method::Get);
}

#[test]
fn forward_and_failure_go_to_catchers() {
    let mut req = Request::new(Method::Get, "/");
    match after_route::<(), ()>(&mut req, Outcome::Forward(Data::local(vec![]))) {
        AfterRoute::Catch(s) => assert_eq!(s.code, 404),
        _ => panic!("expected a catch"),
    }
    match after_route::<(), ()>(&mut req, Outcome::Failure(Status::new(401))) {
        AfterRoute::Catch(s) => assert_eq!(s.code, 401),
        _ => panic!("expected a catch"),
    }
    assert_eq!(req.method(), Method::Get);
}

#[test]
fn every_response_names_the_server() {
    let mut resp: Response<()> = Response::new();
    resp.set_header(Header::new("server", "other"));
    finish_response(&mut resp);
    assert_eq!(resp.headers().len(), 1);
    assert_eq!(resp.headers().get_one("Server").as_deref(), Some("Rocket"));
}

#[test]
fn head_response_body_is_stripped() {
    let mut resp: Response<()> = Response::new();
    resp.set_sized_body(b"hello".to_vec());
    resp.strip_body();
    match resp.take_body() {
        Some(Body::Sized(b, n)) => {
            assert!(b.is_empty());
            assert_eq!(n, 5);
        }
        _ => panic!(),
    }
}

#[test]
fn state_of_each_type_is_managed_once() {
    let r = app();
    let r = match r.manage(5u32) {
        Ok(r) => r,
        Err(_) => panic!("first value of a type is managed"),
    };
    let r = match r.manage(String::from("x")) {
        Ok(r) => r,
        Err(_) => panic!("another type is managed too"),
    };
    assert!(r.manage(6u32).is_err());
}

#[test]
fn mounted_route_is_available_at_base_slash_path() {
    let r = app().mount("/api/", vec![Route::new(Method::Get, "items/<id>", 7)]);
    let req = Request::new(Method::Get, "/api//items/5");
    let m = r.matching_routes(&req);
    assert_eq!(m.len(), 1);
    assert_eq!(*r.handler(m[0]), 7);
    let req = Request::new(Method::Get, "/api/items/5?full=1");
    assert_eq!(r.matching_routes(&req).len(), 1);
}

#[test]
fn normalizing_twice_changes_nothing() {
    for (base, uri) in [("//a//", "b/"), ("", "x"), ("/", "/"), ("/p", "q?r=/s//")] {
        let once = mount_uri(base, uri);
        let path_only = once.split('?').next().unwrap().to_string();
        assert_eq!(mount_uri("", &path_only).split('?').next().unwrap(), path_only);
    }
}

#[test]
fn building_keeps_the_given_config() {
    let r = app()
        .mount("/", vec![Route::new(Method::Get, "/a", 1)])
        .catch(vec![Catcher::new(404, 9)]);
    let r = match r.manage(5u8) {
        Ok(r) => r,
        Err(_) => panic!("nothing of this type is managed yet"),
    };
    assert_eq!(r.config().address, "localhost");
    assert_eq!(r.config().port, 8000);
    assert_eq!(r.config().workers, 4);
    let again = app();
    assert_eq!(again.routes().len(), 0);
    assert_eq!(again.catcher(404).unwrap().handler, 1);
}

#[test]
fn state_of_a_type_is_managed_once() {
    let r = match app().manage(5u8) {
        Ok(r) => r,
        Err(_) => panic!("a new application manages nothing"),
    };
    let r = match r.manage(7u16) {
        Ok(r) => r,
        Err(_) => panic!("no u16 is managed yet"),
    };
    assert!(r.manage(9u8).is_err());
}

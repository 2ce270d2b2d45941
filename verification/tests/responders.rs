use rocket::http::{ContentType, Status};
use rocket::outcome::Outcome;
use rocket::response::content::{Content, CSS, HTML, JSON, JavaScript, MsgPack, Plain, XML};
use rocket::response::failure::Failure;
use rocket::response::named_file::NamedFile;
use rocket::response::status::{Accepted, Created, Custom, NoContent, NotFound, Reset};
use rocket::response::{respond_ok_or_500, Body, Responder, Response, DEFAULT_CHUNK_SIZE};
use std::collections::hash_map::DefaultHasher;
use std::hash::{Hash, Hasher};

type R = Result<Response<()>, Status>;

fn sized_body<B>(r: &mut Response<B>) -> (Vec<u8>, u64) {
    match r.take_body() {
        Some(Body::Sized(b, n)) => (b, n),
        _ => panic!("expected a sized body"),
    }
}

#[test]
fn str_responds_with_plain_text() {
    let r: R = "Hello, world!".respond_to();
    let mut r = r.unwrap();
    assert_eq!(r.status().code, 200);
    assert_eq!(r.headers().len(), 1);
    assert_eq!(r.headers().get_one("content-type").as_deref(), Some("text/plain"));
    let (b, n) = sized_body(&mut r);
    assert_eq!(b, b"Hello, world!".to_vec());
    assert_eq!(n, 13);
}

#[test]
fn string_responds_with_utf8_bytes() {
    let r: R = String::from("héllo").respond_to();
    let mut r = r.unwrap();
    let (b, n) = sized_body(&mut r);
    assert_eq!(b, "héllo".as_bytes().to_vec());
    assert_eq!(n, 6);
}

#[test]
fn unit_responds_with_empty_response() {
    let r: R = ().respond_to();
    let mut r = r.unwrap();
    assert_eq!(r.status().code, 200);
    assert_eq!(r.headers().len(), 0);
    assert!(r.take_body().is_none());
}

#[test]
fn option_none_is_not_found() {
    let r: R = None::<&'static str>.respond_to();
    assert_eq!(r.unwrap_err().code, 404);
    let r: R = Some("x").respond_to();
    assert!(r.is_ok());
}

#[test]
fn result_err_without_responder_is_internal_error() {
    let r: R = respond_ok_or_500(Err::<&'static str, u8>(3));
    assert_eq!(r.unwrap_err().code, 500);
    let r: R = respond_ok_or_500(Ok::<&'static str, u8>("fine"));
    assert!(r.is_ok());
}

#[test]
fn result_either_side_responds() {
    let r: R = Err::<&'static str, Failure>(Failure(Status::new(409))).respond_to();
    assert_eq!(r.unwrap_err().code, 409);
    let r: R = Err::<Failure, &'static str>("sorry").respond_to();
    let mut r = r.unwrap();
    assert_eq!(r.status().code, 200);
    let (b, _) = sized_body(&mut r);
    assert_eq!(b, b"sorry".to_vec());
    let r: R = Ok::<&'static str, Failure>("ok").respond_to();
    assert!(r.is_ok());
}

#[test]
fn created_sets_status_and_location() {
    let r: R = Created("http://myservice.com/resource.json".to_string(), Some("{ 'resource': 'Hello, world!' }")).respond_to();
    let mut r = r.unwrap();
    assert_eq!(r.status().code, 201);
    assert_eq!(r.headers().get_one("Location").as_deref(), Some("http://myservice.com/resource.json"));
    assert_eq!(r.headers().get_one("Content-Type").as_deref(), Some("text/plain"));
    let mut hasher = DefaultHasher::new();
    "{ 'resource': 'Hello, world!' }".hash(&mut hasher);
    let tag = format!("\"{}\"", hasher.finish());
    assert_eq!(r.headers().get_one("ETag"), Some(tag));
    let (b, _) = sized_body(&mut r);
    assert_eq!(b, b"{ 'resource': 'Hello, world!' }".to_vec());
}

#[test]
fn created_without_responder_has_empty_body() {
    let r: R = Created::<&'static str>("/a".to_string(), None).respond_to();
    let mut r = r.unwrap();
    assert_eq!(r.status().code, 201);
    assert_eq!(r.headers().len(), 1);
    assert!(r.take_body().is_none());
}

#[test]
fn created_passes_on_failure() {
    let r: R = Created("/a".to_string(), Some(Failure(Status::bad_request()))).respond_to();
    assert_eq!(r.unwrap_err().code, 400);
}

#[test]
fn created_untagged_has_no_etag() {
    let r: R = Created("/a".to_string(), Some("body")).respond_untagged();
    let mut r = r.unwrap();
    assert_eq!(r.status().code, 201);
    assert!(r.headers().get_one("ETag").is_none());
    assert_eq!(r.headers().get_one("Location").as_deref(), Some("/a"));
    let (b, _) = sized_body(&mut r);
    assert_eq!(b, b"body".to_vec());
    let r: R = Created("/a".to_string(), Some(Failure(Status::new(403)))).respond_untagged();
    assert_eq!(r.unwrap_err().code, 403);
}

#[test]
fn created_tagged_sets_etag() {
    let r: R = Created("/a".to_string(), Some("body")).respond_to();
    let r = r.unwrap();
    assert_eq!(r.status().code, 201);
    let tag = r.headers().get_one("ETag").unwrap();
    assert!(tag.len() >= 3);
    assert!(tag.starts_with('"') && tag.ends_with('"'));
    assert!(tag[1..tag.len() - 1].chars().all(|c| c.is_ascii_digit()));
    // The same responder gives the same tag.
    let r2: R = Created("/a".to_string(), Some("body")).respond_to();
    assert_eq!(r2.unwrap().headers().get_one("ETag"), Some(tag));
    let r3: R = Created::<&'static str>("/a".to_string(), None).respond_to();
    assert!(r3.unwrap().headers().get_one("ETag").is_none());
}

#[test]
fn accepted_sets_status() {
    let r: R = Accepted::<&'static str>(None).respond_to();
    let mut r = r.unwrap();
    assert_eq!(r.status().code, 202);
    assert!(r.take_body().is_none());
    let r: R = Accepted(Some("processing")).respond_to();
    let mut r = r.unwrap();
    assert_eq!(r.status().code, 202);
    let (b, _) = sized_body(&mut r);
    assert_eq!(b, b"processing".to_vec());
}

#[test]
fn no_content_and_reset() {
    let r: R = NoContent.respond_to();
    let mut r = r.unwrap();
    assert_eq!(r.status().code, 204);
    assert!(r.take_body().is_none());
    let r: R = Reset.respond_to();
    let mut r = r.unwrap();
    assert_eq!(r.status().code, 205);
    assert!(r.take_body().is_none());
}

#[test]
fn not_found_keeps_body() {
    let r: R = NotFound("Sorry, I couldn't find it!").respond_to();
    let mut r = r.unwrap();
    assert_eq!(r.status().code, 404);
    let (b, _) = sized_body(&mut r);
    assert_eq!(b, b"Sorry, I couldn't find it!".to_vec());
}

#[test]
fn custom_sets_status() {
    let r: R = Custom(Status::new(418), "Hi!").respond_to();
    let r = r.unwrap();
    assert_eq!(r.status().code, 418);
    let r: R = Custom(Status::new(418), Failure(Status::new(503))).respond_to();
    assert_eq!(r.unwrap_err().code, 503);
}

#[test]
fn content_replaces_content_type() {
    let r: R = Content(ContentType::new("application/pdf"), "Hi.").respond_to();
    let r = r.unwrap();
    assert_eq!(r.headers().len(), 1);
    assert_eq!(r.headers().get_one("Content-Type").as_deref(), Some("application/pdf"));
    let r: R = HTML("<h1>Hello, world!</h1>").respond_to();
    assert_eq!(r.unwrap().headers().get_one("content-type").as_deref(), Some("text/html"));
    let r: R = JSON("{}").respond_to();
    assert_eq!(r.unwrap().headers().get_one("content-type").as_deref(), Some("application/json"));
    let r: R = XML("<a/>").respond_to();
    assert_eq!(r.unwrap().headers().get_one("content-type").as_deref(), Some("text/xml"));
    let r: R = MsgPack("x").respond_to();
    assert_eq!(r.unwrap().headers().get_one("content-type").as_deref(), Some("application/msgpack"));
    let r: R = Plain("x").respond_to();
    assert_eq!(r.unwrap().headers().get_one("content-type").as_deref(), Some("text/plain"));
    let r: R = CSS("x").respond_to();
    assert_eq!(r.unwrap().headers().get_one("content-type").as_deref(), Some("text/css"));
    let r: R = JavaScript("x").respond_to();
    assert_eq!(r.unwrap().headers().get_one("content-type").as_deref(), Some("application/javascript"));
    let r: R = JSON(Failure(Status::not_found())).respond_to();
    assert_eq!(r.unwrap_err().code, 404);
}

#[test]
fn failure_always_fails() {
    let r: R = Failure(Status::bad_request()).respond_to();
    assert_eq!(r.unwrap_err(), Status::bad_request());
}

#[test]
fn named_file_content_type_by_extension() {
    let f = NamedFile::new("static/index.HTML".to_string(), 7u32);
    assert_eq!(f.path(), "static/index.HTML");
    assert_eq!(*f.file(), 7);
    let mut r = f.respond_to().unwrap();
    assert_eq!(r.headers().get_one("Content-Type").as_deref(), Some("text/html"));
    match r.take_body() {
        Some(Body::Chunked(file, size)) => {
            assert_eq!(file, 7u32);
            assert_eq!(size, DEFAULT_CHUNK_SIZE);
            assert_eq!(size, 4096);
        }
        _ => panic!("expected a streamed body"),
    }
}

#[test]
fn named_file_unknown_or_missing_extension() {
    let r = NamedFile::new("foo.unknownext".to_string(), 1u8).respond_to().unwrap();
    assert_eq!(r.headers().len(), 0);
    let r = NamedFile::new("a.d/foo".to_string(), 1u8).respond_to().unwrap();
    assert_eq!(r.headers().len(), 0);
    let r = NamedFile::new(".bashrc".to_string(), 1u8).respond_to().unwrap();
    assert_eq!(r.headers().len(), 0);
    let r = NamedFile::new("dir/pic.jpg".to_string(), 1u8).respond_to().unwrap();
    assert_eq!(r.headers().get_one("Content-Type").as_deref(), Some("image/jpeg"));
}

#[test]
fn named_file_take_and_mutate() {
    let mut f = NamedFile::new("a.txt".to_string(), 5u8);
    *f.file_mut() = 6;
    assert_eq!(f.take_file(), 6);
}

#[test]
fn outcome_from_responder() {
    let o: Outcome<Response<()>, Status, rocket::data::Data<()>> = Outcome::from(Ok::<&'static str, Status>("hi"));
    assert!(o.is_success());
    let o: Outcome<Response<()>, Status, rocket::data::Data<()>> = Outcome::from(Err::<&'static str, Status>(Status::new(422)));
    match o {
        Outcome::Failure(s) => assert_eq!(s.code, 422),
        _ => unreachable!(),
    }
    let o: Outcome<Response<()>, Status, rocket::data::Data<()>> = Outcome::from(Ok::<Failure, Status>(Failure(Status::new(401))));
    assert!(o.is_failure());
    match o {
        Outcome::Failure(s) => assert_eq!(s.code, 401),
        _ => unreachable!(),
    }
    let o: Outcome<u8, u8, u8> = Outcome::forward(3);
    assert!(o.is_forward());
    let o: Outcome<u8, u8, u8> = Outcome::failure(3);
    assert!(o.is_failure());
}

#[test]
fn response_operations() {
    let mut r: Response<u8> = Response::new();
    r.set_status(Status::new(302));
    r.set_header(rocket::http::Header::new("X", "1"));
    r.adjoin_header(rocket::http::Header::new("x", "2"));
    assert_eq!(r.headers().len(), 2);
    r.set_header(rocket::http::Header::new("X", "3"));
    assert_eq!(r.headers().len(), 1);
    r.set_sized_body(b"abc".to_vec());
    r.strip_body();
    match r.take_body() {
        Some(Body::Sized(b, n)) => {
            assert!(b.is_empty());
            assert_eq!(n, 3);
        }
        _ => panic!(),
    }
    r.set_chunked_body(9, 10);
    r.strip_body();
    assert!(r.take_body().is_none());
    assert_eq!(r.status().code, 302);
}

#[test]
fn created_with_given_tag() {
    let r: R = Created("/a".to_string(), Some("body")).respond_to_with_tag(42);
    let r = r.unwrap();
    assert_eq!(r.headers().get_one("ETag").as_deref(), Some("\"42\""));
    assert_eq!(r.headers().get_one("Location").as_deref(), Some("/a"));
    assert_eq!(r.status().code, 201);
    let r: R = Created::<&'static str>("/a".to_string(), None).respond_to_with_tag(42);
    assert!(r.unwrap().headers().get_one("ETag").is_none());
    let r: R = Created("/a".to_string(), Some(Failure(Status::new(400)))).respond_to_with_tag(1);
    assert_eq!(r.unwrap_err().code, 400);
}

#[test]
fn file_response_by_extension() {
    let r = rocket::response::named_file::file_response(Some("CSS".to_string()), 3u8);
    assert_eq!(r.headers().get_one("Content-Type").as_deref(), Some("text/css"));
    let r = rocket::response::named_file::file_response(None, 3u8);
    assert_eq!(r.headers().len(), 0);
    let r = rocket::response::named_file::file_response(Some("nope".to_string()), 3u8);
    assert_eq!(r.headers().len(), 0);
}

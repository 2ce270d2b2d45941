//! Responders that set the `Content-Type` of a response.
//!
//! Each type wraps a responder. Its response is the wrapped responder's with
//! the `Content-Type` header replaced; a failure of the wrapped responder is
//! passed on unchanged.

use vstd::prelude::*;

use crate::http::{ContentType, Status};
use crate::response::{Responder, Response, ResponseView, responds_mapped, result_view, with_header};

verus! {

/// `r` with its `Content-Type` header set to `media`.
pub open spec fn typed_response<B>(r: ResponseView<B>, media: Seq<char>) -> ResponseView<B> {
    with_header(r, "Content-Type"@, media)
}

/// Whether `out` is what `r` gives once its `Content-Type` is set to `media`.
pub open spec fn typed_spec<B, R: Responder<B>>(r: R, media: Seq<char>, out: Result<ResponseView<B>, Status>) -> bool {
    responds_mapped(r, |v: ResponseView<B>| typed_response(v, media), out)
}

fn respond_typed<B, R: Responder<B>>(ct: ContentType, r: R) -> (out: Result<Response<B>, Status>)
    ensures
        typed_spec(r, ct.media@, result_view(out)),
{
    let ghost x = r;
    let inner = r.respond_to();
    let ghost ir = result_view(inner);
    assert(x.responds_with(ir));
    match inner {
        Ok(resp) => {
            let mut build = resp;
            build.set_header(ct.to_header());
            Ok(build)
        },
        Err(s) => Err(s),
    }
}

/// Sets the `Content-Type` of a responder to a chosen media type; the
/// wrapped responder makes the rest of the response.
#[derive(Debug)]
pub struct Content<R>(pub ContentType, pub R);

impl<B, R: Responder<B>> Responder<B> for Content<R> {
    open spec fn responds_with(self, r: Result<ResponseView<B>, Status>) -> bool {
        typed_spec(self.1, self.0.media@, r)
    }

    fn respond_to(self) -> (out: Result<Response<B>, Status>) {
        let Content(ct, r) = self;
        respond_typed(ct, r)
    }
}

/// Overrides the `Content-Type` of the response to `application/json`.
#[derive(Debug)]
pub struct JSON<R>(pub R);

impl<B, R: Responder<B>> Responder<B> for JSON<R> {
    open spec fn responds_with(self, r: Result<ResponseView<B>, Status>) -> bool {
        typed_spec(self.0, "application/json"@, r)
    }

    fn respond_to(self) -> (out: Result<Response<B>, Status>) {
        respond_typed(ContentType::json(), self.0)
    }
}

/// Overrides the `Content-Type` of the response to `text/xml`.
#[derive(Debug)]
pub struct XML<R>(pub R);

impl<B, R: Responder<B>> Responder<B> for XML<R> {
    open spec fn responds_with(self, r: Result<ResponseView<B>, Status>) -> bool {
        typed_spec(self.0, "text/xml"@, r)
    }

    fn respond_to(self) -> (out: Result<Response<B>, Status>) {
        respond_typed(ContentType::xml(), self.0)
    }
}

/// Overrides the `Content-Type` of the response to `application/msgpack`.
#[derive(Debug)]
pub struct MsgPack<R>(pub R);

impl<B, R: Responder<B>> Responder<B> for MsgPack<R> {
    open spec fn responds_with(self, r: Result<ResponseView<B>, Status>) -> bool {
        typed_spec(self.0, "application/msgpack"@, r)
    }

    fn respond_to(self) -> (out: Result<Response<B>, Status>) {
        respond_typed(ContentType::msgpack(), self.0)
    }
}

/// Overrides the `Content-Type` of the response to `text/html`.
#[derive(Debug)]
pub struct HTML<R>(pub R);

impl<B, R: Responder<B>> Responder<B> for HTML<R> {
    open spec fn responds_with(self, r: Result<ResponseView<B>, Status>) -> bool {
        typed_spec(self.0, "text/html"@, r)
    }

    fn respond_to(self) -> (out: Result<Response<B>, Status>) {
        respond_typed(ContentType::html(), self.0)
    }
}

/// Overrides the `Content-Type` of the response to `text/plain`.
#[derive(Debug)]
pub struct Plain<R>(pub R);

impl<B, R: Responder<B>> Responder<B> for Plain<R> {
    open spec fn responds_with(self, r: Result<ResponseView<B>, Status>) -> bool {
        typed_spec(self.0, "text/plain"@, r)
    }

    fn respond_to(self) -> (out: Result<Response<B>, Status>) {
        respond_typed(ContentType::plain(), self.0)
    }
}

/// Overrides the `Content-Type` of the response to `text/css`.
#[derive(Debug)]
pub struct CSS<R>(pub R);

impl<B, R: Responder<B>> Responder<B> for CSS<R> {
    open spec fn responds_with(self, r: Result<ResponseView<B>, Status>) -> bool {
        typed_spec(self.0, "text/css"@, r)
    }

    fn respond_to(self) -> (out: Result<Response<B>, Status>) {
        respond_typed(ContentType::css(), self.0)
    }
}

/// Overrides the `Content-Type` of the response to `application/javascript`.
#[derive(Debug)]
pub struct JavaScript<R>(pub R);

impl<B, R: Responder<B>> Responder<B> for JavaScript<R> {
    open spec fn responds_with(self, r: Result<ResponseView<B>, Status>) -> bool {
        typed_spec(self.0, "application/javascript"@, r)
    }

    fn respond_to(self) -> (out: Result<Response<B>, Status>) {
        respond_typed(ContentType::javascript(), self.0)
    }
}

/// What a content-type wrapper of `x` with media type `media` answers: on
/// success, `media` is the value of the `Content-Type` header, which is the
/// last header and the only one of that name; on failure, the status that
/// `x` fails with.
pub open spec fn typed_answer<B, R: Responder<B>>(x: R, media: Seq<char>, r: Result<ResponseView<B>, Status>) -> bool {
    match r {
        Ok(v) => {
            &&& crate::http::first_value(v.headers, "Content-Type"@) == Some(media)
            &&& v.headers.len() > 0
            &&& v.headers.last() == ("Content-Type"@, media)
            &&& !crate::http::has_name(v.headers.drop_last(), "Content-Type"@)
        },
        Err(s) => x.responds_with(Err(s)),
    }
}

proof fn lemma_typed_answer<B, R: Responder<B>>(x: R, media: Seq<char>, r: Result<ResponseView<B>, Status>)
    requires
        typed_spec(x, media, r),
    ensures
        typed_answer(x, media, r),
{
    let ir = choose|ir: Result<ResponseView<B>, Status>| #[trigger] x.responds_with(ir) && r == crate::response::map_ok(
        ir,
        |v: ResponseView<B>| typed_response(v, media),
    );
    match ir {
        Ok(v) => {
            crate::http::replace_then_get(v.headers, "Content-Type"@, media);
            let hs = crate::http::without_name(v.headers, "Content-Type"@).push(("Content-Type"@, media));
            assert(hs.drop_last() =~= crate::http::without_name(v.headers, "Content-Type"@));
        },
        Err(_) => {},
    }
}

/// Each content-type wrapper answers with its own media type as the one
/// `Content-Type` header of a successful response, and fails exactly as the
/// wrapped responder fails.
pub proof fn wrappers_set_their_media_type<B, R: Responder<B>>(x: R, ct: ContentType, r: Result<ResponseView<B>, Status>)
    ensures
        Content(ct, x).responds_with(r) ==> typed_answer(x, ct.media@, r),
        JSON(x).responds_with(r) ==> typed_answer(x, "application/json"@, r),
        XML(x).responds_with(r) ==> typed_answer(x, "text/xml"@, r),
        MsgPack(x).responds_with(r) ==> typed_answer(x, "application/msgpack"@, r),
        HTML(x).responds_with(r) ==> typed_answer(x, "text/html"@, r),
        Plain(x).responds_with(r) ==> typed_answer(x, "text/plain"@, r),
        CSS(x).responds_with(r) ==> typed_answer(x, "text/css"@, r),
        JavaScript(x).responds_with(r) ==> typed_answer(x, "application/javascript"@, r),
{
    if Content(ct, x).responds_with(r) {
        lemma_typed_answer(x, ct.media@, r);
    }
    if JSON(x).responds_with(r) {
        lemma_typed_answer(x, "application/json"@, r);
    }
    if XML(x).responds_with(r) {
        lemma_typed_answer(x, "text/xml"@, r);
    }
    if MsgPack(x).responds_with(r) {
        lemma_typed_answer(x, "application/msgpack"@, r);
    }
    if HTML(x).responds_with(r) {
        lemma_typed_answer(x, "text/html"@, r);
    }
    if Plain(x).responds_with(r) {
        lemma_typed_answer(x, "text/plain"@, r);
    }
    if CSS(x).responds_with(r) {
        lemma_typed_answer(x, "text/css"@, r);
    }
    if JavaScript(x).responds_with(r) {
        lemma_typed_answer(x, "application/javascript"@, r);
    }
}

} // verus!

//! Responses and the `Responder` trait, with its implementations for the
//! basic types.

use vstd::prelude::*;

pub mod content;
pub mod failure;
pub mod named_file;
pub mod status;
use vstd::utf8::encode_utf8;

use crate::http::{ContentType, Header, HeaderMap, HeaderView, Status, without_name};

verus! {

/// The size of the chunks in which a streamed body is sent.
pub const DEFAULT_CHUNK_SIZE: u64 = 4096;

/// The body of a response: bytes of a known size, or a stream `B` that is
/// sent in chunks of the given size.
#[derive(Debug)]
pub enum Body<B> {
    Sized(Vec<u8>, u64),
    Chunked(B, u64),
}

/// A body as plain values.
pub enum BodyView<B> {
    Sized(Seq<u8>, u64),
    Chunked(B, u64),
}

impl<B> Body<B> {
    pub open spec fn view(&self) -> BodyView<B> {
        match self {
            Body::Sized(bytes, n) => BodyView::Sized(bytes@, *n),
            Body::Chunked(b, n) => BodyView::Chunked(*b, *n),
        }
    }
}

/// A response as plain values: its status, if one was set, its headers in
/// order, and its body, if it has one.
pub struct ResponseView<B> {
    pub status: Option<Status>,
    pub headers: Seq<HeaderView>,
    pub body: Option<BodyView<B>>,
}

/// The response with no status, no header and no body.
pub open spec fn empty_response<B>() -> ResponseView<B> {
    ResponseView { status: None, headers: Seq::empty(), body: None }
}

/// `r` with its status set to `s`.
pub open spec fn with_status<B>(r: ResponseView<B>, s: Status) -> ResponseView<B> {
    ResponseView { status: Some(s), ..r }
}

/// `r` with every header named `name` replaced by the one header `(name, value)`.
pub open spec fn with_header<B>(r: ResponseView<B>, name: Seq<char>, value: Seq<char>) -> ResponseView<B> {
    ResponseView { headers: without_name(r.headers, name).push((name, value)), ..r }
}

/// `r` with the header `(name, value)` added after the others.
pub open spec fn with_added_header<B>(r: ResponseView<B>, name: Seq<char>, value: Seq<char>) -> ResponseView<B> {
    ResponseView { headers: r.headers.push((name, value)), ..r }
}

/// `r` with a sized body holding `bytes`.
pub open spec fn with_sized_body<B>(r: ResponseView<B>, bytes: Seq<u8>) -> ResponseView<B> {
    ResponseView { body: Some(BodyView::Sized(bytes, bytes.len() as u64)), ..r }
}

/// The status that a response is sent with: the one set, else 200.
pub open spec fn effective_status<B>(r: ResponseView<B>) -> Status {
    match r.status {
        Some(s) => s,
        None => Status { code: 200 },
    }
}

/// `r` with its body emptied: a sized body keeps its declared size and
/// loses its bytes; a streamed body is dropped.
pub open spec fn stripped<B>(r: ResponseView<B>) -> ResponseView<B> {
    ResponseView {
        body: match r.body {
            Some(BodyView::Sized(_, n)) => Some(BodyView::Sized(Seq::empty(), n)),
            _ => None,
        },
        ..r
    }
}

/// A response to a request.
#[derive(Debug)]
pub struct Response<B> {
    status: Option<Status>,
    headers: HeaderMap,
    body: Option<Body<B>>,
}

impl<B> View for Response<B> {
    type V = ResponseView<B>;

    closed spec fn view(&self) -> ResponseView<B> {
        ResponseView {
            status: self.status,
            headers: self.headers@,
            body: match self.body {
                Some(b) => Some(b.view()),
                None => None,
            },
        }
    }
}

impl<B> Response<B> {
    /// A response with no status, no header and no body.
    pub fn new() -> (r: Response<B>)
        ensures
            r@ == empty_response::<B>(),
    {
        Response { status: None, headers: HeaderMap::new(), body: None }
    }

    /// The status the response is sent with: the one set, else 200 OK.
    pub fn status(&self) -> (s: Status)
        ensures
            s == effective_status(self@),
    {
        match self.status {
            Some(s) => s,
            None => Status::ok(),
        }
    }

    /// Sets the status.
    pub fn set_status(&mut self, s: Status)
        ensures
            final(self)@ == with_status(old(self)@, s),
    {
        self.status = Some(s);
    }

    /// The headers of the response.
    pub fn headers(&self) -> (h: &HeaderMap)
        ensures
            h@ == self@.headers,
    {
        &self.headers
    }

    /// Sets a header, replacing any others of the same name.
    pub fn set_header(&mut self, h: Header)
        ensures
            final(self)@ == with_header(old(self)@, h.name@, h.value@),
    {
        self.headers.replace(h);
    }

    /// Adds a header, keeping any others of the same name.
    pub fn adjoin_header(&mut self, h: Header)
        ensures
            final(self)@ == with_added_header(old(self)@, h.name@, h.value@),
    {
        self.headers.add(h);
    }

    /// Sets a body of the given bytes; its size is their number.
    pub fn set_sized_body(&mut self, bytes: Vec<u8>)
        ensures
            final(self)@ == with_sized_body(old(self)@, bytes@),
    {
        let n = bytes.len() as u64;
        self.body = Some(Body::Sized(bytes, n));
    }

    /// Sets a body streamed from `b` in chunks of the default size.
    pub fn set_streamed_body(&mut self, b: B)
        ensures
            final(self)@ == (ResponseView {
                body: Some(BodyView::Chunked(b, DEFAULT_CHUNK_SIZE)),
                ..old(self)@
            }),
    {
        self.body = Some(Body::Chunked(b, DEFAULT_CHUNK_SIZE));
    }

    /// Sets a body streamed from `b` in chunks of `chunk_size` bytes.
    pub fn set_chunked_body(&mut self, b: B, chunk_size: u64)
        ensures
            final(self)@ == (ResponseView {
                body: Some(BodyView::Chunked(b, chunk_size)),
                ..old(self)@
            }),
    {
        self.body = Some(Body::Chunked(b, chunk_size));
    }

    /// Takes the body out of the response, leaving it without one.
    pub fn take_body(&mut self) -> (b: Option<Body<B>>)
        ensures
            final(self)@ == (ResponseView { body: None, ..old(self)@ }),
            match b {
                Some(x) => old(self)@.body == Some(x.view()),
                None => old(self)@.body is None,
            },
    {
        let b = self.body.take();
        b
    }

    /// Empties the body: a sized body keeps its size and loses its bytes, a
    /// streamed body is removed.
    pub fn strip_body(&mut self)
        ensures
            final(self)@ == stripped(old(self)@),
    {
        let b = self.body.take();
        match b {
            Some(Body::Sized(_, n)) => {
                self.body = Some(Body::Sized(Vec::new(), n));
            },
            _ => {},
        }
        assert(self@.body == stripped(old(self)@).body);
    }
}

/// A responder's result as plain values.
pub open spec fn result_view<B>(r: Result<Response<B>, Status>) -> Result<ResponseView<B>, Status> {
    match r {
        Ok(x) => Ok(x@),
        Err(s) => Err(s),
    }
}

/// `r` with `f` applied to a successful response; a failing status is kept.
pub open spec fn map_ok<B>(
    r: Result<ResponseView<B>, Status>,
    f: spec_fn(ResponseView<B>) -> ResponseView<B>,
) -> Result<ResponseView<B>, Status> {
    match r {
        Ok(x) => Ok(f(x)),
        Err(s) => Err(s),
    }
}

/// A type that produces a response, or the status of a failure that an
/// error catcher is to answer.
pub trait Responder<B>: Sized {
    /// Whether `r` is a result that `respond_to` may give for this value.
    /// For most responders exactly one result qualifies.
    spec fn responds_with(self, r: Result<ResponseView<B>, Status>) -> bool;

    /// Produces the response, or the failing status.
    fn respond_to(self) -> (r: Result<Response<B>, Status>)
        ensures
            self.responds_with(result_view(r)),
    ;
}

/// `x` responds with some result `ir`, and `r` is `ir` with `f` applied to a
/// successful response; a failing status is passed on.
pub open spec fn responds_mapped<B, R: Responder<B>>(
    x: R,
    f: spec_fn(ResponseView<B>) -> ResponseView<B>,
    r: Result<ResponseView<B>, Status>,
) -> bool {
    exists|ir: Result<ResponseView<B>, Status>| #[trigger] x.responds_with(ir) && r == map_ok(ir, f)
}

/// The plain-text response with the given bytes as its body.
pub open spec fn plain_text_response<B>(bytes: Seq<u8>) -> ResponseView<B> {
    with_sized_body(
        with_header(empty_response(), "Content-Type"@, "text/plain"@),
        bytes,
    )
}

fn plain_text<B>(bytes: Vec<u8>) -> (r: Response<B>)
    ensures
        r@ == plain_text_response::<B>(bytes@),
{
    let mut r = Response::new();
    r.set_header(ContentType::plain().to_header());
    r.set_sized_body(bytes);
    r
}

/// A string responds with `Content-Type: text/plain` and a sized body of
/// its UTF-8 bytes. It always succeeds.
impl<B> Responder<B> for &'static str {
    open spec fn responds_with(self, r: Result<ResponseView<B>, Status>) -> bool {
        r == Ok::<ResponseView<B>, Status>(plain_text_response(encode_utf8(self@)))
    }

    fn respond_to(self) -> (r: Result<Response<B>, Status>) {
        let bytes = vstd::slice::slice_to_vec(self.as_bytes());
        Ok(plain_text(bytes))
    }
}

/// A string responds with `Content-Type: text/plain` and a sized body of
/// its UTF-8 bytes. It always succeeds.
impl<B> Responder<B> for String {
    open spec fn responds_with(self, r: Result<ResponseView<B>, Status>) -> bool {
        r == Ok::<ResponseView<B>, Status>(plain_text_response(encode_utf8(self@)))
    }

    fn respond_to(self) -> (r: Result<Response<B>, Status>) {
        let bytes = vstd::slice::slice_to_vec(self.as_str().as_bytes());
        Ok(plain_text(bytes))
    }
}

/// The unit value responds with an empty response. It always succeeds.
impl<B> Responder<B> for () {
    open spec fn responds_with(self, r: Result<ResponseView<B>, Status>) -> bool {
        r == Ok::<ResponseView<B>, Status>(empty_response())
    }

    fn respond_to(self) -> (r: Result<Response<B>, Status>) {
        Ok(Response::new())
    }
}

/// `Some` responds as the wrapped responder; `None` fails with 404 Not Found.
impl<B, R: Responder<B>> Responder<B> for Option<R> {
    open spec fn responds_with(self, r: Result<ResponseView<B>, Status>) -> bool {
        match self {
            Some(x) => x.responds_with(r),
            None => r == Err::<ResponseView<B>, Status>(Status { code: 404 }),
        }
    }

    fn respond_to(self) -> (r: Result<Response<B>, Status>) {
        match self {
            Some(r) => r.respond_to(),
            None => Err(Status::not_found()),
        }
    }
}

/// Responds with the wrapped responder, whether it is `Ok` or `Err`.
impl<B, R: Responder<B>, E: Responder<B>> Responder<B> for Result<R, E> {
    open spec fn responds_with(self, r: Result<ResponseView<B>, Status>) -> bool {
        match self {
            Ok(x) => x.responds_with(r),
            Err(e) => e.responds_with(r),
        }
    }

    fn respond_to(self) -> (r: Result<Response<B>, Status>) {
        match self {
            Ok(x) => x.respond_to(),
            Err(e) => e.respond_to(),
        }
    }
}

/// What a `Result` whose error is no responder gives: `Ok` responds as the
/// wrapped responder, `Err` fails with 500 Internal Server Error.
pub open spec fn ok_or_500_responds<B, R: Responder<B>, E>(
    x: Result<R, E>,
    r: Result<ResponseView<B>, Status>,
) -> bool {
    match x {
        Ok(y) => y.responds_with(r),
        Err(_) => r == Err::<ResponseView<B>, Status>(Status { code: 500 }),
    }
}

/// Responds to a `Result` whose error is not itself a responder: `Ok` responds
/// as the wrapped responder; `Err` fails with 500 Internal Server Error.
pub fn respond_ok_or_500<B, R: Responder<B>, E>(x: Result<R, E>) -> (out: Result<Response<B>, Status>)
    ensures
        ok_or_500_responds(x, result_view(out)),
{
    match x {
        Ok(y) => y.respond_to(),
        Err(_) => Err(Status::internal_server_error()),
    }
}

/// The plain-text response with `text` as its body, spelled out: no status
/// set (so it is sent as 200 OK), the one header `Content-Type: text/plain`,
/// and a sized body of the UTF-8 bytes of `text`.
pub open spec fn text_response_fields<B>(v: ResponseView<B>, text: Seq<char>) -> bool {
    &&& v.status is None
    &&& v.headers == seq![("Content-Type"@, "text/plain"@)]
    &&& v.body == Some(BodyView::<B>::Sized(encode_utf8(text), encode_utf8(text).len() as u64))
}

/// Text responds as plain text, and only so: a `String` and a `&str` each
/// give exactly one result, a successful response with no status set, the
/// single header `Content-Type: text/plain` and the UTF-8 bytes of the text
/// as a sized body; so a `String` and a `&str` of the same text respond
/// alike.
pub proof fn text_responds_as_plain_text<B>(s: String, t: &'static str, r: Result<ResponseView<B>, Status>)
    ensures
        <String as Responder<B>>::responds_with(s, r) <==> (r matches Ok(v) && text_response_fields(v, s@)),
        <&'static str as Responder<B>>::responds_with(t, r) <==> (r matches Ok(v) && text_response_fields(v, t@)),
        s@ == t@ ==> (<String as Responder<B>>::responds_with(s, r) <==> <&'static str as Responder<B>>::responds_with(t, r)),
{
    let hv = seq![("Content-Type"@, "text/plain"@)];
    assert(without_name(Seq::<HeaderView>::empty(), "Content-Type"@) =~= Seq::<HeaderView>::empty());
    assert(Seq::<HeaderView>::empty().push(("Content-Type"@, "text/plain"@)) =~= hv);
    let ps = plain_text_response::<B>(encode_utf8(s@));
    let pt = plain_text_response::<B>(encode_utf8(t@));
    assert(text_response_fields(ps, s@));
    assert(text_response_fields(pt, t@));
    match r {
        Ok(v) => {
            if text_response_fields(v, s@) {
                assert(v == ps);
            }
            if text_response_fields(v, t@) {
                assert(v == pt);
            }
        },
        _ => {},
    }
}

/// The unit value responds with a response holding nothing, and only so.
pub proof fn unit_responds_with_nothing<B>(r: Result<ResponseView<B>, Status>)
    ensures
        <() as Responder<B>>::responds_with((), r) <==> (r matches Ok(v) && v.status is None
            && v.headers.len() == 0 && v.body is None),
{
    match r {
        Ok(v) => {
            if v.status is None && v.headers.len() == 0 && v.body is None {
                assert(v.headers =~= Seq::<HeaderView>::empty());
                assert(v == empty_response::<B>());
            }
        },
        _ => {},
    }
}

/// A missing value fails with 404 Not Found, and a present one responds as
/// it would on its own.
pub proof fn option_responds_as_content_or_404<B, R: Responder<B>>(x: Option<R>, r: Result<ResponseView<B>, Status>)
    ensures
        x is None ==> (x.responds_with(r) <==> r == Err::<ResponseView<B>, Status>(Status { code: 404 })),
        x matches Some(y) ==> (x.responds_with(r) <==> y.responds_with(r)),
{
}

/// Setting a header replaces the headers of its name (compared without ASCII
/// case) by it, placed last, and keeps every header of another name, in
/// order; the status and the body stay as they were.
pub proof fn set_header_keeps_other_names<B>(r: ResponseView<B>, name: Seq<char>, value: Seq<char>)
    ensures
        with_header(r, name, value).headers == crate::http::other_names(r.headers, name).push((name, value)),
        with_header(r, name, value).status == r.status,
        with_header(r, name, value).body == r.body,
{
    crate::http::remove_keeps_other_names(r.headers, name);
}

} // verus!

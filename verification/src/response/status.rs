//! Responders that set the status code of a response, and the headers that
//! go with it.

use vstd::prelude::*;

use crate::http::{Header, Status};
use crate::response::{
    Responder, Response, ResponseView, empty_response, responds_mapped, result_view, with_header,
    with_status,
};
use crate::text::{decimal, decimal_chars, string_of};
use std::hash::Hasher;

verus! {

/// A response with status 201 and the `Location` header set to `loc`.
pub open spec fn created_response<B>(r: ResponseView<B>, loc: Seq<char>) -> ResponseView<B> {
    with_header(with_status(r, Status { code: 201 }), "Location"@, loc)
}

/// Sets the status of the response to 201 (Created).
///
/// The `String` field is set as the value of the `Location` header. The
/// optional responder, when present, makes the rest of the response; when
/// absent, the body is empty.
#[derive(Debug)]
pub struct Created<R>(pub String, pub Option<R>);

/// Calls `Hash::hash` to feed `value` to `hasher`. Nothing is claimed of the
/// hasher's state afterwards: it rests on `R`'s `Hash` impl.
#[verifier::external_body]
fn feed_hasher<R: std::hash::Hash>(value: &R, hasher: &mut std::collections::hash_map::DefaultHasher) {
    value.hash(hasher)
}

/// The value of a strong `ETag` for the tag `t`: its decimal text in quotes.
pub open spec fn strong_etag(t: nat) -> Seq<char> {
    seq!['"'] + decimal(t) + seq!['"']
}

/// A created response whose `ETag` header is the strong tag `t`.
pub open spec fn tagged_created<B>(r: ResponseView<B>, t: nat, loc: Seq<char>) -> ResponseView<B> {
    created_response(with_header(r, "ETag"@, strong_etag(t)), loc)
}

/// Whether `r` is what a created response gives without an `ETag`.
pub open spec fn created_responds<B, R: Responder<B>>(c: Created<R>, r: Result<ResponseView<B>, Status>) -> bool {
    match c.1 {
        Some(x) => responds_mapped(x, |v: ResponseView<B>| created_response(v, c.0@), r),
        None => r == Ok::<ResponseView<B>, Status>(created_response(empty_response(), c.0@)),
    }
}

/// Whether `r` is what a created response gives when its tag is `t`: the
/// `ETag` is set only when a responder is present.
pub open spec fn tagged_responds<B, R: Responder<B>>(c: Created<R>, t: u64, r: Result<ResponseView<B>, Status>) -> bool {
    match c.1 {
        Some(x) => responds_mapped(x, |v: ResponseView<B>| tagged_created(v, t as nat, c.0@), r),
        None => r == Ok::<ResponseView<B>, Status>(created_response(empty_response(), c.0@)),
    }
}

/// Sets the status to 201 and the `Location` header; the responder, when
/// present, makes the rest of the response, and the `ETag` header is then set
/// to a strong tag: the hash of the responder by std's `DefaultHasher`, in
/// decimal. Which tag that is rests on `R`'s `Hash` impl and is not stated.
impl<B, R: Responder<B> + std::hash::Hash> Responder<B> for Created<R> {
    open spec fn responds_with(self, r: Result<ResponseView<B>, Status>) -> bool {
        exists|t: u64| #[trigger] tagged_responds(self, t, r)
    }

    fn respond_to(self) -> (out: Result<Response<B>, Status>) {
        let hash = match &self.1 {
            Some(r) => {
                let mut hasher = std::collections::hash_map::DefaultHasher::new();
                feed_hasher(r, &mut hasher);
                hasher.finish()
            },
            None => 0,
        };
        let ghost me = self;
        let out = self.respond_to_with_tag(hash);
        assert(tagged_responds(me, hash, result_view(out)));
        out
    }
}

impl<R> Created<R> {
    /// Responds with status 201 and the `Location` header; the responder,
    /// when present, makes the rest of the response and the `ETag` header is
    /// set to the strong tag `tag`, in decimal.
    pub fn respond_to_with_tag<B>(self, tag: u64) -> (out: Result<Response<B>, Status>)
        where R: Responder<B>,
        ensures
            tagged_responds(self, tag, result_view(out)),
    {
        let Created(loc, responder) = self;
        let mut build = match responder {
            Some(r) => {
                let ghost x = r;
                let inner = r.respond_to();
                let ghost ir = result_view(inner);
                assert(x.responds_with(ir));
                let mut build = match inner {
                    Ok(resp) => resp,
                    Err(s) => {
                        return Err(s);
                    },
                };
                let mut text: Vec<char> = vec!['"'];
                let digits = decimal_chars(tag);
                let mut i: usize = 0;
                while i < digits.len()
                    invariant
                        i <= digits@.len(),
                        text@ == seq!['"'] + digits@.take(i as int),
                    decreases digits@.len() - i,
                {
                    text.push(digits[i]);
                    i += 1;
                    assert(digits@.take(i as int) =~= digits@.take((i - 1) as int).push(digits@[i - 1]));
                }
                text.push('"');
                assert(digits@.take(digits@.len() as int) =~= digits@);
                assert(text@ =~= strong_etag(tag as nat));
                build.set_header(Header { name: "ETag".to_owned(), value: string_of(text.as_slice()) });
                build
            },
            None => Response::new(),
        };
        build.set_status(Status::created());
        build.set_header(Header { name: "Location".to_owned(), value: loc });
        Ok(build)
    }

    /// Responds with status 201 and the `Location` header, without an
    /// `ETag`: the responder, when present, makes the rest of the response.
    /// This is the response for a responder that cannot be hashed.
    pub fn respond_untagged<B>(self) -> (out: Result<Response<B>, Status>)
        where R: Responder<B>,
        ensures
            created_responds(self, result_view(out)),
    {
        let Created(loc, responder) = self;
        let mut build = match responder {
            Some(r) => {
                let ghost x = r;
                let inner = r.respond_to();
                let ghost ir = result_view(inner);
                assert(x.responds_with(ir));
                match inner {
                    Ok(resp) => resp,
                    Err(s) => {
                        return Err(s);
                    },
                }
            },
            None => Response::new(),
        };
        build.set_status(Status::created());
        build.set_header(Header { name: "Location".to_owned(), value: loc });
        Ok(build)
    }
}

/// Sets the status of the response to 202 (Accepted).
///
/// The optional responder, when present, makes the rest of the response;
/// when absent, the body is empty.
#[derive(Debug)]
pub struct Accepted<R>(pub Option<R>);

impl<B, R: Responder<B>> Responder<B> for Accepted<R> {
    open spec fn responds_with(self, r: Result<ResponseView<B>, Status>) -> bool {
        match self.0 {
            Some(x) => responds_mapped(x, |v: ResponseView<B>| with_status(v, Status { code: 202 }), r),
            None => r == Ok::<ResponseView<B>, Status>(with_status(empty_response(), Status { code: 202 })),
        }
    }

    fn respond_to(self) -> (out: Result<Response<B>, Status>) {
        let mut build = match self.0 {
            Some(r) => {
                let ghost x = r;
                let inner = r.respond_to();
                let ghost ir = result_view(inner);
                assert(x.responds_with(ir));
                match inner {
                    Ok(resp) => resp,
                    Err(s) => {
                        return Err(s);
                    },
                }
            },
            None => Response::new(),
        };
        build.set_status(Status::accepted());
        Ok(build)
    }
}

/// Sets the status of the response to 204 (No Content); the body is empty.
#[derive(Debug, Clone, Copy, PartialEq, Eq, Structural)]
pub struct NoContent;

impl<B> Responder<B> for NoContent {
    open spec fn responds_with(self, r: Result<ResponseView<B>, Status>) -> bool {
        r == Ok::<ResponseView<B>, Status>(with_status(empty_response(), Status { code: 204 }))
    }

    fn respond_to(self) -> (out: Result<Response<B>, Status>) {
        let mut build = Response::new();
        build.set_status(Status::no_content());
        Ok(build)
    }
}

/// Sets the status of the response to 205 (Reset Content); the body is empty.
#[derive(Debug, Clone, Copy, PartialEq, Eq, Structural)]
pub struct Reset;

impl<B> Responder<B> for Reset {
    open spec fn responds_with(self, r: Result<ResponseView<B>, Status>) -> bool {
        r == Ok::<ResponseView<B>, Status>(with_status(empty_response(), Status { code: 205 }))
    }

    fn respond_to(self) -> (out: Result<Response<B>, Status>) {
        let mut build = Response::new();
        build.set_status(Status::reset_content());
        Ok(build)
    }
}

/// Sets the status of the response to 404 (Not Found); the wrapped responder
/// makes the rest of the response.
#[derive(Debug)]
pub struct NotFound<R>(pub R);

impl<B, R: Responder<B>> Responder<B> for NotFound<R> {
    open spec fn responds_with(self, r: Result<ResponseView<B>, Status>) -> bool {
        responds_mapped(self.0, |v: ResponseView<B>| with_status(v, Status { code: 404 }), r)
    }

    fn respond_to(self) -> (out: Result<Response<B>, Status>) {
        let ghost x = self.0;
        let inner = self.0.respond_to();
        let ghost ir = result_view(inner);
        assert(x.responds_with(ir));
        match inner {
            Ok(resp) => {
                let mut build = resp;
                build.set_status(Status::not_found());
                Ok(build)
            },
            Err(s) => Err(s),
        }
    }
}

/// Sets the status of the response to the given one; the wrapped responder
/// makes the rest of the response.
#[derive(Debug)]
pub struct Custom<R>(pub Status, pub R);

impl<B, R: Responder<B>> Responder<B> for Custom<R> {
    open spec fn responds_with(self, r: Result<ResponseView<B>, Status>) -> bool {
        responds_mapped(self.1, |v: ResponseView<B>| with_status(v, self.0), r)
    }

    fn respond_to(self) -> (out: Result<Response<B>, Status>) {
        let Custom(status, responder) = self;
        let ghost x = responder;
        let inner = responder.respond_to();
        let ghost ir = result_view(inner);
        assert(x.responds_with(ir));
        match inner {
            Ok(resp) => {
                let mut build = resp;
                build.set_status(status);
                Ok(build)
            },
            Err(s) => Err(s),
        }
    }
}

/// What a wrapper that sets the status `code` around `x` answers: on
/// success, a response sent with `code`; on failure, the status that `x`
/// fails with.
pub open spec fn status_answer<B, R: Responder<B>>(x: R, code: u16, r: Result<ResponseView<B>, Status>) -> bool {
    match r {
        Ok(v) => v.status == Some(Status { code }),
        Err(s) => x.responds_with(Err(s)),
    }
}

proof fn lemma_status_answer<B, R: Responder<B>>(x: R, code: u16, r: Result<ResponseView<B>, Status>)
    requires
        responds_mapped(x, |v: ResponseView<B>| with_status(v, Status { code }), r),
    ensures
        status_answer(x, code, r),
{
    let ir = choose|ir: Result<ResponseView<B>, Status>| #[trigger] x.responds_with(ir) && r == crate::response::map_ok(
        ir,
        |v: ResponseView<B>| with_status(v, Status { code }),
    );
}

/// Each status wrapper sends its own status: 202 for `Accepted`, 404 for
/// `NotFound`, the given one for `Custom`, 204 for `NoContent` and 205 for
/// `Reset` (these two with no header and no body); a failure of the
/// wrapped responder is passed on as it is.
pub proof fn wrappers_set_their_status<B, R: Responder<B>>(x: R, st: Status, r: Result<ResponseView<B>, Status>)
    ensures
        Accepted(Some(x)).responds_with(r) ==> status_answer(x, 202, r),
        Accepted::<R>(None).responds_with(r) ==> (r matches Ok(v) && v.status == Some(Status { code: 202 })
            && v.headers.len() == 0 && v.body is None),
        NotFound(x).responds_with(r) ==> status_answer(x, 404, r),
        Custom(st, x).responds_with(r) ==> status_answer(x, st.code, r),
        <NoContent as Responder<B>>::responds_with(NoContent, r) ==> (r matches Ok(v) && v.status == Some(
            Status { code: 204 },
        ) && v.headers.len() == 0 && v.body is None),
        <Reset as Responder<B>>::responds_with(Reset, r) ==> (r matches Ok(v) && v.status == Some(
            Status { code: 205 },
        ) && v.headers.len() == 0 && v.body is None),
{
    if Accepted(Some(x)).responds_with(r) {
        lemma_status_answer(x, 202, r);
    }
    if NotFound(x).responds_with(r) {
        lemma_status_answer(x, 404, r);
    }
    if Custom(st, x).responds_with(r) {
        assert(Status { code: st.code } == st);
        lemma_status_answer(x, st.code, r);
    }
}

/// A created response is sent with 201 and its `Location` header is the
/// location given, the only one of that name; without a responder it has
/// no body; a failure of the responder is passed on as it is. This holds
/// whatever the tag, and without one.
pub proof fn created_sets_status_and_location<B, R: Responder<B>>(c: Created<R>, t: u64, r: Result<ResponseView<B>, Status>)
    ensures
        tagged_responds(c, t, r) ==> match r {
            Ok(v) => {
                &&& v.status == Some(Status { code: 201 })
                &&& crate::http::first_value(v.headers, "Location"@) == Some(c.0@)
                &&& v.headers.last() == ("Location"@, c.0@)
                &&& (c.1 is None ==> v.body is None)
            },
            Err(s) => c.1 matches Some(x) && x.responds_with(Err(s)),
        },
        created_responds(c, r) ==> match r {
            Ok(v) => {
                &&& v.status == Some(Status { code: 201 })
                &&& crate::http::first_value(v.headers, "Location"@) == Some(c.0@)
                &&& v.headers.last() == ("Location"@, c.0@)
                &&& (c.1 is None ==> v.body is None)
            },
            Err(s) => c.1 matches Some(x) && x.responds_with(Err(s)),
        },
{
    if tagged_responds(c, t, r) {
        match c.1 {
            Some(x) => {
                let ir = choose|ir: Result<ResponseView<B>, Status>| #[trigger] x.responds_with(ir) && r
                    == crate::response::map_ok(ir, |v: ResponseView<B>| tagged_created(v, t as nat, c.0@));
                match ir {
                    Ok(v) => {
                        let w = with_status(with_header(v, "ETag"@, strong_etag(t as nat)), Status { code: 201 });
                        crate::http::replace_then_get(w.headers, "Location"@, c.0@);
                    },
                    Err(_) => {},
                }
            },
            None => {
                crate::http::replace_then_get(Seq::empty(), "Location"@, c.0@);
            },
        }
    }
    if created_responds(c, r) {
        match c.1 {
            Some(x) => {
                let ir = choose|ir: Result<ResponseView<B>, Status>| #[trigger] x.responds_with(ir) && r
                    == crate::response::map_ok(ir, |v: ResponseView<B>| created_response(v, c.0@));
                match ir {
                    Ok(v) => {
                        let w = with_status(v, Status { code: 201 });
                        crate::http::replace_then_get(w.headers, "Location"@, c.0@);
                    },
                    Err(_) => {},
                }
            },
            None => {
                crate::http::replace_then_get(Seq::empty(), "Location"@, c.0@);
            },
        }
    }
}

} // verus!

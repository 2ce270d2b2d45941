//! Local requests: requests built in process, for testing an application
//! without a network.

use vstd::prelude::*;

use crate::data::Data;
use crate::http::{Cookie, Header, SocketAddr};
use crate::request::{Request, RequestView, with_cookie};
use crate::response::Response;

verus! {

/// A request built locally, with the body it carries.
#[derive(Debug)]
pub struct LocalRequest {
    request: Request,
    data: Vec<u8>,
}

impl LocalRequest {
    /// The request as it stands.
    pub closed spec fn request_view(&self) -> RequestView {
        self.request@
    }

    /// The body the request carries.
    pub closed spec fn body_view(&self) -> Seq<u8> {
        self.data@
    }

    /// A local request for `request`, with an empty body.
    pub fn new(request: Request) -> (r: LocalRequest)
        ensures
            r.request_view() == request@,
            r.body_view() == Seq::<u8>::empty(),
    {
        LocalRequest { request, data: Vec::new() }
    }

    /// The request as Rocket sees it.
    pub fn inner(&self) -> (r: &Request)
        ensures
            r@ == self.request_view(),
    {
        &self.request
    }

    /// Adds a header, and gives the request back.
    pub fn header(self, header: Header) -> (r: LocalRequest)
        ensures
            r.request_view() == (RequestView {
                headers: self.request_view().headers.push(header.view()),
                ..self.request_view()
            }),
            r.body_view() == self.body_view(),
    {
        let mut s = self;
        s.request.add_header(header);
        s
    }

    /// Adds a header.
    pub fn add_header(&mut self, header: Header)
        ensures
            final(self).request_view() == (RequestView {
                headers: old(self).request_view().headers.push(header.view()),
                ..old(self).request_view()
            }),
            final(self).body_view() == old(self).body_view(),
    {
        self.request.add_header(header);
    }

    /// Sets the remote address, and gives the request back.
    pub fn remote(self, address: SocketAddr) -> (r: LocalRequest)
        ensures
            r.request_view() == (RequestView { remote: Some(address), ..self.request_view() }),
            r.body_view() == self.body_view(),
    {
        let mut s = self;
        s.request.set_remote(address);
        s
    }

    /// Adds a cookie, as sent by the client, replacing any cookie of the
    /// same name, and gives the request back.
    pub fn cookie(self, cookie: Cookie) -> (r: LocalRequest)
        ensures
            r.request_view() == (RequestView {
                cookies: with_cookie(self.request_view().cookies, (cookie.name@, cookie.value@)),
                ..self.request_view()
            }),
            r.body_view() == self.body_view(),
    {
        let mut s = self;
        s.request.add_client_cookie(cookie);
        s
    }

    /// Sets the body, and gives the request back.
    pub fn body(self, body: &[u8]) -> (r: LocalRequest)
        ensures
            r.request_view() == self.request_view(),
            r.body_view() == body@,
    {
        let mut s = self;
        s.set_body(body);
        s
    }

    /// Sets the body.
    pub fn set_body(&mut self, body: &[u8])
        ensures
            final(self).request_view() == old(self).request_view(),
            final(self).body_view() == body@,
    {
        self.data = vstd::slice::slice_to_vec(body);
    }

    /// Hands the request over for dispatching, with its body as data that is
    /// wholly held.
    pub fn dispatch<S>(self) -> (r: (Request, Data<S>))
        ensures
            r.0@ == self.request_view(),
            r.1.buffered() == self.body_view(),
            r.1.stream_view() is None,
    {
        let LocalRequest { request, data } = self;
        (request, Data::local(data))
    }

    /// Hands a copy of the request over for dispatching, keeping this one to
    /// be dispatched again.
    pub fn cloned_dispatch<S>(&self) -> (r: (Request, Data<S>))
        ensures
            r.0@ == self.request_view(),
            r.1.buffered() == self.body_view(),
            r.1.stream_view() is None,
    {
        let request = self.request.duplicate();
        let data = vstd::slice::slice_to_vec(self.data.as_slice());
        (request, Data::local(data))
    }
}

/// The response to a dispatched local request, with the request it answers.
#[derive(Debug)]
pub struct LocalResponse<B> {
    request: Request,
    response: Response<B>,
}

impl<B> LocalResponse<B> {
    /// Pairs a response with the request it answers.
    pub fn new(request: Request, response: Response<B>) -> (r: LocalResponse<B>)
        ensures
            r.request_view() == request@,
            r.response_view() == response@,
    {
        LocalResponse { request, response }
    }

    /// The request answered, as plain values.
    pub closed spec fn request_view(&self) -> RequestView {
        self.request@
    }

    /// The response, as plain values.
    pub closed spec fn response_view(&self) -> crate::response::ResponseView<B> {
        self.response@
    }

    /// The response.
    pub fn response(&self) -> (r: &Response<B>)
        ensures
            r@ == self.response_view(),
    {
        &self.response
    }

    /// The response, to change it.
    pub fn response_mut(&mut self) -> (r: &mut Response<B>)
        ensures
            r@ == old(self).response_view(),
            final(self).response_view() == final(r)@,
            final(self).request_view() == old(self).request_view(),
    {
        &mut self.response
    }
}

} // verus!

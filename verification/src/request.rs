//! Incoming requests, and the rewriting that Rocket does before routing.

use vstd::prelude::*;

use crate::http::{
    Cookie, Header, HeaderMap, HeaderView, IpAddr, Method, SocketAddr, cookie_pair, first_value,
    method_named,
};
use crate::text::{chars_of, eq_ignore_ascii_case, str_eq};

verus! {

/// A cookie as plain text: its name and its value.
pub type CookieView = (Seq<char>, Seq<char>);

/// A request as plain values.
pub struct RequestView {
    pub method: Method,
    pub uri: Seq<char>,
    pub headers: Seq<HeaderView>,
    pub remote: Option<SocketAddr>,
    /// The cookies the client sent.
    pub cookies: Seq<CookieView>,
    /// The cookies set while handling the request, to be sent back.
    pub delta: Seq<CookieView>,
    /// The index of the route that the request was last handed to.
    pub route: Option<usize>,
}

/// An incoming request.
#[derive(Debug)]
pub struct Request {
    method: Method,
    uri: String,
    headers: HeaderMap,
    remote: Option<SocketAddr>,
    cookies: Vec<Cookie>,
    delta: Vec<Cookie>,
    route: Option<usize>,
}

/// `cs` without its cookies named `name`; the others keep their order.
pub open spec fn without_cookie(cs: Seq<CookieView>, name: Seq<char>) -> Seq<CookieView>
    decreases cs.len(),
{
    if cs.len() == 0 {
        Seq::empty()
    } else {
        let rest = without_cookie(cs.drop_last(), name);
        if cs.last().0 == name {
            rest
        } else {
            rest.push(cs.last())
        }
    }
}

/// `cs` with the cookie `c` added, replacing any cookie of the same name.
pub open spec fn with_cookie(cs: Seq<CookieView>, c: CookieView) -> Seq<CookieView> {
    without_cookie(cs, c.0).push(c)
}

/// The value of the cookie named `name` in `cs`, if there is one (the last
/// one, should there be several).
pub open spec fn cookie_value(cs: Seq<CookieView>, name: Seq<char>) -> Option<Seq<char>>
    decreases cs.len(),
{
    if cs.len() == 0 {
        None
    } else if cs.last().0 == name {
        Some(cs.last().1)
    } else {
        cookie_value(cs.drop_last(), name)
    }
}

proof fn lemma_without_cookie_value(cs: Seq<CookieView>, name: Seq<char>, other: Seq<char>)
    ensures
        cookie_value(without_cookie(cs, name), other) == if other == name {
            None
        } else {
            cookie_value(cs, other)
        },
    decreases cs.len(),
{
    if cs.len() > 0 {
        lemma_without_cookie_value(cs.drop_last(), name, other);
        let rest = without_cookie(cs.drop_last(), name);
        if cs.last().0 != name {
            assert(rest.push(cs.last()).drop_last() =~= rest);
        }
    }
}

/// Adding a cookie makes it the one found by its name, replacing any of the
/// same name, and leaves the cookies of every other name as they were.
pub proof fn cookie_then_lookup(cs: Seq<CookieView>, c: CookieView, other: Seq<char>)
    ensures
        cookie_value(with_cookie(cs, c), c.0) == Some(c.1),
        other != c.0 ==> cookie_value(with_cookie(cs, c), other) == cookie_value(cs, other),
{
    lemma_without_cookie_value(cs, c.0, other);
    assert(with_cookie(cs, c).drop_last() =~= without_cookie(cs, c.0));
}

/// The plain text of a list of cookies.
pub open spec fn cookies_view(cs: Seq<Cookie>) -> Seq<CookieView> {
    cs.map_values(|c: Cookie| (c.name@, c.value@))
}

impl View for Request {
    type V = RequestView;

    closed spec fn view(&self) -> RequestView {
        RequestView {
            method: self.method,
            uri: self.uri@,
            headers: self.headers@,
            remote: self.remote,
            cookies: cookies_view(self.cookies@),
            delta: cookies_view(self.delta@),
            route: self.route,
        }
    }
}

fn copy_cookies(cs: &Vec<Cookie>) -> (out: Vec<Cookie>)
    ensures
        cookies_view(out@) == cookies_view(cs@),
{
    let mut out: Vec<Cookie> = Vec::new();
    let mut i: usize = 0;
    while i < cs.len()
        invariant
            i <= cs@.len(),
            cookies_view(out@) == cookies_view(cs@.take(i as int)),
        decreases cs@.len() - i,
    {
        let ghost before = out@;
        out.push(Cookie { name: cs[i].name.clone(), value: cs[i].value.clone() });
        assert(cookies_view(out@) =~= cookies_view(before).push((cs@[i as int].name@, cs@[i as int].value@)));
        assert(cs@.take((i + 1) as int) =~= cs@.take(i as int).push(cs@[i as int]));
        assert(cookies_view(cs@.take((i + 1) as int)) =~= cookies_view(cs@.take(i as int)).push(
            (cs@[i as int].name@, cs@[i as int].value@),
        ));
        i += 1;
    }
    assert(cs@.take(cs@.len() as int) =~= cs@);
    out
}

fn copy_headers(hs: &HeaderMap) -> (out: HeaderMap)
    ensures
        out@ == hs@,
{
    let mut out = HeaderMap::new();
    let mut i: usize = 0;
    while i < hs.len()
        invariant
            i <= hs@.len(),
            out@ == hs@.take(i as int),
        decreases hs@.len() - i,
    {
        out.add(hs.get(i).copy());
        assert(hs@.take((i + 1) as int) =~= hs@.take(i as int).push(hs@[i as int]));
        i += 1;
    }
    assert(hs@.take(hs@.len() as int) =~= hs@);
    out
}

impl Request {
    /// A request with the given method and URI, and no header, no remote
    /// address and no cookie.
    pub fn new(method: Method, uri: &str) -> (r: Request)
        ensures
            r@ == (RequestView {
                method,
                uri: uri@,
                headers: Seq::empty(),
                remote: None,
                cookies: Seq::empty(),
                delta: Seq::empty(),
                route: None,
            }),
    {
        let r = Request {
            method,
            uri: uri.to_owned(),
            headers: HeaderMap::new(),
            remote: None,
            cookies: Vec::new(),
            delta: Vec::new(),
            route: None,
        };
        assert(cookies_view(Seq::<Cookie>::empty()) =~= Seq::<CookieView>::empty());
        r
    }

    /// A copy of this request.
    pub fn duplicate(&self) -> (r: Request)
        ensures
            r@ == self@,
    {
        Request {
            method: self.method,
            uri: self.uri.clone(),
            headers: copy_headers(&self.headers),
            remote: self.remote,
            cookies: copy_cookies(&self.cookies),
            delta: copy_cookies(&self.delta),
            route: self.route,
        }
    }

    /// The method of the request.
    pub fn method(&self) -> (m: Method)
        ensures
            m == self@.method,
    {
        self.method
    }

    /// Sets the method of the request.
    pub fn set_method(&mut self, m: Method)
        ensures
            final(self)@ == (RequestView { method: m, ..old(self)@ }),
    {
        self.method = m;
    }

    /// The URI of the request.
    pub fn uri(&self) -> (u: &str)
        ensures
            u@ == self@.uri,
    {
        self.uri.as_str()
    }

    /// The headers of the request.
    pub fn headers(&self) -> (h: &HeaderMap)
        ensures
            h@ == self@.headers,
    {
        &self.headers
    }

    /// Adds a header, keeping any others of the same name.
    pub fn add_header(&mut self, h: Header)
        ensures
            final(self)@ == (RequestView { headers: old(self)@.headers.push(h.view()), ..old(self)@ }),
    {
        self.headers.add(h);
    }

    /// The remote address, if it is known.
    pub fn remote(&self) -> (a: Option<SocketAddr>)
        ensures
            a == self@.remote,
    {
        self.remote
    }

    /// Sets the remote address.
    pub fn set_remote(&mut self, a: SocketAddr)
        ensures
            final(self)@ == (RequestView { remote: Some(a), ..old(self)@ }),
    {
        self.remote = Some(a);
    }

    /// Adds a cookie that the client sent, replacing any cookie of the same
    /// name.
    pub fn add_client_cookie(&mut self, c: Cookie)
        ensures
            final(self)@ == (RequestView {
                cookies: with_cookie(old(self)@.cookies, (c.name@, c.value@)),
                ..old(self)@
            }),
    {
        let ghost cs = self@.cookies;
        let mut kept: Vec<Cookie> = Vec::new();
        let mut i: usize = 0;
        while i < self.cookies.len()
            invariant
                cs == cookies_view(self.cookies@),
                i <= self.cookies@.len(),
                cookies_view(kept@) == without_cookie(cs.take(i as int), c.name@),
            decreases self.cookies@.len() - i,
        {
            assert(cs.take((i + 1) as int).drop_last() =~= cs.take(i as int));
            assert(cs[i as int] == (self.cookies@[i as int].name@, self.cookies@[i as int].value@));
            if !str_eq(self.cookies[i].name.as_str(), c.name.as_str()) {
                let ghost before = kept@;
                kept.push(Cookie { name: self.cookies[i].name.clone(), value: self.cookies[i].value.clone() });
                assert(cookies_view(kept@) =~= cookies_view(before).push(cs[i as int]));
            }
            i += 1;
        }
        assert(cs.take(cs.len() as int) =~= cs);
        let ghost cv = (c.name@, c.value@);
        let ghost before = kept@;
        kept.push(c);
        assert(cookies_view(kept@) =~= cookies_view(before).push(cv));
        self.cookies = kept;
    }

    /// The value of the cookie the client sent under `name`, if there is one.
    pub fn cookie(&self, name: &str) -> (r: Option<String>)
        ensures
            match cookie_value(self@.cookies, name@) {
                Some(v) => r is Some && r->0@ == v,
                None => r is None,
            },
    {
        let ghost cs = self@.cookies;
        let mut i: usize = self.cookies.len();
        assert(cs.take(i as int) =~= cs);
        while i > 0
            invariant
                cs == cookies_view(self.cookies@),
                i <= self.cookies@.len(),
                cookie_value(cs, name@) == cookie_value(cs.take(i as int), name@),
            decreases i,
        {
            assert(cs.take(i as int).drop_last() =~= cs.take((i - 1) as int));
            assert(cs[i - 1] == (self.cookies@[i - 1].name@, self.cookies@[i - 1].value@));
            if str_eq(self.cookies[i - 1].name.as_str(), name) {
                return Some(self.cookies[i - 1].value.clone());
            }
            i -= 1;
        }
        None
    }

    /// Sets a cookie while handling the request; it is sent back with the
    /// response.
    pub fn set_cookie(&mut self, c: Cookie)
        ensures
            final(self)@ == (RequestView { delta: old(self)@.delta.push((c.name@, c.value@)), ..old(self)@ }),
    {
        let ghost cv = (c.name@, c.value@);
        self.delta.push(c);
        assert(cookies_view(self.delta@) =~= cookies_view(old(self).delta@).push(cv));
    }

    /// The number of cookies set while handling the request.
    pub fn delta_len(&self) -> (n: usize)
        ensures
            n == self@.delta.len(),
    {
        self.delta.len()
    }

    /// The header that sends back the `i`-th cookie set while handling.
    pub fn delta_header(&self, i: usize) -> (h: Header)
        requires
            i < self@.delta.len(),
        ensures
            h.view() == ("Set-Cookie"@, cookie_pair(self@.delta[i as int].0, self@.delta[i as int].1)),
    {
        self.delta[i].to_header()
    }

    /// The index of the route the request was last handed to, if any.
    pub fn route(&self) -> (r: Option<usize>)
        ensures
            r == self@.route,
    {
        self.route
    }

    /// Records the index of the route the request is handed to.
    pub fn set_route(&mut self, route: usize)
        ensures
            final(self)@ == (RequestView { route: Some(route), ..old(self)@ }),
    {
        self.route = Some(route);
    }

    /// The value of the first `Content-Type` header, if there is one.
    pub fn content_type(&self) -> (c: Option<String>)
        ensures
            match first_value(self@.headers, "Content-Type"@) {
                Some(v) => c is Some && c->0@ == v,
                None => c is None,
            },
    {
        self.headers.get_one("Content-Type")
    }
}

/// `c` is a space or a horizontal tab.
pub open spec fn is_blank(c: char) -> bool {
    c == ' ' || c == '\t'
}

/// The media type part of a `Content-Type` value: the text before the first
/// `;`, without the blanks at its ends.
pub open spec fn media_part(v: Seq<char>) -> Seq<char> {
    trim_blanks(before_char(v, ';'))
}

/// The text of `s` before the first `c`, or all of it.
pub open spec fn before_char(s: Seq<char>, c: char) -> Seq<char>
    decreases s.len(),
{
    if s.len() == 0 {
        s
    } else if s[0] == c {
        Seq::empty()
    } else {
        seq![s[0]] + before_char(s.drop_first(), c)
    }
}

/// `s` without blanks at its start.
pub open spec fn trim_start_blanks(s: Seq<char>) -> Seq<char>
    decreases s.len(),
{
    if s.len() > 0 && is_blank(s[0]) {
        trim_start_blanks(s.drop_first())
    } else {
        s
    }
}

/// `s` without blanks at its end.
pub open spec fn trim_end_blanks(s: Seq<char>) -> Seq<char>
    decreases s.len(),
{
    if s.len() > 0 && is_blank(s.last()) {
        trim_end_blanks(s.drop_last())
    } else {
        s
    }
}

/// `s` without blanks at its ends.
pub open spec fn trim_blanks(s: Seq<char>) -> Seq<char> {
    trim_end_blanks(trim_start_blanks(s))
}

/// A `Content-Type` value names the form media type
/// `application/x-www-form-urlencoded` (letters compared without case).
pub open spec fn names_form(v: Seq<char>) -> bool {
    eq_ignore_ascii_case(media_part(v), "application/x-www-form-urlencoded"@)
}

fn before_char_exec(s: &Vec<char>, c: char) -> (r: Vec<char>)
    ensures
        r@ == before_char(s@, c),
{
    let mut i: usize = 0;
    while i < s.len() && s[i] != c
        invariant
            i <= s@.len(),
            forall|j: int| 0 <= j < i ==> s@[j] != c,
        decreases s@.len() - i,
    {
        i += 1;
    }
    proof {
        lemma_before_char_take(s@, c, i as int);
    }
    let r = vstd::slice::slice_to_vec(vstd::slice::slice_subrange(s.as_slice(), 0, i));
    r
}

pub(crate) proof fn lemma_before_char_take(s: Seq<char>, c: char, i: int)
    requires
        0 <= i <= s.len(),
        forall|j: int| 0 <= j < i ==> s[j] != c,
        i == s.len() || s[i] == c,
    ensures
        before_char(s, c) == s.take(i),
    decreases s.len(),
{
    if s.len() == 0 {
    } else if i == 0 {
    } else {
        lemma_before_char_take(s.drop_first(), c, i - 1);
        assert(s.take(i) =~= seq![s[0]] + s.drop_first().take(i - 1));
    }
}

proof fn lemma_trim_start(s: Seq<char>, i: int)
    requires
        0 <= i <= s.len(),
        forall|j: int| 0 <= j < i ==> is_blank(s[j]),
        i == s.len() || !is_blank(s[i]),
    ensures
        trim_start_blanks(s) == s.skip(i),
    decreases i,
{
    if i == 0 {
        assert(s.skip(0) =~= s);
    } else {
        lemma_trim_start(s.drop_first(), i - 1);
        assert(s.drop_first().skip(i - 1) =~= s.skip(i));
    }
}

proof fn lemma_trim_end(s: Seq<char>, k: int)
    requires
        0 <= k <= s.len(),
        forall|j: int| k <= j < s.len() ==> is_blank(s[j]),
        k == 0 || !is_blank(s[k - 1]),
    ensures
        trim_end_blanks(s) == s.take(k),
    decreases s.len() - k,
{
    if k == s.len() {
        assert(s.take(k) =~= s);
    } else {
        lemma_trim_end(s.drop_last(), k);
        assert(s.drop_last().take(k) =~= s.take(k));
    }
}

fn trim_blanks_exec(s: &Vec<char>) -> (r: Vec<char>)
    ensures
        r@ == trim_blanks(s@),
{
    let mut i: usize = 0;
    while i < s.len() && (s[i] == ' ' || s[i] == '\t')
        invariant
            i <= s@.len(),
            forall|j: int| 0 <= j < i ==> is_blank(s@[j]),
        decreases s@.len() - i,
    {
        i += 1;
    }
    proof {
        lemma_trim_start(s@, i as int);
    }
    let t = vstd::slice::slice_to_vec(vstd::slice::slice_subrange(s.as_slice(), i, s.len()));
    assert(t@ =~= s@.skip(i as int));
    let mut k: usize = t.len();
    while k > 0 && (t[k - 1] == ' ' || t[k - 1] == '\t')
        invariant
            k <= t@.len(),
            forall|j: int| k <= j < t@.len() ==> is_blank(t@[j]),
        decreases k,
    {
        k -= 1;
    }
    proof {
        lemma_trim_end(t@, k as int);
    }
    let r = vstd::slice::slice_to_vec(vstd::slice::slice_subrange(t.as_slice(), 0, k));
    assert(r@ =~= t@.take(k as int));
    r
}

/// Whether a `Content-Type` value names the form media type.
pub fn is_form_media(v: &str) -> (b: bool)
    ensures
        b == names_form(v@),
{
    let chars = chars_of(v);
    let media = trim_blanks_exec(&before_char_exec(&chars, ';'));
    let form = chars_of("application/x-www-form-urlencoded");
    crate::text::chars_eq_ignore_case(media.as_slice(), form.as_slice())
}

/// The bytes `_method=`.
pub open spec fn method_key() -> Seq<u8> {
    seq![95u8, 109u8, 101u8, 116u8, 104u8, 111u8, 100u8, 61u8]
}

/// The bytes of `s` before the first `&`, or all of them.
pub open spec fn before_amp(s: Seq<u8>) -> Seq<u8>
    decreases s.len(),
{
    if s.len() == 0 {
        s
    } else if s[0] == 38u8 {
        Seq::empty()
    } else {
        seq![s[0]] + before_amp(s.drop_first())
    }
}

/// The method that the bytes `s` name: only ASCII bytes can name one, and
/// letters are compared without case.
pub open spec fn bytes_method(s: Seq<u8>) -> Option<Method> {
    if forall|i: int| 0 <= i < s.len() ==> s[i] < 128 {
        method_named(s.map_values(|b: u8| b as char))
    } else {
        None
    }
}

/// The method that a form body asks for: when it starts with the field
/// `_method=`, the method named by that field's value (up to the next `&`).
pub open spec fn form_method_override(form: Seq<u8>) -> Option<Method> {
    if form.len() >= 8 && form.take(8) == method_key() {
        bytes_method(before_amp(form.skip(8)))
    } else {
        None
    }
}

proof fn lemma_before_amp(s: Seq<u8>, i: int)
    requires
        0 <= i <= s.len(),
        forall|j: int| 0 <= j < i ==> s[j] != 38u8,
        i == s.len() || s[i] == 38u8,
    ensures
        before_amp(s) == s.take(i),
    decreases s.len(),
{
    if s.len() == 0 {
    } else if i == 0 {
    } else {
        lemma_before_amp(s.drop_first(), i - 1);
        assert(s.take(i) =~= seq![s[0]] + s.drop_first().take(i - 1));
    }
}

/// The method that a form body asks for with its leading `_method` field.
pub fn method_override(form: &[u8]) -> (r: Option<Method>)
    ensures
        r == form_method_override(form@),
{
    if form.len() < 8 {
        return None;
    }
    let key: [u8; 8] = [95u8, 109u8, 101u8, 116u8, 104u8, 111u8, 100u8, 61u8];
    let mut i: usize = 0;
    while i < 8
        invariant
            form@.len() >= 8,
            i <= 8,
            key@ == method_key(),
            forall|j: int| 0 <= j < i ==> form@[j] == method_key()[j],
        decreases 8 - i,
    {
        if form[i] != key[i] {
            assert(form@.take(8)[i as int] != method_key()[i as int]);
            return None;
        }
        i += 1;
    }
    assert(form@.take(8) =~= method_key());
    let mut end: usize = 8;
    while end < form.len() && form[end] != 38u8
        invariant
            8 <= end <= form@.len(),
            forall|j: int| 8 <= j < end ==> form@[j] != 38u8,
        decreases form@.len() - end,
    {
        end += 1;
    }
    let ghost rest = form@.skip(8);
    proof {
        assert forall|j: int| 0 <= j < end - 8 implies rest[j] != 38u8 by {
            assert(rest[j] == form@[j + 8]);
        }
        lemma_before_amp(rest, end - 8);
    }
    let value = vstd::slice::slice_subrange(form, 8, end);
    assert(value@ =~= rest.take(end - 8));
    let mut chars: Vec<char> = Vec::new();
    let mut k: usize = 0;
    while k < value.len()
        invariant
            k <= value@.len(),
            form@.len() >= 8,
            form@.take(8) == method_key(),
            value@ == before_amp(form@.skip(8)),
            forall|j: int| 0 <= j < k ==> value@[j] < 128,
            chars@ == value@.take(k as int).map_values(|b: u8| b as char),
        decreases value@.len() - k,
    {
        let b = value[k];
        if b >= 128 {
            assert(value@[k as int] >= 128);
            assert(!(forall|j: int| 0 <= j < value@.len() ==> value@[j] < 128));
            return None;
        }
        chars.push(b as char);
        assert(value@.take((k + 1) as int).map_values(|b: u8| b as char) =~= value@.take(
            k as int,
        ).map_values(|b: u8| b as char).push(b as char));
        k += 1;
    }
    assert(value@.take(value@.len() as int) =~= value@);
    Method::from_chars(chars.as_slice())
}

/// The peek buffer is long enough to hold `_method=get`.
pub open spec fn min_form_len() -> nat {
    11
}

/// The longest prefix of the body looked at for a method field, the length
/// of `_method=delete`.
pub open spec fn max_form_len() -> nat {
    14
}

/// What the request method becomes after looking at the body: a `POST` with
/// a form body whose peek buffer holds at least `_method=get` may ask for
/// another method in its leading `_method` field; any other request keeps
/// its method.
pub open spec fn rewritten_method(req: RequestView, peek: Seq<u8>) -> Method {
    let is_form = match first_value(req.headers, "Content-Type"@) {
        Some(v) => names_form(v),
        None => false,
    };
    if is_form && req.method == Method::Post && peek.len() >= min_form_len() {
        let n = if peek.len() < max_form_len() { peek.len() as int } else { max_form_len() as int };
        match form_method_override(peek.take(n)) {
            Some(m) => m,
            None => req.method,
        }
    } else {
        req.method
    }
}

/// What the remote address becomes: when the request has one and the
/// `X-Real-IP` header held an address, that address with the port kept.
pub open spec fn rewritten_remote(remote: Option<SocketAddr>, real_ip: Option<IpAddr>) -> Option<SocketAddr> {
    match (remote, real_ip) {
        (Some(cur), Some(ip)) => Some(SocketAddr { ip, port: cur.port }),
        _ => remote,
    }
}

/// Rewrites a request before routing.
///
/// `real_ip` is the address that the request's `X-Real-IP` header holds,
/// parsed by the caller (`None` when the header is absent or malformed).
/// With it the remote address is replaced, its port kept, when the request
/// has a remote address. A `POST` form may ask for another method with a
/// leading `_method` field in its first bytes `peek`.
pub fn preprocess(req: &mut Request, peek: &[u8], real_ip: Option<IpAddr>)
    ensures
        final(req)@ == (RequestView {
            method: rewritten_method(old(req)@, peek@),
            remote: rewritten_remote(old(req)@.remote, real_ip),
            ..old(req)@
        }),
{
    match (req.remote(), real_ip) {
        (Some(current), Some(ip)) => req.set_remote(SocketAddr::new(ip, current.port)),
        _ => {},
    }
    let data_len = peek.len();
    let is_form = match req.content_type() {
        Some(ct) => is_form_media(ct.as_str()),
        None => false,
    };
    if is_form && req.method() == Method::Post && data_len >= 11 {
        let n = if data_len < 14 { data_len } else { 14 };
        let form = vstd::slice::slice_subrange(peek, 0, n);
        assert(form@ =~= peek@.take(n as int));
        match method_override(form) {
            Some(m) => req.set_method(m),
            None => {},
        }
    }
}

/// Only a `POST` with a form body can have its method rewritten: any other
/// request keeps its method, and the remote address changes only when the
/// request has one and an `X-Real-IP` address was given, keeping its port.
pub proof fn only_post_forms_are_rewritten(req: RequestView, peek: Seq<u8>, real_ip: Option<IpAddr>)
    ensures
        req.method != Method::Post ==> rewritten_method(req, peek) == req.method,
        !(first_value(req.headers, "Content-Type"@) matches Some(v) && names_form(v)) ==> rewritten_method(req, peek)
            == req.method,
        peek.len() < 11 ==> rewritten_method(req, peek) == req.method,
        rewritten_remote(req.remote, real_ip) == match (req.remote, real_ip) {
            (Some(cur), Some(ip)) => Some(SocketAddr { ip, port: cur.port }),
            _ => req.remote,
        },
{
}

/// A `POST` form whose body starts with the field `_method=NAME`, ended by
/// `&` or by the end of the body, where `NAME` is the name of a method in
/// letters of any case (and short enough to fit the first 14 bytes looked
/// at), is handled as that method.
pub proof fn method_field_overrides_post(req: RequestView, m: Method, name: Seq<u8>, rest: Seq<u8>)
    requires
        req.method == Method::Post,
        first_value(req.headers, "Content-Type"@) matches Some(v) && names_form(v),
        forall|i: int| 0 <= i < name.len() ==> (65 <= #[trigger] name[i] <= 90) || (97 <= name[i] <= 122),
        eq_ignore_ascii_case(name.map_values(|b: u8| b as char), crate::http::method_name(m)),
        name.len() <= 6,
        rest.len() == 0 || rest[0] == 38u8,
    ensures
        rewritten_method(req, method_key() + name + rest) == m,
{
    crate::http::method_names_parse_back(m, name.map_values(|b: u8| b as char), crate::http::method_name(m));
    assert(crate::http::method_name(m).len() >= 3);
    let peek = method_key() + name + rest;
    let n = if peek.len() < 14 { peek.len() as int } else { 14int };
    let p = peek.take(n);
    assert(n >= 8 + name.len());
    assert(p.take(8) =~= method_key());
    let tail = p.skip(8);
    assert forall|j: int| 0 <= j < name.len() implies tail[j] != 38u8 by {
        assert(tail[j] == name[j]);
    }
    if name.len() < tail.len() {
        assert(tail[name.len() as int] == rest[0]);
    }
    lemma_before_amp(tail, name.len() as int);
    assert(tail.take(name.len() as int) =~= name);
    assert(forall|i: int| 0 <= i < name.len() ==> name[i] < 128);
}

} // verus!

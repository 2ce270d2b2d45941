//! HTTP vocabulary: status codes, methods, media types, headers and cookies.

use vstd::prelude::*;

use crate::text::{
    ascii_lower, chars_of, eq_ignore_ascii_case, str_eq_ignore_case, string_of,
};

verus! {

/// An HTTP status code.
#[derive(Debug, Clone, Copy, PartialEq, Eq, Structural, Hash)]
pub struct Status {
    pub code: u16,
}

impl Status {
    /// A status with the given code.
    pub fn new(code: u16) -> (s: Status)
        ensures
            s.code == code,
    {
        Status { code }
    }

    /// 200 OK.
    pub fn ok() -> (s: Status)
        ensures
            s.code == 200,
    {
        Status { code: 200 }
    }

    /// 201 Created.
    pub fn created() -> (s: Status)
        ensures
            s.code == 201,
    {
        Status { code: 201 }
    }

    /// 202 Accepted.
    pub fn accepted() -> (s: Status)
        ensures
            s.code == 202,
    {
        Status { code: 202 }
    }

    /// 204 No Content.
    pub fn no_content() -> (s: Status)
        ensures
            s.code == 204,
    {
        Status { code: 204 }
    }

    /// 205 Reset Content.
    pub fn reset_content() -> (s: Status)
        ensures
            s.code == 205,
    {
        Status { code: 205 }
    }

    /// 400 Bad Request.
    pub fn bad_request() -> (s: Status)
        ensures
            s.code == 400,
    {
        Status { code: 400 }
    }

    /// 404 Not Found.
    pub fn not_found() -> (s: Status)
        ensures
            s.code == 404,
    {
        Status { code: 404 }
    }

    /// 500 Internal Server Error.
    pub fn internal_server_error() -> (s: Status)
        ensures
            s.code == 500,
    {
        Status { code: 500 }
    }
}

/// An HTTP request method.
#[derive(Debug, Clone, Copy, PartialEq, Eq, Structural)]
pub enum Method {
    Get,
    Put,
    Post,
    Delete,
    Options,
    Head,
    Trace,
    Connect,
    Patch,
}

/// The canonical (upper-case) name of a method.
pub open spec fn method_name(m: Method) -> Seq<char> {
    match m {
        Method::Get => seq!['G', 'E', 'T'],
        Method::Put => seq!['P', 'U', 'T'],
        Method::Post => seq!['P', 'O', 'S', 'T'],
        Method::Delete => seq!['D', 'E', 'L', 'E', 'T', 'E'],
        Method::Options => seq!['O', 'P', 'T', 'I', 'O', 'N', 'S'],
        Method::Head => seq!['H', 'E', 'A', 'D'],
        Method::Trace => seq!['T', 'R', 'A', 'C', 'E'],
        Method::Connect => seq!['C', 'O', 'N', 'N', 'E', 'C', 'T'],
        Method::Patch => seq!['P', 'A', 'T', 'C', 'H'],
    }
}

/// The method whose name is `s`, letters compared without case.
pub open spec fn method_named(s: Seq<char>) -> Option<Method> {
    if eq_ignore_ascii_case(s, method_name(Method::Get)) {
        Some(Method::Get)
    } else if eq_ignore_ascii_case(s, method_name(Method::Put)) {
        Some(Method::Put)
    } else if eq_ignore_ascii_case(s, method_name(Method::Post)) {
        Some(Method::Post)
    } else if eq_ignore_ascii_case(s, method_name(Method::Delete)) {
        Some(Method::Delete)
    } else if eq_ignore_ascii_case(s, method_name(Method::Options)) {
        Some(Method::Options)
    } else if eq_ignore_ascii_case(s, method_name(Method::Head)) {
        Some(Method::Head)
    } else if eq_ignore_ascii_case(s, method_name(Method::Trace)) {
        Some(Method::Trace)
    } else if eq_ignore_ascii_case(s, method_name(Method::Connect)) {
        Some(Method::Connect)
    } else if eq_ignore_ascii_case(s, method_name(Method::Patch)) {
        Some(Method::Patch)
    } else {
        None
    }
}

impl Method {
    /// All methods, in a fixed order.
    pub fn all() -> (v: Vec<Method>)
        ensures
            v@ == seq![
                Method::Get,
                Method::Put,
                Method::Post,
                Method::Delete,
                Method::Options,
                Method::Head,
                Method::Trace,
                Method::Connect,
                Method::Patch,
            ],
    {
        vec![
            Method::Get,
            Method::Put,
            Method::Post,
            Method::Delete,
            Method::Options,
            Method::Head,
            Method::Trace,
            Method::Connect,
            Method::Patch,
        ]
    }

    /// The canonical name of this method, as characters.
    pub fn name_chars(&self) -> (v: Vec<char>)
        ensures
            v@ == method_name(*self),
    {
        match self {
            Method::Get => vec!['G', 'E', 'T'],
            Method::Put => vec!['P', 'U', 'T'],
            Method::Post => vec!['P', 'O', 'S', 'T'],
            Method::Delete => vec!['D', 'E', 'L', 'E', 'T', 'E'],
            Method::Options => vec!['O', 'P', 'T', 'I', 'O', 'N', 'S'],
            Method::Head => vec!['H', 'E', 'A', 'D'],
            Method::Trace => vec!['T', 'R', 'A', 'C', 'E'],
            Method::Connect => vec!['C', 'O', 'N', 'N', 'E', 'C', 'T'],
            Method::Patch => vec!['P', 'A', 'T', 'C', 'H'],
        }
    }

    /// The canonical name of this method.
    pub fn as_string(&self) -> (s: String)
        ensures
            s@ == method_name(*self),
    {
        let v = self.name_chars();
        string_of(v.as_slice())
    }

    /// Parses a method name; ASCII letters are compared without case.
    pub fn from_chars(s: &[char]) -> (r: Option<Method>)
        ensures
            r == method_named(s@),
    {
        let all = Method::all();
        let mut i: usize = 0;
        while i < all.len()
            invariant
                i <= all@.len(),
                all@ == seq![
                    Method::Get,
                    Method::Put,
                    Method::Post,
                    Method::Delete,
                    Method::Options,
                    Method::Head,
                    Method::Trace,
                    Method::Connect,
                    Method::Patch,
                ],
                forall|j: int|
                    0 <= j < i ==> !eq_ignore_ascii_case(s@, #[trigger] method_name(all@[j])),
            decreases all@.len() - i,
        {
            let m = all[i];
            let name = m.name_chars();
            if crate::text::chars_eq_ignore_case(s, name.as_slice()) {
                return Some(m);
            }
            i += 1;
        }
        None
    }

    /// Parses a method name; ASCII letters are compared without case.
    pub fn from_name(s: &str) -> (r: Option<Method>)
        ensures
            r == method_named(s@),
    {
        let v = chars_of(s);
        Method::from_chars(v.as_slice())
    }
}

/// A media type, held as its `type/subtype` text.
#[derive(Debug)]
pub struct ContentType {
    pub media: String,
}

/// The media type that a file extension stands for, if it is a known one.
/// Extensions are compared without case.
pub open spec fn media_for_extension(ext: Seq<char>) -> Option<Seq<char>> {
    if eq_ignore_ascii_case(ext, "txt"@) {
        Some("text/plain"@)
    } else if eq_ignore_ascii_case(ext, "html"@) || eq_ignore_ascii_case(ext, "htm"@) {
        Some("text/html"@)
    } else if eq_ignore_ascii_case(ext, "xml"@) {
        Some("text/xml"@)
    } else if eq_ignore_ascii_case(ext, "csv"@) {
        Some("text/csv"@)
    } else if eq_ignore_ascii_case(ext, "js"@) {
        Some("application/javascript"@)
    } else if eq_ignore_ascii_case(ext, "css"@) {
        Some("text/css"@)
    } else if eq_ignore_ascii_case(ext, "json"@) {
        Some("application/json"@)
    } else if eq_ignore_ascii_case(ext, "png"@) {
        Some("image/png"@)
    } else if eq_ignore_ascii_case(ext, "gif"@) {
        Some("image/gif"@)
    } else if eq_ignore_ascii_case(ext, "bmp"@) {
        Some("image/bmp"@)
    } else if eq_ignore_ascii_case(ext, "jpeg"@) || eq_ignore_ascii_case(ext, "jpg"@) {
        Some("image/jpeg"@)
    } else if eq_ignore_ascii_case(ext, "webp"@) {
        Some("image/webp"@)
    } else if eq_ignore_ascii_case(ext, "svg"@) {
        Some("image/svg+xml"@)
    } else if eq_ignore_ascii_case(ext, "pdf"@) {
        Some("application/pdf"@)
    } else if eq_ignore_ascii_case(ext, "ttf"@) || eq_ignore_ascii_case(ext, "otf"@) {
        Some("application/font-sfnt"@)
    } else if eq_ignore_ascii_case(ext, "woff"@) {
        Some("application/font-woff"@)
    } else if eq_ignore_ascii_case(ext, "woff2"@) {
        Some("font/woff2"@)
    } else {
        None
    }
}

impl ContentType {
    /// A media type with the given `type/subtype` text.
    pub fn new(media: &str) -> (c: ContentType)
        ensures
            c.media@ == media@,
    {
        ContentType { media: media.to_owned() }
    }

    /// `text/plain`.
    pub fn plain() -> (c: ContentType)
        ensures
            c.media@ == "text/plain"@,
    {
        ContentType::new("text/plain")
    }

    /// `text/html`.
    pub fn html() -> (c: ContentType)
        ensures
            c.media@ == "text/html"@,
    {
        ContentType::new("text/html")
    }

    /// `application/json`.
    pub fn json() -> (c: ContentType)
        ensures
            c.media@ == "application/json"@,
    {
        ContentType::new("application/json")
    }

    /// `text/xml`.
    pub fn xml() -> (c: ContentType)
        ensures
            c.media@ == "text/xml"@,
    {
        ContentType::new("text/xml")
    }

    /// `application/msgpack`.
    pub fn msgpack() -> (c: ContentType)
        ensures
            c.media@ == "application/msgpack"@,
    {
        ContentType::new("application/msgpack")
    }

    /// `text/css`.
    pub fn css() -> (c: ContentType)
        ensures
            c.media@ == "text/css"@,
    {
        ContentType::new("text/css")
    }

    /// `application/javascript`.
    pub fn javascript() -> (c: ContentType)
        ensures
            c.media@ == "application/javascript"@,
    {
        ContentType::new("application/javascript")
    }

    /// `application/x-www-form-urlencoded`.
    pub fn form() -> (c: ContentType)
        ensures
            c.media@ == "application/x-www-form-urlencoded"@,
    {
        ContentType::new("application/x-www-form-urlencoded")
    }

    /// The media type for a file extension, if the extension is a known one.
    pub fn from_extension(ext: &str) -> (r: Option<ContentType>)
        ensures
            match media_for_extension(ext@) {
                Some(m) => r is Some && r->0.media@ == m,
                None => r is None,
            },
    {
        let e = ext;
        if str_eq_ignore_case(e, "txt") {
            Some(ContentType::new("text/plain"))
        } else if str_eq_ignore_case(e, "html") || str_eq_ignore_case(e, "htm") {
            Some(ContentType::new("text/html"))
        } else if str_eq_ignore_case(e, "xml") {
            Some(ContentType::new("text/xml"))
        } else if str_eq_ignore_case(e, "csv") {
            Some(ContentType::new("text/csv"))
        } else if str_eq_ignore_case(e, "js") {
            Some(ContentType::new("application/javascript"))
        } else if str_eq_ignore_case(e, "css") {
            Some(ContentType::new("text/css"))
        } else if str_eq_ignore_case(e, "json") {
            Some(ContentType::new("application/json"))
        } else if str_eq_ignore_case(e, "png") {
            Some(ContentType::new("image/png"))
        } else if str_eq_ignore_case(e, "gif") {
            Some(ContentType::new("image/gif"))
        } else if str_eq_ignore_case(e, "bmp") {
            Some(ContentType::new("image/bmp"))
        } else if str_eq_ignore_case(e, "jpeg") || str_eq_ignore_case(e, "jpg") {
            Some(ContentType::new("image/jpeg"))
        } else if str_eq_ignore_case(e, "webp") {
            Some(ContentType::new("image/webp"))
        } else if str_eq_ignore_case(e, "svg") {
            Some(ContentType::new("image/svg+xml"))
        } else if str_eq_ignore_case(e, "pdf") {
            Some(ContentType::new("application/pdf"))
        } else if str_eq_ignore_case(e, "ttf") || str_eq_ignore_case(e, "otf") {
            Some(ContentType::new("application/font-sfnt"))
        } else if str_eq_ignore_case(e, "woff") {
            Some(ContentType::new("application/font-woff"))
        } else if str_eq_ignore_case(e, "woff2") {
            Some(ContentType::new("font/woff2"))
        } else {
            None
        }
    }

    /// The `Content-Type` header that carries this media type.
    pub fn to_header(&self) -> (h: Header)
        ensures
            h.name@ == "Content-Type"@,
            h.value@ == self.media@,
    {
        Header { name: "Content-Type".to_owned(), value: self.media.clone() }
    }
}

/// An HTTP header: a name and a value.
#[derive(Debug)]
pub struct Header {
    pub name: String,
    pub value: String,
}

/// A header as plain text: its name and its value.
pub type HeaderView = (Seq<char>, Seq<char>);

impl Header {
    /// A header with the given name and value.
    pub fn new(name: &str, value: &str) -> (h: Header)
        ensures
            h.name@ == name@,
            h.value@ == value@,
    {
        Header { name: name.to_owned(), value: value.to_owned() }
    }

    pub open spec fn view(&self) -> HeaderView {
        (self.name@, self.value@)
    }

    /// A copy of this header.
    pub fn copy(&self) -> (h: Header)
        ensures
            h.view() == self.view(),
    {
        Header { name: self.name.clone(), value: self.value.clone() }
    }
}

/// A cookie: a name and a value.
#[derive(Debug)]
pub struct Cookie {
    pub name: String,
    pub value: String,
}

/// The text `name=value` of a cookie.
pub open spec fn cookie_pair(name: Seq<char>, value: Seq<char>) -> Seq<char> {
    name + seq!['='] + value
}

impl Cookie {
    /// A cookie with the given name and value.
    pub fn new(name: &str, value: &str) -> (c: Cookie)
        ensures
            c.name@ == name@,
            c.value@ == value@,
    {
        Cookie { name: name.to_owned(), value: value.to_owned() }
    }

    /// The `Set-Cookie` header that sends this cookie to a client.
    pub fn to_header(&self) -> (h: Header)
        ensures
            h.name@ == "Set-Cookie"@,
            h.value@ == cookie_pair(self.name@, self.value@),
    {
        let mut v = chars_of(self.name.as_str());
        v.push('=');
        let w = chars_of(self.value.as_str());
        let mut i: usize = 0;
        let ghost start = v@;
        while i < w.len()
            invariant
                i <= w@.len(),
                v@ == start + w@.take(i as int),
            decreases w@.len() - i,
        {
            v.push(w[i]);
            i += 1;
            assert(w@.take(i as int) == w@.take((i - 1) as int).push(w@[i - 1]));
        }
        assert(w@.take(w@.len() as int) == w@);
        Header { name: "Set-Cookie".to_owned(), value: string_of(v.as_slice()) }
    }
}

/// An IP address.
#[derive(Debug, Clone, Copy, PartialEq, Eq, Structural)]
pub enum IpAddr {
    V4(u8, u8, u8, u8),
    V6(u16, u16, u16, u16, u16, u16, u16, u16),
}

/// A socket address: an IP address and a port.
#[derive(Debug, Clone, Copy, PartialEq, Eq, Structural)]
pub struct SocketAddr {
    pub ip: IpAddr,
    pub port: u16,
}

impl SocketAddr {
    /// The socket address with the given IP address and port.
    pub fn new(ip: IpAddr, port: u16) -> (a: SocketAddr)
        ensures
            a.ip == ip,
            a.port == port,
    {
        SocketAddr { ip, port }
    }
}

} // verus!

verus! {

/// The headers of `hs` whose names differ from `name` (ASCII letters compared
/// without case), in their order.
pub open spec fn without_name(hs: Seq<HeaderView>, name: Seq<char>) -> Seq<HeaderView>
    decreases hs.len(),
{
    if hs.len() == 0 {
        Seq::empty()
    } else {
        let rest = without_name(hs.drop_last(), name);
        if eq_ignore_ascii_case(hs.last().0, name) {
            rest
        } else {
            rest.push(hs.last())
        }
    }
}

/// The value of the first header of `hs` named `name`, if there is one.
pub open spec fn first_value(hs: Seq<HeaderView>, name: Seq<char>) -> Option<Seq<char>>
    decreases hs.len(),
{
    if hs.len() == 0 {
        None
    } else if eq_ignore_ascii_case(hs[0].0, name) {
        Some(hs[0].1)
    } else {
        first_value(hs.drop_first(), name)
    }
}

/// `hs` holds a header named `name`.
pub open spec fn has_name(hs: Seq<HeaderView>, name: Seq<char>) -> bool {
    exists|i: int| 0 <= i < hs.len() && eq_ignore_ascii_case(#[trigger] hs[i].0, name)
}

proof fn lemma_first_value_skip(hs: Seq<HeaderView>, name: Seq<char>, i: int)
    requires
        0 <= i < hs.len(),
    ensures
        first_value(hs.skip(i), name) == if eq_ignore_ascii_case(hs[i].0, name) {
            Some(hs[i].1)
        } else {
            first_value(hs.skip(i + 1), name)
        },
{
    assert(hs.skip(i).drop_first() =~= hs.skip(i + 1));
}

proof fn lemma_without_name_absent(hs: Seq<HeaderView>, name: Seq<char>)
    ensures
        !has_name(without_name(hs, name), name),
        without_name(hs, name).len() <= hs.len(),
    decreases hs.len(),
{
    if hs.len() > 0 {
        lemma_without_name_absent(hs.drop_last(), name);
    }
}

proof fn lemma_first_value_pushed(w: Seq<HeaderView>, x: HeaderView, name: Seq<char>)
    requires
        !has_name(w, name),
        eq_ignore_ascii_case(x.0, name),
    ensures
        first_value(w.push(x), name) == Some(x.1),
    decreases w.len(),
{
    if w.len() == 0 {
        assert(w.push(x)[0] == x);
    } else {
        assert(w.push(x)[0] == w[0]);
        assert(!eq_ignore_ascii_case(w[0].0, name));
        assert(w.push(x).drop_first() =~= w.drop_first().push(x));
        assert forall|i: int| 0 <= i < w.drop_first().len() implies !eq_ignore_ascii_case(
            #[trigger] w.drop_first()[i].0,
            name,
        ) by {
            assert(w.drop_first()[i] == w[i + 1]);
        }
        lemma_first_value_pushed(w.drop_first(), x, name);
    }
}

/// Setting a header replaces every header of its name, so that looking the
/// name up afterwards gives the value just set.
pub proof fn replace_then_get(hs: Seq<HeaderView>, name: Seq<char>, value: Seq<char>)
    ensures
        first_value(without_name(hs, name).push((name, value)), name) == Some(value),
        !has_name(without_name(hs, name), name),
{
    lemma_without_name_absent(hs, name);
    lemma_first_value_pushed(without_name(hs, name), (name, value), name);
}

/// An ordered collection of headers. Names are compared without case.
#[derive(Debug)]
pub struct HeaderMap {
    headers: Vec<Header>,
}

impl View for HeaderMap {
    type V = Seq<HeaderView>;

    closed spec fn view(&self) -> Seq<HeaderView> {
        self.headers@.map_values(|h: Header| h.view())
    }
}

impl HeaderMap {
    /// An empty header map.
    pub fn new() -> (m: HeaderMap)
        ensures
            m@ == Seq::<HeaderView>::empty(),
    {
        let m = HeaderMap { headers: Vec::new() };
        assert(m@ =~= Seq::<HeaderView>::empty());
        m
    }

    /// The number of headers.
    pub fn len(&self) -> (n: usize)
        ensures
            n == self@.len(),
    {
        self.headers.len()
    }

    /// The header at position `i`.
    pub fn get(&self, i: usize) -> (h: &Header)
        requires
            i < self@.len(),
        ensures
            h.view() == self@[i as int],
    {
        &self.headers[i]
    }

    /// Appends a header, keeping any others of the same name.
    pub fn add(&mut self, h: Header)
        ensures
            final(self)@ == old(self)@.push(h.view()),
    {
        let ghost hv = h.view();
        self.headers.push(h);
        assert(self@ =~= old(self)@.push(hv));
    }

    /// Removes every header named `name`; the others keep their order.
    pub fn remove(&mut self, name: &str)
        ensures
            final(self)@ == without_name(old(self)@, name@),
    {
        let ghost hs = self@;
        let target = chars_of(name);
        let mut kept: Vec<Header> = Vec::new();
        let mut i: usize = 0;
        while i < self.headers.len()
            invariant
                hs == self@,
                i <= hs.len(),
                target@ == name@,
                kept@.map_values(|h: Header| h.view()) == without_name(hs.take(i as int), name@),
            decreases hs.len() - i,
        {
            let n = chars_of(self.headers[i].name.as_str());
            assert(hs.take((i + 1) as int).drop_last() =~= hs.take(i as int));
            assert(hs[i as int] == self.headers@[i as int].view());
            if !crate::text::chars_eq_ignore_case(n.as_slice(), target.as_slice()) {
                let ghost before = kept@;
                kept.push(self.headers[i].copy());
                assert(kept@.map_values(|h: Header| h.view()) =~= before.map_values(
                    |h: Header| h.view(),
                ).push(hs[i as int]));
            }
            i += 1;
        }
        assert(hs.take(hs.len() as int) =~= hs);
        self.headers = kept;
    }

    /// Replaces every header named like `h` with `h` alone, placed last.
    pub fn replace(&mut self, h: Header)
        ensures
            final(self)@ == without_name(old(self)@, h.name@).push(h.view()),
    {
        let name = h.name.clone();
        self.remove(name.as_str());
        self.add(h);
    }

    /// The value of the first header named `name`, if there is one.
    pub fn get_one(&self, name: &str) -> (r: Option<String>)
        ensures
            match first_value(self@, name@) {
                Some(v) => r is Some && r->0@ == v,
                None => r is None,
            },
    {
        let target = chars_of(name);
        let mut i: usize = 0;
        assert(self@.skip(0) =~= self@);
        while i < self.headers.len()
            invariant
                i <= self@.len(),
                target@ == name@,
                first_value(self@, name@) == first_value(self@.skip(i as int), name@),
            decreases self@.len() - i,
        {
            let n = chars_of(self.headers[i].name.as_str());
            proof {
                lemma_first_value_skip(self@, name@, i as int);
                assert(self@[i as int] == self.headers@[i as int].view());
            }
            if crate::text::chars_eq_ignore_case(n.as_slice(), target.as_slice()) {
                return Some(self.headers[i].value.clone());
            }
            i += 1;
        }
        assert(self@.skip(i as int) =~= Seq::<HeaderView>::empty());
        None
    }

    /// Whether a header named `name` is present.
    pub fn contains(&self, name: &str) -> (r: bool)
        ensures
            r == (first_value(self@, name@) is Some),
    {
        self.get_one(name).is_some()
    }
}

/// The headers of `hs` whose name is not `name`, compared without ASCII case.
pub open spec fn other_names(hs: Seq<HeaderView>, name: Seq<char>) -> Seq<HeaderView> {
    hs.filter(|h: HeaderView| !eq_ignore_ascii_case(h.0, name))
}

/// Removing a name drops exactly the headers of that name (compared without
/// ASCII case) and keeps every other header, in order; so setting a header
/// never touches one of another name, such as `Server-Timing` when `Server`
/// is set.
pub proof fn remove_keeps_other_names(hs: Seq<HeaderView>, name: Seq<char>)
    ensures
        without_name(hs, name) == other_names(hs, name),
    decreases hs.len(),
{
    reveal_with_fuel(Seq::filter, 1);
    if hs.len() > 0 {
        remove_keeps_other_names(hs.drop_last(), name);
    }
}

/// Comparing names without ASCII case is reflexive and symmetric, and names
/// of different lengths are never equal: a name is not equal to one that
/// merely starts with it.
pub proof fn names_compare_without_case(a: Seq<char>, b: Seq<char>)
    ensures
        eq_ignore_ascii_case(a, a),
        eq_ignore_ascii_case(a, b) ==> a.len() == b.len(),
        eq_ignore_ascii_case(a, b) == eq_ignore_ascii_case(b, a),
{
}

proof fn lemma_case_trans(a: Seq<char>, b: Seq<char>, x: Seq<char>)
    requires
        eq_ignore_ascii_case(a, b),
    ensures
        eq_ignore_ascii_case(a, x) == eq_ignore_ascii_case(b, x),
{
    if eq_ignore_ascii_case(a, x) {
        assert forall|i: int| 0 <= i < b.len() implies #[trigger] ascii_lower(b[i]) == ascii_lower(x[i]) by {
            assert(ascii_lower(a[i]) == ascii_lower(b[i]));
            assert(ascii_lower(a[i]) == ascii_lower(x[i]));
        }
    }
    if eq_ignore_ascii_case(b, x) {
        assert forall|i: int| 0 <= i < a.len() implies #[trigger] ascii_lower(a[i]) == ascii_lower(x[i]) by {
            assert(ascii_lower(a[i]) == ascii_lower(b[i]));
            assert(ascii_lower(b[i]) == ascii_lower(x[i]));
        }
    }
}

/// Extensions are compared without case: two extensions that differ only in
/// the case of ASCII letters stand for the same media type.
pub proof fn extension_case_does_not_matter(a: Seq<char>, b: Seq<char>)
    requires
        eq_ignore_ascii_case(a, b),
    ensures
        media_for_extension(a) == media_for_extension(b),
{
    lemma_case_trans(a, b, "txt"@);
    lemma_case_trans(a, b, "html"@);
    lemma_case_trans(a, b, "htm"@);
    lemma_case_trans(a, b, "xml"@);
    lemma_case_trans(a, b, "csv"@);
    lemma_case_trans(a, b, "js"@);
    lemma_case_trans(a, b, "css"@);
    lemma_case_trans(a, b, "json"@);
    lemma_case_trans(a, b, "png"@);
    lemma_case_trans(a, b, "gif"@);
    lemma_case_trans(a, b, "bmp"@);
    lemma_case_trans(a, b, "jpeg"@);
    lemma_case_trans(a, b, "jpg"@);
    lemma_case_trans(a, b, "webp"@);
    lemma_case_trans(a, b, "svg"@);
    lemma_case_trans(a, b, "pdf"@);
    lemma_case_trans(a, b, "ttf"@);
    lemma_case_trans(a, b, "otf"@);
    lemma_case_trans(a, b, "woff"@);
    lemma_case_trans(a, b, "woff2"@);
}

/// Each known extension stands for its own registered media type, and an
/// extension outside the table stands for none.
pub proof fn known_extensions()
    ensures
        media_for_extension("txt"@) == Some("text/plain"@),
        media_for_extension("html"@) == Some("text/html"@),
        media_for_extension("htm"@) == Some("text/html"@),
        media_for_extension("xml"@) == Some("text/xml"@),
        media_for_extension("csv"@) == Some("text/csv"@),
        media_for_extension("js"@) == Some("application/javascript"@),
        media_for_extension("css"@) == Some("text/css"@),
        media_for_extension("json"@) == Some("application/json"@),
        media_for_extension("png"@) == Some("image/png"@),
        media_for_extension("gif"@) == Some("image/gif"@),
        media_for_extension("bmp"@) == Some("image/bmp"@),
        media_for_extension("jpeg"@) == Some("image/jpeg"@),
        media_for_extension("jpg"@) == Some("image/jpeg"@),
        media_for_extension("webp"@) == Some("image/webp"@),
        media_for_extension("svg"@) == Some("image/svg+xml"@),
        media_for_extension("pdf"@) == Some("application/pdf"@),
        media_for_extension("ttf"@) == Some("application/font-sfnt"@),
        media_for_extension("otf"@) == Some("application/font-sfnt"@),
        media_for_extension("woff"@) == Some("application/font-woff"@),
        media_for_extension("woff2"@) == Some("font/woff2"@),
        media_for_extension("exe"@) is None,
{
    reveal_strlit("txt");
    reveal_strlit("html");
    reveal_strlit("htm");
    reveal_strlit("xml");
    reveal_strlit("csv");
    reveal_strlit("js");
    reveal_strlit("css");
    reveal_strlit("json");
    reveal_strlit("png");
    reveal_strlit("gif");
    reveal_strlit("bmp");
    reveal_strlit("jpeg");
    reveal_strlit("jpg");
    reveal_strlit("webp");
    reveal_strlit("svg");
    reveal_strlit("pdf");
    reveal_strlit("ttf");
    reveal_strlit("otf");
    reveal_strlit("woff");
    reveal_strlit("woff2");
    reveal_strlit("exe");
    assert(media_for_extension("txt"@) == Some("text/plain"@)) by {

    }
    assert(media_for_extension("html"@) == Some("text/html"@)) by {

    }
    assert(media_for_extension("htm"@) == Some("text/html"@)) by {
        assert(ascii_lower("htm"@[0]) != ascii_lower("txt"@[0]));
    }
    assert(media_for_extension("xml"@) == Some("text/xml"@)) by {
        assert(ascii_lower("xml"@[0]) != ascii_lower("txt"@[0]));
        assert(ascii_lower("xml"@[0]) != ascii_lower("htm"@[0]));
    }
    assert(media_for_extension("csv"@) == Some("text/csv"@)) by {
        assert(ascii_lower("csv"@[0]) != ascii_lower("txt"@[0]));
        assert(ascii_lower("csv"@[0]) != ascii_lower("htm"@[0]));
        assert(ascii_lower("csv"@[0]) != ascii_lower("xml"@[0]));
    }
    assert(media_for_extension("js"@) == Some("application/javascript"@)) by {

    }
    assert(media_for_extension("css"@) == Some("text/css"@)) by {
        assert(ascii_lower("css"@[0]) != ascii_lower("txt"@[0]));
        assert(ascii_lower("css"@[0]) != ascii_lower("htm"@[0]));
        assert(ascii_lower("css"@[0]) != ascii_lower("xml"@[0]));
        assert(ascii_lower("css"@[2]) != ascii_lower("csv"@[2]));
    }
    assert(media_for_extension("json"@) == Some("application/json"@)) by {
        assert(ascii_lower("json"@[0]) != ascii_lower("html"@[0]));
    }
    assert(media_for_extension("png"@) == Some("image/png"@)) by {
        assert(ascii_lower("png"@[0]) != ascii_lower("txt"@[0]));
        assert(ascii_lower("png"@[0]) != ascii_lower("htm"@[0]));
        assert(ascii_lower("png"@[0]) != ascii_lower("xml"@[0]));
        assert(ascii_lower("png"@[0]) != ascii_lower("csv"@[0]));
        assert(ascii_lower("png"@[0]) != ascii_lower("css"@[0]));
    }
    assert(media_for_extension("gif"@) == Some("image/gif"@)) by {
        assert(ascii_lower("gif"@[0]) != ascii_lower("txt"@[0]));
        assert(ascii_lower("gif"@[0]) != ascii_lower("htm"@[0]));
        assert(ascii_lower("gif"@[0]) != ascii_lower("xml"@[0]));
        assert(ascii_lower("gif"@[0]) != ascii_lower("csv"@[0]));
        assert(ascii_lower("gif"@[0]) != ascii_lower("css"@[0]));
        assert(ascii_lower("gif"@[0]) != ascii_lower("png"@[0]));
    }
    assert(media_for_extension("bmp"@) == Some("image/bmp"@)) by {
        assert(ascii_lower("bmp"@[0]) != ascii_lower("txt"@[0]));
        assert(ascii_lower("bmp"@[0]) != ascii_lower("htm"@[0]));
        assert(ascii_lower("bmp"@[0]) != ascii_lower("xml"@[0]));
        assert(ascii_lower("bmp"@[0]) != ascii_lower("csv"@[0]));
        assert(ascii_lower("bmp"@[0]) != ascii_lower("css"@[0]));
        assert(ascii_lower("bmp"@[0]) != ascii_lower("png"@[0]));
        assert(ascii_lower("bmp"@[0]) != ascii_lower("gif"@[0]));
    }
    assert(media_for_extension("jpeg"@) == Some("image/jpeg"@)) by {
        assert(ascii_lower("jpeg"@[0]) != ascii_lower("html"@[0]));
        assert(ascii_lower("jpeg"@[1]) != ascii_lower("json"@[1]));
    }
    assert(media_for_extension("jpg"@) == Some("image/jpeg"@)) by {
        assert(ascii_lower("jpg"@[0]) != ascii_lower("txt"@[0]));
        assert(ascii_lower("jpg"@[0]) != ascii_lower("htm"@[0]));
        assert(ascii_lower("jpg"@[0]) != ascii_lower("xml"@[0]));
        assert(ascii_lower("jpg"@[0]) != ascii_lower("csv"@[0]));
        assert(ascii_lower("jpg"@[0]) != ascii_lower("css"@[0]));
        assert(ascii_lower("jpg"@[0]) != ascii_lower("png"@[0]));
        assert(ascii_lower("jpg"@[0]) != ascii_lower("gif"@[0]));
        assert(ascii_lower("jpg"@[0]) != ascii_lower("bmp"@[0]));
    }
    assert(media_for_extension("webp"@) == Some("image/webp"@)) by {
        assert(ascii_lower("webp"@[0]) != ascii_lower("html"@[0]));
        assert(ascii_lower("webp"@[0]) != ascii_lower("json"@[0]));
        assert(ascii_lower("webp"@[0]) != ascii_lower("jpeg"@[0]));
    }
    assert(media_for_extension("svg"@) == Some("image/svg+xml"@)) by {
        assert(ascii_lower("svg"@[0]) != ascii_lower("txt"@[0]));
        assert(ascii_lower("svg"@[0]) != ascii_lower("htm"@[0]));
        assert(ascii_lower("svg"@[0]) != ascii_lower("xml"@[0]));
        assert(ascii_lower("svg"@[0]) != ascii_lower("csv"@[0]));
        assert(ascii_lower("svg"@[0]) != ascii_lower("css"@[0]));
        assert(ascii_lower("svg"@[0]) != ascii_lower("png"@[0]));
        assert(ascii_lower("svg"@[0]) != ascii_lower("gif"@[0]));
        assert(ascii_lower("svg"@[0]) != ascii_lower("bmp"@[0]));
        assert(ascii_lower("svg"@[0]) != ascii_lower("jpg"@[0]));
    }
    assert(media_for_extension("pdf"@) == Some("application/pdf"@)) by {
        assert(ascii_lower("pdf"@[0]) != ascii_lower("txt"@[0]));
        assert(ascii_lower("pdf"@[0]) != ascii_lower("htm"@[0]));
        assert(ascii_lower("pdf"@[0]) != ascii_lower("xml"@[0]));
        assert(ascii_lower("pdf"@[0]) != ascii_lower("csv"@[0]));
        assert(ascii_lower("pdf"@[0]) != ascii_lower("css"@[0]));
        assert(ascii_lower("pdf"@[1]) != ascii_lower("png"@[1]));
        assert(ascii_lower("pdf"@[0]) != ascii_lower("gif"@[0]));
        assert(ascii_lower("pdf"@[0]) != ascii_lower("bmp"@[0]));
        assert(ascii_lower("pdf"@[0]) != ascii_lower("jpg"@[0]));
        assert(ascii_lower("pdf"@[0]) != ascii_lower("svg"@[0]));
    }
    assert(media_for_extension("ttf"@) == Some("application/font-sfnt"@)) by {
        assert(ascii_lower("ttf"@[1]) != ascii_lower("txt"@[1]));
        assert(ascii_lower("ttf"@[0]) != ascii_lower("htm"@[0]));
        assert(ascii_lower("ttf"@[0]) != ascii_lower("xml"@[0]));
        assert(ascii_lower("ttf"@[0]) != ascii_lower("csv"@[0]));
        assert(ascii_lower("ttf"@[0]) != ascii_lower("css"@[0]));
        assert(ascii_lower("ttf"@[0]) != ascii_lower("png"@[0]));
        assert(ascii_lower("ttf"@[0]) != ascii_lower("gif"@[0]));
        assert(ascii_lower("ttf"@[0]) != ascii_lower("bmp"@[0]));
        assert(ascii_lower("ttf"@[0]) != ascii_lower("jpg"@[0]));
        assert(ascii_lower("ttf"@[0]) != ascii_lower("svg"@[0]));
        assert(ascii_lower("ttf"@[0]) != ascii_lower("pdf"@[0]));
    }
    assert(media_for_extension("otf"@) == Some("application/font-sfnt"@)) by {
        assert(ascii_lower("otf"@[0]) != ascii_lower("txt"@[0]));
        assert(ascii_lower("otf"@[0]) != ascii_lower("htm"@[0]));
        assert(ascii_lower("otf"@[0]) != ascii_lower("xml"@[0]));
        assert(ascii_lower("otf"@[0]) != ascii_lower("csv"@[0]));
        assert(ascii_lower("otf"@[0]) != ascii_lower("css"@[0]));
        assert(ascii_lower("otf"@[0]) != ascii_lower("png"@[0]));
        assert(ascii_lower("otf"@[0]) != ascii_lower("gif"@[0]));
        assert(ascii_lower("otf"@[0]) != ascii_lower("bmp"@[0]));
        assert(ascii_lower("otf"@[0]) != ascii_lower("jpg"@[0]));
        assert(ascii_lower("otf"@[0]) != ascii_lower("svg"@[0]));
        assert(ascii_lower("otf"@[0]) != ascii_lower("pdf"@[0]));
        assert(ascii_lower("otf"@[0]) != ascii_lower("ttf"@[0]));
    }
    assert(media_for_extension("woff"@) == Some("application/font-woff"@)) by {
        assert(ascii_lower("woff"@[0]) != ascii_lower("html"@[0]));
        assert(ascii_lower("woff"@[0]) != ascii_lower("json"@[0]));
        assert(ascii_lower("woff"@[0]) != ascii_lower("jpeg"@[0]));
        assert(ascii_lower("woff"@[1]) != ascii_lower("webp"@[1]));
    }
    assert(media_for_extension("woff2"@) == Some("font/woff2"@)) by {

    }
    assert(media_for_extension("exe"@) is None) by {
        assert(ascii_lower("exe"@[0]) != ascii_lower("txt"@[0]));
        assert(ascii_lower("exe"@[0]) != ascii_lower("htm"@[0]));
        assert(ascii_lower("exe"@[0]) != ascii_lower("xml"@[0]));
        assert(ascii_lower("exe"@[0]) != ascii_lower("csv"@[0]));
        assert(ascii_lower("exe"@[0]) != ascii_lower("css"@[0]));
        assert(ascii_lower("exe"@[0]) != ascii_lower("png"@[0]));
        assert(ascii_lower("exe"@[0]) != ascii_lower("gif"@[0]));
        assert(ascii_lower("exe"@[0]) != ascii_lower("bmp"@[0]));
        assert(ascii_lower("exe"@[0]) != ascii_lower("jpg"@[0]));
        assert(ascii_lower("exe"@[0]) != ascii_lower("svg"@[0]));
        assert(ascii_lower("exe"@[0]) != ascii_lower("pdf"@[0]));
        assert(ascii_lower("exe"@[0]) != ascii_lower("ttf"@[0]));
        assert(ascii_lower("exe"@[0]) != ascii_lower("otf"@[0]));
    }
}

/// Parsing a method's name gives the method back, and names are parsed
/// without regard to the case of ASCII letters: `get`, `Get` and `GET` all
/// name GET.
pub proof fn method_names_parse_back(m: Method, a: Seq<char>, b: Seq<char>)
    ensures
        method_named(method_name(m)) == Some(m),
        eq_ignore_ascii_case(a, b) ==> method_named(a) == method_named(b),
{
    assert(ascii_lower('G') != ascii_lower('P'));
    assert(ascii_lower('P') != ascii_lower('H'));
    assert(ascii_lower('T') != ascii_lower('P'));
    assert(ascii_lower('O') != ascii_lower('C'));
    match m {
        Method::Put => {
            assert(method_name(Method::Put)[0] == 'P' && method_name(Method::Get)[0] == 'G');
        },
        Method::Head => {
            assert(method_name(Method::Head)[0] == 'H' && method_name(Method::Post)[0] == 'P');
        },
        Method::Patch => {
            assert(method_name(Method::Patch)[0] == 'P' && method_name(Method::Trace)[0] == 'T');
        },
        Method::Connect => {
            assert(method_name(Method::Connect)[0] == 'C' && method_name(Method::Options)[0] == 'O');
        },
        _ => {},
    }
    if eq_ignore_ascii_case(a, b) {
        lemma_case_trans(a, b, method_name(Method::Get));
        lemma_case_trans(a, b, method_name(Method::Put));
        lemma_case_trans(a, b, method_name(Method::Post));
        lemma_case_trans(a, b, method_name(Method::Delete));
        lemma_case_trans(a, b, method_name(Method::Options));
        lemma_case_trans(a, b, method_name(Method::Head));
        lemma_case_trans(a, b, method_name(Method::Trace));
        lemma_case_trans(a, b, method_name(Method::Connect));
        lemma_case_trans(a, b, method_name(Method::Patch));
    }
}

} // verus!

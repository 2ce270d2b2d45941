//! A file with an associated name, which responds with the media type that
//! its extension stands for.

use vstd::prelude::*;

use crate::http::{ContentType, Status, media_for_extension};
use crate::response::{
    BodyView, DEFAULT_CHUNK_SIZE, Responder, Response, ResponseView, empty_response, with_header,
};

verus! {

/// Names what `std::path::Path::extension` gives for the path `path`, as
/// text. As std documents it: none when the path has no file name (as when
/// it ends in `..`), when the file name holds no `.`, or when its only `.`
/// is its first character (as in `.bashrc`); otherwise the part of the file
/// name after its last `.`.
pub uninterp spec fn path_extension(path: Seq<char>) -> Option<Seq<char>>;

/// Names what `str::to_lowercase` gives for `s`.
pub uninterp spec fn lowercase(s: Seq<char>) -> Seq<char>;

/// Calls `std::path::Path::extension` on `path` and converts the result to
/// text (lossily, as `OsStr::to_string_lossy` does). The contract claims only
/// that the result is the one `path_extension` names for the path.
#[verifier::external_body]
fn extension_of(path: &str) -> (r: Option<String>)
    ensures
        match path_extension(path@) {
            Some(e) => r is Some && r->0@ == e,
            None => r is None,
        },
{
    match std::path::Path::new(path).extension() {
        Some(e) => Some(e.to_string_lossy().into_owned()),
        None => None,
    }
}

/// Calls `str::to_lowercase`. The contract claims only that the result is
/// the one `lowercase` names for `s`.
#[verifier::external_body]
fn to_lowercase(s: &str) -> (r: String)
    ensures
        r@ == lowercase(s@),
{
    s.to_lowercase()
}

/// The headers that a file extension gives a response: `Content-Type` when
/// the extension, in lower case, stands for a known media type.
pub open spec fn extension_base<B>(ext: Option<Seq<char>>) -> ResponseView<B> {
    match ext {
        Some(e) => match media_for_extension(lowercase(e)) {
            Some(m) => with_header(empty_response(), "Content-Type"@, m),
            None => empty_response(),
        },
        None => empty_response(),
    }
}

/// The headers that a file's path gives its response.
pub open spec fn named_file_base<B>(path: Seq<char>) -> ResponseView<B> {
    extension_base(path_extension(path))
}

/// The response that streams `file` in chunks of the default size, with the
/// `Content-Type` that the extension `ext` stands for, when it stands for one.
pub fn file_response<F>(ext: Option<String>, file: F) -> (r: Response<F>)
    ensures
        r@ == (ResponseView {
            body: Some(BodyView::Chunked(file, DEFAULT_CHUNK_SIZE)),
            ..extension_base(match ext {
                Some(e) => Some(e@),
                None => None,
            })
        }),
{
    let mut response = Response::new();
    match ext {
        Some(e) => {
            let lower = to_lowercase(e.as_str());
            match ContentType::from_extension(lower.as_str()) {
                Some(ct) => response.set_header(ct.to_header()),
                None => {},
            }
        },
        None => {},
    }
    response.set_streamed_body(file);
    response
}

/// A file with an associated path. `F` is the open file.
#[derive(Debug)]
pub struct NamedFile<F>(String, F);

impl<F> NamedFile<F> {
    /// The path of the file, as text.
    pub closed spec fn path_view(&self) -> Seq<char> {
        self.0@
    }

    /// The open file.
    pub closed spec fn file_view(&self) -> F {
        self.1
    }

    /// Pairs an open file with the path it was opened from.
    pub fn new(path: String, file: F) -> (n: NamedFile<F>)
        ensures
            n.path_view() == path@,
            n.file_view() == file,
    {
        NamedFile(path, file)
    }

    /// The underlying file.
    pub fn file(&self) -> (f: &F)
        ensures
            *f == self.file_view(),
    {
        &self.1
    }

    /// Takes the underlying file.
    pub fn take_file(self) -> (f: F)
        ensures
            f == self.file_view(),
    {
        self.1
    }

    /// A mutable borrow of the underlying file.
    pub fn file_mut(&mut self) -> (f: &mut F)
        ensures
            *f == old(self).file_view(),
            final(self).file_view() == *final(f),
            final(self).path_view() == old(self).path_view(),
    {
        &mut self.1
    }

    /// The path of the file.
    pub fn path(&self) -> (p: &str)
        ensures
            p@ == self.path_view(),
    {
        self.0.as_str()
    }
}

/// Streams the file to the client in chunks of the default size, and sets
/// the `Content-Type` by the file's extension when the extension is a known
/// one. It always succeeds.
impl<F> Responder<F> for NamedFile<F> {
    open spec fn responds_with(self, r: Result<ResponseView<F>, Status>) -> bool {
        r == Ok::<ResponseView<F>, Status>(
            ResponseView {
                body: Some(BodyView::Chunked(self.file_view(), DEFAULT_CHUNK_SIZE)),
                ..named_file_base(self.path_view())
            },
        )
    }

    fn respond_to(self) -> (out: Result<Response<F>, Status>) {
        let ext = extension_of(self.path());
        let NamedFile(_, file) = self;
        Ok(file_response(ext, file))
    }
}

} // verus!

use rocket::http::{Header, Status};
use rocket::response::Response;
use rocket::wire::{write_response, ChunkStep, Chunker, WireBody, WriteError};

#[test]
fn write_sized_response() {
    let mut r: Response<()> = Response::new();
    r.set_status(Status::created());
    r.adjoin_header(Header::new("A", "é"));
    r.adjoin_header(Header::new("B", "2"));
    r.set_sized_body(b"hey".to_vec());
    let w = write_response(r).ok().unwrap();
    assert_eq!(w.status, 201);
    assert_eq!(w.headers, vec![("A".to_string(), "é".as_bytes().to_vec()), ("B".to_string(), b"2".to_vec())]);
    assert_eq!(w.content_length, Some(3));
    match w.body {
        WireBody::Bytes(b) => assert_eq!(b, b"hey".to_vec()),
        _ => panic!(),
    }
}

#[test]
fn write_empty_response_defaults_to_ok() {
    let r: Response<()> = Response::new();
    let w = write_response(r).ok().unwrap();
    assert_eq!(w.status, 200);
    assert_eq!(w.content_length, Some(0));
    assert!(matches!(w.body, WireBody::Empty));
}

#[test]
fn write_streamed_response() {
    let mut r: Response<u8> = Response::new();
    r.set_streamed_body(42);
    let w = write_response(r).ok().unwrap();
    assert_eq!(w.content_length, None);
    match w.body {
        WireBody::Chunked(s, n) => {
            assert_eq!(s, 42);
            assert_eq!(n, 4096);
        }
        _ => panic!(),
    }
}

#[test]
fn invalid_status_codes_are_refused() {
    for code in [0u16, 99, 600, 1000] {
        let mut r: Response<()> = Response::new();
        r.set_status(Status::new(code));
        assert_eq!(write_response(r).err(), Some(WriteError::InvalidStatus));
    }
    for code in [100u16, 418, 599] {
        let mut r: Response<()> = Response::new();
        r.set_status(Status::new(code));
        assert_eq!(write_response(r).ok().unwrap().status, code);
    }
}

#[test]
fn chunker_sends_full_chunks() {
    let mut c = Chunker::new(4);
    assert_eq!(c.room(), 4);
    assert!(matches!(c.on_read(&[1, 2, 3]), ChunkStep::Continue));
    assert_eq!(c.room(), 1);
    match c.on_read(&[4]) {
        ChunkStep::Chunk(b) => assert_eq!(b, vec![1, 2, 3, 4]),
        _ => panic!(),
    }
    assert_eq!(c.room(), 4);
    assert!(matches!(c.on_read(&[5]), ChunkStep::Continue));
    // The stream ends; the partial chunk is not sent.
    assert!(matches!(c.on_read(&[]), ChunkStep::End));
}

#[test]
fn zero_chunk_size_ends_at_once() {
    let mut c = Chunker::new(0);
    assert_eq!(c.room(), 0);
    assert!(matches!(c.on_read(&[]), ChunkStep::End));
}

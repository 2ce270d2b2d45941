use rocket::data::{Data, PEEK_BYTES};

#[test]
fn local_data_peek_and_complete() {
    let d: Data<()> = Data::local(b"hello".to_vec());
    assert_eq!(d.peek(), b"hello");
    assert!(d.peek_complete());
}

#[test]
fn peek_shows_at_most_512_bytes() {
    let bytes: Vec<u8> = (0..600u32).map(|i| (i % 251) as u8).collect();
    let d: Data<()> = Data::local(bytes.clone());
    assert_eq!(PEEK_BYTES, 512);
    assert_eq!(d.peek().len(), 512);
    assert_eq!(d.peek(), &bytes[..512]);
    let d: Data<()> = Data::local(bytes[..512].to_vec());
    assert_eq!(d.peek().len(), 512);
}

#[test]
fn streamed_data_is_not_complete() {
    let d: Data<u8> = Data::from_stream(1);
    assert!(d.peek().is_empty());
    assert!(!d.peek_complete());
}

#[test]
fn read_local_data_in_small_pieces() {
    let mut s = Data::<()>::local(b"abcdefg".to_vec()).open();
    let mut out = Vec::new();
    let mut buf = [0u8; 3];
    loop {
        assert!(!s.needs_chunk());
        let n = s.read(&mut buf);
        if n == 0 {
            break;
        }
        out.extend_from_slice(&buf[..n]);
    }
    assert_eq!(out, b"abcdefg".to_vec());
    assert!(s.is_exhausted());
}

#[test]
fn read_leaves_rest_of_target_alone() {
    let mut s = Data::<()>::local(b"ab".to_vec()).open();
    let mut buf = [9u8; 5];
    assert_eq!(s.read(&mut buf), 2);
    assert_eq!(buf, [b'a', b'b', 9, 9, 9]);
    assert_eq!(s.read(&mut buf), 0);
}

// Plays the part of the network: hands out the chunks of a body in turn.
struct Chunks(Vec<Vec<u8>>);

// One read as a reader of the body does it: wait for a chunk when the
// buffer is drained, then copy out what is buffered.
fn read_once(s: &mut rocket::data::DataStream<Chunks>, buf: &mut [u8]) -> usize {
    if let Some(mut stream) = s.begin_refill() {
        let chunk = if stream.0.is_empty() { None } else { Some(stream.0.remove(0)) };
        s.refill(chunk, stream);
    }
    s.read(buf)
}

fn read_all(mut s: rocket::data::DataStream<Chunks>, piece: usize) -> Vec<u8> {
    let mut out = Vec::new();
    let mut buf = vec![0u8; piece];
    loop {
        let n = read_once(&mut s, &mut buf);
        if n == 0 {
            return out;
        }
        out.extend_from_slice(&buf[..n]);
    }
}

#[test]
fn stream_yields_all_chunks_in_order() {
    let d = Data::from_stream(Chunks(vec![b"he".to_vec(), b"llo, ".to_vec(), b"world".to_vec()]));
    let out = read_all(d.open(), 4);
    assert_eq!(out, b"hello, world".to_vec());
}

#[test]
fn refill_happens_only_when_buffer_is_drained() {
    let mut s = Data::from_stream(Chunks(vec![b"xyz".to_vec()])).open();
    assert!(s.needs_chunk());
    let stream = s.begin_refill().unwrap();
    assert!(s.begin_refill().is_none());
    s.refill(Some(b"xyz".to_vec()), stream);
    assert!(!s.needs_chunk());
    assert!(s.begin_refill().is_none());
    let mut buf = [0u8; 2];
    assert_eq!(s.read(&mut buf), 2);
    assert_eq!(&buf, b"xy");
    assert_eq!(s.read(&mut buf), 1);
    assert_eq!(buf[0], b'z');
    assert!(s.needs_chunk());
    assert!(!s.is_exhausted());
}

#[test]
fn peek_complete_only_when_peek_holds_the_body() {
    let d: Data<()> = Data::local(vec![0u8; 600]);
    assert_eq!(d.peek().len(), 512);
    assert!(!d.peek_complete());
    let d: Data<()> = Data::local(vec![0u8; 512]);
    assert!(d.peek_complete());
}

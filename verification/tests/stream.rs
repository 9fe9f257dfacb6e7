use http_proxy_lb::stream::{
    chunked_is_complete, ChunkedCopy, CopyStep, ExactCopy, HeadReader, ReadStep,
};

#[test]
fn head_is_found_across_reads() {
    let mut r = HeadReader::new();
    assert_eq!(r.feed(b"GET / HTTP/1.1\r\n\r"), ReadStep::NeedMore);
    assert_eq!(r.feed(b"\nbody"), ReadStep::Complete);
    assert_eq!(r.buf, b"GET / HTTP/1.1\r\n\r\nbody".to_vec());
}

#[test]
fn end_of_stream_in_a_head() {
    let mut r = HeadReader::new();
    assert_eq!(r.feed(b""), ReadStep::CleanEof);
    assert_eq!(r.feed(b"x"), ReadStep::NeedMore);
    assert_eq!(r.feed(b""), ReadStep::Truncated);
}

#[test]
fn head_size_is_limited() {
    let mut r = HeadReader::new();
    assert_eq!(r.feed(&vec![b'a'; 65536]), ReadStep::NeedMore);
    assert_eq!(r.feed(b"a"), ReadStep::TooLarge);
    let mut r = HeadReader::new();
    let mut big = vec![b'a'; 70000];
    big.extend_from_slice(b"\r\n\r\n");
    assert_eq!(r.feed(&big), ReadStep::Complete);
}

#[test]
fn exact_copy_never_reads_too_much() {
    let mut c = ExactCopy::new(10);
    assert_eq!(c.next(8), CopyStep::Read(8));
    assert!(c.copied(8));
    assert_eq!(c.next(8), CopyStep::Read(2));
    assert!(c.copied(1));
    assert!(!c.copied(0));
    assert_eq!(c.remaining, 1);
    assert!(c.copied(1));
    assert_eq!(c.next(8), CopyStep::Done);
    assert_eq!(ExactCopy::new(0).next(1), CopyStep::Done);
    assert_eq!(ExactCopy::new(u64::MAX).next(8192), CopyStep::Read(8192));
}

#[test]
fn last_chunk_is_noticed_in_any_cut() {
    let stream = b"4\r\nWiki\r\n0\r\n\r\n";
    for cut in 1..stream.len() {
        let mut c = ChunkedCopy::new();
        assert!(!c.copied(&stream[..cut]));
        assert!(c.copied(&stream[cut..]));
        assert!(!chunked_is_complete(&stream[..cut]));
        let mut c = ChunkedCopy::resume(&stream[..cut]);
        assert!(c.copied(&stream[cut..]));
    }
    assert!(ChunkedCopy::new().copied(stream));
    assert!(chunked_is_complete(stream));
    assert!(!chunked_is_complete(b""));
}

#[test]
fn chunk_data_does_not_end_the_body() {
    let mut c = ChunkedCopy::new();
    assert!(!c.copied(b"5\r\n0\r\n\r\n"));
    assert!(c.copied(b"\r\n0\r\n\r\n"));
    let mut c = ChunkedCopy::new();
    assert!(!c.copied(b"10\r\n\r\n"));
}

#[test]
fn sizes_extensions_and_trailers() {
    assert!(chunked_is_complete(b"A;x=y\r\n0123456789\r\n00\r\n\r\n"));
    assert!(chunked_is_complete(b"1 \r\na\r\n0\r\nT: v\r\nU: w\r\n\r\n"));
    assert!(!chunked_is_complete(b"0\r\nT: v\r\n"));
    assert!(!chunked_is_complete(b"x\r\n0\r\n\r\n"));
    assert!(!chunked_is_complete(b"1\r\nab\r\n0\r\n\r\n"));
    assert!(!chunked_is_complete(b"10000000000000000\r\n0\r\n\r\n"));
    assert!(!chunked_is_complete(b"0\rx\r\n\r\n"));
    assert!(chunked_is_complete(b"0;\rx\r\n\r\n"));
}

#[test]
fn chunked_stream_that_is_closed_early() {
    let mut c = ChunkedCopy::new();
    assert!(!c.copied(b"4\r\nWi"));
    assert!(c.copied(b""));
}

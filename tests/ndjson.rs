use lichess_client::ndjson::{decode_chunks, DecodeError, NDJsonStream, Pull};
use serde_json::Value;

fn parse(text: String) -> Result<Value, String> {
    serde_json::from_str::<Value>(&text).map_err(|e| e.to_string())
}

fn chunks(parts: &[&[u8]]) -> Vec<Vec<u8>> {
    parts.iter().map(|p| p.to_vec()).collect()
}

fn json(text: &str) -> Value {
    serde_json::from_str(text).unwrap()
}

#[test]
fn one_chunk_two_records() {
    let out = decode_chunks(&chunks(&[b"{\"a\":1}\n{\"b\":2}\n"]), &parse);
    assert_eq!(out, vec![Ok(json("{\"a\":1}")), Ok(json("{\"b\":2}"))]);
}

#[test]
fn split_mid_line_gives_same_records() {
    let out = decode_chunks(&chunks(&[b"{\"a\":1", b"}\n{\"b\":2}\n"]), &parse);
    assert_eq!(out, vec![Ok(json("{\"a\":1}")), Ok(json("{\"b\":2}"))]);
}

#[test]
fn trailing_bytes_are_dropped() {
    let out = decode_chunks(&chunks(&[b"{\"a\":1}\n{\"b\""]), &parse);
    assert_eq!(out, vec![Ok(json("{\"a\":1}"))]);
}

#[test]
fn invalid_record_ends_the_sequence() {
    let out = decode_chunks(&chunks(&[b"{\"a\":1}\nnot json\n{\"b\":2}\n"]), &parse);
    assert_eq!(out.len(), 2);
    assert_eq!(out[0], Ok(json("{\"a\":1}")));
    assert!(matches!(out[1], Err(DecodeError::Invalid(_))));
}

#[test]
fn invalid_utf8_ends_the_sequence() {
    let out = decode_chunks(&chunks(&[b"\"x\"\n\xff\xfe\n\"y\"\n"]), &parse);
    assert_eq!(out, vec![Ok(json("\"x\"")), Err(DecodeError::InvalidUtf8)]);
}

#[test]
fn empty_line_is_a_decode_failure() {
    let out = decode_chunks(&chunks(&[b"\n{\"a\":1}\n"]), &parse);
    assert_eq!(out.len(), 1);
    assert!(matches!(out[0], Err(DecodeError::Invalid(_))));
}

#[test]
fn chunking_does_not_change_records() {
    let body: &[u8] = "{\"name\":\"Zoë\"}\n[1,2]\n\"ü\"\n7".as_bytes();
    let whole = decode_chunks(&vec![body.to_vec()], &parse);
    assert_eq!(
        whole,
        vec![Ok(json("{\"name\":\"Zoë\"}")), Ok(json("[1,2]")), Ok(json("\"ü\""))]
    );
    let bytewise: Vec<Vec<u8>> = body.iter().map(|b| vec![*b]).collect();
    assert_eq!(decode_chunks(&bytewise, &parse), whole);
    for cut in 0..=body.len() {
        let two = vec![body[..cut].to_vec(), body[cut..].to_vec()];
        assert_eq!(decode_chunks(&two, &parse), whole);
    }
    let with_empty = vec![vec![], body[..3].to_vec(), vec![], body[3..].to_vec(), vec![]];
    assert_eq!(decode_chunks(&with_empty, &parse), whole);
}

#[test]
fn no_chunks_no_records() {
    assert_eq!(decode_chunks(&Vec::new(), &parse), vec![]);
}

#[test]
fn pull_needs_input_until_a_line_is_complete() {
    let mut stream = NDJsonStream::new();
    assert!(matches!(stream.poll_next(&parse), Pull::NeedInput));
    stream.push_chunk(b"{\"a\":");
    assert!(matches!(stream.poll_next(&parse), Pull::NeedInput));
    stream.push_chunk(b"1}\n{\"b\":2}\n{");
    match stream.poll_next(&parse) {
        Pull::Record(r) => assert_eq!(r, Ok(json("{\"a\":1}"))),
        other => panic!("unexpected {:?}", other),
    }
    match stream.poll_next(&parse) {
        Pull::Record(r) => assert_eq!(r, Ok(json("{\"b\":2}"))),
        other => panic!("unexpected {:?}", other),
    }
    assert!(matches!(stream.poll_next(&parse), Pull::NeedInput));
    stream.finish();
    assert!(matches!(stream.poll_next(&parse), Pull::Finished));
}

#[test]
fn failed_stream_stays_finished() {
    let mut stream = NDJsonStream::new();
    stream.push_chunk(b"oops\n{\"b\":2}\n");
    assert!(matches!(stream.poll_next(&parse), Pull::Record(Err(DecodeError::Invalid(_)))));
    assert!(matches!(stream.poll_next(&parse), Pull::Finished));
    stream.push_chunk(b"{\"c\":3}\n");
    assert!(matches!(stream.poll_next(&parse), Pull::Finished));
}

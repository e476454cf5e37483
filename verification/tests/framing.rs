use device_bus::envelope::{encode_frame, FrameReader, ReadProgress};
use device_bus::error::Error;
use device_bus::MAX_MESSAGE_SIZE;

fn feed_all(chunks: &[&[u8]]) -> Result<Option<Vec<u8>>, Error> {
    let mut reader = FrameReader::new();
    for chunk in chunks {
        match reader.feed(chunk)? {
            ReadProgress::NeedMore => {},
            ReadProgress::Complete(payload) => return Ok(Some(payload)),
        }
    }
    Ok(None)
}

#[test]
fn frame_wraps_payload_in_nuls() {
    let payload = b"{\"type\":\"list\"}".to_vec();
    let frame = encode_frame(&payload).unwrap();
    assert_eq!(frame[0], 0u8);
    assert_eq!(*frame.last().unwrap(), 0u8);
    assert_eq!(&frame[1..frame.len() - 1], payload.as_slice());
}

#[test]
fn oversized_payload_is_rejected_whole() {
    let payload = vec![b'x'; MAX_MESSAGE_SIZE - 1];
    assert_eq!(encode_frame(&payload), Err(Error::MessageTooLarge));
}

#[test]
fn largest_payload_fits_exactly() {
    let payload = vec![b'x'; MAX_MESSAGE_SIZE - 2];
    let frame = encode_frame(&payload).unwrap();
    assert_eq!(frame.len(), MAX_MESSAGE_SIZE);
}

#[test]
fn whole_frame_in_one_read() {
    let frame = encode_frame(&b"{\"type\":\"list\"}".to_vec()).unwrap();
    let payload = feed_all(&[frame.as_slice()]).unwrap().unwrap();
    assert_eq!(payload, b"{\"type\":\"list\"}".to_vec());
}

#[test]
fn split_frame_reassembles_at_every_split_point() {
    let body = b"{\"type\":\"result\",\"data\":5}".to_vec();
    let frame = encode_frame(&body).unwrap();
    for split in 1..frame.len() {
        let payload = feed_all(&[&frame[..split], &frame[split..]]).unwrap().unwrap();
        assert_eq!(payload, body, "split at {split}");
    }
}

#[test]
fn byte_by_byte_delivery_reassembles() {
    let body = b"{\"type\":\"error\",\"data\":\"x\"}".to_vec();
    let frame = encode_frame(&body).unwrap();
    let chunks: Vec<&[u8]> = frame.chunks(1).collect();
    let payload = feed_all(&chunks).unwrap().unwrap();
    assert_eq!(payload, body);
}

#[test]
fn completion_happens_only_on_the_trailing_nul() {
    let body = b"{\"type\":\"list\"}".to_vec();
    let frame = encode_frame(&body).unwrap();
    let mut reader = FrameReader::new();
    for i in 0..frame.len() - 1 {
        match reader.feed(&frame[i..i + 1]).unwrap() {
            ReadProgress::NeedMore => {},
            ReadProgress::Complete(_) => panic!("complete before the trailing NUL at {i}"),
        }
    }
    match reader.feed(&frame[frame.len() - 1..]).unwrap() {
        ReadProgress::Complete(payload) => assert_eq!(payload, body),
        ReadProgress::NeedMore => panic!("trailing NUL not recognised"),
    }
}

#[test]
fn zero_byte_read_is_end_of_stream() {
    let mut reader = FrameReader::new();
    assert!(matches!(reader.feed(&[]), Err(Error::UnexpectedEndOfStream)));
}

#[test]
fn reader_overflow_is_message_too_large() {
    let mut reader = FrameReader::new();
    let chunk = vec![b'a'; MAX_MESSAGE_SIZE];
    assert!(matches!(reader.feed(&chunk), Ok(ReadProgress::NeedMore)));
    assert!(matches!(reader.feed(b"b"), Err(Error::MessageTooLarge)));
}

#[test]
fn lone_leading_nul_is_not_a_frame() {
    let mut reader = FrameReader::new();
    assert!(matches!(reader.feed(&[0u8]), Ok(ReadProgress::NeedMore)));
}

#[test]
fn reader_is_reusable_after_a_complete_frame() {
    let first = encode_frame(&b"{\"type\":\"result\"}".to_vec()).unwrap();
    let second = encode_frame(&b"{\"type\":\"result\",\"data\":1}".to_vec()).unwrap();
    let mut reader = FrameReader::new();
    match reader.feed(&first).unwrap() {
        ReadProgress::Complete(payload) => assert_eq!(payload, b"{\"type\":\"result\"}".to_vec()),
        ReadProgress::NeedMore => panic!("first frame not recognised"),
    }
    match reader.feed(&second).unwrap() {
        ReadProgress::Complete(payload) => {
            assert_eq!(payload, b"{\"type\":\"result\",\"data\":1}".to_vec())
        },
        ReadProgress::NeedMore => panic!("second frame not recognised"),
    }
}

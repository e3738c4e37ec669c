use gluon_language_server::error::ProtocolError;
use gluon_language_server::framing::{decode_frame, encode, FrameStep, Framer};

#[test]
fn encode_writes_header_and_body() {
    assert_eq!(encode(b"{}"), b"Content-Length: 2\r\n\r\n{}".to_vec());
    assert_eq!(encode(b""), b"Content-Length: 0\r\n\r\n".to_vec());
    assert_eq!(
        encode(b"0123456789"),
        b"Content-Length: 10\r\n\r\n0123456789".to_vec()
    );
}

#[test]
fn decode_whole_frame() {
    let buffer = b"Content-Length: 5\r\n\r\nhelloContent";
    assert_eq!(
        decode_frame(buffer),
        FrameStep::Frame { start: 21, end: 26 }
    );
}

#[test]
fn header_name_is_case_insensitive() {
    let mut framer = Framer::new();
    framer.push(b"CONTENT-length: 3\r\n\r\nabc");
    assert_eq!(framer.next_message(), Ok(Some(b"abc".to_vec())));
    assert_eq!(framer.next_message(), Ok(None));
    assert_eq!(framer.buffered(), 0);
}

#[test]
fn partial_frames_wait_for_more_bytes() {
    let mut framer = Framer::new();
    let frame = b"Content-Length: 4\r\n\r\nbody";
    for cut in 0..frame.len() {
        let mut framer = Framer::new();
        framer.push(&frame[..cut]);
        assert_eq!(framer.next_message(), Ok(None), "cut at {}", cut);
        framer.push(&frame[cut..]);
        assert_eq!(framer.next_message(), Ok(Some(b"body".to_vec())));
    }
    framer.push(frame);
    assert_eq!(framer.drain(), (vec![b"body".to_vec()], None));
}

#[test]
fn back_to_back_messages_in_one_read() {
    let mut framer = Framer::new();
    framer.push(b"Content-Length: 1\r\n\r\naContent-Length: 2\r\n\r\nbcContent-Le");
    let (messages, failure) = framer.drain();
    assert_eq!(messages, vec![b"a".to_vec(), b"bc".to_vec()]);
    assert_eq!(failure, None);
    assert_eq!(framer.buffered(), 10);
}

#[test]
fn split_stream_gives_the_same_messages() {
    let mut stream = Vec::new();
    let bodies: Vec<Vec<u8>> = vec![
        b"{\"jsonrpc\":\"2.0\"}".to_vec(),
        Vec::new(),
        b"second\r\n\r\nbody".to_vec(),
        vec![b'x'; 123],
    ];
    for body in &bodies {
        stream.extend(encode(body));
    }
    let mut whole = Framer::new();
    whole.push(&stream);
    assert_eq!(whole.drain(), (bodies.clone(), None));
    for first in 0..stream.len() {
        let second = first + (stream.len() - first) / 2;
        let mut framer = Framer::new();
        let mut messages = Vec::new();
        for piece in [&stream[..first], &stream[first..second], &stream[second..]] {
            framer.push(piece);
            let (found, failure) = framer.drain();
            assert_eq!(failure, None);
            messages.extend(found);
        }
        assert_eq!(messages, bodies);
        assert_eq!(framer.buffered(), 0);
    }
}

#[test]
fn malformed_header_is_an_error() {
    assert_eq!(
        decode_frame(b"Content-Type: x"),
        FrameStep::Malformed(ProtocolError::MalformedHeader)
    );
    assert_eq!(
        decode_frame(b"Content-Length: \r\n\r\n"),
        FrameStep::Malformed(ProtocolError::MalformedHeader)
    );
    assert_eq!(
        decode_frame(b"Content-Length: 12\n\n"),
        FrameStep::Malformed(ProtocolError::MalformedHeader)
    );
    assert_eq!(
        decode_frame(b"Content-Length:12\r\n\r\n"),
        FrameStep::Malformed(ProtocolError::MalformedHeader)
    );
    let mut framer = Framer::new();
    framer.push(b"Content-Length: 1\r\n\r\naGarbage");
    assert_eq!(
        framer.drain(),
        (vec![b"a".to_vec()], Some(ProtocolError::MalformedHeader))
    );
    framer.push(b"Content-Length: 1\r\n\r\nb");
    assert_eq!(framer.next_message(), Err(ProtocolError::MalformedHeader));
}

#[test]
fn length_that_cannot_be_held_is_an_error() {
    assert_eq!(
        decode_frame(b"Content-Length: 99999999999999999999999999"),
        FrameStep::Malformed(ProtocolError::LengthOverflow)
    );
    let announced = format!("Content-Length: {}\r\n\r\n", usize::MAX);
    assert_eq!(
        decode_frame(announced.as_bytes()),
        FrameStep::Malformed(ProtocolError::LengthOverflow)
    );
}

#[test]
fn messages_as_text() {
    let mut framer = Framer::new();
    framer.push("Content-Length: 8\r\n\r\n{\"\u{e4}\":1}Content-Length: 2\r\n\r\n".as_bytes());
    assert_eq!(framer.next_text(), Ok(Some("{\"\u{e4}\":1}".to_string())));
    assert_eq!(framer.next_text(), Ok(None));
    framer.push(&[0xc3, 0x28]);
    assert_eq!(framer.next_text(), Err(ProtocolError::InvalidBody));
    assert_eq!(framer.buffered(), 0);
    framer.push(b"x");
    assert_eq!(framer.next_text(), Err(ProtocolError::MalformedHeader));
}

#[test]
fn leading_zeros_are_digits() {
    assert_eq!(
        decode_frame(b"Content-Length: 0003\r\n\r\nabc"),
        FrameStep::Frame { start: 24, end: 27 }
    );
}

use serde_json::Value;
use tabletflow::json::{Json, JsonEntry, JsonNumber};
use tabletflow::rpc::{
    body_length, checked_body, classify, content_length, frame, read_message, CallError, CallPoll,
    ByteStream, HeaderReader, HeaderStep, Incoming, PendingCall, ReadError, RpcClient, CALL_POLL_MILLIS,
    MAX_HEADER_LEN, MAX_MESSAGE_LEN,
};
use tabletflow::time::{Duration, Instant};

fn read(value: &Value) -> Json {
    match value {
        Value::Null => Json::Null,
        Value::Bool(flag) => Json::Bool(*flag),
        Value::Number(number) => Json::Number(match number.as_i64() {
            Some(integer) => JsonNumber::Integer(integer as i128),
            None => match number.as_u64() {
                Some(integer) => JsonNumber::Integer(integer as i128),
                None => JsonNumber::Double(number.as_f64().unwrap().to_bits()),
            },
        }),
        Value::String(text) => Json::Text(text.clone()),
        Value::Array(items) => Json::Array(items.iter().map(read).collect()),
        Value::Object(entries) => {
            let mut list = Vec::new();
            for (key, value) in entries {
                list.push(JsonEntry { key: key.clone(), value: read(value) });
            }
            Json::Object(list)
        }
    }
}
fn json(text: &str) -> Json {
    read(&serde_json::from_str(text).unwrap())
}

fn at(millis: u64) -> Instant {
    Instant { nanos: 0 }.after(Duration::from_millis(millis))
}

/// The first message of a stream.
fn first(bytes: &[u8]) -> Result<Vec<u8>, ReadError> {
    read_message(&mut ByteStream::new(bytes.to_vec()))
}

#[test]
fn rejects_content_length_above_the_limit() {
    let frame = format!("Content-Length: {}\r\n\r\n", MAX_MESSAGE_LEN + 1).into_bytes();
    let error = first(&frame).unwrap_err();
    assert!(matches!(error, ReadError::TooLong(_)));
    assert_eq!(
        error.message(),
        "RPC content length 67108865 exceeds the 67108864-byte limit"
    );
}

#[test]
fn parses_content_length_frame() {
    let body = br#"{"jsonrpc":"2.0","id":1,"result":[]}"#;
    let mut frame = format!("Content-Length: {}\r\n\r\n", body.len()).into_bytes();
    frame.extend_from_slice(body);
    let message = first(&frame).unwrap();
    let value: Value = serde_json::from_slice(&message).unwrap();
    assert_eq!(value["id"], 1);
}

/// Plays a call against a driver: the time runs, and the responses arrive at their times.
fn play(shutdown_at: Option<u64>, responses: Vec<(u64, Json)>) -> (Result<Json, CallError>, u64) {
    let call = PendingCall::new(1, at(0), Duration::from_millis(300));
    let mut now = 0;
    let mut waiting = responses.into_iter().peekable();
    loop {
        let shutdown = shutdown_at.is_some_and(|time| time <= now);
        let span = match call.poll(at(now), shutdown) {
            CallPoll::Interrupted => return (Err(CallError::Interrupted), now),
            CallPoll::TimedOut => return (Err(CallError::TimedOut), now),
            CallPoll::Wait(span) => (span.nanos / 1_000_000) as u64,
        };
        match waiting.peek() {
            Some((time, _)) if *time <= now + span => {
                let (time, response) = waiting.next().unwrap();
                now = time.max(now);
                if let Some(outcome) = call.on_response(&response) {
                    return (outcome, now);
                }
            }
            _ => now += span,
        }
    }
}

#[test]
fn call_returns_promptly_once_shutdown_is_requested() {
    let (result, elapsed) = play(Some(20), Vec::new());
    assert!(
        matches!(&result, Err(CallError::Interrupted)),
        "expected an Interrupted error from the shutdown request, got {result:?}"
    );
    assert!(elapsed < 300);
    assert!(elapsed <= 20 + CALL_POLL_MILLIS);
}

#[test]
fn stale_response_does_not_extend_the_deadline() {
    let mut responses = Vec::new();
    for round in 1..=10 {
        responses.push((round * 50, json(r#"{"jsonrpc":"2.0","id":999,"result":null}"#)));
    }
    let (result, elapsed) = play(None, responses);
    assert!(
        matches!(&result, Err(CallError::TimedOut)),
        "expected a timeout error, got {result:?}"
    );
    assert!(elapsed < 500);
    assert_eq!(elapsed, 300);
}

#[test]
fn a_response_ends_its_call() {
    let (result, elapsed) = play(
        None,
        vec![
            (10, json(r#"{"id":2,"result":1}"#)),
            (20, json(r#"{"id":1,"result":[7]}"#)),
        ],
    );
    assert!(result.unwrap().same(&json("[7]")));
    assert_eq!(elapsed, 20);
    let call = PendingCall::new(4, at(0), Duration::from_secs(1));
    assert!(matches!(
        call.on_response(&json(r#"{"id":4,"error":{"code":-1}}"#)),
        Some(Err(CallError::Refused(_)))
    ));
    assert!(matches!(
        call.on_response(&json(r#"{"id":4}"#)),
        Some(Err(CallError::NoResult))
    ));
    assert!(call.on_response(&json(r#"{"id":"4","result":1}"#)).is_none());
    assert!(call.on_response(&json(r#"{"id":4.0,"result":1}"#)).is_none());
    assert_eq!(CallError::TimedOut.message(), "OpenTabletDriver did not respond");
    assert_eq!(CallError::Interrupted.message(), "shutdown requested");
    assert_eq!(CallError::Closed.message(), "OpenTabletDriver connection closed");
    assert_eq!(CallError::NoResult.message(), "RPC response has no result");
}

#[test]
fn requests_have_identifiers_of_their_own() {
    let mut client = RpcClient::connect();
    let (first, request) = client.request("GetTablets", Json::Array(Vec::new()));
    assert_eq!(first, 1);
    assert!(request.same(&json(
        r#"{"jsonrpc":"2.0","id":1,"method":"GetTablets","params":[]}"#
    )));
    let (second, _) = client.request("GetTablets", Json::Array(Vec::new()));
    assert_eq!(second, 2);
}

#[test]
fn frames_are_read_back() {
    for text in ["{}", "[1, 2, 3]", "\"caf\u{e9}\"", "null"] {
        let body = text.as_bytes().to_vec();
        let mut stream = frame(&body);
        assert_eq!(first(&stream).unwrap(), body);
        stream.extend_from_slice(b"Content-Length: 2\r\n\r\n[]");
        let mut both = ByteStream::new(stream);
        assert_eq!(read_message(&mut both).unwrap(), body);
        assert_eq!(read_message(&mut both).unwrap(), b"[]".to_vec());
        assert!(matches!(read_message(&mut both), Err(ReadError::EndOfStream)));
    }
    assert_eq!(frame(&b"abc".to_vec()), b"Content-Length: 3\r\n\r\nabc".to_vec());
}

#[test]
fn broken_streams_are_refused() {
    let refusal = |bytes: &[u8]| first(bytes).unwrap_err().message();
    assert_eq!(refusal(b""), "failed to fill whole buffer");
    assert_eq!(refusal(b"Content-Length: 5\r\n"), "failed to fill whole buffer");
    assert_eq!(refusal(b"Content-Length: 5\r\n\r\n[]"), "failed to fill whole buffer");
    assert_eq!(refusal(b"Length: 5\r\n\r\n[1,2]"), "RPC content length missing");
    assert_eq!(refusal(b"Content-Length: -5\n\n[1,2]"), "RPC content length missing");
    assert_eq!(refusal(b"Content-Length: 2\n\n[x"), "RPC body is not JSON");
    assert_eq!(refusal(&vec![b'a'; MAX_HEADER_LEN + 2]), "RPC headers are too large");
}

#[test]
fn messages_follow_each_other() {
    let bytes = b"X: y\r\ncontent-LENGTH: 3\r\nZ: 1\r\n\r\n[1]Host: a\n\n\
        CONTENT-length: 4\nB: c\n\nnull{}";
    let mut stream = ByteStream::new(bytes.to_vec());
    assert_eq!(read_message(&mut stream).unwrap(), b"[1]".to_vec());
    let first = stream.at;
    assert_eq!(first, "X: y\r\ncontent-LENGTH: 3\r\nZ: 1\r\n\r\n[1]".len());
    // Headers without a length are refused, and the next ones are read after them.
    assert!(matches!(read_message(&mut stream), Err(ReadError::LengthMissing)));
    assert_eq!(stream.at, first + "Host: a\n\n".len());
    assert_eq!(read_message(&mut stream).unwrap(), b"null".to_vec());
    assert_eq!(stream.at, bytes.len() - 2);
    assert!(matches!(read_message(&mut stream), Err(ReadError::EndOfStream)));
    assert_eq!(stream.at, bytes.len());
}

#[test]
fn refused_messages_are_passed_over() {
    let mut stream = ByteStream::new(b"Content-Length: 2\n\n[xContent-Length: 2\n\n[]".to_vec());
    assert!(matches!(read_message(&mut stream), Err(ReadError::NotJson)));
    assert_eq!(read_message(&mut stream).unwrap(), b"[]".to_vec());
    let mut stream = ByteStream::new(vec![b'a'; MAX_HEADER_LEN + 9]);
    assert!(matches!(read_message(&mut stream), Err(ReadError::HeadersTooLarge)));
    assert_eq!(stream.at, MAX_HEADER_LEN + 1);
    let mut stream = ByteStream::new(b"Content-Length: 67108865\n\n[]".to_vec());
    assert!(matches!(read_message(&mut stream), Err(ReadError::TooLong(67108865))));
    assert_eq!(stream.at, "Content-Length: 67108865\n\n".len());
}

#[test]
fn headers_end_with_an_empty_line() {
    let mut reader = HeaderReader::new();
    for byte in b"a: b\r\n\r" {
        assert_eq!(reader.push(*byte), HeaderStep::More);
    }
    assert_eq!(reader.push(b'\n'), HeaderStep::Complete);
    let mut long = HeaderReader::new();
    for _ in 0..MAX_HEADER_LEN {
        assert_eq!(long.push(b'x'), HeaderStep::More);
    }
    assert_eq!(long.push(b'x'), HeaderStep::TooLarge);
}

#[test]
fn lengths_are_found_in_headers() {
    assert_eq!(content_length("Host: x\r\ncontent-LENGTH:  12 \r\n\r\n"), Some(12));
    assert_eq!(content_length("Content-Length: +7\n\n"), Some(7));
    assert_eq!(content_length("Content-Length: x\nContent-Length: 8\n\n"), Some(8));
    assert_eq!(content_length("Content-Length : 8\n\n"), None);
    assert_eq!(content_length("Content-Length: 99999999999999999999999\n\n"), None);
    // Bytes that are no text do not hide a length after them.
    let mut headers = vec![0xff, 0xfe, b'\n'];
    headers.extend_from_slice(b"Content-Length: 6\n\n");
    assert!(matches!(body_length(&headers), Ok(6)));
}

#[test]
fn bodies_must_be_documents() {
    assert_eq!(checked_body(b" [1] ".to_vec()).unwrap(), b" [1] ".to_vec());
    assert!(matches!(checked_body(b"[1".to_vec()), Err(ReadError::NotJson)));
    assert!(matches!(checked_body(b"[1] 2".to_vec()), Err(ReadError::NotJson)));
    assert!(matches!(checked_body(Vec::new()), Err(ReadError::NotJson)));
    // Spaces after a document belong to it, up to the longest body and not beyond.
    let mut longest = vec![b' '; MAX_MESSAGE_LEN];
    longest[0] = b'1';
    let mut longer = longest.clone();
    assert_eq!(checked_body(longest).unwrap().len(), MAX_MESSAGE_LEN);
    longer.push(b' ');
    match checked_body(longer) {
        Err(ReadError::TooLong(length)) => assert_eq!(length, MAX_MESSAGE_LEN + 1),
        other => panic!("{:?}", other.map(|body| body.len())),
    }
}

#[test]
fn messages_are_told_apart() {
    let kind = |text: &str, resynchronize: bool| classify(&json(text), resynchronize);
    assert_eq!(kind(r#"{"id":1,"method":"TabletsChanged"}"#, false), Incoming::Response);
    assert_eq!(kind(r#"{"id":null}"#, false), Incoming::Response);
    assert_eq!(kind(r#"{"method":"OnTabletsChanged"}"#, false), Incoming::TabletsChanged);
    assert_eq!(kind(r#"{"method":"Resynchronize"}"#, true), Incoming::TabletsChanged);
    assert_eq!(kind(r#"{"method":"Resynchronize"}"#, false), Incoming::Other);
    assert_eq!(kind(r#"{"method":3}"#, true), Incoming::Other);
    assert_eq!(kind("[]", true), Incoming::Other);
}

use grug_ls::rpc::{default_jsonrpc, Frame, Notification, RequestMessage, ResponseMessage, Rpc};
use grug_ls::text::{log_str, to_decimal};

#[test]
fn a_message_is_sent_with_its_length_in_front() {
    assert_eq!(Rpc::send("{}"), b"Content-Length: 2\r\n\r\n{}".to_vec());
    assert_eq!(Rpc::send(""), b"Content-Length: 0\r\n\r\n".to_vec());
    // The length counts bytes, not characters.
    assert_eq!(
        Rpc::send("\"\u{e9}t\u{e9}\""),
        "Content-Length: 7\r\n\r\n\"\u{e9}t\u{e9}\"".as_bytes().to_vec()
    );
    let long = "x".repeat(1234);
    let sent = Rpc::send(&long);
    assert!(sent.starts_with(b"Content-Length: 1234\r\n\r\n"));
    assert_eq!(sent.len(), 24 + 1234);
}

#[test]
fn a_frame_is_whole_once_all_its_bytes_are_there() {
    assert_eq!(Rpc::frame(b""), Frame::Incomplete);
    assert_eq!(Rpc::frame(b"Content-Length: 2\r\n"), Frame::Incomplete);
    assert_eq!(Rpc::frame(b"Content-Length: 2\r\n\r\n"), Frame::Incomplete);
    assert_eq!(Rpc::frame(b"Content-Length: 2\r\n\r\n{"), Frame::Incomplete);
    assert_eq!(
        Rpc::frame(b"Content-Length: 2\r\n\r\n{}"),
        Frame::Message { start: 21, end: 23 }
    );
    assert_eq!(
        Rpc::frame(b"Content-Length: 2\r\n\r\n{}Content-Length: 5\r\n\r\n"),
        Frame::Message { start: 21, end: 23 }
    );
    assert_eq!(
        Rpc::frame(b"Content-Length: 0\r\n\r\n"),
        Frame::Message { start: 21, end: 21 }
    );
    assert_eq!(
        Rpc::frame(b"Content-Length: 012\r\n\r\nabcdefghijkl"),
        Frame::Message { start: 23, end: 35 }
    );
}

#[test]
fn a_header_that_gives_no_length_is_malformed() {
    assert_eq!(Rpc::frame(b"Content-Length: \r\n\r\n"), Frame::Malformed);
    assert_eq!(Rpc::frame(b"Content-Length: x\r\n\r\n"), Frame::Malformed);
    assert_eq!(Rpc::frame(b"Content-Length: 2 \r\n\r\n{}"), Frame::Malformed);
    assert_eq!(Rpc::frame(b"Content-Type: 2\r\n\r\n{}"), Frame::Malformed);
    assert_eq!(Rpc::frame(b"\r\n\r\n"), Frame::Malformed);
    assert_eq!(
        Rpc::frame(b"Content-Length: 99999999999999999999999999\r\n\r\n"),
        Frame::Malformed
    );
}

#[test]
fn messages_are_received_one_by_one() {
    let mut rpc = Rpc::new();
    assert_eq!(rpc.recv(b"Content-Len"), None);
    assert_eq!(rpc.recv(b"gth: 5\r\n\r\nab"), None);
    assert_eq!(rpc.buffer, b"Content-Length: 5\r\n\r\nab".to_vec());
    assert_eq!(
        rpc.recv(b"cdeContent-Length: 1\r\n\r\nZ"),
        Some(b"abcde".to_vec())
    );
    assert_eq!(rpc.buffer, b"Content-Length: 1\r\n\r\nZ".to_vec());
    assert_eq!(rpc.recv(b""), Some(b"Z".to_vec()));
    assert!(rpc.buffer.is_empty());
    assert_eq!(rpc.recv(b"nonsense\r\n\r\n"), None);
    assert!(rpc.buffer.is_empty());
}

#[test]
fn what_is_sent_is_received() {
    let mut rpc = Rpc::new();
    let text = "{\"jsonrpc\":\"2.0\",\"id\":1}";
    assert_eq!(rpc.recv(&Rpc::send(text)), Some(text.as_bytes().to_vec()));
}

#[test]
fn messages_name_the_version_of_the_protocol() {
    assert_eq!(default_jsonrpc(), "2.0");
    let request = RequestMessage::new(serde_json::Value::from(7), "params".to_string());
    assert_eq!(request.jsonrpc, "2.0");
    assert_eq!(request.id, serde_json::Value::from(7));
    assert_eq!(request.params, "params");
    let response = ResponseMessage::new(serde_json::Value::from("a"), 3u8);
    assert_eq!(response.jsonrpc, "2.0");
    assert_eq!(response.id, serde_json::Value::from("a"));
    assert_eq!(response.result, 3);
    let notification = Notification {
        jsonrpc: default_jsonrpc(),
        params: 1u8,
    };
    assert_eq!(notification.params, 1);
}

#[test]
fn numbers_are_written_in_decimal() {
    assert_eq!(to_decimal(0), "0");
    assert_eq!(to_decimal(9), "9");
    assert_eq!(to_decimal(10), "10");
    assert_eq!(to_decimal(65536), "65536");
    assert_eq!(to_decimal(1002003), "1002003");
}

#[test]
fn a_line_of_the_log_ends_with_a_line_feed() {
    assert_eq!(log_str("started"), "started\n");
    assert_eq!(log_str("started\n"), "started\n");
    assert_eq!(log_str(""), "\n");
}

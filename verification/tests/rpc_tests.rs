use lolserialize::client::{
    stream_event_result, transport_closed_error, ClientAction, ClientState, StreamEvent,
};
use lolserialize::framing::{frame_prefix, FrameLengthReader};
use lolserialize::rpc_error::{RpcError, ERR_CODE_DECODE_ERROR, ERR_CODE_HANDLER_ERROR};
use lolserialize::leb128::DecodeError;
use lolserialize::server::{unary_outcome_packet, CallKind, ServerAction, ServerState, StreamSenderState};
use lolserialize::wire::{
    error_status, make_cancel_packet, make_request_packet, make_response_packet,
    make_status_packet, make_stream_end_packet, make_stream_item_packet, parse_header,
    status_error, STATUS_CANCELLED, STATUS_DECODE_ERROR, STATUS_INTERNAL_ERROR, STATUS_OK,
    STATUS_UNKNOWN_METHOD,
};
use lolserialize::text::push_decimal;

#[test]
fn rpc_error_constructors() {
    let e = RpcError::new(7, "boom".to_string());
    assert_eq!((e.code, e.message.as_str()), (7, "boom"));
    let d = RpcError::decode(DecodeError::UnexpectedEof);
    assert_eq!(d.code, ERR_CODE_DECODE_ERROR);
    assert_eq!(d.message, "decode error: unexpected end of input");
    let c = RpcError::stream_closed();
    assert_eq!((c.code, c.message.as_str()), (0, "stream closed"));
    assert!(c.is_stream_closed());
    assert!(!RpcError::new(1, "stream closed".to_string()).is_stream_closed());
    assert!(!RpcError::new(0, "stream closed!".to_string()).is_stream_closed());
    assert!(!transport_closed_error().is_stream_closed());
    assert_eq!(transport_closed_error().message, "transport closed");
}

#[test]
fn rpc_error_display_text() {
    assert_eq!(RpcError::new(3, "bad".to_string()).to_string(), "RPC error 3: bad");
    assert_eq!(RpcError::new(0, String::new()).to_string(), "RPC error 0: ");
    assert_eq!(RpcError::new(u32::MAX, "x".to_string()).to_string(), "RPC error 4294967295: x");
}

#[test]
fn decimal_text() {
    let mut s = String::from("n=");
    push_decimal(&mut s, 0);
    push_decimal(&mut s, 10);
    push_decimal(&mut s, 9081726354);
    assert_eq!(s, "n=0109081726354");
}

#[test]
fn packet_layouts() {
    assert_eq!(make_request_packet(1, 128, &[7, 8]), vec![0x01, 0x01, 0x80, 0x01, 7, 8]);
    assert_eq!(make_response_packet(300, vec![1, 2]), vec![0x02, 0xac, 0x02, 0x00, 1, 2]);
    assert_eq!(make_status_packet(5, STATUS_CANCELLED), vec![0x02, 0x05, 0x04]);
    assert_eq!(make_stream_item_packet(1, vec![9]), vec![0x03, 0x01, 9]);
    assert_eq!(make_stream_end_packet(5), vec![0x02, 0x05, 0x00]);
    assert_eq!(make_cancel_packet(129), vec![0x04, 0x81, 0x01]);
}

#[test]
fn echo_example_wire_encoding() {
    let body = vec![0x0c, 0x05, 0x68, 0x65, 0x6c, 0x6c, 0x6f, 0x00];
    let mut client = ClientState::new();
    let (id, request) = client.begin_call(CallKind::Unary, 1, &body);
    assert_eq!(id, 1);
    assert_eq!(request, vec![0x01, 0x01, 0x01, 0x0c, 0x05, 0x68, 0x65, 0x6c, 0x6c, 0x6f, 0x00]);
    assert_eq!(
        make_response_packet(1, body.clone()),
        vec![0x02, 0x01, 0x00, 0x0c, 0x05, 0x68, 0x65, 0x6c, 0x6c, 0x6f, 0x00]
    );
}

#[test]
fn status_codes_and_errors() {
    assert_eq!(
        (STATUS_OK, STATUS_UNKNOWN_METHOD, STATUS_DECODE_ERROR, STATUS_INTERNAL_ERROR, STATUS_CANCELLED),
        (0, 1, 2, 3, 4)
    );
    assert_eq!(error_status(ERR_CODE_DECODE_ERROR), STATUS_DECODE_ERROR);
    assert_eq!(error_status(ERR_CODE_HANDLER_ERROR), STATUS_INTERNAL_ERROR);
    assert_eq!(error_status(1), STATUS_INTERNAL_ERROR);
    assert_eq!(error_status(77), STATUS_INTERNAL_ERROR);
    let texts: Vec<(u32, String)> = (1u8..=5).map(|s| {
        let e = status_error(s);
        (e.code, e.message)
    }).collect();
    assert_eq!(
        texts,
        vec![
            (1, "unknown method".to_string()),
            (2, "decode error".to_string()),
            (3, "internal error".to_string()),
            (4, "cancelled".to_string()),
            (5, "unknown error".to_string()),
        ]
    );
}

#[test]
fn header_parsing() {
    assert_eq!(parse_header(&[]), None);
    assert_eq!(parse_header(&[0x01]), None);
    assert_eq!(parse_header(&[0x01, 0x80]), None);
    assert_eq!(parse_header(&[0x01, 0xac, 0x02, 5]), Some((0x01, 300, 3)));
}

#[test]
fn server_dispatches_requests() {
    let mut server = ServerState::new();
    server.register(1, CallKind::Unary);
    server.register(2, CallKind::Stream);
    match server.on_message(&make_request_packet(9, 2, &[4, 5])) {
        ServerAction::Start { call_id, method_index, kind, payload } => {
            assert_eq!((call_id, method_index, kind, payload), (9, 2, CallKind::Stream, vec![4, 5]));
        }
        other => panic!("unexpected {:?}", other),
    }
    match server.on_message(&make_request_packet(10, 1, &[])) {
        ServerAction::Start { call_id, kind, payload, .. } => {
            assert_eq!((call_id, kind, payload), (10, CallKind::Unary, vec![]));
        }
        other => panic!("unexpected {:?}", other),
    }
    match server.on_message(&make_request_packet(11, 3, &[1])) {
        ServerAction::Reply(p) => assert_eq!(p, vec![0x02, 11, STATUS_UNKNOWN_METHOD]),
        other => panic!("unexpected {:?}", other),
    }
    match server.on_message(&[0x01, 0x0c, 0x80]) {
        ServerAction::Reply(p) => assert_eq!(p, vec![0x02, 12, STATUS_DECODE_ERROR]),
        other => panic!("unexpected {:?}", other),
    }
}

#[test]
fn server_truncates_method_index_to_32_bits() {
    let mut server = ServerState::new();
    server.register(1, CallKind::Unary);
    let mut data = vec![0x01, 0x01];
    lolserialize::leb128::encode_leb128_u64((1u64 << 32) + 1, &mut data);
    match server.on_message(&data) {
        ServerAction::Start { method_index, .. } => assert_eq!(method_index, 1),
        other => panic!("unexpected {:?}", other),
    }
}

#[test]
fn server_cancels_running_calls_with_status_cancelled() {
    let mut server = ServerState::new();
    server.register(1, CallKind::Unary);
    assert!(matches!(server.on_message(&make_cancel_packet(4)), ServerAction::Ignore));
    assert!(matches!(server.on_message(&make_request_packet(4, 1, &[])), ServerAction::Start { .. }));
    match server.on_message(&make_cancel_packet(4)) {
        ServerAction::Abort { call_id, reply } => {
            assert_eq!(call_id, 4);
            assert_eq!(reply, vec![0x02, 0x04, STATUS_CANCELLED]);
        }
        other => panic!("unexpected {:?}", other),
    }
    assert!(matches!(server.on_message(&make_cancel_packet(4)), ServerAction::Ignore));
    assert!(matches!(server.on_message(&make_request_packet(5, 1, &[])), ServerAction::Start { .. }));
    server.on_handler_finished(5);
    assert!(matches!(server.on_message(&make_cancel_packet(5)), ServerAction::Ignore));
}

#[test]
fn server_ignores_malformed_and_foreign_messages() {
    let mut server = ServerState::new();
    server.register(1, CallKind::Unary);
    assert!(matches!(server.on_message(&[]), ServerAction::Ignore));
    assert!(matches!(server.on_message(&[0x01]), ServerAction::Ignore));
    assert!(matches!(server.on_message(&make_response_packet(1, vec![])), ServerAction::Ignore));
    assert!(matches!(server.on_message(&make_stream_item_packet(1, vec![])), ServerAction::Ignore));
    assert!(matches!(server.on_message(&[0x42, 0x01]), ServerAction::Ignore));
}

#[test]
fn unary_outcomes() {
    assert_eq!(unary_outcome_packet(3, Ok(vec![1])), make_response_packet(3, vec![1]));
    assert_eq!(
        unary_outcome_packet(3, Err(RpcError::new(9, "oops".to_string()))),
        vec![0x02, 0x03, STATUS_INTERNAL_ERROR]
    );
    assert_eq!(
        unary_outcome_packet(3, Err(RpcError::decode(DecodeError::Overflow))),
        vec![0x02, 0x03, STATUS_DECODE_ERROR]
    );
}

#[test]
fn stream_sender_ends_unless_failed_or_cancelled() {
    let s = StreamSenderState::new(6);
    assert_eq!(s.call_id(), 6);
    assert_eq!(s.item_packet(vec![1]), vec![0x03, 0x06, 1]);
    assert_eq!(s.end_packet(), Some(vec![0x02, 0x06, STATUS_OK]));
    let mut f = StreamSenderState::new(6);
    assert_eq!(f.error_packet(42), vec![0x02, 0x06, STATUS_INTERNAL_ERROR]);
    assert_eq!(f.end_packet(), None);
    let mut d = StreamSenderState::new(7);
    assert_eq!(d.error_packet(ERR_CODE_DECODE_ERROR), vec![0x02, 0x07, STATUS_DECODE_ERROR]);
    let mut c = StreamSenderState::new(8);
    c.cancel();
    assert_eq!(c.end_packet(), None);
}

#[test]
fn client_allocates_increasing_ids() {
    let mut client = ClientState::new();
    assert_eq!(client.next_id(), 1);
    let (a, pa) = client.begin_call(CallKind::Unary, 5, &[1]);
    let (b, pb) = client.begin_call(CallKind::Stream, 6, &[]);
    let (c, _) = client.begin_call(CallKind::Unary, 6, &[]);
    assert_eq!((a, b, c), (1, 2, 3));
    assert_eq!(pa, make_request_packet(1, 5, &[1]));
    assert_eq!(pb, make_request_packet(2, 6, &[]));
    assert_eq!(client.next_id(), 4);
}

#[test]
fn client_routes_unary_response() {
    let mut client = ClientState::new();
    let (id, _) = client.begin_call(CallKind::Unary, 1, &[]);
    match client.on_message(&make_response_packet(id, vec![7, 7])) {
        ClientAction::Respond { request_id, payload } => assert_eq!((request_id, payload), (id, vec![7, 7])),
        other => panic!("unexpected {:?}", other),
    }
    assert!(matches!(client.on_message(&make_response_packet(id, vec![])), ClientAction::Ignore));
}

#[test]
fn client_routes_stream_messages() {
    let mut client = ClientState::new();
    let (id, _) = client.begin_call(CallKind::Stream, 2, &[]);
    for q in [vec![3], vec![], vec![4, 5]] {
        match client.on_message(&make_stream_item_packet(id, q.clone())) {
            ClientAction::StreamItem { request_id, payload } => assert_eq!((request_id, payload), (id, q)),
            other => panic!("unexpected {:?}", other),
        }
    }
    assert!(matches!(client.on_message(&make_stream_end_packet(id)), ClientAction::StreamEnd { request_id } if request_id == id));
    assert!(matches!(client.on_message(&make_stream_item_packet(id, vec![3])), ClientAction::Ignore));
}

#[test]
fn client_unary_call_ignores_stream_items() {
    let mut client = ClientState::new();
    let (id, _) = client.begin_call(CallKind::Unary, 2, &[]);
    assert!(matches!(client.on_message(&make_stream_item_packet(id, vec![3])), ClientAction::Ignore));
}

#[test]
fn client_fails_calls_on_status() {
    let mut client = ClientState::new();
    let (u, _) = client.begin_call(CallKind::Unary, 1, &[]);
    let (s, _) = client.begin_call(CallKind::Stream, 2, &[]);
    match client.on_message(&make_status_packet(s, STATUS_INTERNAL_ERROR)) {
        ClientAction::Fail { request_id, kind, error } => assert_eq!(
            (request_id, kind, error.code, error.message.as_str()),
            (s, CallKind::Stream, 3, "internal error")
        ),
        other => panic!("unexpected {:?}", other),
    }
    match client.on_message(&make_status_packet(u, STATUS_UNKNOWN_METHOD)) {
        ClientAction::Fail { request_id, kind, error } => assert_eq!(
            (request_id, kind, error.code, error.message.as_str()),
            (u, CallKind::Unary, 1, "unknown method")
        ),
        other => panic!("unexpected {:?}", other),
    }
    assert!(matches!(client.on_message(&make_status_packet(u, 1)), ClientAction::Ignore));
}

#[test]
fn client_ignores_unknown_ids_and_malformed_messages() {
    let mut client = ClientState::new();
    let (id, _) = client.begin_call(CallKind::Unary, 1, &[]);
    assert!(matches!(client.on_message(&make_response_packet(id + 1, vec![])), ClientAction::Ignore));
    assert!(matches!(client.on_message(&[]), ClientAction::Ignore));
    assert!(matches!(client.on_message(&[0x02, 0x80]), ClientAction::Ignore));
    // a response without its status byte
    assert!(matches!(client.on_message(&[0x02, 0x01]), ClientAction::Ignore));
    assert!(matches!(client.on_message(&make_request_packet(id, 1, &[])), ClientAction::Ignore));
    // the call is still waiting
    assert!(matches!(client.on_message(&make_response_packet(id, vec![])), ClientAction::Respond { .. }));
}

#[test]
fn client_cancellation() {
    let mut client = ClientState::new();
    let (u, _) = client.begin_call(CallKind::Unary, 1, &[]);
    let (s, _) = client.begin_call(CallKind::Stream, 1, &[]);
    assert_eq!(client.cancel_unary(u), vec![0x04, u as u8]);
    assert!(matches!(client.on_message(&make_response_packet(u, vec![])), ClientAction::Ignore));
    assert_eq!(client.cancel_stream(s), Some(make_cancel_packet(s)));
    assert_eq!(client.cancel_stream(s), None);
    let (t, _) = client.begin_call(CallKind::Unary, 1, &[]);
    client.abandon_call(t);
    assert!(matches!(client.on_message(&make_response_packet(t, vec![])), ClientAction::Ignore));
}

#[test]
fn client_fails_all_waiting_calls() {
    let mut client = ClientState::new();
    let (a, _) = client.begin_call(CallKind::Unary, 1, &[]);
    let (b, _) = client.begin_call(CallKind::Stream, 1, &[]);
    let (c, _) = client.begin_call(CallKind::Unary, 1, &[]);
    client.cancel_unary(c);
    let mut calls = client.fail_all();
    calls.sort_by_key(|(id, _)| *id);
    assert_eq!(calls, vec![(a, CallKind::Unary), (b, CallKind::Stream)]);
    assert!(client.fail_all().is_empty());
    assert!(matches!(client.on_message(&make_response_packet(a, vec![])), ClientAction::Ignore));
}

#[test]
fn stream_receiver_results() {
    assert_eq!(stream_event_result(Some(StreamEvent::Item(vec![1]))).unwrap(), vec![1]);
    assert!(stream_event_result(Some(StreamEvent::End)).unwrap_err().is_stream_closed());
    assert!(stream_event_result(None).unwrap_err().is_stream_closed());
    let e = stream_event_result(Some(StreamEvent::Error(RpcError::new(5, "x".to_string())))).unwrap_err();
    assert_eq!((e.code, e.message.as_str()), (5, "x"));
}

fn read_prefix(bytes: &[u8]) -> Vec<Option<u64>> {
    let mut reader = FrameLengthReader::new();
    bytes.iter().map(|b| reader.read(*b)).collect()
}

#[test]
fn frame_prefix_roundtrip() {
    for len in [0u64, 5, 127, 128, 300, 1 << 40, u64::MAX] {
        let prefix = frame_prefix(len);
        let results = read_prefix(&prefix);
        let (last, rest) = results.split_last().unwrap();
        assert!(rest.iter().all(|r| r.is_none()));
        assert_eq!(*last, Some(len));
    }
    assert_eq!(frame_prefix(300), vec![0xac, 0x02]);
}

#[test]
fn frame_reader_keeps_low_64_bits_and_stops_at_ten_bytes() {
    let mut reader = FrameLengthReader::new();
    for _ in 0..9 {
        assert!(reader.can_read());
        assert_eq!(reader.read(0xff), None);
    }
    assert!(reader.can_read());
    assert_eq!(reader.read(0x7f), Some(u64::MAX));
    assert!(!reader.can_read());
}

#[test]
fn frame_reader_non_minimal_prefix() {
    assert_eq!(read_prefix(&[0x85, 0x80, 0x00]), vec![None, None, Some(5)]);
}

#[test]
fn unknown_method_round_trip() {
    let mut server = ServerState::new();
    server.register(1, CallKind::Unary);
    let mut client = ClientState::new();
    let (id, request) = client.begin_call(CallKind::Unary, 9, &[1, 2, 3]);
    let answer = match server.on_message(&request) {
        ServerAction::Reply(p) => p,
        other => panic!("unexpected {:?}", other),
    };
    match client.on_message(&answer) {
        ClientAction::Fail { request_id, kind, error } => {
            assert_eq!(request_id, id);
            assert_eq!(kind, CallKind::Unary);
            assert_eq!(error.code, 1);
            assert_eq!(error.message, "unknown method");
        }
        other => panic!("unexpected {:?}", other),
    }
}

#[test]
fn handler_error_round_trip() {
    let mut client = ClientState::new();
    let (id, _) = client.begin_call(CallKind::Unary, 1, &[]);
    let answer = unary_outcome_packet(id, Err(RpcError::new(55, "handler blew up".to_string())));
    match client.on_message(&answer) {
        ClientAction::Fail { error, .. } => {
            assert_eq!((error.code, error.message.as_str()), (3, "internal error"))
        }
        other => panic!("unexpected {:?}", other),
    }
}

#[test]
fn cancelled_round_trip_is_ignored_by_the_client_that_cancelled() {
    let mut server = ServerState::new();
    server.register(1, CallKind::Unary);
    let mut client = ClientState::new();
    let (id, request) = client.begin_call(CallKind::Unary, 1, &[]);
    assert!(matches!(server.on_message(&request), ServerAction::Start { .. }));
    let cancel = client.cancel_unary(id);
    let reply = match server.on_message(&cancel) {
        ServerAction::Abort { reply, .. } => reply,
        other => panic!("unexpected {:?}", other),
    };
    assert!(matches!(client.on_message(&reply), ClientAction::Ignore));
}

#[test]
fn frames_keep_their_boundaries() {
    let messages: Vec<Vec<u8>> = vec![vec![1, 2, 3], vec![], vec![0x80; 200], vec![9]];
    let mut stream = Vec::new();
    for m in &messages {
        stream.extend(frame_prefix(m.len() as u64));
        stream.extend(m);
    }
    let mut pos = 0;
    let mut read = Vec::new();
    for _ in 0..messages.len() {
        let mut reader = FrameLengthReader::new();
        let len = loop {
            let b = stream[pos];
            pos += 1;
            if let Some(len) = reader.read(b) {
                break len as usize;
            }
        };
        read.push(stream[pos..pos + len].to_vec());
        pos += len;
    }
    assert_eq!(read, messages);
    assert_eq!(pos, stream.len());
}

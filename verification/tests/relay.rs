use wsproxy::relay::{
    pump_stream_to_ws, pump_ws_to_stream, stream_to_ws_step, ws_to_stream_step, PumpAction,
    StreamEvent, WsEvent,
};

#[test]
fn stream_reads_are_forwarded_unmodified_and_in_order() {
    let events = vec![
        StreamEvent::Data(b"hel".to_vec()),
        StreamEvent::Data(b"lo ".to_vec()),
        StreamEvent::Data(b"world".to_vec()),
        StreamEvent::Eof,
    ];
    let out = pump_stream_to_ws(events);
    assert_eq!(out, vec![b"hel".to_vec(), b"lo ".to_vec(), b"world".to_vec()]);
    let relayed: Vec<u8> = out.concat();
    assert_eq!(relayed, b"hello world".to_vec());
}

#[test]
fn stream_pump_stops_on_failure_or_empty_read() {
    let out = pump_stream_to_ws(vec![
        StreamEvent::Data(b"a".to_vec()),
        StreamEvent::Failed,
        StreamEvent::Data(b"b".to_vec()),
    ]);
    assert_eq!(out, vec![b"a".to_vec()]);

    let out = pump_stream_to_ws(vec![
        StreamEvent::Data(Vec::new()),
        StreamEvent::Data(b"late".to_vec()),
    ]);
    assert!(out.is_empty());
}

#[test]
fn ws_binary_payloads_are_written_unmodified_and_in_order() {
    let events = vec![
        WsEvent::Binary(b"first".to_vec()),
        WsEvent::Binary(b" second".to_vec()),
        WsEvent::Closed,
    ];
    let out = pump_ws_to_stream(events);
    let written: Vec<u8> = out.concat();
    assert_eq!(written, b"first second".to_vec());
}

#[test]
fn ws_pump_stops_on_non_binary_messages() {
    let out = pump_ws_to_stream(vec![
        WsEvent::Binary(b"x".to_vec()),
        WsEvent::Other,
        WsEvent::Binary(b"y".to_vec()),
    ]);
    assert_eq!(out, vec![b"x".to_vec()]);

    assert!(pump_ws_to_stream(vec![WsEvent::Failed]).is_empty());
}

#[test]
fn single_steps_decide_forward_or_stop() {
    match stream_to_ws_step(StreamEvent::Data(b"chunk".to_vec())) {
        PumpAction::Forward(d) => assert_eq!(d, b"chunk".to_vec()),
        PumpAction::Stop => panic!("a non-empty read must be forwarded"),
    }
    assert!(matches!(
        stream_to_ws_step(StreamEvent::Eof),
        PumpAction::Stop
    ));
    assert!(matches!(
        stream_to_ws_step(StreamEvent::Data(Vec::new())),
        PumpAction::Stop
    ));
    match ws_to_stream_step(WsEvent::Binary(b"payload".to_vec())) {
        PumpAction::Forward(d) => assert_eq!(d, b"payload".to_vec()),
        PumpAction::Stop => panic!("a binary message must be written through"),
    }
    assert!(matches!(ws_to_stream_step(WsEvent::Closed), PumpAction::Stop));
}

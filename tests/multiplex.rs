use pupynet::multiplex::{Multiplexer, MultiplexerEvent};

fn header(stream_id: u64, stage: u8) -> Vec<u8> {
    ((stream_id << 4) | stage as u64).to_le_bytes().to_vec()
}

fn start(stream_id: u64, length: u16) -> Vec<u8> {
    let mut v = header(stream_id, 0x01);
    v.extend_from_slice(&length.to_le_bytes());
    v
}

fn describe(events: &[MultiplexerEvent]) -> Vec<String> {
    events
        .iter()
        .map(|e| match e {
            MultiplexerEvent::StreamStarted { stream_id, length } => format!("start {} {}", stream_id, length),
            MultiplexerEvent::DataPointer { stream_id, data } => format!("data {} {:?}", stream_id, data),
            MultiplexerEvent::StreamEnded { stream_id } => format!("end {}", stream_id),
            MultiplexerEvent::Error(reason) => format!("error {}", reason),
        })
        .collect()
}

#[test]
fn test_stream_start_and_data() {
    let mut multiplexer = Multiplexer::new();
    // Simulated data for a stream start
    let data = [
        0x11, 0x00, 0x00, 0x00, 0x00, 0x00, 0x00, 0x00, // Stream ID and stage (STREAM_START)
        0x05, 0x00, // Length of the stream
        0x41, 0x42, // Payload data
    ];
    let mut count = 0;
    for event in multiplexer.handle_data(&data) {
        match event {
            MultiplexerEvent::StreamStarted { stream_id, length } => {
                assert_eq!(stream_id, 1);
                assert_eq!(length, 5);
            }
            MultiplexerEvent::DataPointer { stream_id, data } => {
                assert_eq!(stream_id, 1);
                assert_eq!(data, b"AB");
            }
            MultiplexerEvent::StreamEnded { .. } => {}
            MultiplexerEvent::Error(_) => {}
        }
        count += 1;
    }
    assert_eq!(count, 2);
}

#[test]
fn zero_length_stream_starts_and_ends_at_once() {
    let mut m = Multiplexer::new();
    let events = m.handle_data(&start(9, 0));
    assert_eq!(describe(&events), vec!["start 9 0", "end 9"]);
    // the channel is idle again: a following stream is read as a header
    let events = m.handle_data(&start(3, 1));
    assert_eq!(describe(&events), vec!["start 3 1"]);
    let events = m.handle_data(&[7]);
    assert_eq!(describe(&events), vec!["data 3 [7]", "end 3"]);
}

#[test]
fn stream_ends_when_length_is_reached() {
    let mut m = Multiplexer::new();
    let mut input = start(2, 3);
    input.extend_from_slice(&[1, 2, 3]);
    input.extend_from_slice(&start(4, 1));
    input.push(9);
    let events = m.handle_data(&input);
    assert_eq!(
        describe(&events),
        vec!["start 2 3", "data 2 [1, 2, 3]", "end 2", "start 4 1", "data 4 [9]", "end 4"]
    );
}

#[test]
fn header_split_across_calls_is_reassembled() {
    let mut m = Multiplexer::new();
    let bytes = start(1, 5);
    assert!(m.handle_data(&bytes[..5]).is_empty());
    assert_eq!(describe(&m.handle_data(&bytes[5..])), vec!["start 1 5"]);
    assert_eq!(describe(&m.handle_data(b"AB")), vec!["data 1 [65, 66]"]);
}

#[test]
fn chunk_boundaries_outside_payloads_do_not_change_events() {
    let mut input = start(1, 2);
    input.extend_from_slice(&[10, 11]);
    input.extend_from_slice(&header(5, 0x02));
    input.extend_from_slice(&start(6, 0));
    let whole = describe(&Multiplexer::new().handle_data(&input));
    // cuts inside the first payload (after bytes 10 and 11) would split its Data event
    for cut in 0..=input.len() {
        if cut == 11 {
            continue;
        }
        let mut m = Multiplexer::new();
        let mut events = describe(&m.handle_data(&input[..cut]));
        events.extend(describe(&m.handle_data(&input[cut..])));
        assert_eq!(events, whole, "cut at {}", cut);
    }
}

#[test]
fn cut_inside_payload_splits_data_only() {
    let mut input = start(1, 4);
    input.extend_from_slice(&[1, 2, 3, 4]);
    let mut m = Multiplexer::new();
    let mut events = describe(&m.handle_data(&input[..12]));
    events.extend(describe(&m.handle_data(&input[12..])));
    assert_eq!(events, vec!["start 1 4", "data 1 [1, 2]", "data 1 [3, 4]", "end 1"]);
}

#[test]
fn end_header_while_idle_reports_end() {
    let mut m = Multiplexer::new();
    let mut input = header(7, 0x02);
    input.extend_from_slice(&[0, 0]);
    let events = m.handle_data(&input);
    assert_eq!(describe(&events), vec!["end 7"]);
}

#[test]
fn continue_header_while_idle_is_dropped() {
    let mut m = Multiplexer::new();
    let mut input = header(7, 0x03);
    input.extend_from_slice(&start(8, 0));
    let events = m.handle_data(&input);
    assert_eq!(describe(&events), vec!["start 8 0", "end 8"]);
}

#[test]
fn invalid_stage_reports_error_and_goes_on() {
    let mut m = Multiplexer::new();
    let mut input = vec![0xFF, 0, 0, 0, 0, 0, 0, 0];
    input.extend_from_slice(&start(1, 0));
    let events = m.handle_data(&input);
    assert_eq!(describe(&events), vec!["error invalid stage", "start 1 0", "end 1"]);
    let mut m = Multiplexer::new();
    let mut input = header(2, 0x04);
    input.extend_from_slice(&[0, 0]);
    assert_eq!(describe(&m.handle_data(&input)), vec!["error invalid stage"]);
}

#[test]
fn header_bytes_inside_a_payload_are_payload() {
    let mut m = Multiplexer::new();
    let mut input = start(1, 8);
    input.extend_from_slice(&header(1, 0x02));
    let events = m.handle_data(&input);
    assert_eq!(describe(&events), vec!["start 1 8", "data 1 [18, 0, 0, 0, 0, 0, 0, 0]", "end 1"]);
}

#[test]
fn largest_stream_id_and_length() {
    let mut m = Multiplexer::new();
    let id = (1u64 << 60) - 1;
    let events = m.handle_data(&start(id, u16::MAX));
    assert_eq!(describe(&events), vec![format!("start {} 65535", id)]);
    let events = m.handle_data(&vec![0u8; 65535]);
    assert_eq!(events.len(), 2);
    assert!(matches!(events[1], MultiplexerEvent::StreamEnded { stream_id } if stream_id == id));
}

#[test]
fn encoded_stream_reads_back_whole() {
    let framed = pupynet::multiplex::encode_stream(3, b"hello").unwrap();
    assert_eq!(&framed[..10], &start(3, 5)[..]);
    let mut m = Multiplexer::new();
    assert_eq!(
        describe(&m.handle_data(&framed)),
        vec!["start 3 5", "data 3 [104, 101, 108, 108, 111]", "end 3"]
    );
    let empty = pupynet::multiplex::encode_stream(4, &[]).unwrap();
    assert_eq!(describe(&m.handle_data(&empty)), vec!["start 4 0", "end 4"]);
}

#[test]
fn encode_stream_refuses_what_the_header_cannot_hold() {
    assert!(pupynet::multiplex::encode_stream(1 << 60, b"x").is_none());
    assert!(pupynet::multiplex::encode_stream(1, &vec![0u8; 65536]).is_none());
    assert!(pupynet::multiplex::encode_stream((1 << 60) - 1, &vec![0u8; 65535]).is_some());
}

fn bytewise(events: &[MultiplexerEvent]) -> Vec<String> {
    let mut out = Vec::new();
    for e in events {
        match e {
            MultiplexerEvent::DataPointer { stream_id, data } => {
                for b in data {
                    out.push(format!("data {} [{}]", stream_id, b));
                }
            }
            other => out.extend(describe(std::slice::from_ref(other))),
        }
    }
    out
}

#[test]
fn any_cut_keeps_the_bytes_and_events_in_order() {
    let mut input = start(1, 5);
    input.extend_from_slice(b"hello");
    input.extend_from_slice(&header(1, 0x03));
    input.extend_from_slice(&start(2, 3));
    input.extend_from_slice(&[7, 8, 9]);
    let mut whole_m = Multiplexer::new();
    let whole = bytewise(&whole_m.handle_data(&input));
    for cut in 0..=input.len() {
        let mut m = Multiplexer::new();
        let mut events = m.handle_data(&input[..cut]);
        events.extend(m.handle_data(&input[cut..]));
        assert_eq!(bytewise(&events), whole, "cut at {}", cut);
    }
}

fn merged(events: &[MultiplexerEvent]) -> Vec<String> {
    let mut out: Vec<(Option<u64>, Vec<u8>, String)> = Vec::new();
    for e in events {
        if let MultiplexerEvent::DataPointer { stream_id, data } = e {
            if let Some((Some(id), bytes, _)) = out.last_mut() {
                if id == stream_id {
                    bytes.extend_from_slice(data);
                    continue;
                }
            }
            out.push((Some(*stream_id), data.clone(), String::new()));
        } else {
            out.push((None, Vec::new(), describe(std::slice::from_ref(e)).remove(0)));
        }
    }
    out.into_iter()
        .map(|(id, bytes, text)| match id {
            Some(id) => format!("data {} {:?}", id, bytes),
            None => text,
        })
        .collect()
}

#[test]
fn any_cut_gives_the_same_events_once_data_runs_are_joined() {
    let mut input = start(1, 5);
    input.extend_from_slice(b"hello");
    input.extend_from_slice(&start(2, 0));
    input.extend_from_slice(&start(3, 3));
    input.extend_from_slice(&[7, 8, 9]);
    let whole = merged(&Multiplexer::new().handle_data(&input));
    assert_eq!(whole.len(), 8);
    for cut in 0..=input.len() {
        let mut m = Multiplexer::new();
        let mut events = m.handle_data(&input[..cut]);
        events.extend(m.handle_data(&input[cut..]));
        assert_eq!(merged(&events), whole, "cut at {}", cut);
    }
}

#[test]
fn payload_reported_never_exceeds_declared_length() {
    let mut input = start(4, 6);
    input.extend_from_slice(&[1, 2, 3, 4, 5, 6, 7, 8, 9, 10, 11, 12]);
    let mut m = Multiplexer::new();
    let mut total = 0;
    for chunk in input.chunks(3) {
        for e in m.handle_data(chunk) {
            if let MultiplexerEvent::DataPointer { stream_id: 4, data } = e {
                total += data.len();
                assert!(total <= 6);
            }
        }
    }
    assert_eq!(total, 6);
}

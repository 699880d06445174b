//! The frame multiplexer: turns one physical byte channel into the lifecycle
//! events of the logical streams carried on it.
//!
//! A frame starts with an 8-byte little-endian header word whose low four bits
//! are the stage and whose other bits are the stream id. A start frame adds a
//! 2-byte little-endian payload length, and the payload follows it.
use vstd::prelude::*;
use crate::bytes::{append_range, copy_range};
use crate::wire::{
    le_u16, le_u64, lemma_u16_bytes, lemma_u64_bytes, push_u16_le, push_u64_le, read_u16_le,
    read_u64_le, u16_bytes, u64_bytes, STREAM_CONTINUE, STREAM_END, STREAM_START,
};

verus! {

/// The stream that a channel is receiving.
#[derive(Clone, Copy, Debug, PartialEq, Eq, Structural)]
pub struct CurrentStream {
    pub stream_id: u64,
    pub length: u16,
    pub recv_count: u32,
}

/// A channel is idle, or receiving the payload of one stream.
#[derive(Clone, Copy, Debug, PartialEq, Eq, Structural)]
pub enum MultiplexerState {
    Idle,
    Receiving(CurrentStream),
}

/// What the multiplexer reports; a payload is copied out of the input.
#[derive(Debug)]
pub enum MultiplexerEvent {
    StreamStarted { stream_id: u64, length: u16 },
    DataPointer { stream_id: u64, data: Vec<u8> },
    StreamEnded { stream_id: u64 },
    Error(String),
}

/// A `MultiplexerEvent` as a mathematical value.
pub enum StreamEvent {
    Started { stream_id: u64, length: u16 },
    Data { stream_id: u64, data: Seq<u8> },
    Ended { stream_id: u64 },
    Error { reason: Seq<char> },
}

impl View for MultiplexerEvent {
    type V = StreamEvent;

    open spec fn view(&self) -> StreamEvent {
        match self {
            MultiplexerEvent::StreamStarted { stream_id, length } => StreamEvent::Started {
                stream_id: *stream_id,
                length: *length,
            },
            MultiplexerEvent::DataPointer { stream_id, data } => StreamEvent::Data {
                stream_id: *stream_id,
                data: data@,
            },
            MultiplexerEvent::StreamEnded { stream_id } => StreamEvent::Ended {
                stream_id: *stream_id,
            },
            MultiplexerEvent::Error(reason) => StreamEvent::Error { reason: reason@ },
        }
    }
}

pub open spec fn event_views(events: Seq<MultiplexerEvent>) -> Seq<StreamEvent> {
    events.map_values(|e: MultiplexerEvent| e@)
}

/// The reason given for a header whose stage is not one this channel handles.
pub open spec fn invalid_stage_reason() -> Seq<char> {
    "invalid stage"@
}

/// A multiplexer as a mathematical value: its state, and the start of a
/// header that has not arrived whole.
pub struct MultiplexerView {
    pub state: MultiplexerState,
    pub buffer: Seq<u8>,
}

impl MultiplexerView {
    /// Only a partial header waits in the buffer, and an open stream has
    /// received fewer bytes than its length and has an id of 60 bits.
    pub open spec fn wf(self) -> bool {
        match self.state {
            MultiplexerState::Idle => self.buffer.len() < 10,
            MultiplexerState::Receiving(cur) => self.buffer.len() == 0 && receiving_ok(self.state),
        }
    }
}

pub open spec fn state_rank(st: MultiplexerState) -> nat {
    if st is Idle {
        0
    } else {
        1
    }
}

/// The event of a header that opens no stream.
pub open spec fn header_event(stage: nat, stream_id: u64) -> Seq<StreamEvent> {
    if stage == STREAM_END as nat {
        seq![StreamEvent::Ended { stream_id }]
    } else if stage == STREAM_CONTINUE as nat {
        seq![]
    } else {
        seq![StreamEvent::Error { reason: invalid_stage_reason() }]
    }
}

/// The stage of the header at the front of `w`.
pub open spec fn header_stage(w: Seq<u8>) -> nat {
    le_u64(w, 0) % 16
}

/// The stream id of the header at the front of `w`.
pub open spec fn header_id(w: Seq<u8>) -> u64 {
    (le_u64(w, 0) / 16) as u64
}

/// The length field that follows a start header at the front of `w`.
pub open spec fn header_length(w: Seq<u8>) -> u16 {
    le_u16(w, 8) as u16
}

pub open spec fn is_start(w: Seq<u8>) -> bool {
    header_stage(w) == STREAM_START as nat
}

/// The bytes taken by the frame header at the front of `w`.
pub open spec fn header_size(w: Seq<u8>) -> int {
    if is_start(w) {
        10
    } else {
        8
    }
}

/// The state of an idle channel after the header at the front of `w`.
pub open spec fn after_header(w: Seq<u8>) -> MultiplexerState {
    if is_start(w) && header_length(w) != 0 {
        MultiplexerState::Receiving(
            CurrentStream { stream_id: header_id(w), length: header_length(w), recv_count: 0 },
        )
    } else {
        MultiplexerState::Idle
    }
}

/// The events of the header at the front of `w`; a stream of length 0 ends
/// where it starts.
pub open spec fn header_events(w: Seq<u8>) -> Seq<StreamEvent> {
    let stream_id = header_id(w);
    if is_start(w) {
        let started = StreamEvent::Started { stream_id, length: header_length(w) };
        if header_length(w) == 0 {
            seq![started, StreamEvent::Ended { stream_id }]
        } else {
            seq![started]
        }
    } else {
        header_event(header_stage(w), stream_id)
    }
}

/// The payload bytes that an open stream still expects.
pub open spec fn remaining(cur: CurrentStream) -> int {
    if cur.recv_count < cur.length {
        cur.length - cur.recv_count
    } else {
        0
    }
}

/// Runs the channel from state `st` over the bytes `w`: the state reached,
/// the bytes left waiting, and the events, in order.
pub open spec fn demux(st: MultiplexerState, w: Seq<u8>) -> (MultiplexerState, Seq<u8>, Seq<
    StreamEvent,
>)
    decreases w.len(), state_rank(st),
{
    match st {
        MultiplexerState::Idle => {
            if w.len() < 10 {
                (st, w, seq![])
            } else {
                let r = demux(after_header(w), w.subrange(header_size(w), w.len() as int));
                (r.0, r.1, header_events(w) + r.2)
            }
        },
        MultiplexerState::Receiving(cur) => {
            if w.len() == 0 {
                (st, w, seq![])
            } else if remaining(cur) <= w.len() {
                let left = remaining(cur);
                let data = StreamEvent::Data { stream_id: cur.stream_id, data: w.subrange(0, left) };
                let r = demux(MultiplexerState::Idle, w.subrange(left, w.len() as int));
                (r.0, r.1, seq![data, StreamEvent::Ended { stream_id: cur.stream_id }] + r.2)
            } else {
                let next = CurrentStream { recv_count: (cur.recv_count + w.len()) as u32, ..cur };
                (
                    MultiplexerState::Receiving(next),
                    seq![],
                    seq![StreamEvent::Data { stream_id: cur.stream_id, data: w }],
                )
            }
        },
    }
}

/// What `handle_data` does: the multiplexer after `data`, and the events.
pub open spec fn feed(m: MultiplexerView, data: Seq<u8>) -> (MultiplexerView, Seq<StreamEvent>) {
    let r = demux(m.state, m.buffer + data);
    (MultiplexerView { state: r.0, buffer: r.1 }, r.2)
}

pub open spec fn receiving_ok(st: MultiplexerState) -> bool {
    match st {
        MultiplexerState::Idle => true,
        MultiplexerState::Receiving(cur) => cur.recv_count < cur.length && cur.stream_id
            < 0x1000_0000_0000_0000,
    }
}

/// Splits one byte channel into logical streams, one open stream at a time.
pub struct Multiplexer {
    state: MultiplexerState,
    buffer: Vec<u8>,
}

impl View for Multiplexer {
    type V = MultiplexerView;

    closed spec fn view(&self) -> MultiplexerView {
        MultiplexerView { state: self.state, buffer: self.buffer@ }
    }
}

impl Multiplexer {
    /// Only a partial header waits in the buffer, and an open stream has
    /// received fewer bytes than its length.
    #[verifier::type_invariant]
    closed spec fn inv(self) -> bool {
        self@.wf()
    }

    pub fn new() -> (m: Multiplexer)
        ensures
            m@ == (MultiplexerView { state: MultiplexerState::Idle, buffer: seq![] }),
            m@.wf(),
    {
        Multiplexer { state: MultiplexerState::Idle, buffer: Vec::new() }
    }

    /// Consumes `data` after what was buffered, and returns the events of the
    /// frames it completes; a partial header is kept for the next call.
    pub fn handle_data(&mut self, data: &[u8]) -> (events: Vec<MultiplexerEvent>)
        ensures
            old(self)@.wf(),
            final(self)@.wf(),
            final(self)@ == feed(old(self)@, data@).0,
            event_views(events@) == feed(old(self)@, data@).1,
    {
        proof {
            use_type_invariant(&*self);
        }
        let mut window: Vec<u8> = Vec::new();
        append_range(&mut window, self.buffer.as_slice(), 0, self.buffer.len());
        append_range(&mut window, data, 0, data.len());
        assert(window@ =~= self.buffer@ + data@);
        let ghost total = demux(self.state, window@);
        let mut state = self.state;
        let mut pos: usize = 0;
        let mut events: Vec<MultiplexerEvent> = Vec::new();
        assert(window@.subrange(0, window@.len() as int) =~= window@);
        loop
            invariant
                pos <= window@.len(),
                receiving_ok(state),
                demux(state, window@.subrange(pos as int, window@.len() as int)).0 == total.0,
                demux(state, window@.subrange(pos as int, window@.len() as int)).1 == total.1,
                event_views(events@) + demux(
                    state,
                    window@.subrange(pos as int, window@.len() as int),
                ).2 == total.2,
            ensures
                pos <= window@.len(),
                receiving_ok(state),
                state is Idle ==> window@.len() - pos < 10,
                state is Receiving ==> pos == window@.len(),
                total.0 == state,
                total.1 == window@.subrange(pos as int, window@.len() as int),
                event_views(events@) == total.2,
            decreases window@.len() - pos,
        {
            let ghost rest = window@.subrange(pos as int, window@.len() as int);
            let ghost before = event_views(events@);
            match state {
                MultiplexerState::Idle => {
                    if window.len() - pos < 10 {
                        assert(before + seq![] =~= before);
                        break;
                    }
                    let raw = read_u64_le(window.as_slice(), pos);
                    let stage = (raw % 16) as u8;
                    let stream_id = raw / 16;
                    assert(le_u64(rest, 0) == le_u64(window@, pos as int));
                    if stage == STREAM_START {
                        let length = read_u16_le(window.as_slice(), pos + 8);
                        assert(le_u16(rest, 8) == le_u16(window@, pos + 8));
                        events.push(MultiplexerEvent::StreamStarted { stream_id, length });
                        if length == 0 {
                            events.push(MultiplexerEvent::StreamEnded { stream_id });
                        } else {
                            state = MultiplexerState::Receiving(
                                CurrentStream { stream_id, length, recv_count: 0 },
                            );
                        }
                        assert(rest.subrange(10, rest.len() as int) =~= window@.subrange(
                            pos + 10,
                            window@.len() as int,
                        ));
                        pos = pos + 10;
                    } else {
                        if stage == STREAM_END {
                            events.push(MultiplexerEvent::StreamEnded { stream_id });
                        } else if stage != STREAM_CONTINUE {
                            events.push(MultiplexerEvent::Error(String::from_str("invalid stage")));
                        }
                        assert(rest.subrange(8, rest.len() as int) =~= window@.subrange(
                            pos + 8,
                            window@.len() as int,
                        ));
                        pos = pos + 8;
                    }
                    assert(event_views(events@) =~= before + (event_views(events@).subrange(
                        before.len() as int,
                        event_views(events@).len() as int,
                    )));
                },
                MultiplexerState::Receiving(cur) => {
                    if pos == window.len() {
                        assert(before + seq![] =~= before);
                        break;
                    }
                    let avail = window.len() - pos;
                    let left = (cur.length as u32 - cur.recv_count) as usize;
                    if left <= avail {
                        let payload = copy_range(window.as_slice(), pos, pos + left);
                        assert(payload@ =~= rest.subrange(0, left as int));
                        events.push(MultiplexerEvent::DataPointer { stream_id: cur.stream_id, data: payload });
                        events.push(MultiplexerEvent::StreamEnded { stream_id: cur.stream_id });
                        assert(rest.subrange(left as int, rest.len() as int) =~= window@.subrange(
                            pos + left,
                            window@.len() as int,
                        ));
                        state = MultiplexerState::Idle;
                        pos = pos + left;
                    } else {
                        let payload = copy_range(window.as_slice(), pos, window.len());
                        assert(payload@ =~= rest);
                        events.push(MultiplexerEvent::DataPointer { stream_id: cur.stream_id, data: payload });
                        state = MultiplexerState::Receiving(
                            CurrentStream { recv_count: cur.recv_count + avail as u32, ..cur },
                        );
                        pos = window.len();
                        assert(window@.subrange(pos as int, window@.len() as int) =~= seq![]);
                    }
                    assert(event_views(events@) =~= before + (event_views(events@).subrange(
                        before.len() as int,
                        event_views(events@).len() as int,
                    )));
                },
            }
        }
        *self = Multiplexer { state, buffer: copy_range(window.as_slice(), pos, window.len()) };
        events
    }
}

/// The header of a frame of stream `stream_id` at `stage`.
pub open spec fn frame_header(stream_id: u64, stage: u8) -> Seq<u8> {
    u64_bytes((stream_id * 16 + stage) as nat)
}

/// The header and length field that open stream `stream_id`.
pub open spec fn start_header(stream_id: u64, length: u16) -> Seq<u8> {
    frame_header(stream_id, STREAM_START) + u16_bytes(length as nat)
}

/// A stream declared with length 0 opens and closes at once: an idle
/// multiplexer fed its start header reports `StreamStarted` and then
/// `StreamEnded`, with no `Data` between, and is idle again for what follows.
pub proof fn lemma_empty_stream(m: MultiplexerView, stream_id: u64, rest: Seq<u8>)
    requires
        m.state is Idle,
        m.buffer.len() == 0,
        stream_id < 0x1000_0000_0000_0000,
    ensures
        ({
            let after = feed(MultiplexerView { state: MultiplexerState::Idle, buffer: seq![] }, rest);
            feed(m, start_header(stream_id, 0) + rest) == (
                after.0,
                seq![
                    StreamEvent::Started { stream_id, length: 0 },
                    StreamEvent::Ended { stream_id },
                ] + after.1,
            )
        }),
{
    let w = start_header(stream_id, 0) + rest;
    assert(m.buffer + w =~= w);
    assert(Seq::<u8>::empty() + rest =~= rest);
    lemma_start_header(stream_id, 0, rest);
}

/// Frames `payload` as one whole stream: a start header that declares its
/// length, then the payload. `None` when the id does not fit the header's 60
/// bits or the payload does not fit the 16-bit length.
pub fn encode_stream(stream_id: u64, payload: &[u8]) -> (r: Option<Vec<u8>>)
    ensures
        match r {
            Some(bytes) => stream_id < 0x1000_0000_0000_0000 && payload@.len() <= 0xFFFF
                && bytes@ == start_header(stream_id, payload@.len() as u16) + payload@,
            None => !(stream_id < 0x1000_0000_0000_0000 && payload@.len() <= 0xFFFF),
        },
{
    if stream_id >= 0x1000_0000_0000_0000 || payload.len() > 0xFFFF {
        return None;
    }
    let mut out: Vec<u8> = Vec::new();
    push_u64_le(&mut out, stream_id * 16 + STREAM_START as u64);
    push_u16_le(&mut out, payload.len() as u16);
    append_range(&mut out, payload, 0, payload.len());
    assert(out@ =~= start_header(stream_id, payload@.len() as u16) + payload@);
    Some(out)
}

proof fn lemma_start_header(stream_id: u64, length: u16, tail: Seq<u8>)
    requires
        stream_id < 0x1000_0000_0000_0000,
    ensures
        ({
            let w = start_header(stream_id, length) + tail;
            &&& w.len() >= 10
            &&& le_u64(w, 0) % 16 == STREAM_START as nat
            &&& (le_u64(w, 0) / 16) as u64 == stream_id
            &&& le_u16(w, 8) as u16 == length
            &&& w.subrange(10, w.len() as int) == tail
        }),
{
    let w = start_header(stream_id, length) + tail;
    let raw = (stream_id * 16 + STREAM_START) as nat;
    assert(w.subrange(0, 8) =~= u64_bytes(raw));
    lemma_u64_bytes(raw, w, 0);
    assert(w.subrange(8, 10) =~= u16_bytes(length as nat));
    lemma_u16_bytes(length as nat, w, 8);
    assert(raw % 16 == 1 && raw / 16 == stream_id) by (nonlinear_arith)
        requires
            raw == stream_id * 16 + 1,
    ;
    assert(w.subrange(10, w.len() as int) =~= tail);
}

/// A whole stream read back: an idle multiplexer fed what `encode_stream`
/// produced reports the stream's start, its payload in one `Data` event
/// (none for an empty payload) and its end, and is idle again for what
/// follows.
pub proof fn lemma_stream_round_trip(stream_id: u64, payload: Seq<u8>, rest: Seq<u8>)
    requires
        stream_id < 0x1000_0000_0000_0000,
        payload.len() <= 0xFFFF,
    ensures
        ({
            let idle = MultiplexerView { state: MultiplexerState::Idle, buffer: seq![] };
            let after = feed(idle, rest);
            let length = payload.len() as u16;
            let body = if payload.len() == 0 {
                seq![StreamEvent::Started { stream_id, length }]
            } else {
                seq![
                    StreamEvent::Started { stream_id, length },
                    StreamEvent::Data { stream_id, data: payload },
                ]
            };
            feed(idle, start_header(stream_id, length) + payload + rest) == (
                after.0,
                body + seq![StreamEvent::Ended { stream_id }] + after.1,
            )
        }),
{
    let length = payload.len() as u16;
    let tail = payload + rest;
    let w = start_header(stream_id, length) + tail;
    assert(Seq::<u8>::empty() + (start_header(stream_id, length) + payload + rest) =~= w);
    assert(Seq::<u8>::empty() + rest =~= rest);
    lemma_start_header(stream_id, length, tail);
    let r = demux(MultiplexerState::Idle, rest);
    let started = StreamEvent::Started { stream_id, length };
    let ended = StreamEvent::Ended { stream_id };
    if payload.len() > 0 {
        let cur = CurrentStream { stream_id, length, recv_count: 0 };
        let data = StreamEvent::Data { stream_id, data: payload };
        assert(tail.subrange(0, payload.len() as int) =~= payload);
        assert(tail.subrange(payload.len() as int, tail.len() as int) =~= rest);
        assert(demux(MultiplexerState::Receiving(cur), tail) == (r.0, r.1, seq![data, ended] + r.2));
        assert(demux(MultiplexerState::Idle, w) == (r.0, r.1, seq![started] + (seq![data, ended] + r.2)));
        assert(seq![started] + (seq![data, ended] + r.2) =~= seq![started, data] + seq![ended] + r.2);
    } else {
        assert(tail =~= rest);
        assert(demux(MultiplexerState::Idle, w) == (r.0, r.1, seq![started, ended] + r.2));
        assert(seq![started, ended] + r.2 =~= seq![started] + seq![ended] + r.2);
    }
}

} // verus!

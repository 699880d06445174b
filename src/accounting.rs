//! What the events of a channel promise about its streams: every stream id
//! fits its 60 bits, and no stream is reported more payload than it
//! declared.
use vstd::prelude::*;
use crate::multiplex::{
    after_header, demux, feed, header_events, header_id, header_length, header_size, is_start,
    receiving_ok, remaining, state_rank, MultiplexerState, MultiplexerView, StreamEvent,
};
use crate::wire::{le_u16, le_u32, le_u64};

verus! {

/// The stream id of an event fits in 60 bits.
pub open spec fn event_id_fits(e: StreamEvent) -> bool {
    match e {
        StreamEvent::Started { stream_id, .. } => stream_id < 0x1000_0000_0000_0000,
        StreamEvent::Data { stream_id, .. } => stream_id < 0x1000_0000_0000_0000,
        StreamEvent::Ended { stream_id } => stream_id < 0x1000_0000_0000_0000,
        StreamEvent::Error { .. } => true,
    }
}

pub open spec fn ids_fit(evs: Seq<StreamEvent>) -> bool {
    forall|i: int| 0 <= i < evs.len() ==> event_id_fits(#[trigger] evs[i])
}

/// Every `Data` event carries at least one byte.
pub open spec fn no_empty_data(evs: Seq<StreamEvent>) -> bool {
    forall|i: int| 0 <= i < evs.len() && (#[trigger] evs[i]) is Data ==> evs[i]->Data_data.len() > 0
}

/// The payload bytes that the open stream of a channel still expects; none
/// when it is idle.
pub open spec fn budget(st: MultiplexerState) -> int {
    match st {
        MultiplexerState::Idle => 0,
        MultiplexerState::Receiving(cur) => remaining(cur),
    }
}

/// Walks events, starting with `b` bytes still expected: a start sets what is
/// expected to the declared length, `Data` uses up its bytes, an end leaves
/// nothing expected. `None` when some `Data` carries more than is expected;
/// otherwise what is expected at the end.
pub open spec fn budget_walk(b: int, evs: Seq<StreamEvent>) -> Option<int>
    decreases evs.len(),
{
    if evs.len() == 0 {
        Some(b)
    } else {
        match evs[0] {
            StreamEvent::Started { length, .. } => budget_walk(length as int, evs.drop_first()),
            StreamEvent::Data { data, .. } => if data.len() <= b {
                budget_walk(b - data.len(), evs.drop_first())
            } else {
                None
            },
            StreamEvent::Ended { .. } => budget_walk(0, evs.drop_first()),
            StreamEvent::Error { .. } => budget_walk(b, evs.drop_first()),
        }
    }
}

/// Walking two runs of events in turn is walking them joined, so what holds
/// of the events of each call holds of all the calls together.
pub proof fn lemma_budget_walk_concat(b: int, x: Seq<StreamEvent>, y: Seq<StreamEvent>)
    ensures
        budget_walk(b, x + y) == match budget_walk(b, x) {
            Some(b1) => budget_walk(b1, y),
            None => None,
        },
    decreases x.len(),
{
    if x.len() == 0 {
        assert(x + y =~= y);
    } else {
        assert((x + y).drop_first() =~= x.drop_first() + y);
        assert((x + y)[0] == x[0]);
        match x[0] {
            StreamEvent::Started { length, .. } => lemma_budget_walk_concat(
                length as int,
                x.drop_first(),
                y,
            ),
            StreamEvent::Data { data, .. } => {
                if data.len() <= b {
                    lemma_budget_walk_concat(b - data.len(), x.drop_first(), y);
                }
            },
            StreamEvent::Ended { .. } => lemma_budget_walk_concat(0, x.drop_first(), y),
            StreamEvent::Error { .. } => lemma_budget_walk_concat(b, x.drop_first(), y),
        }
    }
}

proof fn lemma_walk_short(b: int, evs: Seq<StreamEvent>)
    requires
        evs.len() <= 2,
    ensures
        budget_walk(b, evs) == if evs.len() == 0 {
            Some(b)
        } else {
            match evs[0] {
                StreamEvent::Started { length, .. } => budget_walk(length as int, evs.drop_first()),
                StreamEvent::Data { data, .. } => if data.len() <= b {
                    budget_walk(b - data.len(), evs.drop_first())
                } else {
                    None
                },
                StreamEvent::Ended { .. } => budget_walk(0, evs.drop_first()),
                StreamEvent::Error { .. } => budget_walk(b, evs.drop_first()),
            }
        },
{
}

proof fn lemma_header_id_fits(w: Seq<u8>)
    requires
        w.len() >= 10,
    ensures
        header_id(w) < 0x1000_0000_0000_0000,
{
    assert(le_u16(w, 0) < 0x1_0000 && le_u16(w, 2) < 0x1_0000);
    assert(le_u16(w, 4) < 0x1_0000 && le_u16(w, 6) < 0x1_0000);
    assert(le_u32(w, 0) < 0x1_0000_0000 && le_u32(w, 4) < 0x1_0000_0000);
    assert(le_u64(w, 0) < 0x1_0000_0000_0000_0000);
}

proof fn lemma_demux_accounting(st: MultiplexerState, w: Seq<u8>)
    requires
        receiving_ok(st),
    ensures
        receiving_ok(demux(st, w).0),
        ids_fit(demux(st, w).2),
        no_empty_data(demux(st, w).2),
        budget_walk(budget(st), demux(st, w).2) == Some(budget(demux(st, w).0)),
    decreases w.len(), state_rank(st),
{
    match st {
        MultiplexerState::Idle => {
            if w.len() >= 10 {
                lemma_header_id_fits(w);
                let next = after_header(w);
                let r = demux(next, w.subrange(header_size(w), w.len() as int));
                lemma_demux_accounting(next, w.subrange(header_size(w), w.len() as int));
                let h = header_events(w);
                assert(h.len() <= 2);
                assert(ids_fit(h));
                assert(ids_fit(h + r.2) && no_empty_data(h + r.2)) by {
                    assert forall|i: int| 0 <= i < (h + r.2).len() implies event_id_fits(
                        #[trigger] (h + r.2)[i],
                    ) && ((h + r.2)[i] is Data ==> (h + r.2)[i]->Data_data.len() > 0) by {
                        if i >= h.len() {
                            assert((h + r.2)[i] == r.2[i - h.len()]);
                        }
                    }
                }
                lemma_budget_walk_concat(0, h, r.2);
                lemma_walk_short(0, h);
                if h.len() > 0 {
                    lemma_walk_short(0, h.drop_first());
                    if h.len() > 1 {
                        lemma_walk_short(0, h.drop_first().drop_first());
                    }
                }
                if is_start(w) && header_length(w) != 0 {
                    lemma_walk_short(header_length(w) as int, h.drop_first());
                    assert(budget(next) == header_length(w) as int);
                }
            }
        },
        MultiplexerState::Receiving(cur) => {
            if w.len() > 0 {
                let left = remaining(cur);
                if left <= w.len() {
                    let rest = w.subrange(left, w.len() as int);
                    lemma_demux_accounting(MultiplexerState::Idle, rest);
                    let r = demux(MultiplexerState::Idle, rest);
                    let h = seq![
                        StreamEvent::Data { stream_id: cur.stream_id, data: w.subrange(0, left) },
                        StreamEvent::Ended { stream_id: cur.stream_id },
                    ];
                    assert(ids_fit(h + r.2) && no_empty_data(h + r.2)) by {
                        assert forall|i: int| 0 <= i < (h + r.2).len() implies event_id_fits(
                            #[trigger] (h + r.2)[i],
                        ) && ((h + r.2)[i] is Data ==> (h + r.2)[i]->Data_data.len() > 0) by {
                            if i >= h.len() {
                                assert((h + r.2)[i] == r.2[i - h.len()]);
                            }
                        }
                    }
                    lemma_budget_walk_concat(left, h, r.2);
                    lemma_walk_short(left, h);
                    lemma_walk_short(0, h.drop_first());
                    lemma_walk_short(0, h.drop_first().drop_first());
                } else {
                    let h = seq![StreamEvent::Data { stream_id: cur.stream_id, data: w }];
                    lemma_walk_short(left, h);
                    lemma_walk_short(left - w.len(), h.drop_first());
                }
            }
        },
    }
}

/// No stream is reported more payload than it declared, every stream id
/// fits in 60 bits, and no `Data` event is empty: walking the events of a call from what the open stream
/// still expects never runs short, and ends at what the stream still expects
/// after the call. With `lemma_budget_walk_concat` this carries over any
/// number of calls.
pub proof fn lemma_stream_accounting(m: MultiplexerView, data: Seq<u8>)
    requires
        m.wf(),
    ensures
        ids_fit(feed(m, data).1),
        no_empty_data(feed(m, data).1),
        feed(m, data).0.wf(),
        budget_walk(budget(m.state), feed(m, data).1) == Some(budget(feed(m, data).0.state)),
{
    lemma_demux_accounting(m.state, m.buffer + data);
    lemma_demux_leaves_short(m.state, m.buffer + data);
}

proof fn lemma_demux_leaves_short(st: MultiplexerState, w: Seq<u8>)
    ensures
        demux(st, w).0 is Idle ==> demux(st, w).1.len() < 10,
        demux(st, w).0 is Receiving ==> demux(st, w).1.len() == 0,
    decreases w.len(), state_rank(st),
{
    match st {
        MultiplexerState::Idle => {
            if w.len() >= 10 {
                lemma_demux_leaves_short(after_header(w), w.subrange(header_size(w), w.len() as int));
            }
        },
        MultiplexerState::Receiving(cur) => {
            if w.len() > 0 && remaining(cur) <= w.len() {
                lemma_demux_leaves_short(
                    MultiplexerState::Idle,
                    w.subrange(remaining(cur), w.len() as int),
                );
            }
        },
    }
}

} // verus!

//! Chunk boundaries: how feeding a multiplexer in two calls relates to
//! feeding it the same bytes in one.
use vstd::prelude::*;
use crate::multiplex::{
    after_header, demux, feed, header_size, remaining, state_rank, CurrentStream, MultiplexerState,
    MultiplexerView, StreamEvent,
};
use crate::accounting::{lemma_stream_accounting, no_empty_data};
use crate::wire::{le_u16, le_u64};

verus! {

/// The cut after `a` falls inside a payload: the stream is open and part of
/// its payload has already been reported.
pub open spec fn inside_payload(st: MultiplexerState) -> bool {
    st matches MultiplexerState::Receiving(cur) && cur.recv_count > 0
}

proof fn lemma_demux_append(st: MultiplexerState, w: Seq<u8>, b: Seq<u8>)
    requires
        b.len() == 0 || !(w.len() > 0 && inside_payload(demux(st, w).0)),
    ensures
        ({
            let r1 = demux(st, w);
            let r2 = demux(r1.0, r1.1 + b);
            demux(st, w + b) == (r2.0, r2.1, r1.2 + r2.2)
        }),
    decreases w.len(), state_rank(st),
{
    let wb = w + b;
    match st {
        MultiplexerState::Idle => {
            if w.len() < 10 {
                assert(seq![] + demux(st, w + b).2 =~= demux(st, w + b).2);
            } else {
                assert(le_u64(wb, 0) == le_u64(w, 0));
                assert(le_u16(wb, 8) == le_u16(w, 8));
                let k = header_size(w);
                let next = after_header(w);
                assert(wb.subrange(k, wb.len() as int) =~= w.subrange(k, w.len() as int) + b);
                lemma_demux_append(next, w.subrange(k, w.len() as int), b);
                let r1 = demux(next, w.subrange(k, w.len() as int));
                let r2 = demux(r1.0, r1.1 + b);
                assert(forall|h: Seq<StreamEvent>| #[trigger] (h + (r1.2 + r2.2)) =~= (h + r1.2) + r2.2);
            }
        },
        MultiplexerState::Receiving(cur) => {
            if w.len() == 0 {
                assert(w + b =~= b);
                assert(seq![] + demux(st, b).2 =~= demux(st, b).2);
            } else {
                let left = remaining(cur);
                if left <= w.len() {
                    assert(wb.subrange(0, left) =~= w.subrange(0, left));
                    assert(wb.subrange(left, wb.len() as int) =~= w.subrange(left, w.len() as int) + b);
                    lemma_demux_append(MultiplexerState::Idle, w.subrange(left, w.len() as int), b);
                    let r1 = demux(MultiplexerState::Idle, w.subrange(left, w.len() as int));
                    let r2 = demux(r1.0, r1.1 + b);
                    assert(forall|h: Seq<StreamEvent>| #[trigger] (h + (r1.2 + r2.2)) =~= (h + r1.2) + r2.2);
                } else {
                    assert(wb =~= w);
                    let r1 = demux(st, w);
                    assert(r1.1 + b =~= Seq::<u8>::empty());
                    assert(r1.2 + seq![] =~= r1.2);
                }
            }
        },
    }
}

/// Chunk boundaries do not matter: feeding `a` and then `b` leaves the
/// multiplexer as feeding `a + b` at once does, and the two calls report the
/// events of the single one. The one exception is a cut inside a payload,
/// which the single call reports as one `Data` event and the two calls as two.
pub proof fn lemma_chunk_boundary(m: MultiplexerView, a: Seq<u8>, b: Seq<u8>)
    requires
        m.wf(),
        !(a.len() > 0 && b.len() > 0 && inside_payload(feed(m, a).0.state)),
    ensures
        feed(feed(m, a).0, b).0 == feed(m, a + b).0,
        feed(m, a).1 + feed(feed(m, a).0, b).1 == feed(m, a + b).1,
{
    assert(m.buffer + (a + b) =~= (m.buffer + a) + b);
    if a.len() == 0 && m.buffer.len() > 0 {
        assert(m.buffer + a =~= m.buffer);
    }
    lemma_demux_append(m.state, m.buffer + a, b);
}

/// An event with its payload, if any, split into one event per byte.
pub open spec fn bytewise_event(e: StreamEvent) -> Seq<StreamEvent> {
    match e {
        StreamEvent::Data { stream_id, data } => Seq::new(
            data.len(),
            |k: int| StreamEvent::Data { stream_id, data: seq![data[k]] },
        ),
        _ => seq![e],
    }
}

/// Events with every payload split into one event per byte.
pub open spec fn bytewise(evs: Seq<StreamEvent>) -> Seq<StreamEvent>
    decreases evs.len(),
{
    if evs.len() == 0 {
        seq![]
    } else {
        bytewise_event(evs[0]) + bytewise(evs.drop_first())
    }
}

proof fn lemma_bytewise_concat(a: Seq<StreamEvent>, b: Seq<StreamEvent>)
    ensures
        bytewise(a + b) == bytewise(a) + bytewise(b),
    decreases a.len(),
{
    if a.len() == 0 {
        assert(a + b =~= b);
        assert(seq![] + bytewise(b) =~= bytewise(b));
    } else {
        assert((a + b).drop_first() =~= a.drop_first() + b);
        assert((a + b)[0] == a[0]);
        lemma_bytewise_concat(a.drop_first(), b);
        assert(bytewise_event(a[0]) + (bytewise(a.drop_first()) + bytewise(b)) =~= (bytewise_event(
            a[0],
        ) + bytewise(a.drop_first())) + bytewise(b));
    }
}

proof fn lemma_bytewise_data(stream_id: u64, x: Seq<u8>, y: Seq<u8>)
    ensures
        bytewise(seq![StreamEvent::Data { stream_id, data: x + y }]) == bytewise(
            seq![StreamEvent::Data { stream_id, data: x }, StreamEvent::Data { stream_id, data: y }],
        ),
{
    let dx = StreamEvent::Data { stream_id, data: x };
    let dy = StreamEvent::Data { stream_id, data: y };
    let dxy = StreamEvent::Data { stream_id, data: x + y };
    assert(seq![dxy].drop_first() =~= Seq::<StreamEvent>::empty());
    assert(seq![dx, dy].drop_first() =~= seq![dy]);
    assert(seq![dy].drop_first() =~= Seq::<StreamEvent>::empty());
    assert(bytewise_event(dxy) =~= bytewise_event(dx) + bytewise_event(dy));
    assert(bytewise(Seq::<StreamEvent>::empty()) == Seq::<StreamEvent>::empty());
    assert(seq![dxy][0] == dxy);
    assert(bytewise(seq![dxy]) == bytewise_event(dxy) + bytewise(Seq::<StreamEvent>::empty()));
    assert(bytewise(seq![dxy]) =~= bytewise_event(dxy));
    assert(seq![dy][0] == dy);
    assert(bytewise(seq![dy]) == bytewise_event(dy) + bytewise(Seq::<StreamEvent>::empty()));
    assert(bytewise(seq![dy]) =~= bytewise_event(dy));
    assert(seq![dx, dy][0] == dx);
    assert(bytewise(seq![dx, dy]) == bytewise_event(dx) + bytewise(seq![dy]));
}

proof fn lemma_demux_append_bytewise(st: MultiplexerState, w: Seq<u8>, b: Seq<u8>)
    ensures
        ({
            let r1 = demux(st, w);
            let r2 = demux(r1.0, r1.1 + b);
            let c = demux(st, w + b);
            &&& c.0 == r2.0
            &&& c.1 == r2.1
            &&& bytewise(c.2) == bytewise(r1.2 + r2.2)
        }),
    decreases w.len(), state_rank(st),
{
    let wb = w + b;
    match st {
        MultiplexerState::Idle => {
            if w.len() < 10 {
                assert(seq![] + demux(st, w + b).2 =~= demux(st, w + b).2);
            } else {
                assert(le_u64(wb, 0) == le_u64(w, 0));
                assert(le_u16(wb, 8) == le_u16(w, 8));
                let k = header_size(w);
                let next = after_header(w);
                assert(wb.subrange(k, wb.len() as int) =~= w.subrange(k, w.len() as int) + b);
                lemma_demux_append_bytewise(next, w.subrange(k, w.len() as int), b);
                let r1 = demux(next, w.subrange(k, w.len() as int));
                let r2 = demux(r1.0, r1.1 + b);
                let rc = demux(next, w.subrange(k, w.len() as int) + b);
                assert forall|h: Seq<StreamEvent>| #[trigger] bytewise(h + rc.2) == bytewise(
                    (h + r1.2) + r2.2,
                ) by {
                    lemma_bytewise_concat(h, rc.2);
                    lemma_bytewise_concat(h, r1.2 + r2.2);
                    assert(h + (r1.2 + r2.2) =~= (h + r1.2) + r2.2);
                }
            }
        },
        MultiplexerState::Receiving(cur) => {
            if w.len() == 0 {
                assert(w + b =~= b);
                assert(seq![] + demux(st, b).2 =~= demux(st, b).2);
            } else {
                let left = remaining(cur);
                if left <= w.len() {
                    assert(wb.subrange(0, left) =~= w.subrange(0, left));
                    assert(wb.subrange(left, wb.len() as int) =~= w.subrange(left, w.len() as int) + b);
                    lemma_demux_append_bytewise(MultiplexerState::Idle, w.subrange(left, w.len() as int), b);
                    let r1 = demux(MultiplexerState::Idle, w.subrange(left, w.len() as int));
                    let r2 = demux(r1.0, r1.1 + b);
                    let rc = demux(MultiplexerState::Idle, w.subrange(left, w.len() as int) + b);
                    let h = seq![
                        StreamEvent::Data { stream_id: cur.stream_id, data: w.subrange(0, left) },
                        StreamEvent::Ended { stream_id: cur.stream_id },
                    ];
                    lemma_bytewise_concat(h, rc.2);
                    lemma_bytewise_concat(h, r1.2 + r2.2);
                    assert(h + (r1.2 + r2.2) =~= (h + r1.2) + r2.2);
                } else if b.len() == 0 {
                    assert(wb =~= w);
                    let r1 = demux(st, w);
                    assert(r1.1 + b =~= Seq::<u8>::empty());
                    assert(r1.2 + seq![] =~= r1.2);
                } else {
                    let id = cur.stream_id;
                    let next = CurrentStream { recv_count: (cur.recv_count + w.len()) as u32, ..cur };
                    let left2 = left - w.len();
                    assert(next.recv_count < next.length);
                    let r1 = demux(st, w);
                    assert(r1.1 + b =~= b);
                    let dw = StreamEvent::Data { stream_id: id, data: w };
                    if left2 <= b.len() {
                        let rest = b.subrange(left2, b.len() as int);
                        assert(wb.subrange(left, wb.len() as int) =~= rest);
                        assert(wb.subrange(0, left) =~= w + b.subrange(0, left2));
                        let rr = demux(MultiplexerState::Idle, rest);
                        let db = StreamEvent::Data { stream_id: id, data: b.subrange(0, left2) };
                        let end = StreamEvent::Ended { stream_id: id };
                        let dwb = StreamEvent::Data { stream_id: id, data: w + b.subrange(0, left2) };
                        lemma_bytewise_data(id, w, b.subrange(0, left2));
                        assert(seq![dwb, end] + rr.2 =~= seq![dwb] + (seq![end] + rr.2));
                        assert(seq![dw] + (seq![db, end] + rr.2) =~= seq![dw, db] + (seq![end] + rr.2));
                        lemma_bytewise_concat(seq![dwb], seq![end] + rr.2);
                        lemma_bytewise_concat(seq![dw, db], seq![end] + rr.2);
                    } else {
                        let dwb = StreamEvent::Data { stream_id: id, data: wb };
                        let db = StreamEvent::Data { stream_id: id, data: b };
                        lemma_bytewise_data(id, w, b);
                        assert(seq![dw] + seq![db] =~= seq![dw, db]);
                    }
                }
            }
        },
    }
}

/// Chunk boundaries do not matter to what a channel carries, wherever the
/// cut falls: feeding `a` and then `b` leaves the multiplexer as feeding
/// `a + b` at once does, and the events of the two calls, with every payload
/// split into single bytes, are those of the single call split the same way.
pub proof fn lemma_chunk_boundary_bytewise(m: MultiplexerView, a: Seq<u8>, b: Seq<u8>)
    requires
        m.wf(),
    ensures
        feed(feed(m, a).0, b).0 == feed(m, a + b).0,
        bytewise(feed(m, a).1 + feed(feed(m, a).0, b).1) == bytewise(feed(m, a + b).1),
{
    assert(m.buffer + (a + b) =~= (m.buffer + a) + b);
    lemma_demux_append_bytewise(m.state, m.buffer + a, b);
}

/// The last event of `acc` is `Data` of stream `stream_id`.
pub open spec fn ends_with_data_of(acc: Seq<StreamEvent>, stream_id: u64) -> bool {
    acc.len() > 0 && acc.last() is Data && acc.last()->Data_stream_id == stream_id
}

/// Appends `e` to `acc`, joining a `Data` event to a `Data` event of the same
/// stream just before it.
pub open spec fn push_event(acc: Seq<StreamEvent>, e: StreamEvent) -> Seq<StreamEvent> {
    match e {
        StreamEvent::Data { stream_id, data } => if ends_with_data_of(acc, stream_id) {
            acc.drop_last().push(
                StreamEvent::Data { stream_id, data: acc.last()->Data_data + data },
            )
        } else {
            acc.push(e)
        },
        _ => acc.push(e),
    }
}

/// Appends the events to `acc` one by one with `push_event`.
pub open spec fn merge_onto(acc: Seq<StreamEvent>, evs: Seq<StreamEvent>) -> Seq<StreamEvent>
    decreases evs.len(),
{
    if evs.len() == 0 {
        acc
    } else {
        merge_onto(push_event(acc, evs[0]), evs.drop_first())
    }
}

/// Events with each run of `Data` events of one stream joined into one.
pub open spec fn merge_data(evs: Seq<StreamEvent>) -> Seq<StreamEvent> {
    merge_onto(seq![], evs)
}

proof fn lemma_merge_onto_concat(acc: Seq<StreamEvent>, x: Seq<StreamEvent>, y: Seq<StreamEvent>)
    ensures
        merge_onto(acc, x + y) == merge_onto(merge_onto(acc, x), y),
    decreases x.len(),
{
    if x.len() == 0 {
        assert(x + y =~= y);
    } else {
        assert((x + y).drop_first() =~= x.drop_first() + y);
        assert((x + y)[0] == x[0]);
        lemma_merge_onto_concat(push_event(acc, x[0]), x.drop_first(), y);
    }
}

proof fn lemma_merge_onto_one(acc: Seq<StreamEvent>, e: StreamEvent)
    ensures
        merge_onto(acc, seq![e]) == push_event(acc, e),
{
    assert(seq![e].drop_first() =~= Seq::<StreamEvent>::empty());
    assert(seq![e][0] == e);
    assert(merge_onto(push_event(acc, e), Seq::<StreamEvent>::empty()) == push_event(acc, e));
    assert(merge_onto(acc, seq![e]) == merge_onto(push_event(acc, e), Seq::<StreamEvent>::empty()));
}

proof fn lemma_merge_bytes(acc: Seq<StreamEvent>, stream_id: u64, d: Seq<u8>)
    requires
        d.len() > 0,
    ensures
        merge_onto(acc, bytewise_event(StreamEvent::Data { stream_id, data: d })) == push_event(
            acc,
            StreamEvent::Data { stream_id, data: d },
        ),
    decreases d.len(),
{
    let e = StreamEvent::Data { stream_id, data: d };
    let bw = bytewise_event(e);
    if d.len() == 1 {
        assert(seq![d[0]] =~= d);
        assert(bw =~= seq![e]);
        lemma_merge_onto_one(acc, e);
    } else {
        let d1 = d.drop_last();
        let e1 = StreamEvent::Data { stream_id, data: d1 };
        let s = StreamEvent::Data { stream_id, data: seq![d.last()] };
        assert(bw =~= bytewise_event(e1) + seq![s]);
        lemma_merge_onto_concat(acc, bytewise_event(e1), seq![s]);
        lemma_merge_bytes(acc, stream_id, d1);
        let p = push_event(acc, e1);
        lemma_merge_onto_one(p, s);
        assert(ends_with_data_of(p, stream_id));
        if ends_with_data_of(acc, stream_id) {
            let prev = acc.last()->Data_data;
            assert(p.drop_last() =~= acc.drop_last());
            assert((prev + d1) + seq![d.last()] =~= prev + d);
        } else {
            assert(p.drop_last() =~= acc);
            assert(d1 + seq![d.last()] =~= d);
        }
    }
}

proof fn lemma_merge_bytewise(acc: Seq<StreamEvent>, evs: Seq<StreamEvent>)
    requires
        no_empty_data(evs),
    ensures
        merge_onto(acc, bytewise(evs)) == merge_onto(acc, evs),
    decreases evs.len(),
{
    if evs.len() > 0 {
        let e = evs[0];
        let rest = evs.drop_first();
        assert(no_empty_data(rest)) by {
            assert forall|i: int| 0 <= i < rest.len() && (#[trigger] rest[i]) is Data implies rest[i]->Data_data.len()
                > 0 by {
                assert(rest[i] == evs[i + 1]);
            }
        }
        lemma_merge_onto_concat(acc, bytewise_event(e), bytewise(rest));
        match e {
            StreamEvent::Data { stream_id, data } => lemma_merge_bytes(acc, stream_id, data),
            _ => lemma_merge_onto_one(acc, e),
        }
        lemma_merge_bytewise(push_event(acc, e), rest);
    }
}

/// Chunk boundaries do not matter, wherever the cut falls: feeding `a` and
/// then `b` leaves the multiplexer as feeding `a + b` at once does, and the
/// events of the two calls, with each run of `Data` events of one stream
/// joined into one, are those of the single call joined the same way.
pub proof fn lemma_chunk_boundary_merged(m: MultiplexerView, a: Seq<u8>, b: Seq<u8>)
    requires
        m.wf(),
    ensures
        feed(feed(m, a).0, b).0 == feed(m, a + b).0,
        merge_data(feed(m, a).1 + feed(feed(m, a).0, b).1) == merge_data(feed(m, a + b).1),
{
    let e1 = feed(m, a).1;
    let e2 = feed(feed(m, a).0, b).1;
    let c = feed(m, a + b).1;
    lemma_chunk_boundary_bytewise(m, a, b);
    lemma_stream_accounting(m, a);
    lemma_stream_accounting(feed(m, a).0, b);
    lemma_stream_accounting(m, a + b);
    assert(no_empty_data(e1 + e2)) by {
        assert forall|i: int| 0 <= i < (e1 + e2).len() && (#[trigger] (e1 + e2)[i]) is Data implies (e1
            + e2)[i]->Data_data.len() > 0 by {
            if i >= e1.len() {
                assert((e1 + e2)[i] == e2[i - e1.len()]);
            }
        }
    }
    lemma_merge_bytewise(seq![], e1 + e2);
    lemma_merge_bytewise(seq![], c);
}

} // verus!

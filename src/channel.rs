//! The inbound side of one physical connection: raw bytes go through the
//! multiplexer, and the payload of each logical stream through a codec of
//! its own, which yields the commands that the stream carries.
use vstd::prelude::*;
use crate::multiplex::{event_views, feed, Multiplexer, MultiplexerEvent, MultiplexerView, StreamEvent};
use crate::protocol::{cmd_views, frames, CmdView, Parser, PeerCmd};

verus! {

/// Decodes the commands that the events of a channel carry, starting with
/// `buf` as the partial envelope of the open stream: the partial envelope
/// left at the end, and the commands. Each stream starts with an empty
/// codec, and what is left of an envelope when its stream ends is dropped.
pub open spec fn decode_stream(buf: Seq<u8>, evs: Seq<StreamEvent>) -> (Seq<u8>, Seq<CmdView>)
    decreases evs.len(),
{
    if evs.len() == 0 {
        (buf, seq![])
    } else {
        let step: (Seq<u8>, Seq<CmdView>) = match evs[0] {
            StreamEvent::Started { .. } => (seq![], seq![]),
            StreamEvent::Data { data, .. } => (frames(buf + data).1, frames(buf + data).0),
            StreamEvent::Ended { .. } => (seq![], seq![]),
            StreamEvent::Error { .. } => (buf, seq![]),
        };
        let r = decode_stream(step.0, evs.drop_first());
        (r.0, step.1 + r.1)
    }
}

/// A channel decoder as a mathematical value.
pub struct ChannelView {
    pub mux: MultiplexerView,
    pub pending: Seq<u8>,
}

/// Turns the bytes of one physical connection into peer commands.
pub struct ChannelDecoder {
    multiplexer: Multiplexer,
    parser: Parser,
}

impl View for ChannelDecoder {
    type V = ChannelView;

    closed spec fn view(&self) -> ChannelView {
        ChannelView { mux: self.multiplexer@, pending: self.parser@.buffer }
    }
}

impl ChannelDecoder {
    /// Every decoded command has been handed out.
    #[verifier::type_invariant]
    closed spec fn inv(self) -> bool {
        self.parser@.queue.len() == 0
    }

    pub fn new() -> (r: ChannelDecoder)
        ensures
            r@ == (ChannelView {
                mux: MultiplexerView { state: crate::multiplex::MultiplexerState::Idle, buffer: seq![] },
                pending: seq![],
            }),
    {
        ChannelDecoder { multiplexer: Multiplexer::new(), parser: Parser::new() }
    }

    /// Takes in the next bytes of the connection and returns the commands
    /// that they complete, in order.
    pub fn handle_data(&mut self, data: &[u8]) -> (cmds: Vec<PeerCmd>)
        ensures
            final(self)@.mux == feed(old(self)@.mux, data@).0,
            (final(self)@.pending, cmd_views(cmds@)) == decode_stream(
                old(self)@.pending,
                feed(old(self)@.mux, data@).1,
            ),
    {
        proof {
            use_type_invariant(&*self);
        }
        let mut multiplexer = Multiplexer::new();
        std::mem::swap(&mut multiplexer, &mut self.multiplexer);
        let mut parser = Parser::new();
        std::mem::swap(&mut parser, &mut self.parser);
        let events = multiplexer.handle_data(data);
        let ghost evs = event_views(events@);
        let ghost total = decode_stream(parser@.buffer, evs);
        let mut cmds: Vec<PeerCmd> = Vec::new();
        let mut i: usize = 0;
        assert(evs.subrange(0, evs.len() as int) =~= evs);
        while i < events.len()
            invariant
                i <= events@.len(),
                evs == event_views(events@),
                multiplexer@ == feed(old(self)@.mux, data@).0,
                parser@.queue.len() == 0,
                decode_stream(parser@.buffer, evs.subrange(i as int, evs.len() as int)).0
                    == total.0,
                cmd_views(cmds@) + decode_stream(
                    parser@.buffer,
                    evs.subrange(i as int, evs.len() as int),
                ).1 == total.1,
            decreases events@.len() - i,
        {
            let ghost rest = evs.subrange(i as int, evs.len() as int);
            let ghost before = cmd_views(cmds@);
            let ghost buf = parser@.buffer;
            assert(rest.drop_first() =~= evs.subrange(i + 1, evs.len() as int));
            assert(rest[0] == events@[i as int]@);
            match &events[i] {
                MultiplexerEvent::DataPointer { data: payload, .. } => {
                    parser.parse(payload.as_slice());
                    let ghost queued = parser@.queue;
                    loop
                        invariant
                            cmd_views(cmds@) + parser@.queue == before + queued,
                            parser@.buffer == frames(buf + payload@).1,
                                        multiplexer@ == feed(old(self)@.mux, data@).0,
                        ensures
                                        multiplexer@ == feed(old(self)@.mux, data@).0,
                            cmd_views(cmds@) == before + queued,
                            parser@.queue.len() == 0,
                            parser@.buffer == frames(buf + payload@).1,
                        decreases parser@.queue.len(),
                    {
                        let ghost q = parser@.queue;
                        match parser.next() {
                            Some(c) => {
                                cmds.push(c);
                                assert(cmd_views(cmds@) + parser@.queue =~= before + queued)
                                    by {
                                    assert(cmd_views(cmds@) =~= cmd_views(cmds@.drop_last()) + seq![c@]);
                                    assert(q =~= seq![q[0]] + q.drop_first());
                                }
                            },
                            None => {
                                assert(cmd_views(cmds@) + parser@.queue =~= cmd_views(cmds@));
                                break;
                            },
                        }
                    }
                    assert(cmd_views(cmds@) =~= before + frames(buf + payload@).0);
                },
                MultiplexerEvent::Error(_) => {
                    assert(before + seq![] =~= before);
                },
                _ => {
                    parser = Parser::new();
                    assert(before + seq![] =~= before);
                },
            }
            i += 1;
        }
        *self = ChannelDecoder { multiplexer, parser };
        cmds
    }
}

} // verus!

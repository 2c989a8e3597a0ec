//! The relay: two unidirectional pumps per tunnel.
//!
//! A tunnel couples one raw byte stream (TCP) and one message stream
//! (WebSocket).  Each direction is a pump that turns one transport event
//! into one action: forward a payload, or stop.  The stream-to-WebSocket
//! pump forwards every non-empty read as one binary message and stops on
//! end-of-stream, a zero-length read or a transport failure; the
//! WebSocket-to-stream pump writes every binary payload through unchanged
//! and stops on anything else.  The caller performs the I/O and feeds the
//! events in; whatever the transport does, the decision taken on each event
//! is fixed here, and the fidelity lemmas say that a pump delivers exactly
//! the bytes it was fed, in order, up to its stopping point.

use vstd::prelude::*;

verus! {

/// One read from the byte-stream side: a chunk of bytes, a clean
/// end-of-stream (zero-length read), or a failed read.
pub enum StreamEvent {
    Data(Vec<u8>),
    Eof,
    Failed,
}

/// One receive from the WebSocket side: a binary message, some other
/// message (text, ping, close), a closed stream, or a failed receive.
pub enum WsEvent {
    Binary(Vec<u8>),
    Other,
    Closed,
    Failed,
}

/// What a pump does with one event.
pub enum PumpAction {
    Forward(Vec<u8>),
    Stop,
}

pub enum StreamEventView {
    Data(Seq<u8>),
    Eof,
    Failed,
}

pub enum WsEventView {
    Binary(Seq<u8>),
    Other,
    Closed,
    Failed,
}

pub enum PumpActionView {
    Forward(Seq<u8>),
    Stop,
}

impl View for StreamEvent {
    type V = StreamEventView;

    open spec fn view(&self) -> StreamEventView {
        match self {
            StreamEvent::Data(d) => StreamEventView::Data(d@),
            StreamEvent::Eof => StreamEventView::Eof,
            StreamEvent::Failed => StreamEventView::Failed,
        }
    }
}

impl DeepView for StreamEvent {
    type V = StreamEventView;

    open spec fn deep_view(&self) -> StreamEventView {
        self.view()
    }
}

impl View for WsEvent {
    type V = WsEventView;

    open spec fn view(&self) -> WsEventView {
        match self {
            WsEvent::Binary(d) => WsEventView::Binary(d@),
            WsEvent::Other => WsEventView::Other,
            WsEvent::Closed => WsEventView::Closed,
            WsEvent::Failed => WsEventView::Failed,
        }
    }
}

impl DeepView for WsEvent {
    type V = WsEventView;

    open spec fn deep_view(&self) -> WsEventView {
        self.view()
    }
}

impl View for PumpAction {
    type V = PumpActionView;

    open spec fn view(&self) -> PumpActionView {
        match self {
            PumpAction::Forward(d) => PumpActionView::Forward(d@),
            PumpAction::Stop => PumpActionView::Stop,
        }
    }
}

/// The stream-to-WebSocket decision: forward a non-empty read, stop on
/// everything else.
pub open spec fn spec_stream_step(ev: StreamEventView) -> PumpActionView {
    match ev {
        StreamEventView::Data(d) => if d.len() > 0 {
            PumpActionView::Forward(d)
        } else {
            PumpActionView::Stop
        },
        _ => PumpActionView::Stop,
    }
}

/// The WebSocket-to-stream decision: write a binary payload through, stop
/// on everything else.
pub open spec fn spec_ws_step(ev: WsEventView) -> PumpActionView {
    match ev {
        WsEventView::Binary(d) => PumpActionView::Forward(d),
        _ => PumpActionView::Stop,
    }
}

/// One step of the stream-to-WebSocket pump.
pub fn stream_to_ws_step(ev: StreamEvent) -> (r: PumpAction)
    ensures
        r@ == spec_stream_step(ev@),
{
    match ev {
        StreamEvent::Data(d) => if d.len() > 0 {
            PumpAction::Forward(d)
        } else {
            PumpAction::Stop
        },
        StreamEvent::Eof => PumpAction::Stop,
        StreamEvent::Failed => PumpAction::Stop,
    }
}

/// One step of the WebSocket-to-stream pump.
pub fn ws_to_stream_step(ev: WsEvent) -> (r: PumpAction)
    ensures
        r@ == spec_ws_step(ev@),
{
    match ev {
        WsEvent::Binary(d) => PumpAction::Forward(d),
        WsEvent::Other => PumpAction::Stop,
        WsEvent::Closed => PumpAction::Stop,
        WsEvent::Failed => PumpAction::Stop,
    }
}

/// The payloads the stream-to-WebSocket pump forwards for a run of events,
/// one message per non-empty read, up to its stopping point.
pub open spec fn forwarded_messages(evs: Seq<StreamEventView>) -> Seq<Seq<u8>>
    decreases evs.len(),
{
    if evs.len() == 0 {
        seq![]
    } else {
        match spec_stream_step(evs[0]) {
            PumpActionView::Forward(d) => seq![d] + forwarded_messages(evs.drop_first()),
            PumpActionView::Stop => seq![],
        }
    }
}

/// The payloads the WebSocket-to-stream pump writes for a run of events,
/// up to its stopping point.
pub open spec fn written_payloads(evs: Seq<WsEventView>) -> Seq<Seq<u8>>
    decreases evs.len(),
{
    if evs.len() == 0 {
        seq![]
    } else {
        match spec_ws_step(evs[0]) {
            PumpActionView::Forward(d) => seq![d] + written_payloads(evs.drop_first()),
            PumpActionView::Stop => seq![],
        }
    }
}

/// All payload chunks of a run of messages, in order, as one byte sequence.
pub open spec fn concat_all(msgs: Seq<Seq<u8>>) -> Seq<u8>
    decreases msgs.len(),
{
    if msgs.len() == 0 {
        seq![]
    } else {
        msgs[0] + concat_all(msgs.drop_first())
    }
}

/// The bytes the byte-stream side offers before the pump stops: the reads
/// up to the first empty read, end-of-stream or failure.
pub open spec fn stream_bytes(evs: Seq<StreamEventView>) -> Seq<u8>
    decreases evs.len(),
{
    if evs.len() == 0 {
        seq![]
    } else {
        match evs[0] {
            StreamEventView::Data(d) => if d.len() > 0 {
                d + stream_bytes(evs.drop_first())
            } else {
                seq![]
            },
            _ => seq![],
        }
    }
}

/// The bytes the WebSocket side offers before the pump stops: the binary
/// payloads up to the first non-binary message, close or failure.
pub open spec fn ws_bytes(evs: Seq<WsEventView>) -> Seq<u8>
    decreases evs.len(),
{
    if evs.len() == 0 {
        seq![]
    } else {
        match evs[0] {
            WsEventView::Binary(d) => d + ws_bytes(evs.drop_first()),
            _ => seq![],
        }
    }
}

/// Relay fidelity, stream to WebSocket: whatever run of reads one side of
/// an established tunnel produces, the messages the pump forwards carry
/// exactly those bytes, unmodified and in order, up to the stopping point.
pub proof fn lemma_stream_pump_fidelity(evs: Seq<StreamEventView>)
    ensures
        concat_all(forwarded_messages(evs)) == stream_bytes(evs),
    decreases evs.len(),
{
    if evs.len() > 0 {
        lemma_stream_pump_fidelity(evs.drop_first());
        match spec_stream_step(evs[0]) {
            PumpActionView::Forward(d) => {
                assert((seq![d] + forwarded_messages(evs.drop_first())).drop_first()
                    =~= forwarded_messages(evs.drop_first()));
                assert(concat_all(forwarded_messages(evs)) =~= stream_bytes(evs));
            },
            PumpActionView::Stop => {},
        }
    }
}

/// Relay fidelity, WebSocket to stream: the bytes the pump writes to the
/// byte stream are exactly the binary payloads received, unmodified and in
/// order, up to the stopping point.
pub proof fn lemma_ws_pump_fidelity(evs: Seq<WsEventView>)
    ensures
        concat_all(written_payloads(evs)) == ws_bytes(evs),
    decreases evs.len(),
{
    if evs.len() > 0 {
        lemma_ws_pump_fidelity(evs.drop_first());
        match spec_ws_step(evs[0]) {
            PumpActionView::Forward(d) => {
                assert((seq![d] + written_payloads(evs.drop_first())).drop_first()
                    =~= written_payloads(evs.drop_first()));
                assert(concat_all(written_payloads(evs)) =~= ws_bytes(evs));
            },
            PumpActionView::Stop => {},
        }
    }
}

/// Run the stream-to-WebSocket pump over a whole run of events at once:
/// the messages the per-event loop sends, gathered in order.  The driver
/// that owns the sockets takes one event at a time through
/// `stream_to_ws_step`; this form carries the same decisions end to end.
pub fn pump_stream_to_ws(events: Vec<StreamEvent>) -> (out: Vec<Vec<u8>>)
    ensures
        out.deep_view() == forwarded_messages(events.deep_view()),
{
    let ghost evs = events.deep_view();
    let mut rest = events;
    let mut out: Vec<Vec<u8>> = Vec::new();
    let mut stopped = false;
    proof {
        assert(rest.deep_view() =~= evs.skip(0));
        assert(out.deep_view() =~= Seq::<Seq<u8>>::empty());
    }
    while rest.len() > 0
        invariant
            rest@.len() <= evs.len(),
            rest.deep_view() =~= evs.skip(evs.len() - rest@.len()),
            !stopped ==> forwarded_messages(evs) =~= out.deep_view() + forwarded_messages(
                evs.skip(evs.len() - rest@.len()),
            ),
            stopped ==> forwarded_messages(evs) =~= out.deep_view(),
        decreases rest@.len(),
    {
        let ghost done = evs.len() - rest@.len();
        let ghost pre = rest.deep_view();
        let ghost prev = rest@;
        let ev = rest.remove(0);
        proof {
            assert(pre[0] == prev[0].deep_view());
            assert(ev.deep_view() == evs[done]);
            assert forall|i: int| 0 <= i < rest@.len() implies #[trigger] rest.deep_view()[i]
                == evs.skip(done + 1)[i] by {
                assert(rest@[i] == prev[i + 1]);
                assert(rest.deep_view()[i] == rest@[i].deep_view());
                assert(pre[i + 1] == prev[i + 1].deep_view());
            }
            assert(rest.deep_view() =~= evs.skip(done + 1));
        }
        if !stopped {
            match stream_to_ws_step(ev) {
                PumpAction::Forward(d) => {
                    proof {
                        assert(evs.skip(done).drop_first() =~= evs.skip(done + 1));
                    }
                    let ghost outpre = out.deep_view();
                    let ghost outv = out@;
                    out.push(d);
                    proof {
                        assert forall|i: int|
                            0 <= i < out.deep_view().len() implies #[trigger] out.deep_view()[i]
                            == (outpre + seq![d@])[i] by {
                            assert(out.deep_view()[i] == out@[i].deep_view());
                            if i < outv.len() {
                                assert(out@[i] == outv[i]);
                                assert(outpre[i] == outv[i].deep_view());
                            } else {
                                assert(out@[i] == d);
                                assert(d.deep_view() =~= d@);
                            }
                        }
                        assert(out.deep_view() =~= outpre + seq![d@]);
                    }
                },
                PumpAction::Stop => {
                    stopped = true;
                },
            }
        }
    }
    proof {
        if !stopped {
            assert(evs.skip(evs.len() - 0) =~= Seq::<StreamEventView>::empty());
        }
    }
    out
}

/// Run the WebSocket-to-stream pump over a whole run of events at once:
/// the payloads the per-event loop writes to the byte stream, in order.
pub fn pump_ws_to_stream(events: Vec<WsEvent>) -> (out: Vec<Vec<u8>>)
    ensures
        out.deep_view() == written_payloads(events.deep_view()),
{
    let ghost evs = events.deep_view();
    let mut rest = events;
    let mut out: Vec<Vec<u8>> = Vec::new();
    let mut stopped = false;
    proof {
        assert(rest.deep_view() =~= evs.skip(0));
        assert(out.deep_view() =~= Seq::<Seq<u8>>::empty());
    }
    while rest.len() > 0
        invariant
            rest@.len() <= evs.len(),
            rest.deep_view() =~= evs.skip(evs.len() - rest@.len()),
            !stopped ==> written_payloads(evs) =~= out.deep_view() + written_payloads(
                evs.skip(evs.len() - rest@.len()),
            ),
            stopped ==> written_payloads(evs) =~= out.deep_view(),
        decreases rest@.len(),
    {
        let ghost done = evs.len() - rest@.len();
        let ghost pre = rest.deep_view();
        let ghost prev = rest@;
        let ev = rest.remove(0);
        proof {
            assert(pre[0] == prev[0].deep_view());
            assert(ev.deep_view() == evs[done]);
            assert forall|i: int| 0 <= i < rest@.len() implies #[trigger] rest.deep_view()[i]
                == evs.skip(done + 1)[i] by {
                assert(rest@[i] == prev[i + 1]);
                assert(rest.deep_view()[i] == rest@[i].deep_view());
                assert(pre[i + 1] == prev[i + 1].deep_view());
            }
            assert(rest.deep_view() =~= evs.skip(done + 1));
        }
        if !stopped {
            match ws_to_stream_step(ev) {
                PumpAction::Forward(d) => {
                    proof {
                        assert(evs.skip(done).drop_first() =~= evs.skip(done + 1));
                    }
                    let ghost outpre = out.deep_view();
                    let ghost outv = out@;
                    out.push(d);
                    proof {
                        assert forall|i: int|
                            0 <= i < out.deep_view().len() implies #[trigger] out.deep_view()[i]
                            == (outpre + seq![d@])[i] by {
                            assert(out.deep_view()[i] == out@[i].deep_view());
                            if i < outv.len() {
                                assert(out@[i] == outv[i]);
                                assert(outpre[i] == outv[i].deep_view());
                            } else {
                                assert(out@[i] == d);
                                assert(d.deep_view() =~= d@);
                            }
                        }
                        assert(out.deep_view() =~= outpre + seq![d@]);
                    }
                },
                PumpAction::Stop => {
                    stopped = true;
                },
            }
        }
    }
    proof {
        if !stopped {
            assert(evs.skip(evs.len() - 0) =~= Seq::<WsEventView>::empty());
        }
    }
    out
}

} // verus!

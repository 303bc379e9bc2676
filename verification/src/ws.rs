//! The bridge between a client's WebSocket and the upstream one.

use vstd::prelude::*;

verus! {

/// Why a WebSocket is closed.
#[derive(Clone, Debug, PartialEq, Eq)]
pub struct CloseFrame {
    pub code: u16,
    pub reason: String,
}

/// A message on the client's side.
#[derive(Clone, Debug, PartialEq, Eq)]
pub enum ClientMessage {
    Text(String),
    Binary(Vec<u8>),
    Ping(Vec<u8>),
    Pong(Vec<u8>),
    Close(Option<CloseFrame>),
}

/// A message on the upstream side. A raw frame is not a message of its own.
#[derive(Clone, Debug, PartialEq, Eq)]
pub enum UpstreamMessage {
    Text(String),
    Binary(Vec<u8>),
    Ping(Vec<u8>),
    Pong(Vec<u8>),
    Close(Option<CloseFrame>),
    Frame,
}

/// What a message says, whichever side it is on.
#[verifier::ext_equal]
pub enum MessageView {
    Text(Seq<char>),
    Binary(Seq<u8>),
    Ping(Seq<u8>),
    Pong(Seq<u8>),
    Close(Option<(u16, Seq<char>)>),
    Frame,
}

pub open spec fn close_view(frame: Option<CloseFrame>) -> Option<(u16, Seq<char>)> {
    match frame {
        Some(frame) => Some((frame.code, frame.reason@)),
        None => None,
    }
}

impl View for ClientMessage {
    type V = MessageView;

    open spec fn view(&self) -> MessageView {
        match self {
            ClientMessage::Text(text) => MessageView::Text(text@),
            ClientMessage::Binary(bytes) => MessageView::Binary(bytes@),
            ClientMessage::Ping(bytes) => MessageView::Ping(bytes@),
            ClientMessage::Pong(bytes) => MessageView::Pong(bytes@),
            ClientMessage::Close(frame) => MessageView::Close(close_view(*frame)),
        }
    }
}

impl View for UpstreamMessage {
    type V = MessageView;

    open spec fn view(&self) -> MessageView {
        match self {
            UpstreamMessage::Text(text) => MessageView::Text(text@),
            UpstreamMessage::Binary(bytes) => MessageView::Binary(bytes@),
            UpstreamMessage::Ping(bytes) => MessageView::Ping(bytes@),
            UpstreamMessage::Pong(bytes) => MessageView::Pong(bytes@),
            UpstreamMessage::Close(frame) => MessageView::Close(close_view(*frame)),
            UpstreamMessage::Frame => MessageView::Frame,
        }
    }
}

/// The message of a client for the upstream side: it says the same.
pub fn axum_to_tungstenite(message: ClientMessage) -> (r: UpstreamMessage)
    ensures
        r@ == message@,
{
    match message {
        ClientMessage::Text(text) => UpstreamMessage::Text(text),
        ClientMessage::Binary(bytes) => UpstreamMessage::Binary(bytes),
        ClientMessage::Ping(bytes) => UpstreamMessage::Ping(bytes),
        ClientMessage::Pong(bytes) => UpstreamMessage::Pong(bytes),
        ClientMessage::Close(frame) => UpstreamMessage::Close(frame),
    }
}

/// The message of the upstream side for the client: it says the same. A raw frame has none.
pub fn tungstenite_to_axum(message: UpstreamMessage) -> (r: Option<ClientMessage>)
    ensures
        match r {
            Some(m) => m@ == message@ && message@ !is Frame,
            None => message@ is Frame,
        },
{
    match message {
        UpstreamMessage::Text(text) => Some(ClientMessage::Text(text)),
        UpstreamMessage::Binary(bytes) => Some(ClientMessage::Binary(bytes)),
        UpstreamMessage::Ping(bytes) => Some(ClientMessage::Ping(bytes)),
        UpstreamMessage::Pong(bytes) => Some(ClientMessage::Pong(bytes)),
        UpstreamMessage::Close(frame) => Some(ClientMessage::Close(frame)),
        UpstreamMessage::Frame => None,
    }
}

/// What comes in at either end of the bridge; nothing, where that end is closed or fails.
#[derive(Clone, Debug, PartialEq, Eq)]
pub enum BridgeEvent {
    Client(Option<ClientMessage>),
    Upstream(Option<UpstreamMessage>),
}

/// What the bridge does next. After the last message nothing more is received.
#[derive(Clone, Debug, PartialEq, Eq)]
pub enum BridgeStep {
    /// Wait for the next event.
    Receive,
    ToUpstream { up: UpstreamMessage, last: bool },
    ToClient { down: ClientMessage, last: bool },
    /// Close both ends.
    Finish,
}

#[verifier::ext_equal]
pub enum EventView {
    Client(Option<MessageView>),
    Upstream(Option<MessageView>),
}

#[verifier::ext_equal]
pub enum StepView {
    Receive,
    Send { to_client: bool, message: MessageView, last: bool },
    Finish,
}

impl View for BridgeEvent {
    type V = EventView;

    open spec fn view(&self) -> EventView {
        match self {
            BridgeEvent::Client(Some(message)) => EventView::Client(Some(message@)),
            BridgeEvent::Client(None) => EventView::Client(None),
            BridgeEvent::Upstream(Some(message)) => EventView::Upstream(Some(message@)),
            BridgeEvent::Upstream(None) => EventView::Upstream(None),
        }
    }
}

impl View for BridgeStep {
    type V = StepView;

    open spec fn view(&self) -> StepView {
        match self {
            BridgeStep::Receive => StepView::Receive,
            BridgeStep::ToUpstream { up, last } => StepView::Send {
                to_client: false,
                message: up@,
                last: *last,
            },
            BridgeStep::ToClient { down, last } => StepView::Send {
                to_client: true,
                message: down@,
                last: *last,
            },
            BridgeStep::Finish => StepView::Finish,
        }
    }
}

/// What follows from an event: a message goes to the other end, and a closing one is the last.
pub open spec fn bridge_step(event: EventView) -> StepView {
    match event {
        EventView::Client(Some(message)) => StepView::Send {
            to_client: false,
            message,
            last: message is Close,
        },
        EventView::Upstream(Some(message)) => if message is Frame {
            StepView::Receive
        } else {
            StepView::Send { to_client: true, message, last: message is Close }
        },
        _ => StepView::Finish,
    }
}

/// Decides what the bridge does on an event.
pub fn bridge(event: BridgeEvent) -> (r: BridgeStep)
    ensures
        r@ == bridge_step(event@),
{
    match event {
        BridgeEvent::Client(Some(message)) => {
            let last = matches!(message, ClientMessage::Close(_));
            BridgeStep::ToUpstream { up: axum_to_tungstenite(message), last }
        },
        BridgeEvent::Upstream(Some(message)) => {
            let last = matches!(message, UpstreamMessage::Close(_));
            match tungstenite_to_axum(message) {
                Some(down) => BridgeStep::ToClient { down, last },
                None => BridgeStep::Receive,
            }
        },
        _ => BridgeStep::Finish,
    }
}

/// What follows once a message was sent, or could not be sent.
pub open spec fn after_sending(last: bool, delivered: bool) -> StepView {
    if delivered && !last {
        StepView::Receive
    } else {
        StepView::Finish
    }
}

/// Decides what the bridge does once a message was sent, or could not be sent.
pub fn bridge_sent(last: bool, delivered: bool) -> (r: BridgeStep)
    ensures
        r@ == after_sending(last, delivered),
{
    if delivered && !last {
        BridgeStep::Receive
    } else {
        BridgeStep::Finish
    }
}

/// The messages that the bridge sends on a run of events, each with the end it goes to. Each event
/// comes with whether the message that it leads to can be sent.
pub open spec fn bridge_run(events: Seq<(EventView, bool)>) -> Seq<(bool, MessageView)>
    decreases events.len(),
{
    if events.len() == 0 {
        Seq::empty()
    } else {
        let rest = bridge_run(events.drop_first());
        match bridge_step(events[0].0) {
            StepView::Receive => rest,
            StepView::Finish => Seq::empty(),
            StepView::Send { to_client, message, last } => {
                let sent = seq![(to_client, message)];
                if after_sending(last, events[0].1) is Receive {
                    sent + rest
                } else {
                    sent
                }
            },
        }
    }
}

/// Nothing goes over the bridge after a closing message.
pub proof fn law_nothing_follows_a_close(events: Seq<(EventView, bool)>, i: int)
    requires
        0 <= i < bridge_run(events).len(),
        bridge_run(events)[i].1 is Close,
    ensures
        i == bridge_run(events).len() - 1,
    decreases events.len(),
{
    if events.len() > 0 {
        let rest = bridge_run(events.drop_first());
        match bridge_step(events[0].0) {
            StepView::Receive => {
                law_nothing_follows_a_close(events.drop_first(), i);
            },
            StepView::Finish => {},
            StepView::Send { to_client, message, last } => {
                if after_sending(last, events[0].1) is Receive {
                    assert(bridge_run(events) == seq![(to_client, message)] + rest);
                    if i > 0 {
                        assert(bridge_run(events)[i] == rest[i - 1]);
                        law_nothing_follows_a_close(events.drop_first(), i - 1);
                    }
                }
            },
        }
    }
}

/// The messages in a run of events, each with the end that it is meant for.
pub open spec fn messages(events: Seq<(EventView, bool)>) -> Seq<(bool, MessageView)>
    decreases events.len(),
{
    if events.len() == 0 {
        Seq::empty()
    } else {
        let rest = messages(events.drop_first());
        match events[0].0 {
            EventView::Client(Some(message)) => seq![(false, message)] + rest,
            EventView::Upstream(Some(message)) => if message is Frame {
                rest
            } else {
                seq![(true, message)] + rest
            },
            _ => rest,
        }
    }
}

/// As long as no end closes or fails, every message goes over the bridge as it is, in the order in
/// which it came in.
pub proof fn law_messages_pass_unchanged(events: Seq<(EventView, bool)>)
    requires
        forall|k: int|
            0 <= k < events.len() ==> (#[trigger] events[k]).1 && match events[k].0 {
                EventView::Client(Some(message)) => !(message is Close),
                EventView::Upstream(Some(message)) => !(message is Close),
                _ => false,
            },
    ensures
        bridge_run(events) == messages(events),
    decreases events.len(),
{
    if events.len() > 0 {
        let rest = events.drop_first();
        assert forall|k: int| 0 <= k < rest.len() implies (#[trigger] rest[k]).1 && match rest[k].0 {
            EventView::Client(Some(message)) => !(message is Close),
            EventView::Upstream(Some(message)) => !(message is Close),
            _ => false,
        } by {
            assert(rest[k] == events[k + 1]);
        }
        law_messages_pass_unchanged(rest);
        assert(events[0].1);
    }
}

/// On every run, what goes over the bridge is a first part of the messages that came in, each as it
/// is and in its place: none is left out, put in, changed or overtaken before the bridge ends.
pub proof fn law_messages_keep_their_order(events: Seq<(EventView, bool)>)
    ensures
        bridge_run(events).len() <= messages(events).len(),
        bridge_run(events) == messages(events).take(bridge_run(events).len() as int),
    decreases events.len(),
{
    if events.len() > 0 {
        let rest = events.drop_first();
        law_messages_keep_their_order(rest);
        let sent = bridge_run(events);
        let came = messages(events);
        assert(sent =~= came.take(sent.len() as int));
    }
}

/// What the bridge does on each event, written out.
pub proof fn law_bridge_steps_are_exact(message: MessageView, last: bool, delivered: bool)
    ensures
        bridge_step(EventView::Client(None)) is Finish,
        bridge_step(EventView::Upstream(None)) is Finish,
        bridge_step(EventView::Client(Some(message))) == (StepView::Send {
            to_client: false,
            message,
            last: message is Close,
        }),
        message is Frame ==> bridge_step(EventView::Upstream(Some(message))) is Receive,
        !(message is Frame) ==> bridge_step(EventView::Upstream(Some(message))) == (StepView::Send {
            to_client: true,
            message,
            last: message is Close,
        }),
        after_sending(last, delivered) is Receive <==> delivered && !last,
        after_sending(last, delivered) is Finish <==> !delivered || last,
{
}

/// What a message is seen as is what it says, with its kind.
pub proof fn law_views_of_messages_are_faithful(down: ClientMessage, up: UpstreamMessage)
    ensures
        down matches ClientMessage::Text(t) ==> down@ == MessageView::Text(t@),
        down matches ClientMessage::Binary(b) ==> down@ == MessageView::Binary(b@),
        down matches ClientMessage::Ping(b) ==> down@ == MessageView::Ping(b@),
        down matches ClientMessage::Pong(b) ==> down@ == MessageView::Pong(b@),
        down matches ClientMessage::Close(None) ==> down@ == MessageView::Close(None),
        down matches ClientMessage::Close(Some(f)) ==> down@ == MessageView::Close(
            Some((f.code, f.reason@)),
        ),
        up matches UpstreamMessage::Text(t) ==> up@ == MessageView::Text(t@),
        up matches UpstreamMessage::Binary(b) ==> up@ == MessageView::Binary(b@),
        up matches UpstreamMessage::Ping(b) ==> up@ == MessageView::Ping(b@),
        up matches UpstreamMessage::Pong(b) ==> up@ == MessageView::Pong(b@),
        up matches UpstreamMessage::Close(None) ==> up@ == MessageView::Close(None),
        up matches UpstreamMessage::Close(Some(f)) ==> up@ == MessageView::Close(
            Some((f.code, f.reason@)),
        ),
        up is Frame ==> up@ is Frame,
{
}

} // verus!

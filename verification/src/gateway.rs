use vstd::prelude::*;
use vstd::string::*;

use crate::utility::str_eq;

verus! {

/// The lifecycle of the one gateway connection of the process.
#[derive(Clone, Copy, Debug, PartialEq, Eq, Structural)]
pub enum SessionState {
    /// Resolving the gateway endpoint and opening the socket.
    Connecting,
    /// The socket is open and the identify frame has been sent; no
    /// inbound frame has been processed yet.
    Identifying,
    /// Inbound frames are being processed.
    Ready,
    /// A close frame or a transport error ended the session; nothing is
    /// processed any more and no reconnect is attempted.
    Closed,
}

/// What the read loop must do with one decoded inbound frame.
#[derive(Clone, Copy, Debug, PartialEq, Eq, Structural)]
pub enum FrameAction {
    /// A first hello frame: start the periodic heartbeat at the given
    /// interval in milliseconds.
    StartHeartbeat(u64),
    /// A further hello frame mid-session: cancel the running heartbeat
    /// task and start one at the new interval, never a second timer.
    ReplaceHeartbeat(u64),
    /// A dispatch frame: hand its payload to the event router, without
    /// blocking the read loop.
    Dispatch,
    /// An operation code with no client duty: do nothing.
    Ignore,
    /// A hello frame without an interval: a malformed control frame tears
    /// the session down.
    Fatal,
}

/// The identify frame sent right after connecting: the authentication
/// token, fixed platform properties, and the intent bitmask.
pub open spec fn identify_payload(token: Seq<char>) -> Seq<char> {
    "{\"op\": 2, \"d\": {\"token\": \""@ + token
        + "\", \"properties\": {\"os\": \"linux\", \"device\": \"device\", \"browser\": \"browser\"}, \"intents\": 1536}}"@
}

/// The fixed body of every client heartbeat frame.
pub fn heartbeat_request() -> (r: &'static str)
    ensures
        r@ == "{\"op\":1, \"d\":null}"@,
{
    "{\"op\":1, \"d\":null}"
}

/// The one gateway session: its lifecycle state and the heartbeat
/// interval the server dictated, once known.
pub struct GatewaySession {
    pub state: SessionState,
    pub heartbeat_interval: Option<u64>,
}

impl GatewaySession {
    /// A session about to resolve the gateway endpoint.
    pub fn new() -> (r: GatewaySession)
        ensures
            r.state == SessionState::Connecting,
            r.heartbeat_interval is None,
    {
        GatewaySession { state: SessionState::Connecting, heartbeat_interval: None }
    }

    /// The socket is open: yields the identify frame to send, fire and
    /// forget, and moves to `Identifying`.
    pub fn connected(&mut self, token: &str) -> (identify: String)
        requires
            old(self).state == SessionState::Connecting,
        ensures
            final(self).state == SessionState::Identifying,
            final(self).heartbeat_interval == old(self).heartbeat_interval,
            identify@ == identify_payload(token@),
    {
        self.state = SessionState::Identifying;
        let mut out = String::from_str("{\"op\": 2, \"d\": {\"token\": \"");
        out.append(token);
        out.append(
            "\", \"properties\": {\"os\": \"linux\", \"device\": \"device\", \"browser\": \"browser\"}, \"intents\": 1536}}",
        );
        out
    }

    /// Routes one decoded inbound frame. The first processed frame enters
    /// `Ready`; a hello frame starts the heartbeat, or replaces the
    /// running one when the server sends hello again mid-session; a
    /// dispatch frame goes to the event router; a hello frame without an
    /// interval is a malformed control frame and closes the session.
    pub fn on_frame(&mut self, op: u64, heartbeat_interval: Option<u64>) -> (a: FrameAction)
        requires
            old(self).state == SessionState::Identifying || old(self).state == SessionState::Ready,
        ensures
            a == (if op == 10 {
                match heartbeat_interval {
                    Some(ms) => if old(self).heartbeat_interval is Some {
                        FrameAction::ReplaceHeartbeat(ms)
                    } else {
                        FrameAction::StartHeartbeat(ms)
                    },
                    None => FrameAction::Fatal,
                }
            } else if op == 0 {
                FrameAction::Dispatch
            } else {
                FrameAction::Ignore
            }),
            final(self).state == (if op == 10 && heartbeat_interval is None {
                SessionState::Closed
            } else {
                SessionState::Ready
            }),
            final(self).heartbeat_interval == (if op == 10 && heartbeat_interval is Some {
                heartbeat_interval
            } else {
                old(self).heartbeat_interval
            }),
    {
        if op == 10 {
            match heartbeat_interval {
                Some(ms) => {
                    let had = self.heartbeat_interval.is_some();
                    self.heartbeat_interval = Some(ms);
                    self.state = SessionState::Ready;
                    if had {
                        FrameAction::ReplaceHeartbeat(ms)
                    } else {
                        FrameAction::StartHeartbeat(ms)
                    }
                },
                None => {
                    self.state = SessionState::Closed;
                    FrameAction::Fatal
                },
            }
        } else {
            self.state = SessionState::Ready;
            if op == 0 {
                FrameAction::Dispatch
            } else {
                FrameAction::Ignore
            }
        }
    }

    /// A close frame or a transport error: the session ends, the read
    /// loop stops and the heartbeat task is stopped with it.
    pub fn close(&mut self)
        ensures
            final(self).state == SessionState::Closed,
            final(self).heartbeat_interval is None,
    {
        self.state = SessionState::Closed;
        self.heartbeat_interval = None;
    }
}

/// Where one dispatch frame's payload goes.
#[derive(Clone, Copy, Debug, PartialEq, Eq, Structural)]
pub enum EventRoute {
    /// A user-authored message: the mention check runs first, then
    /// ordinary word handling.
    HandleMessage,
    /// A reaction was added: the vote update runs.
    HandleReaction,
    /// The bot's own message, or an unknown event tag: nothing to do.
    Skip,
}

/// The dispatch table of the event router, keyed by the event-type tag;
/// messages authored by the bot itself are never handled.
pub fn event_route(event_type: &str, author_is_bot: bool) -> (r: EventRoute)
    ensures
        r == (if event_type@ == "MESSAGE_CREATE"@ && !author_is_bot {
            EventRoute::HandleMessage
        } else if event_type@ == "MESSAGE_REACTION_ADD"@ {
            EventRoute::HandleReaction
        } else {
            EventRoute::Skip
        }),
{
    proof {
        reveal_strlit("MESSAGE_CREATE");
        reveal_strlit("MESSAGE_REACTION_ADD");
        assert(("MESSAGE_CREATE"@).len() == 14);
        assert(("MESSAGE_REACTION_ADD"@).len() == 20);
        assert("MESSAGE_CREATE"@ != "MESSAGE_REACTION_ADD"@);
    }
    if str_eq(event_type, "MESSAGE_CREATE") {
        if author_is_bot {
            EventRoute::Skip
        } else {
            EventRoute::HandleMessage
        }
    } else if str_eq(event_type, "MESSAGE_REACTION_ADD") {
        EventRoute::HandleReaction
    } else {
        EventRoute::Skip
    }
}

} // verus!

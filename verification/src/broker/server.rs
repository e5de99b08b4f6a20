//! One connection of an agent: what each frame that arrives leads to, and
//! which broadcasts the connection gets.

use vstd::prelude::*;
use crate::broker::handlers::{
    handle_disconnect, handle_message, is_message_outcome, message_fits, HandlerResponse,
};
use crate::broker::protocol::{ClientMessage, FolderId, ServerMessage};
use crate::broker::state::{
    keeps_invariants, receives_broadcast, with_connection, with_disconnect, PeerAddr, ServerState,
    ServerStateView,
};

verus! {

/// Where the broker listens and how many broadcasts it keeps for slow
/// receivers.
#[derive(Debug, Clone)]
pub struct ServerConfig {
    pub addr: String,
    pub broadcast_capacity: usize,
}

impl Default for ServerConfig {
    fn default() -> (r: Self)
        ensures
            r.addr@ == "0.0.0.0:9000"@,
            r.broadcast_capacity == 100,
    {
        Self { addr: "0.0.0.0:9000".to_owned(), broadcast_capacity: 100 }
    }
}

/// What arrives on a connection.
#[derive(Debug)]
pub enum Frame {
    /// A text frame that holds a message.
    Message(ClientMessage),
    /// A text frame that holds no message.
    Unreadable,
    /// The agent closes the connection, or the stream has ended.
    Closed,
    /// The transport reports an error.
    Failed,
    /// Any other frame.
    Other,
    /// A message for the backups of the folder has arrived on the stream
    /// that all connections share.
    Broadcast { folder_id: FolderId },
}

/// What the broker does after a frame.
#[derive(Debug)]
pub enum ConnectionStep {
    /// Answer as the handler says and go on.
    Respond(HandlerResponse),
    /// Write the message that was broadcast to this connection, once.
    Forward,
    /// Go on without an answer.
    Ignore,
    /// Stop serving the connection.
    Stop,
}

/// What a frame leads to: a message is handled and answered; a close, an
/// end of the stream and an error of the transport end the connection,
/// which is then forgotten; a message that was broadcast for a folder is
/// forwarded exactly where the computer of the connection is a backup of
/// that folder; anything else is passed over.
pub open spec fn is_frame_outcome(
    frame: Frame,
    before: ServerStateView,
    after: ServerStateView,
    step: ConnectionStep,
    addr: PeerAddr,
) -> bool {
    match frame {
        Frame::Message(msg) => step matches ConnectionStep::Respond(r) && is_message_outcome(
            msg,
            before,
            after,
            r,
            addr,
        ),
        Frame::Closed | Frame::Failed => step is Stop && after == with_disconnect(before, addr),
        Frame::Unreadable | Frame::Other => step is Ignore && after == before,
        Frame::Broadcast { folder_id } => after == before && (if receives_broadcast(
            before,
            addr,
            folder_id@,
        ) {
            step is Forward
        } else {
            step is Ignore
        }),
    }
}

/// Takes a new connection in and greets the agent.
pub fn accept_connection(addr: PeerAddr, state: &mut ServerState) -> (r: ServerMessage)
    ensures
        r is Welcome,
        final(state)@ == with_connection(old(state)@, addr),
        keeps_invariants(old(state)@, final(state)@),
{
    state.register_connection(addr);
    ServerMessage::Welcome
}

/// Handles one frame that arrived on the connection from the address.
pub fn handle_connection(frame: Frame, addr: PeerAddr, state: &mut ServerState) -> (r: ConnectionStep)
    requires
        frame matches Frame::Message(msg) ==> message_fits(msg, old(state)@, addr),
    ensures
        is_frame_outcome(frame, old(state)@, final(state)@, r, addr),
        keeps_invariants(old(state)@, final(state)@),
{
    match frame {
        Frame::Message(msg) => ConnectionStep::Respond(handle_message(msg, addr, state)),
        Frame::Closed => {
            handle_disconnect(addr, state);
            ConnectionStep::Stop
        },
        Frame::Failed => {
            handle_disconnect(addr, state);
            ConnectionStep::Stop
        },
        Frame::Unreadable => ConnectionStep::Ignore,
        Frame::Other => ConnectionStep::Ignore,
        Frame::Broadcast { folder_id } => if state.should_receive_broadcast(&addr, &folder_id) {
            ConnectionStep::Forward
        } else {
            ConnectionStep::Ignore
        },
    }
}

} // verus!

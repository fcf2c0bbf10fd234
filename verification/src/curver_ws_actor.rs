use vstd::prelude::*;
use crate::game::player::PlayerUuid;
use crate::identity::is_random_uuid;
use crate::message::{CurverMessageToReceive, CurverMessageToSend, ForwardedMessage, Notice};

verus! {

/// The handle of one connection: the number under which the transport
/// delivers frames to that client.
#[derive(Debug, PartialEq, Eq, Clone, Copy, Hash, Structural)]
pub struct CurverAddress(pub u64);

/// What becomes of a frame that a client has sent.
#[derive(Debug, PartialEq, Eq)]
pub enum Intake {
    /// The frame held a message: it goes to the router.
    Forward(ForwardedMessage),
    /// The frame held none: the client is told so, and nobody else.
    Reply(CurverMessageToSend),
}

/// The content of what becomes of a frame.
pub enum IntakeView {
    Forward(ForwardedMessage),
    Reply(Notice),
}

impl View for Intake {
    type V = IntakeView;

    open spec fn view(&self) -> IntakeView {
        match *self {
            Intake::Forward(message) => IntakeView::Forward(message),
            Intake::Reply(message) => IntakeView::Reply(message@),
        }
    }
}

/// The server's end of one connection: the identity that the client got
/// when it connected, and the handle on which it is answered.
#[derive(Debug, PartialEq, Eq, Clone, Copy, Structural)]
pub struct CurverWebSocketActor {
    pub id: PlayerUuid,
    pub address: CurverAddress,
}

impl CurverWebSocketActor {
    /// The end of a connection that has just been accepted: its client gets
    /// a fresh, random identity.
    pub fn new(address: CurverAddress) -> (actor: CurverWebSocketActor)
        ensures
            actor.address == address,
            is_random_uuid(actor.id.0),
    {
        CurverWebSocketActor { id: PlayerUuid::new(), address }
    }

    /// Decides on a text frame: `decoded` is the message that the frame
    /// held, or `None` if it held none. A message goes to the router with
    /// the client's identity and handle; anything else comes back to the
    /// client as it was sent.
    pub fn handle(&self, text: String, decoded: Option<CurverMessageToReceive>) -> (intake: Intake)
        ensures
            intake@ == (match decoded {
                Some(message) => IntakeView::Forward(
                    ForwardedMessage { message, user_id: self.id, address: self.address },
                ),
                None => IntakeView::Reply(Notice::FaultyMessage { message: text@ }),
            }),
    {
        match decoded {
            Some(message) => Intake::Forward(
                ForwardedMessage { message, user_id: self.id, address: self.address },
            ),
            None => Intake::Reply(CurverMessageToSend::FaultyMessage { message: text }),
        }
    }

    /// What the router gets when the connection has closed: the client's
    /// request to leave its room.
    pub fn finished(&self) -> (message: ForwardedMessage)
        ensures
            message == (ForwardedMessage {
                message: CurverMessageToReceive::LeaveRoom,
                user_id: self.id,
                address: self.address,
            }),
    {
        ForwardedMessage {
            user_id: self.id,
            address: self.address,
            message: CurverMessageToReceive::LeaveRoom,
        }
    }
}

} // verus!

use vstd::prelude::*;
use crate::curver_ws_actor::CurverAddress;
use crate::game::path::{Node, Path};
use crate::game::player::{Player, PlayerUuid};
use crate::game::{GameOutcome, GameState};
use crate::room::RoomUuid;
use crate::table::Table;

verus! {

/// A client's message on its way through the server, with the identity of
/// the client and the handle on which it is answered.
#[derive(Debug, PartialEq, Eq, Clone, Copy, Structural)]
pub struct ForwardedMessage {
    pub message: CurverMessageToReceive,
    pub user_id: PlayerUuid,
    pub address: CurverAddress,
}

/// What the server tells a client.
#[derive(Debug, PartialEq, Eq, Clone)]
pub enum CurverMessageToSend {
    JoinRoomError { reason: String },
    JoinedRoom { room_id: RoomUuid, user_id: PlayerUuid },
    LeftRoom,
    LeaveRoomError { reason: String },
    Update { players: Vec<Player>, game_state: GameState },
    SyncPaths { paths: Table<Path> },
    GameEnded { outcome: GameOutcome, score_board: Table<u32> },
    UserEliminated { user_id: PlayerUuid },
    FaultyMessage { message: String },
}

/// What a client tells the server. The two components of a rotation are
/// fixed-point numbers in which `HEADING_SCALE` stands for one.
#[derive(Debug, PartialEq, Eq, Clone, Copy, Structural)]
pub enum CurverMessageToReceive {
    CreateRoom,
    JoinRoom { room_id: RoomUuid },
    LeaveRoom,
    Rotate { angle_unit_vector_x: i32, angle_unit_vector_y: i32 },
    IsReady { is_ready: bool },
}

/// The trails of a table of paths: each key with the nodes of its path.
pub open spec fn trails_of(paths: Seq<(u128, Path)>) -> Seq<(u128, Seq<Node>)> {
    Seq::new(paths.len(), |i: int| (paths[i].0, paths[i].1@))
}

/// The content of a message to a client.
pub enum Notice {
    JoinRoomError { reason: Seq<char> },
    JoinedRoom { room_id: RoomUuid, user_id: PlayerUuid },
    LeftRoom,
    LeaveRoomError { reason: Seq<char> },
    Update { players: Seq<Player>, game_state: GameState },
    SyncPaths { paths: Seq<(u128, Seq<Node>)> },
    GameEnded { outcome: GameOutcome, score_board: Seq<(u128, u32)> },
    UserEliminated { user_id: PlayerUuid },
    FaultyMessage { message: Seq<char> },
}

impl View for CurverMessageToSend {
    type V = Notice;

    open spec fn view(&self) -> Notice {
        match *self {
            CurverMessageToSend::JoinRoomError { reason } => Notice::JoinRoomError {
                reason: reason@,
            },
            CurverMessageToSend::JoinedRoom { room_id, user_id } => Notice::JoinedRoom {
                room_id,
                user_id,
            },
            CurverMessageToSend::LeftRoom => Notice::LeftRoom,
            CurverMessageToSend::LeaveRoomError { reason } => Notice::LeaveRoomError {
                reason: reason@,
            },
            CurverMessageToSend::Update { players, game_state } => Notice::Update {
                players: players@,
                game_state,
            },
            CurverMessageToSend::SyncPaths { paths } => Notice::SyncPaths {
                paths: trails_of(paths@),
            },
            CurverMessageToSend::GameEnded { outcome, score_board } => Notice::GameEnded {
                outcome,
                score_board: score_board@,
            },
            CurverMessageToSend::UserEliminated { user_id } => Notice::UserEliminated { user_id },
            CurverMessageToSend::FaultyMessage { message } => Notice::FaultyMessage {
                message: message@,
            },
        }
    }
}

/// The contents of a list of messages, in order.
pub open spec fn notices(messages: Seq<CurverMessageToSend>) -> Seq<Notice> {
    Seq::new(messages.len(), |i: int| messages[i]@)
}

/// Adding a message to a list adds its content to the contents.
pub proof fn lemma_notices_push(messages: Seq<CurverMessageToSend>, message: CurverMessageToSend)
    ensures
        notices(messages.push(message)) == notices(messages).push(message@),
{
    assert(notices(messages.push(message)) =~= notices(messages).push(message@));
}

} // verus!

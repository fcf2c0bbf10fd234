use std::collections::{HashMap, HashSet};
use vstd::prelude::*;
use crate::curver_error::ServerError;
use crate::curver_ws_actor::CurverAddress;
use crate::game::player::PlayerUuid;
use crate::identity::is_random_uuid;
use crate::message::{CurverMessageToReceive, CurverMessageToSend, ForwardedMessage, Notice};
use crate::room::RoomUuid;

verus! {

broadcast use vstd::std_specs::hash::group_hash_axioms;

/// What the router has to have done after a message, in this order: a room
/// brought to life, a message put into the inbox of a room, and an answer
/// sent to the handle that the message came from.
#[derive(Debug, PartialEq, Eq)]
pub struct Dispatch {
    pub spawn_room: Option<RoomUuid>,
    pub forward: Option<(RoomUuid, ForwardedMessage)>,
    pub reply: Option<CurverMessageToSend>,
}

/// The rooms after the message: a request to create a room adds the room
/// `fresh`.
pub open spec fn rooms_after(
    rooms: Set<u128>,
    message: CurverMessageToReceive,
    fresh: RoomUuid,
) -> Set<u128> {
    match message {
        CurverMessageToReceive::CreateRoom => rooms.insert(fresh.0),
        _ => rooms,
    }
}

/// The room of each user after the message of `user_id`: who creates a room
/// is in it, who joins a room that exists is in that room, and who leaves is
/// in none.
pub open spec fn room_map_after(
    rooms: Set<u128>,
    room_map: Map<u128, RoomUuid>,
    message: CurverMessageToReceive,
    user_id: PlayerUuid,
    fresh: RoomUuid,
) -> Map<u128, RoomUuid> {
    match message {
        CurverMessageToReceive::CreateRoom => room_map.insert(user_id.0, fresh),
        CurverMessageToReceive::JoinRoom { room_id } => if rooms.contains(room_id.0) {
            room_map.insert(user_id.0, room_id)
        } else {
            room_map
        },
        CurverMessageToReceive::LeaveRoom => room_map.remove(user_id.0),
        _ => room_map,
    }
}

/// The room that a message of the user `user_id` goes to: the one that the
/// user is in, if that room still exists.
pub open spec fn room_of(rooms: Set<u128>, room_map: Map<u128, RoomUuid>, user_id: PlayerUuid) -> Option<
    RoomUuid,
> {
    if room_map.contains_key(user_id.0) && rooms.contains(room_map[user_id.0].0) {
        Some(room_map[user_id.0])
    } else {
        None
    }
}

/// `message` addressed to the room `room_id`, if there is one.
pub open spec fn addressed(room_id: Option<RoomUuid>, message: ForwardedMessage) -> Option<
    (RoomUuid, ForwardedMessage),
> {
    match room_id {
        Some(room_id) => Some((room_id, message)),
        None => None,
    }
}

/// What goes into the inbox of which room: who creates a room joins it; a
/// request to join goes to the room if it exists; everything else goes,
/// unchanged, to the room that the user is in, or nowhere.
pub open spec fn forward_of(
    rooms: Set<u128>,
    room_map: Map<u128, RoomUuid>,
    message: ForwardedMessage,
    fresh: RoomUuid,
) -> Option<(RoomUuid, ForwardedMessage)> {
    match message.message {
        CurverMessageToReceive::CreateRoom => Some(
            (
                fresh,
                ForwardedMessage {
                    message: CurverMessageToReceive::JoinRoom { room_id: fresh },
                    user_id: message.user_id,
                    address: message.address,
                },
            ),
        ),
        CurverMessageToReceive::JoinRoom { room_id } => if rooms.contains(room_id.0) {
            Some((room_id, message))
        } else {
            None
        },
        _ => addressed(room_of(rooms, room_map, message.user_id), message),
    }
}

/// What the router answers: that the user has joined, that the room does
/// not exist, or that the user has left. Moves of the game get no answer.
pub open spec fn reply_of(rooms: Set<u128>, message: ForwardedMessage, fresh: RoomUuid) -> Option<
    Notice,
> {
    match message.message {
        CurverMessageToReceive::CreateRoom => Some(
            Notice::JoinedRoom { room_id: fresh, user_id: message.user_id },
        ),
        CurverMessageToReceive::JoinRoom { room_id } => if rooms.contains(room_id.0) {
            Some(Notice::JoinedRoom { room_id, user_id: message.user_id })
        } else {
            Some(
                Notice::JoinRoomError { reason: ServerError::RoomDoesNotExist(room_id.0).message() },
            )
        },
        CurverMessageToReceive::LeaveRoom => Some(Notice::LeftRoom),
        _ => None,
    }
}

/// The content of an answer, if there is one.
pub open spec fn reply_notice(reply: Option<CurverMessageToSend>) -> Option<Notice> {
    match reply {
        Some(message) => Some(message@),
        None => None,
    }
}

/// The router: the rooms that exist, and the room that each user is in.
#[derive(Debug)]
pub struct ServerHandler {
    pub rooms: HashSet<u128>,
    pub room_map: HashMap<u128, RoomUuid>,
}

impl ServerHandler {
    /// Whether `after` and `dispatch` are what this router comes to by the
    /// message `message`, where a room that is created gets the identity
    /// `fresh`.
    pub open spec fn routes(
        &self,
        after: &ServerHandler,
        message: ForwardedMessage,
        fresh: RoomUuid,
        dispatch: Dispatch,
    ) -> bool {
        &&& after.rooms@ == rooms_after(self.rooms@, message.message, fresh)
        &&& after.room_map@ == room_map_after(
            self.rooms@,
            self.room_map@,
            message.message,
            message.user_id,
            fresh,
        )
        &&& dispatch.spawn_room == (if message.message is CreateRoom {
            Some(fresh)
        } else {
            None
        })
        &&& dispatch.forward == forward_of(self.rooms@, self.room_map@, message, fresh)
        &&& reply_notice(dispatch.reply) == reply_of(self.rooms@, message, fresh)
    }

    /// A router without rooms and users.
    pub fn new() -> (server: ServerHandler)
        ensures
            server.rooms@ == Set::<u128>::empty(),
            server.room_map@ == Map::<u128, RoomUuid>::empty(),
    {
        ServerHandler { rooms: HashSet::new(), room_map: HashMap::new() }
    }

    /// Handles one message of a client. A room that is created gets a
    /// fresh, random identity, which `dispatch.spawn_room` names.
    pub fn message_handler(&mut self, forwarded_message: ForwardedMessage) -> (dispatch: Dispatch)
        ensures
            forwarded_message.message is CreateRoom ==> dispatch.spawn_room.is_some()
                && is_random_uuid(dispatch.spawn_room.unwrap().0),
            old(self).routes(
                final(self),
                forwarded_message,
                match dispatch.spawn_room {
                    Some(fresh) => fresh,
                    None => RoomUuid(0),
                },
                dispatch,
            ),
    {
        let fresh = match forwarded_message.message {
            CurverMessageToReceive::CreateRoom => RoomUuid::new(),
            _ => RoomUuid(0),
        };
        self.route(forwarded_message, fresh)
    }

    /// Handles one message of a client, where a room that is created gets
    /// the identity `fresh`.
    pub fn route(&mut self, forwarded_message: ForwardedMessage, fresh: RoomUuid) -> (dispatch:
        Dispatch)
        ensures
            old(self).routes(final(self), forwarded_message, fresh, dispatch),
    {
        let user_id = forwarded_message.user_id;
        let address = forwarded_message.address;
        match forwarded_message.message {
            CurverMessageToReceive::CreateRoom => {
                self.add_room_transmitter(fresh);
                let forward = self.join_room_and_forward_message(fresh, user_id, address);
                Dispatch {
                    spawn_room: Some(fresh),
                    forward,
                    reply: Some(CurverMessageToSend::JoinedRoom { room_id: fresh, user_id }),
                }
            },
            CurverMessageToReceive::JoinRoom { room_id } => {
                if !self.check_if_room_exists(room_id) {
                    let reason = ServerError::RoomDoesNotExist(room_id.get_uuid()).to_string();
                    return Dispatch {
                        spawn_room: None,
                        forward: None,
                        reply: Some(CurverMessageToSend::JoinRoomError { reason }),
                    };
                }
                let forward = self.join_room_and_forward_message(room_id, user_id, address);
                Dispatch {
                    spawn_room: None,
                    forward,
                    reply: Some(CurverMessageToSend::JoinedRoom { room_id, user_id }),
                }
            },
            CurverMessageToReceive::LeaveRoom => {
                let forward = self.leave_room_and_forward_message(user_id, address);
                Dispatch { spawn_room: None, forward, reply: Some(CurverMessageToSend::LeftRoom) }
            },
            CurverMessageToReceive::Rotate { .. } => {
                let forward = self.send_message_to_room_by_user_id(user_id, forwarded_message);
                Dispatch { spawn_room: None, forward, reply: None }
            },
            CurverMessageToReceive::IsReady { .. } => {
                let forward = self.send_message_to_room_by_user_id(user_id, forwarded_message);
                Dispatch { spawn_room: None, forward, reply: None }
            },
        }
    }

    /// Brings a room with a fresh, random identity into the table of rooms.
    pub fn create_room(&mut self) -> (room_id: RoomUuid)
        ensures
            is_random_uuid(room_id.0),
            final(self).rooms@ == old(self).rooms@.insert(room_id.0),
            final(self).room_map@ == old(self).room_map@,
    {
        let room_id = RoomUuid::new();
        self.add_room_transmitter(room_id);
        room_id
    }

    /// Takes the room `room_id` out of the table of rooms, as is due when
    /// its last member has left.
    pub fn remove_room(&mut self, room_id: RoomUuid)
        ensures
            final(self).rooms@ == old(self).rooms@.remove(room_id.0),
            final(self).room_map@ == old(self).room_map@,
    {
        self.rooms.remove(&room_id.0);
    }

    /// Notes that the user `user_id` is in the room `room_id`, and hands
    /// the room the user's request to join, if the room exists.
    pub fn join_room_and_forward_message(
        &mut self,
        room_id: RoomUuid,
        user_id: PlayerUuid,
        address: CurverAddress,
    ) -> (forward: Option<(RoomUuid, ForwardedMessage)>)
        ensures
            final(self).rooms@ == old(self).rooms@,
            final(self).room_map@ == old(self).room_map@.insert(user_id.0, room_id),
            forward == (if old(self).rooms@.contains(room_id.0) {
                Some(
                    (
                        room_id,
                        ForwardedMessage {
                            message: CurverMessageToReceive::JoinRoom { room_id },
                            user_id,
                            address,
                        },
                    ),
                )
            } else {
                None
            }),
    {
        self.room_map.insert(user_id.0, room_id);
        self.send_message_to_room(
            room_id,
            ForwardedMessage {
                user_id,
                address,
                message: CurverMessageToReceive::JoinRoom { room_id },
            },
        )
    }

    /// Hands the room of the user `user_id`, if it is in one, the user's
    /// request to leave, and notes that the user is in no room.
    pub fn leave_room_and_forward_message(&mut self, user_id: PlayerUuid, address: CurverAddress) -> (forward:
        Option<(RoomUuid, ForwardedMessage)>)
        ensures
            final(self).rooms@ == old(self).rooms@,
            final(self).room_map@ == old(self).room_map@.remove(user_id.0),
            forward == addressed(
                room_of(old(self).rooms@, old(self).room_map@, user_id),
                ForwardedMessage { message: CurverMessageToReceive::LeaveRoom, user_id, address },
            ),
    {
        let forward = self.send_message_to_room_by_user_id(
            user_id,
            ForwardedMessage { user_id, address, message: CurverMessageToReceive::LeaveRoom },
        );
        self.room_map.remove(&user_id.0);
        forward
    }

    /// Whether the room `room_id` exists.
    pub fn check_if_room_exists(&self, room_id: RoomUuid) -> (exists: bool)
        ensures
            exists == self.rooms@.contains(room_id.0),
    {
        self.rooms.contains(&room_id.0)
    }

    /// Addresses `message` to the room that the user `user_id` is in, if it
    /// is in one that exists. A message of a user in no room is dropped.
    pub fn send_message_to_room_by_user_id(&self, user_id: PlayerUuid, message: ForwardedMessage) -> (forward:
        Option<(RoomUuid, ForwardedMessage)>)
        ensures
            forward == addressed(room_of(self.rooms@, self.room_map@, user_id), message),
    {
        match self.room_map.get(&user_id.0) {
            Some(room_id) => self.send_message_to_room(*room_id, message),
            None => None,
        }
    }

    /// Addresses `message` to the room `room_id`, if it exists.
    pub fn send_message_to_room(&self, room_id: RoomUuid, message: ForwardedMessage) -> (forward:
        Option<(RoomUuid, ForwardedMessage)>)
        ensures
            forward == (if self.rooms@.contains(room_id.0) {
                Some((room_id, message))
            } else {
                None
            }),
    {
        if self.rooms.contains(&room_id.0) {
            Some((room_id, message))
        } else {
            None
        }
    }

    /// Brings the room `room_id` into the table of rooms.
    pub fn add_room_transmitter(&mut self, room_id: RoomUuid)
        ensures
            final(self).rooms@ == old(self).rooms@.insert(room_id.0),
            final(self).room_map@ == old(self).room_map@,
    {
        self.rooms.insert(room_id.0);
    }
}

/// No user is in two rooms at once.
pub proof fn lemma_one_room_per_user(
    server: &ServerHandler,
    user_id: PlayerUuid,
    first: RoomUuid,
    second: RoomUuid,
)
    requires
        server.room_map@.contains_pair(user_id.0, first),
        server.room_map@.contains_pair(user_id.0, second),
    ensures
        first == second,
{
}

/// A room that has been retired takes no message: a request to join it is
/// refused, and nothing is forwarded to it.
pub proof fn lemma_retired_room_is_gone(
    rooms: Set<u128>,
    room_map: Map<u128, RoomUuid>,
    room_id: RoomUuid,
    message: ForwardedMessage,
    fresh: RoomUuid,
)
    requires
        !(message.message is CreateRoom),
    ensures
        match forward_of(rooms.remove(room_id.0), room_map, message, fresh) {
            Some(forward) => forward.0 != room_id,
            None => true,
        },
        message.message == (CurverMessageToReceive::JoinRoom { room_id }) ==> reply_of(
            rooms.remove(room_id.0),
            message,
            fresh,
        ) == Some(
            Notice::JoinRoomError { reason: ServerError::RoomDoesNotExist(room_id.0).message() },
        ),
{
}

} // verus!

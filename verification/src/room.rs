use vstd::prelude::*;
use crate::constants::{MAP_HEIGHT, MAP_WIDTH};
use crate::curver_ws_actor::CurverAddress;
use crate::game::player::{Player, PlayerUuid};
use crate::game::path::Node;
use crate::game::{
    lemma_sweep_keys, lemma_sweep_trails, lemma_trails_index, next_count, player_steady,
    starting_trails, turned, with_trail_begun, outcome_of, players_wf, reset_all, scores_after, sweep,
    tick_notices, Clients, Game, GameState, Players, ScoreBoard, TickReport,
};
use crate::identity::{hyphenated, is_random_uuid, random_uuid, uuid_hyphenated};
use crate::start::{
    draw_angles, lemma_radius_times, placed, placed_all, start_angles, Heading, FULL_TURN,
};
use crate::message::{
    notices, trails_of, CurverMessageToReceive, CurverMessageToSend, ForwardedMessage, Notice,
};
use crate::table::{
    has_key, index_of, key_set, lemma_index_of, lemma_update_keeps_keys, lemma_without_key,
    values_of, with_entry, without_key, Table,
};

verus! {

/// Identity of a room: an opaque 128-bit number.
#[derive(Debug, PartialEq, Eq, Clone, Copy, Hash, Structural)]
pub struct RoomUuid(pub u128);

impl RoomUuid {
    /// A fresh, random identity.
    pub fn new() -> (id: RoomUuid)
        ensures
            is_random_uuid(id.0),
    {
        RoomUuid(random_uuid())
    }

    /// The 128-bit value of the identity.
    pub fn get_uuid(&self) -> (value: u128)
        ensures
            value == self.0,
    {
        self.0
    }

    /// The identity as it is written on the wire.
    pub fn to_string(&self) -> (text: String)
        ensures
            text@ == uuid_hyphenated(self.0),
    {
        hyphenated(self.0)
    }
}

/// The player that a client is when it has just joined: at the origin,
/// without a heading, not ready.
pub open spec fn newcomer(user_id: PlayerUuid) -> Player {
    Player {
        id: user_id,
        x: 0,
        y: 0,
        angle_unit_vector_x: 0,
        angle_unit_vector_y: 0,
        is_ready: false,
    }
}

/// Whether a round can begin with these players: there are at least two,
/// and all are ready.
pub open spec fn ready_to_start(players: Seq<(u128, Player)>) -> bool {
    &&& players.len() >= 2
    &&& forall|i: int| 0 <= i < players.len() ==> (#[trigger] players[i]).1.is_ready
}

/// `players` after the player `key`, if there is one, has said whether it
/// is ready.
pub open spec fn with_readiness(players: Seq<(u128, Player)>, key: u128, is_ready: bool) -> Seq<
    (u128, Player),
> {
    let i = index_of(players, key);
    if i < players.len() {
        players.update(i, (key, Player { is_ready, ..players[i].1 }))
    } else {
        players
    }
}

/// What the room's owner has to do after a message.
#[derive(Debug, PartialEq, Eq, Clone, Copy, Structural)]
pub enum RoomStep {
    /// Nothing but to wait for the next message.
    Continue,
    /// Everybody is ready: begin the countdown.
    StartCountdown,
    /// The last member has left: retire the room.
    Retire,
}

/// What the room answers to a message: what to tell every member, in this
/// order, and what to do next.
#[derive(Debug, PartialEq, Eq)]
pub struct RoomReaction {
    pub messages: Vec<CurverMessageToSend>,
    pub step: RoomStep,
}

/// One room: its members, their players and scores, the state of the game
/// and, while a round runs, its engine.
#[derive(Debug)]
pub struct Room {
    pub clients: Clients,
    pub players: Players,
    pub game_state: GameState,
    pub score_board: ScoreBoard,
    pub game: Option<Game>,
}

impl Room {
    /// The invariant of a room: its tables are well-formed, every player is
    /// a member, an engine exists exactly while a round runs, and in a
    /// running round every player has a trail.
    pub open spec fn wf(&self) -> bool {
        &&& self.clients.wf()
        &&& players_wf(self.players@)
        &&& self.score_board.wf()
        &&& self.players.keys().subset_of(self.clients.keys())
        &&& (self.game_state == GameState::Started <==> self.game.is_some())
        &&& (self.game.is_some() ==> self.game.unwrap().wf())
        &&& (self.game.is_some() ==> key_set(self.players@).subset_of(
            key_set(trails_of(self.game.unwrap().paths@)),
        ))
    }

    /// Whether the members are exactly the players.
    pub open spec fn members_are_players(&self) -> bool {
        self.clients.keys() == self.players.keys()
    }

    /// The notice of who plays and in which state the room is.
    pub open spec fn update_notice(&self) -> Notice {
        Notice::Update { players: values_of(self.players@), game_state: self.game_state }
    }

    /// Whether `after` is this room with nothing changed but the players.
    pub open spec fn only_players_differ(&self, after: &Room) -> bool {
        &&& after.clients == self.clients
        &&& after.game_state == self.game_state
        &&& after.score_board == self.score_board
        &&& after.game == self.game
    }

    /// Whether `after` is this room after the client `user_id` has joined
    /// with the handle `address`: it is a member with that handle, its
    /// player is a newcomer, whatever it was before, and in a running round
    /// it has a trail, which begins at the origin unless it had one.
    pub open spec fn joined(&self, after: &Room, user_id: PlayerUuid, address: CurverAddress) -> bool {
        &&& after.clients@ == with_entry(self.clients@, user_id.0, address)
        &&& after.players@ == with_entry(self.players@, user_id.0, newcomer(user_id))
        &&& after.game_state == self.game_state
        &&& after.score_board == self.score_board
        &&& after.game.is_some() == self.game.is_some()
        &&& self.game.is_some() ==> {
            &&& trails_of(after.game.unwrap().paths@) == with_trail_begun(
                trails_of(self.game.unwrap().paths@),
                user_id.0,
                Node(0, 0),
            )
            &&& after.game.unwrap().tick_count == self.game.unwrap().tick_count
        }
    }

    /// Whether `after` is this room after the client `user_id` has left: it
    /// is no member, has no player and, if a round runs, no trail.
    pub open spec fn left(&self, after: &Room, user_id: PlayerUuid) -> bool {
        &&& after.clients@ == without_key(self.clients@, user_id.0)
        &&& after.players@ == without_key(self.players@, user_id.0)
        &&& after.game_state == self.game_state
        &&& after.score_board == self.score_board
        &&& after.game.is_some() == self.game.is_some()
        &&& self.game.is_some() ==> {
            &&& trails_of(after.game.unwrap().paths@) == without_key(
                trails_of(self.game.unwrap().paths@),
                user_id.0,
            )
            &&& after.game.unwrap().tick_count == self.game.unwrap().tick_count
        }
    }

    /// Whether `after` is this room after the player `user_id`, if there is
    /// one, has said whether it is ready.
    pub open spec fn readied(&self, after: &Room, user_id: PlayerUuid, is_ready: bool) -> bool {
        &&& after.players@ == with_readiness(self.players@, user_id.0, is_ready)
        &&& self.only_players_differ(after)
    }

    /// Whether `after` is this room after the player `user_id`, if there is
    /// one, has turned to the heading (`x`, `y`), taken as it came.
    pub open spec fn rotated(&self, after: &Room, user_id: PlayerUuid, x: i32, y: i32) -> bool {
        &&& after.players@ == turned(self.players@, user_id.0, x, y)
        &&& self.only_players_differ(after)
    }

    /// A room without members, waiting.
    pub fn new() -> (room: Room)
        ensures
            room.wf(),
            room.clients@.len() == 0,
            room.players@.len() == 0,
            room.score_board@.len() == 0,
            room.game_state == GameState::Waiting,
            room.game.is_none(),
            room.members_are_players(),
    {
        let room = Room {
            clients: Table::new(),
            players: Table::new(),
            game_state: GameState::Waiting,
            score_board: Table::new(),
            game: None,
        };
        assert(room.clients.keys() =~= room.players.keys());
        room
    }

    /// The message that tells who plays and in which state the room is.
    pub fn send_update_to_all(&self) -> (message: CurverMessageToSend)
        ensures
            message@ == self.update_notice(),
    {
        Game::update_message(&self.players, self.game_state)
    }

    /// Handles one message of a member, or of a client that becomes one.
    /// The room never gets a request to create a room.
    pub fn message_handler(&mut self, forwarded_message: ForwardedMessage) -> (reaction:
        RoomReaction)
        requires
            old(self).wf(),
            !(forwarded_message.message is CreateRoom),
        ensures
            final(self).wf(),
            old(self).members_are_players() ==> final(self).members_are_players(),
            match forwarded_message.message {
                CurverMessageToReceive::JoinRoom { .. } => {
                    &&& old(self).joined(
                        final(self),
                        forwarded_message.user_id,
                        forwarded_message.address,
                    )
                    &&& notices(reaction.messages@) == seq![final(self).update_notice()]
                    &&& reaction.step == RoomStep::Continue
                },
                CurverMessageToReceive::LeaveRoom => {
                    &&& old(self).left(final(self), forwarded_message.user_id)
                    &&& notices(reaction.messages@) == seq![
                        Notice::UserEliminated { user_id: forwarded_message.user_id },
                    ]
                    &&& reaction.step == (if final(self).clients@.len() == 0 {
                        RoomStep::Retire
                    } else {
                        RoomStep::Continue
                    })
                },
                CurverMessageToReceive::IsReady { is_ready } => {
                    &&& old(self).readied(final(self), forwarded_message.user_id, is_ready)
                    &&& notices(reaction.messages@) == seq![final(self).update_notice()]
                    &&& reaction.step == (if final(self).game_state == GameState::Waiting
                        && ready_to_start(final(self).players@) {
                        RoomStep::StartCountdown
                    } else {
                        RoomStep::Continue
                    })
                },
                CurverMessageToReceive::Rotate { angle_unit_vector_x, angle_unit_vector_y } => {
                    &&& old(self).rotated(
                        final(self),
                        forwarded_message.user_id,
                        angle_unit_vector_x,
                        angle_unit_vector_y,
                    )
                    &&& reaction.messages@.len() == 0
                    &&& reaction.step == RoomStep::Continue
                },
                CurverMessageToReceive::CreateRoom => false,
            },
    {
        match forwarded_message.message {
            CurverMessageToReceive::JoinRoom { .. } => {
                let messages = self.join_room_and_notify_all(
                    forwarded_message.user_id,
                    forwarded_message.address,
                );
                RoomReaction { messages, step: RoomStep::Continue }
            },
            CurverMessageToReceive::LeaveRoom => {
                let messages = self.leave_room_and_notify_all(forwarded_message.user_id);
                let step = if self.check_if_clients_empty() {
                    RoomStep::Retire
                } else {
                    RoomStep::Continue
                };
                RoomReaction { messages, step }
            },
            CurverMessageToReceive::IsReady { is_ready } => {
                let messages = self.toggle_ready_for_user_and_notify_all(
                    forwarded_message.user_id,
                    is_ready,
                );
                let waiting = match self.game_state {
                    GameState::Waiting => true,
                    _ => false,
                };
                let step = if waiting && self.check_if_ready_to_start() {
                    RoomStep::StartCountdown
                } else {
                    RoomStep::Continue
                };
                RoomReaction { messages, step }
            },
            CurverMessageToReceive::Rotate { angle_unit_vector_x, angle_unit_vector_y } => {
                self.rotate_player(
                    forwarded_message.user_id,
                    angle_unit_vector_x,
                    angle_unit_vector_y,
                );
                RoomReaction { messages: Vec::new(), step: RoomStep::Continue }
            },
            CurverMessageToReceive::CreateRoom => {
                RoomReaction { messages: Vec::new(), step: RoomStep::Continue }
            },
        }
    }

    /// Makes the client `user_id` a member and a player, and tells all
    /// members who plays now.
    pub fn join_room_and_notify_all(&mut self, user_id: PlayerUuid, address: CurverAddress) -> (messages:
        Vec<CurverMessageToSend>)
        requires
            old(self).wf(),
        ensures
            final(self).wf(),
            old(self).joined(final(self), user_id, address),
            notices(messages@) == seq![final(self).update_notice()],
            old(self).members_are_players() ==> final(self).members_are_players(),
    {
        self.add_client(user_id, address);
        self.spawn_player(user_id);
        match &mut self.game {
            Some(game) => {
                game.begin_path(user_id, Node(0, 0));
            },
            None => {},
        }
        proof {
            if self.game.is_some() {
                let before = trails_of(old(self).game.unwrap().paths@);
                let after = trails_of(self.game.unwrap().paths@);
                assert forall|key: u128| has_key(self.players@, key) implies has_key(
                    after,
                    key,
                ) by {
                    assert(self.players.keys().contains(key));
                    if key == user_id.0 {
                        if !has_key(before, key) {
                            assert(after[before.len() as int].0 == key);
                        }
                    } else {
                        assert(old(self).players.keys().contains(key));
                        assert(key_set(before).contains(key));
                        let w = choose|j: int|
                            0 <= j < before.len() && (#[trigger] before[j]).0 == key;
                        assert(after[w].0 == key);
                    }
                }
            }
        }
        let update = self.send_update_to_all();
        let messages = vec![update];
        assert(notices(messages@) =~= seq![self.update_notice()]);
        messages
    }

    /// Gives the player `user_id`, if there is one, the heading (`x`, `y`)
    /// as it came: nothing makes a unit vector of it.
    pub fn rotate_player(
        &mut self,
        user_id: PlayerUuid,
        angle_unit_vector_x: i32,
        angle_unit_vector_y: i32,
    )
        requires
            old(self).wf(),
        ensures
            final(self).wf(),
            old(self).rotated(final(self), user_id, angle_unit_vector_x, angle_unit_vector_y),
            final(self).players.keys() == old(self).players.keys(),
    {
        Game::rotate_player(&mut self.players, user_id, angle_unit_vector_x, angle_unit_vector_y);
    }

    /// Takes the client `user_id` out of the room and tells those who stay
    /// that it is out.
    pub fn leave_room_and_notify_all(&mut self, user_id: PlayerUuid) -> (messages: Vec<
        CurverMessageToSend,
    >)
        requires
            old(self).wf(),
        ensures
            final(self).wf(),
            old(self).left(final(self), user_id),
            notices(messages@) == seq![Notice::UserEliminated { user_id }],
            old(self).members_are_players() ==> final(self).members_are_players(),
    {
        self.remove_client(user_id);
        let messages = vec![CurverMessageToSend::UserEliminated { user_id }];
        assert(notices(messages@) =~= seq![Notice::UserEliminated { user_id }]);
        messages
    }

    /// Whether a round can begin: at least two players, all of them ready.
    pub fn check_if_ready_to_start(&self) -> (ready: bool)
        ensures
            ready == ready_to_start(self.players@),
    {
        if self.players.len() < 2 {
            return false;
        }
        let mut i: usize = 0;
        while i < self.players.len()
            invariant
                i <= self.players@.len(),
                self.players@.len() >= 2,
                forall|j: int| 0 <= j < i ==> (#[trigger] self.players@[j]).1.is_ready,
            decreases self.players@.len() - i,
        {
            if !self.players.value_at(i).is_ready {
                return false;
            }
            i += 1;
        }
        true
    }

    /// Makes the client `player_id` a player that has just joined.
    pub fn spawn_player(&mut self, player_id: PlayerUuid)
        requires
            old(self).clients.wf(),
            players_wf(old(self).players@),
        ensures
            final(self).players@ == with_entry(old(self).players@, player_id.0, newcomer(player_id)),
            final(self).players.keys() == old(self).players.keys().insert(player_id.0),
            players_wf(final(self).players@),
            old(self).only_players_differ(final(self)),
    {
        let player = Player {
            id: player_id,
            x: 0,
            y: 0,
            angle_unit_vector_x: 0,
            angle_unit_vector_y: 0,
            is_ready: false,
        };
        proof {
            lemma_index_of(self.players@, player_id.0);
        }
        self.players.insert(player_id.0, player);
    }

    /// Places every player for a new round: the player at place `i` of the
    /// table gets the heading at place `i` of `headings` and stands where
    /// that heading leads to the middle of the map after the length of the
    /// radius of the start circle.
    pub fn position_all_players(&mut self, headings: &Vec<Heading>)
        requires
            players_wf(old(self).players@),
            headings@.len() >= old(self).players@.len(),
        ensures
            final(self).players@ == placed_all(old(self).players@, headings@),
            final(self).players.keys() == old(self).players.keys(),
            players_wf(final(self).players@),
            old(self).only_players_differ(final(self)),
    {
        let ghost start = self.players@;
        let mut i: usize = 0;
        while i < self.players.len()
            invariant
                i <= self.players@.len(),
                self.players@.len() == start.len(),
                headings@.len() >= start.len(),
                players_wf(start),
                players_wf(self.players@),
                self.players.keys() == old(self).players.keys(),
                old(self).only_players_differ(self),
                start == old(self).players@,
                forall|j: int|
                    0 <= j < i ==> #[trigger] self.players@[j] == (
                        start[j].0,
                        placed(start[j].1, headings@[j]),
                    ),
                forall|j: int| i <= j < start.len() ==> #[trigger] self.players@[j] == start[j],
            decreases self.players@.len() - i,
        {
            let player: Player = *self.players.value_at(i);
            let heading: Heading = headings[i];
            proof {
                lemma_radius_times(heading.x as int);
                lemma_radius_times(heading.y as int);
            }
            let moved = Player {
                id: player.id,
                x: MAP_WIDTH / 2 - 80 * (heading.x as i64),
                y: MAP_HEIGHT / 2 - 80 * (heading.y as i64),
                angle_unit_vector_x: heading.x,
                angle_unit_vector_y: heading.y,
                is_ready: player.is_ready,
            };
            assert(moved == placed(player, heading));
            proof {
                lemma_update_keeps_keys(self.players@, i as int, moved);
            }
            self.players.set_value(i, moved);
            i += 1;
        }
        assert(self.players@ =~= placed_all(start, headings@));
    }

    /// Makes the client `user_id` a member with the handle `address`.
    pub fn add_client(&mut self, user_id: PlayerUuid, address: CurverAddress)
        requires
            old(self).clients.wf(),
        ensures
            final(self).clients@ == with_entry(old(self).clients@, user_id.0, address),
            final(self).clients.keys() == old(self).clients.keys().insert(user_id.0),
            final(self).clients.wf(),
            final(self).players == old(self).players,
            final(self).game_state == old(self).game_state,
            final(self).score_board == old(self).score_board,
            final(self).game == old(self).game,
    {
        self.clients.insert(user_id.0, address);
    }

    /// Notes whether the player `user_id`, if there is one, is ready, and
    /// tells all members.
    pub fn toggle_ready_for_user_and_notify_all(&mut self, user_id: PlayerUuid, is_ready: bool) -> (messages:
        Vec<CurverMessageToSend>)
        requires
            old(self).wf(),
        ensures
            final(self).wf(),
            old(self).readied(final(self), user_id, is_ready),
            final(self).players.keys() == old(self).players.keys(),
            notices(messages@) == seq![final(self).update_notice()],
    {
        match self.players.position(user_id.0) {
            Some(i) => {
                let player: Player = *self.players.value_at(i);
                proof {
                    lemma_index_of(self.players@, user_id.0);
                    lemma_update_keeps_keys(self.players@, i as int, Player { is_ready, ..player });
                }
                self.players.set_value(i, Player { is_ready, ..player });
            },
            None => {},
        }
        let update = self.send_update_to_all();
        let messages = vec![update];
        assert(notices(messages@) =~= seq![self.update_notice()]);
        messages
    }

    /// Takes the client `user_id` out of the members, the players and, if a
    /// round runs, the trails.
    pub fn remove_client(&mut self, user_id: PlayerUuid)
        requires
            old(self).wf(),
        ensures
            final(self).wf(),
            old(self).left(final(self), user_id),
            old(self).members_are_players() ==> final(self).members_are_players(),
    {
        self.clients.remove(user_id.0);
        proof {
            lemma_without_key(self.players@, user_id.0);
            lemma_index_of(self.players@, user_id.0);
        }
        self.players.remove(user_id.0);
        match &mut self.game {
            Some(game) => {
                game.remove_path(user_id);
            },
            None => {},
        }
        proof {
            if self.game.is_some() {
                let trails = trails_of(old(self).game.unwrap().paths@);
                lemma_index_of(trails, user_id.0);
                lemma_without_key(trails, user_id.0);
                lemma_trails_index(old(self).game.unwrap().paths@, user_id.0);
                assert forall|key: u128| has_key(self.players@, key) implies has_key(
                    trails_of(self.game.unwrap().paths@),
                    key,
                ) by {
                    assert(self.players.keys().contains(key));
                    assert(old(self).players.keys().contains(key));
                    assert(key_set(trails).contains(key));
                    assert(key_set(trails).remove(user_id.0).contains(key));
                }
            }
            let after = self.players@;
            let before = old(self).players@;
            let i = index_of(before, user_id.0);
            assert forall|j: int| 0 <= j < after.len() implies (#[trigger] after[j]).1.id.0
                == after[j].0 && player_steady(after[j].1) by {
                if i < before.len() && j >= i {
                    assert(after[j] == before[j + 1]);
                } else {
                    assert(after[j] == before[j]);
                }
            }
        }
    }

    /// Whether the room has no member.
    pub fn check_if_clients_empty(&self) -> (empty: bool)
        ensures
            empty == (self.clients@.len() == 0),
    {
        self.clients.is_empty()
    }

    /// Draws the angles at which the players will stand on the start circle:
    /// one random number below a full turn for each player, made into
    /// angles as `start_angles` says.
    pub fn draw_start_angles(&self) -> (angles: Vec<u32>)
        ensures
            angles@.len() == self.players@.len(),
            forall|i: int| 0 <= i < angles@.len() ==> #[trigger] angles@[i] < FULL_TURN,
            exists|samples: Seq<u32>|
                {
                    &&& samples.len() == self.players@.len()
                    &&& forall|i: int| 0 <= i < samples.len() ==> #[trigger] samples[i] < FULL_TURN
                    &&& angles@ == start_angles(samples)
                },
    {
        draw_angles(self.players.len())
    }

    /// Begins the countdown to a round, if the room waits and its players
    /// are ready to start: places the players with `headings`, and tells all
    /// members. Says `None`, and changes nothing, if no countdown begins.
    pub fn spawn_game_if_ready_and_notify_all(&mut self, headings: &Vec<Heading>) -> (messages:
        Option<Vec<CurverMessageToSend>>)
        requires
            old(self).wf(),
            headings@.len() >= old(self).players@.len(),
        ensures
            final(self).wf(),
            final(self).players.keys() == old(self).players.keys(),
            messages.is_some() == (old(self).game_state == GameState::Waiting && ready_to_start(
                old(self).players@,
            )),
            messages.is_some() ==> {
                &&& final(self).players@ == placed_all(old(self).players@, headings@)
                &&& final(self).game_state == GameState::Countdown
                &&& final(self).clients == old(self).clients
                &&& final(self).score_board == old(self).score_board
                &&& final(self).game.is_none()
                &&& notices(messages.unwrap()@) == seq![final(self).update_notice()]
            },
            messages.is_none() ==> *final(self) == *old(self),
    {
        let waiting = match self.game_state {
            GameState::Waiting => true,
            _ => false,
        };
        if !waiting || !self.check_if_ready_to_start() {
            return None;
        }
        self.position_all_players(headings);
        self.game_state = GameState::Countdown;
        let update = self.send_update_to_all();
        let messages = vec![update];
        assert(notices(messages@) =~= seq![self.update_notice()]);
        Some(messages)
    }

    /// Ends the countdown: gives the room an engine for a new round, in
    /// which the trail of every player begins where the player stands, and
    /// tells all members that the round runs. Says `None`, and
    /// changes nothing, if no countdown was running.
    pub fn spawn_game(&mut self) -> (messages: Option<Vec<CurverMessageToSend>>)
        requires
            old(self).wf(),
        ensures
            final(self).wf(),
            messages.is_some() == (old(self).game_state == GameState::Countdown),
            messages.is_some() ==> {
                &&& final(self).game_state == GameState::Started
                &&& final(self).game.is_some()
                &&& trails_of(final(self).game.unwrap().paths@) == starting_trails(
                    old(self).players@,
                )
                &&& final(self).game.unwrap().tick_count == 0
                &&& final(self).clients == old(self).clients
                &&& final(self).players == old(self).players
                &&& final(self).score_board == old(self).score_board
                &&& notices(messages.unwrap()@) == seq![final(self).update_notice()]
            },
            messages.is_none() ==> *final(self) == *old(self),
    {
        let counting = match self.game_state {
            GameState::Countdown => true,
            _ => false,
        };
        if !counting {
            return None;
        }
        self.game = Some(Game::new(&self.players));
        self.game_state = GameState::Started;
        proof {
            let trails = trails_of(self.game.unwrap().paths@);
            assert forall|key: u128| has_key(self.players@, key) implies has_key(trails, key) by {
                let w = choose|j: int|
                    0 <= j < self.players@.len() && (#[trigger] self.players@[j]).0 == key;
                assert(trails[w].0 == key);
            }
        }
        let update = self.send_update_to_all();
        let messages = vec![update];
        assert(notices(messages@) =~= seq![self.update_notice()]);
        Some(messages)
    }

    /// Advances the round by one tick, as the engine does, and lets the
    /// engine go when the round is over. Between rounds nothing happens and
    /// nothing is told.
    pub fn tick(&mut self) -> (report: TickReport)
        requires
            old(self).wf(),
        ensures
            final(self).wf(),
            final(self).clients == old(self).clients,
            old(self).game.is_none() ==> {
                &&& *final(self) == *old(self)
                &&& report.outcome.is_none()
                &&& report.messages@.len() == 0
            },
            old(self).game.is_some() ==> {
                let engine = old(self).game.unwrap();
                let done = sweep(
                    old(self).players@,
                    trails_of(engine.paths@),
                    old(self).players@.len(),
                );
                &&& report.outcome == outcome_of(done.survivors)
                &&& notices(report.messages@) == tick_notices(
                    done,
                    GameState::Started,
                    old(self).score_board@,
                    engine.tick_count,
                )
                &&& report.outcome.is_none() ==> {
                    &&& final(self).players@ == done.survivors
                    &&& final(self).game_state == GameState::Started
                    &&& final(self).score_board@ == old(self).score_board@
                    &&& final(self).game.is_some()
                    &&& trails_of(final(self).game.unwrap().paths@) == done.trails
                    &&& final(self).game.unwrap().tick_count == next_count(engine.tick_count)
                }
                &&& report.outcome.is_some() ==> {
                    &&& final(self).players@ == reset_all(done.survivors)
                    &&& final(self).game_state == GameState::Waiting
                    &&& final(self).score_board@ == scores_after(
                        old(self).score_board@,
                        report.outcome.unwrap(),
                    )
                    &&& final(self).game.is_none()
                }
            },
            report.outcome.is_some() ==> forall|i: int|
                0 <= i < final(self).players@.len() ==> {
                    let player = (#[trigger] final(self).players@[i]).1;
                    !player.is_ready && player.x == 0 && player.y == 0
                        && player.angle_unit_vector_x == 0 && player.angle_unit_vector_y == 0
                },
    {
        let report = match &mut self.game {
            Some(game) => game.tick(&mut self.players, &mut self.game_state, &mut self.score_board),
            None => {
                return TickReport { outcome: None, messages: Vec::new() };
            },
        };
        if report.outcome.is_some() {
            self.game = None;
        }
        proof {
            lemma_sweep_keys(
                old(self).players@,
                trails_of(old(self).game.unwrap().paths@),
                old(self).players@.len(),
            );
            lemma_sweep_trails(
                old(self).players@,
                trails_of(old(self).game.unwrap().paths@),
                old(self).players@.len(),
            );
            if self.game.is_some() {
                let done = sweep(
                    old(self).players@,
                    trails_of(old(self).game.unwrap().paths@),
                    old(self).players@.len(),
                );
                assert forall|key: u128| has_key(self.players@, key) implies has_key(
                    done.trails,
                    key,
                ) by {
                    let w = choose|j: int|
                        0 <= j < self.players@.len() && (#[trigger] self.players@[j]).0 == key;
                    assert(done.survivors[w].0 == key);
                }
            }
            assert forall|key: u128| has_key(self.players@, key) implies has_key(
                old(self).players@,
                key,
            ) by {
                let w = choose|j: int|
                    0 <= j < self.players@.len() && (#[trigger] self.players@[j]).0 == key;
                let done = sweep(
                    old(self).players@,
                    trails_of(old(self).game.unwrap().paths@),
                    old(self).players@.len(),
                );
                assert(done.survivors[w].0 == key);
            }
        }
        report
    }
}

/// A room has an engine exactly while a round runs in it.
pub proof fn lemma_engine_runs_with_round(room: &Room)
    requires
        room.wf(),
    ensures
        (room.game_state == GameState::Started) == room.game.is_some(),
{
}

/// Every player of a room is a member of it.
pub proof fn lemma_players_are_members(room: &Room, key: u128)
    requires
        room.wf(),
        has_key(room.players@, key),
    ensures
        has_key(room.clients@, key),
{
    assert(room.players.keys().contains(key));
    assert(room.clients.keys().contains(key));
}

} // verus!

pub mod path;
pub mod player;

use vstd::prelude::*;
use crate::constants::{lemma_displacement_is_heading, TICK_COUNT_TO_SYNC};
use crate::curver_ws_actor::CurverAddress;
use crate::game::path::{collides, motion_within_limit, nodes_wf, Node, Path};
use crate::game::player::{out_of_bounds, Player, PlayerUuid};
use crate::message::{lemma_notices_push, notices, trails_of, CurverMessageToSend, Notice};
use crate::table::{
    distinct_keys, has_key, index_of, lemma_index_of, lemma_update_keeps_keys,
    lemma_with_entry, lemma_without_key, values_of, with_entry, without_key, Table,
};

verus! {

/// The members of a room: the handle of each client by its identity.
pub type Clients = Table<CurverAddress>;

/// The players of a room by their identity.
pub type Players = Table<Player>;

/// The rounds that each player has won.
pub type ScoreBoard = Table<u32>;

/// How a round ended.
#[derive(Debug, PartialEq, Eq, Clone, Copy, Structural)]
pub enum GameOutcome {
    Winner { user_id: PlayerUuid },
    Tie,
}

/// Where a room stands between two rounds and within one.
#[derive(Debug, PartialEq, Eq, Clone, Copy, Structural)]
pub enum GameState {
    Waiting,
    Countdown,
    Started,
}

/// Largest absolute value of a coordinate of a player before a step.
pub const PLAYER_LIMIT: i64 = 549_755_813_888;

/// Whether the player stands where a step cannot take it beyond the
/// coordinate limit.
pub open spec fn player_steady(player: Player) -> bool {
    &&& -PLAYER_LIMIT <= player.x <= PLAYER_LIMIT
    &&& -PLAYER_LIMIT <= player.y <= PLAYER_LIMIT
}

/// Whether `players` can be the players of a room: no identity occurs
/// twice, each player is stored under its own identity, and each is steady.
pub open spec fn players_wf(players: Seq<(u128, Player)>) -> bool {
    &&& distinct_keys(players)
    &&& forall|i: int|
        0 <= i < players.len() ==> (#[trigger] players[i]).1.id.0 == players[i].0
            && player_steady(players[i].1)
}

/// Whether `trails` can be the trails of a round: no identity occurs twice
/// and every node is within the coordinate limit.
pub open spec fn trails_wf(trails: Seq<(u128, Seq<Node>)>) -> bool {
    &&& distinct_keys(trails)
    &&& forall|i: int| 0 <= i < trails.len() ==> nodes_wf((#[trigger] trails[i]).1)
}

/// Whether the player's last step crosses any of the trails.
pub open spec fn hits_any(trails: Seq<(u128, Seq<Node>)>, player: Player) -> bool {
    exists|j: int| 0 <= j < trails.len() && collides((#[trigger] trails[j]).1, player)
}

/// The trails after `node` has been added to the trail of `key`. A key that
/// had no trail gets one of this node alone, after the others.
pub open spec fn with_node(trails: Seq<(u128, Seq<Node>)>, key: u128, node: Node) -> Seq<
    (u128, Seq<Node>),
> {
    let i = index_of(trails, key);
    if i < trails.len() {
        trails.update(i, (key, trails[i].1.push(node)))
    } else {
        trails.push((key, seq![node]))
    }
}

/// `players` after the player `key`, if there is one, has turned to the
/// heading (`x`, `y`).
pub open spec fn turned(players: Seq<(u128, Player)>, key: u128, x: i32, y: i32) -> Seq<
    (u128, Player),
> {
    let i = index_of(players, key);
    if i < players.len() {
        players.update(
            i,
            (key, Player { angle_unit_vector_x: x, angle_unit_vector_y: y, ..players[i].1 }),
        )
    } else {
        players
    }
}

/// The trails with which a round of `players` begins: for each player, in
/// the order of the players, a trail of one node, the place where the player
/// stands.
pub open spec fn starting_trails(players: Seq<(u128, Player)>) -> Seq<(u128, Seq<Node>)> {
    Seq::new(players.len(), |i: int| (players[i].0, seq![Node(players[i].1.x, players[i].1.y)]))
}

/// The trails after a player that comes into a running round has got its
/// trail, which begins at `node`. A player that has left a trail in this
/// round keeps it.
pub open spec fn with_trail_begun(trails: Seq<(u128, Seq<Node>)>, key: u128, node: Node) -> Seq<
    (u128, Seq<Node>),
> {
    if has_key(trails, key) {
        trails
    } else {
        trails.push((key, seq![node]))
    }
}

/// What moving the first players of a room has come to.
pub struct Sweep {
    /// The moved players that are still in the round, in their old order.
    pub survivors: Seq<(u128, Player)>,
    /// The players that the step took out of the round, in their old order.
    pub eliminated: Seq<u128>,
    /// The trails, with the new node of every player that stayed on the map.
    pub trails: Seq<(u128, Seq<Node>)>,
}

/// Moves the first `k` of `players` by one tick, one after the other. A
/// player that leaves the map is out and leaves no node. Any other player is
/// tested against all trails as they are when its turn comes, its own
/// among them, and is out if its step crosses one; then its new position
/// goes to the end of its trail, whether it is out or not.
pub open spec fn sweep(
    players: Seq<(u128, Player)>,
    trails: Seq<(u128, Seq<Node>)>,
    k: nat,
) -> Sweep
    decreases k,
{
    if k == 0 {
        Sweep { survivors: Seq::empty(), eliminated: Seq::empty(), trails }
    } else {
        let before = sweep(players, trails, (k - 1) as nat);
        let key = players[k - 1].0;
        let moved = players[k - 1].1.advanced();
        if out_of_bounds(moved.x as int, moved.y as int) {
            Sweep { eliminated: before.eliminated.push(key), ..before }
        } else if hits_any(before.trails, moved) {
            Sweep {
                survivors: before.survivors,
                eliminated: before.eliminated.push(key),
                trails: with_node(before.trails, key, Node(moved.x, moved.y)),
            }
        } else {
            Sweep {
                survivors: before.survivors.push((key, moved)),
                eliminated: before.eliminated,
                trails: with_node(before.trails, key, Node(moved.x, moved.y)),
            }
        }
    }
}

/// How the round stands with these players left: nobody left is a tie, one
/// left has won, and with more the round goes on.
pub open spec fn outcome_of(survivors: Seq<(u128, Player)>) -> Option<GameOutcome> {
    if survivors.len() == 0 {
        Some(GameOutcome::Tie)
    } else if survivors.len() == 1 {
        Some(GameOutcome::Winner { user_id: PlayerUuid(survivors[0].0) })
    } else {
        None
    }
}

/// The player as it waits for the next round: at the origin, without a
/// heading, not ready.
pub open spec fn reset(player: Player) -> Player {
    Player {
        id: player.id,
        x: 0,
        y: 0,
        angle_unit_vector_x: 0,
        angle_unit_vector_y: 0,
        is_ready: false,
    }
}

/// All players reset.
pub open spec fn reset_all(players: Seq<(u128, Player)>) -> Seq<(u128, Player)> {
    Seq::new(players.len(), |i: int| (players[i].0, reset(players[i].1)))
}

/// A score after one more win. It stops at the largest number.
pub open spec fn one_more(score: u32) -> u32 {
    if score < u32::MAX {
        (score + 1) as u32
    } else {
        score
    }
}

/// The scores after a round with this outcome: the winner has one win more
/// than before, where no entry counts as zero wins; a tie changes nothing.
pub open spec fn scores_after(scores: Seq<(u128, u32)>, outcome: GameOutcome) -> Seq<(u128, u32)> {
    match outcome {
        GameOutcome::Winner { user_id } => {
            let i = index_of(scores, user_id.0);
            let wins = if i < scores.len() {
                scores[i].1
            } else {
                0
            };
            with_entry(scores, user_id.0, one_more(wins))
        },
        GameOutcome::Tie => scores,
    }
}

/// The notices that the given players are out, in order.
pub open spec fn eliminations(eliminated: Seq<u128>) -> Seq<Notice> {
    Seq::new(
        eliminated.len(),
        |i: int| Notice::UserEliminated { user_id: PlayerUuid(eliminated[i]) },
    )
}

/// What the end of a round adds to the notices of a tick: the outcome with
/// the scores, then the players as they wait for the next round.
pub open spec fn ending_notices(
    survivors: Seq<(u128, Player)>,
    scores: Seq<(u128, u32)>,
) -> Seq<Notice> {
    match outcome_of(survivors) {
        Some(outcome) => seq![
            Notice::GameEnded { outcome, score_board: scores_after(scores, outcome) },
            Notice::Update {
                players: values_of(reset_all(survivors)),
                game_state: GameState::Waiting,
            },
        ],
        None => Seq::empty(),
    }
}

/// The snapshot of all trails, if one is due at this count of ticks.
pub open spec fn sync_notices(trails: Seq<(u128, Seq<Node>)>, tick_count: u32) -> Seq<Notice> {
    if tick_count % TICK_COUNT_TO_SYNC == 0 {
        seq![Notice::SyncPaths { paths: trails }]
    } else {
        Seq::empty()
    }
}

/// Everything that one tick tells the members of the room, in order: who is
/// out, the players that are left, the end of the round if it ended, and the
/// trails if their snapshot is due.
pub open spec fn tick_notices(
    done: Sweep,
    state: GameState,
    scores: Seq<(u128, u32)>,
    tick_count: u32,
) -> Seq<Notice> {
    eliminations(done.eliminated) + seq![
        Notice::Update { players: values_of(done.survivors), game_state: state },
    ] + ending_notices(done.survivors, scores) + sync_notices(done.trails, tick_count)
}

/// The count of ticks after one more. After the largest number it starts
/// again at zero.
pub open spec fn next_count(tick_count: u32) -> u32 {
    if tick_count < u32::MAX {
        (tick_count + 1) as u32
    } else {
        0
    }
}

/// What a tick hands back: how the round ended, if it did, and what to tell
/// every member of the room, in this order.
#[derive(Debug, PartialEq, Eq)]
pub struct TickReport {
    pub outcome: Option<GameOutcome>,
    pub messages: Vec<CurverMessageToSend>,
}

/// The engine of one round: the trails that the players have left, and the
/// number of ticks so far.
#[derive(Debug, PartialEq, Eq, Clone)]
pub struct Game {
    pub paths: Table<Path>,
    pub tick_count: u32,
}

/// A table of paths and its trails have their keys in the same places.
pub proof fn lemma_trails_index(paths: Seq<(u128, Path)>, key: u128)
    ensures
        index_of(trails_of(paths), key) == index_of(paths, key),
        has_key(trails_of(paths), key) == has_key(paths, key),
        distinct_keys(trails_of(paths)) == distinct_keys(paths),
    decreases paths.len(),
{
    let trails = trails_of(paths);
    if paths.len() > 0 {
        assert(trails[0].0 == paths[0].0);
        if paths[0].0 != key {
            lemma_trails_index(paths.drop_first(), key);
            assert(trails.drop_first() =~= trails_of(paths.drop_first()));
        }
    }
    lemma_index_of(trails, key);
    lemma_index_of(paths, key);
    if distinct_keys(paths) {
        assert forall|i: int, j: int|
            0 <= i < trails.len() && 0 <= j < trails.len() && i != j implies (#[trigger] trails[i]).0
            != (#[trigger] trails[j]).0 by {
            assert(paths[i].0 != paths[j].0);
        }
    }
    if distinct_keys(trails) {
        assert forall|i: int, j: int|
            0 <= i < paths.len() && 0 <= j < paths.len() && i != j implies (#[trigger] paths[i]).0
            != (#[trigger] paths[j]).0 by {
            assert(trails[i].0 != trails[j].0);
        }
    }
}

/// Adding a node within the limit to well-formed trails leaves them
/// well-formed.
pub proof fn lemma_with_node_wf(trails: Seq<(u128, Seq<Node>)>, key: u128, node: Node)
    requires
        trails_wf(trails),
        node.wf(),
    ensures
        trails_wf(with_node(trails, key, node)),
{
    lemma_index_of(trails, key);
    let i = index_of(trails, key);
    let after = with_node(trails, key, node);
    if i < trails.len() {
        lemma_update_keeps_keys(trails, i, trails[i].1.push(node));
        assert forall|j: int| 0 <= j < after.len() implies nodes_wf((#[trigger] after[j]).1) by {
            if j == i {
                let longer = trails[i].1.push(node);
                assert forall|m: int| 0 <= m < longer.len() implies (#[trigger] longer[m]).wf() by {
                    if m < trails[i].1.len() {
                        assert(longer[m] == trails[i].1[m]);
                    }
                }
            } else {
                assert(after[j] == trails[j]);
            }
        }
    } else {
        lemma_with_entry(trails, key, seq![node]);
        assert(after == with_entry(trails, key, seq![node]));
        assert forall|j: int| 0 <= j < after.len() implies nodes_wf((#[trigger] after[j]).1) by {
            if j < trails.len() {
                assert(after[j] == trails[j]);
            }
        }
    }
}

/// Every player that is still in the round after a sweep was a player
/// before it.
pub proof fn lemma_sweep_keys(
    players: Seq<(u128, Player)>,
    trails: Seq<(u128, Seq<Node>)>,
    k: nat,
)
    requires
        k <= players.len(),
    ensures
        forall|m: int|
            0 <= m < sweep(players, trails, k).survivors.len() ==> has_key(
                players,
                (#[trigger] sweep(players, trails, k).survivors[m]).0,
            ),
    decreases k,
{
    if k > 0 {
        lemma_sweep_keys(players, trails, (k - 1) as nat);
        let before = sweep(players, trails, (k - 1) as nat);
        let after = sweep(players, trails, k);
        assert forall|m: int| 0 <= m < after.survivors.len() implies has_key(
            players,
            (#[trigger] after.survivors[m]).0,
        ) by {
            if m < before.survivors.len() {
                assert(after.survivors[m] == before.survivors[m]);
            } else {
                assert(players[k - 1].0 == after.survivors[m].0);
            }
        }
    }
}

/// Adding a node to a trail takes no trail away, and the player whose node
/// it is has a trail afterwards.
pub proof fn lemma_with_node_keys(trails: Seq<(u128, Seq<Node>)>, key: u128, node: Node)
    ensures
        has_key(with_node(trails, key, node), key),
        forall|other: u128| has_key(trails, other) ==> has_key(with_node(trails, key, node), other),
{
    lemma_index_of(trails, key);
    let after = with_node(trails, key, node);
    let i = index_of(trails, key);
    if i < trails.len() {
        assert(after[i].0 == key);
    } else {
        assert(after[trails.len() as int].0 == key);
    }
    assert forall|other: u128| has_key(trails, other) implies has_key(after, other) by {
        let w = choose|j: int| 0 <= j < trails.len() && (#[trigger] trails[j]).0 == other;
        assert(after[w].0 == other);
    }
}

/// Whether the trail `longer` begins with the trail `shorter`.
pub open spec fn begins_with(longer: Seq<Node>, shorter: Seq<Node>) -> bool {
    &&& shorter.len() <= longer.len()
    &&& forall|i: int| 0 <= i < shorter.len() ==> longer[i] == shorter[i]
}

/// Whether the trails `after` are the trails `before` grown: every trail is
/// where it was and begins with what it was, and new trails come after the
/// old ones.
pub open spec fn grown_from(after: Seq<(u128, Seq<Node>)>, before: Seq<(u128, Seq<Node>)>) -> bool {
    &&& before.len() <= after.len()
    &&& forall|j: int|
        0 <= j < before.len() ==> (#[trigger] after[j]).0 == before[j].0 && begins_with(
            after[j].1,
            before[j].1,
        )
}

/// During a round trails only grow: a sweep changes no node that was there
/// and takes none away.
pub proof fn lemma_sweep_grows_trails(
    players: Seq<(u128, Player)>,
    trails: Seq<(u128, Seq<Node>)>,
    k: nat,
)
    requires
        k <= players.len(),
    ensures
        grown_from(sweep(players, trails, k).trails, trails),
    decreases k,
{
    if k > 0 {
        lemma_sweep_grows_trails(players, trails, (k - 1) as nat);
        let before = sweep(players, trails, (k - 1) as nat).trails;
        let after = sweep(players, trails, k).trails;
        let key = players[k - 1].0;
        lemma_index_of(before, key);
        assert forall|j: int| 0 <= j < trails.len() implies (#[trigger] after[j]).0 == trails[j].0
            && begins_with(after[j].1, trails[j].1) by {
            assert(before[j].0 == trails[j].0 && begins_with(before[j].1, trails[j].1));
            assert(after[j].0 == before[j].0 && begins_with(after[j].1, before[j].1));
        }
    }
}

/// A sweep decides on every player: each of the first `k` players is either
/// still in the round or out of it.
pub proof fn lemma_sweep_counts(
    players: Seq<(u128, Player)>,
    trails: Seq<(u128, Seq<Node>)>,
    k: nat,
)
    requires
        k <= players.len(),
    ensures
        sweep(players, trails, k).survivors.len() + sweep(players, trails, k).eliminated.len()
            == k,
    decreases k,
{
    if k > 0 {
        lemma_sweep_counts(players, trails, (k - 1) as nat);
    }
}

/// A sweep takes no trail away, and every player that it leaves in the
/// round has a trail afterwards.
pub proof fn lemma_sweep_trails(
    players: Seq<(u128, Player)>,
    trails: Seq<(u128, Seq<Node>)>,
    k: nat,
)
    requires
        k <= players.len(),
    ensures
        forall|key: u128| has_key(trails, key) ==> has_key(sweep(players, trails, k).trails, key),
        forall|m: int|
            0 <= m < sweep(players, trails, k).survivors.len() ==> has_key(
                sweep(players, trails, k).trails,
                (#[trigger] sweep(players, trails, k).survivors[m]).0,
            ),
    decreases k,
{
    if k > 0 {
        lemma_sweep_trails(players, trails, (k - 1) as nat);
        let before = sweep(players, trails, (k - 1) as nat);
        let after = sweep(players, trails, k);
        let key = players[k - 1].0;
        let moved = players[k - 1].1.advanced();
        lemma_with_node_keys(before.trails, key, Node(moved.x, moved.y));
        assert forall|m: int| 0 <= m < after.survivors.len() implies has_key(
            after.trails,
            (#[trigger] after.survivors[m]).0,
        ) by {
            if m < before.survivors.len() {
                assert(after.survivors[m] == before.survivors[m]);
                assert(has_key(before.trails, before.survivors[m].0));
            }
        }
    }
}

impl Game {
    /// The trails and their nodes are well-formed.
    pub open spec fn wf(&self) -> bool {
        trails_wf(trails_of(self.paths@))
    }

    /// An engine for a new round of `players`: no tick has passed, and the
    /// trail of every player begins where the player stands.
    pub fn new(players: &Players) -> (game: Game)
        requires
            players_wf(players@),
        ensures
            trails_of(game.paths@) == starting_trails(players@),
            game.tick_count == 0,
            game.wf(),
    {
        let mut paths: Table<Path> = Table::new();
        let mut i: usize = 0;
        while i < players.len()
            invariant
                i <= players@.len(),
                players_wf(players@),
                paths.wf(),
                paths@.len() == i,
                forall|j: int|
                    0 <= j < i ==> (#[trigger] paths@[j]).0 == players@[j].0 && paths@[j].1@
                        == seq![Node(players@[j].1.x, players@[j].1.y)],
            decreases players@.len() - i,
        {
            let key: u128 = players.key_at(i);
            let player = players.value_at(i);
            let mut path = Path::new();
            path.push(Node(player.x, player.y));
            assert(path@ =~= seq![Node(player.x, player.y)]);
            proof {
                if has_key(paths@, key) {
                    let w = choose|j: int| 0 <= j < paths@.len() && (#[trigger] paths@[j]).0 == key;
                    assert(players@[w].0 == players@[i as int].0);
                }
            }
            paths.push_entry(key, path);
            i += 1;
        }
        let game = Game { paths, tick_count: 0 };
        proof {
            let trails = trails_of(game.paths@);
            assert(trails =~= starting_trails(players@));
            lemma_trails_index(game.paths@, 0);
            assert forall|j: int| 0 <= j < trails.len() implies nodes_wf((#[trigger] trails[j]).1) by {
                assert(player_steady(players@[j].1));
                assert(trails[j].1[0].wf());
            }
        }
        game
    }

    /// Begins the trail of the player `player_id` at `node`, unless the
    /// player has a trail.
    pub fn begin_path(&mut self, player_id: PlayerUuid, node: Node)
        requires
            old(self).wf(),
            node.wf(),
        ensures
            trails_of(final(self).paths@) == with_trail_begun(
                trails_of(old(self).paths@),
                player_id.0,
                node,
            ),
            final(self).tick_count == old(self).tick_count,
            final(self).wf(),
    {
        let key: u128 = player_id.0;
        proof {
            lemma_trails_index(self.paths@, key);
        }
        if !self.paths.contains_key(key) {
            let mut path = Path::new();
            path.push(node);
            assert(path@ =~= seq![node]);
            self.paths.push_entry(key, path);
            proof {
                let before = trails_of(old(self).paths@);
                let after = trails_of(self.paths@);
                assert(after =~= before.push((key, seq![node])));
                lemma_trails_index(self.paths@, key);
                assert forall|j: int| 0 <= j < after.len() implies nodes_wf((#[trigger] after[j]).1) by {
                    if j < before.len() {
                        assert(after[j] == before[j]);
                    }
                }
            }
        }
    }

    /// Whether the player's last step crosses any trail of the round.
    pub fn check_collision_with_paths(&self, player: &Player) -> (hit: bool)
        requires
            self.wf(),
            motion_within_limit(*player),
        ensures
            hit == hits_any(trails_of(self.paths@), *player),
    {
        let ghost trails = trails_of(self.paths@);
        let mut j: usize = 0;
        while j < self.paths.len()
            invariant
                j <= self.paths@.len(),
                self.wf(),
                trails == trails_of(self.paths@),
                motion_within_limit(*player),
                forall|m: int| 0 <= m < j ==> !collides((#[trigger] trails[m]).1, *player),
            decreases self.paths@.len() - j,
        {
            let path = self.paths.value_at(j);
            assert(trails[j as int].1 == path@);
            assert(nodes_wf(trails[j as int].1));
            if path.check_collision(player) {
                return true;
            }
            j += 1;
        }
        false
    }

    /// Adds `node` to the trail of the player `player_id`, which begins
    /// with this node if the player had none.
    pub fn add_players_location_to_path(&mut self, player_id: PlayerUuid, node: Node)
        requires
            old(self).wf(),
            node.wf(),
        ensures
            trails_of(final(self).paths@) == with_node(
                trails_of(old(self).paths@),
                player_id.0,
                node,
            ),
            final(self).tick_count == old(self).tick_count,
            final(self).wf(),
    {
        let key: u128 = player_id.0;
        proof {
            lemma_trails_index(self.paths@, key);
            lemma_with_node_wf(trails_of(self.paths@), key, node);
        }
        match self.paths.position(key) {
            Some(i) => {
                proof {
                    lemma_index_of(self.paths@, key);
                }
                let path = self.paths.value_mut(i);
                path.push(node);
                assert(trails_of(self.paths@) =~= with_node(trails_of(old(self).paths@), key, node));
            },
            None => {
                let mut path = Path::new();
                path.push(node);
                proof {
                    lemma_trails_index(self.paths@, key);
                    lemma_index_of(self.paths@, key);
                }
                assert(path@ =~= seq![node]);
                self.paths.push_entry(key, path);
                assert(trails_of(self.paths@) =~= with_node(trails_of(old(self).paths@), key, node));
            },
        }
    }

    /// Takes the trail of the player `player_id` out of the round, if it
    /// has one.
    pub fn remove_path(&mut self, player_id: PlayerUuid)
        requires
            old(self).wf(),
        ensures
            trails_of(final(self).paths@) == without_key(trails_of(old(self).paths@), player_id.0),
            final(self).tick_count == old(self).tick_count,
            final(self).wf(),
    {
        proof {
            lemma_trails_index(self.paths@, player_id.0);
            lemma_without_key(trails_of(self.paths@), player_id.0);
            lemma_index_of(self.paths@, player_id.0);
        }
        self.paths.remove(player_id.0);
        proof {
            let before = trails_of(old(self).paths@);
            let after = trails_of(self.paths@);
            assert(after =~= without_key(before, player_id.0));
            let i = index_of(before, player_id.0);
            assert forall|j: int| 0 <= j < after.len() implies nodes_wf((#[trigger] after[j]).1) by {
                if i < before.len() && j >= i {
                    assert(after[j] == before[j + 1]);
                } else {
                    assert(after[j] == before[j]);
                }
            }
        }
    }

    /// Gives the player `user_id`, if there is one among `players`, the
    /// heading (`x`, `y`) as it came: nothing makes a unit vector of it.
    pub fn rotate_player(
        players: &mut Players,
        user_id: PlayerUuid,
        angle_unit_vector_x: i32,
        angle_unit_vector_y: i32,
    )
        requires
            players_wf(old(players)@),
        ensures
            final(players)@ == turned(
                old(players)@,
                user_id.0,
                angle_unit_vector_x,
                angle_unit_vector_y,
            ),
            final(players).keys() == old(players).keys(),
            players_wf(final(players)@),
    {
        match players.position(user_id.0) {
            Some(i) => {
                let player: Player = *players.value_at(i);
                proof {
                    lemma_index_of(players@, user_id.0);
                    lemma_update_keeps_keys(
                        players@,
                        i as int,
                        Player { angle_unit_vector_x, angle_unit_vector_y, ..player },
                    );
                }
                players.set_value(i, Player { angle_unit_vector_x, angle_unit_vector_y, ..player });
            },
            None => {},
        }
    }

    /// A copy of all trails of the round.
    pub fn snapshot_paths(&self) -> (copy: Table<Path>)
        requires
            self.wf(),
        ensures
            trails_of(copy@) == trails_of(self.paths@),
            copy.wf(),
    {
        let mut copy: Table<Path> = Table::new();
        let mut i: usize = 0;
        proof {
            lemma_trails_index(self.paths@, 0);
        }
        while i < self.paths.len()
            invariant
                i <= self.paths@.len(),
                distinct_keys(self.paths@),
                copy.wf(),
                copy@.len() == i,
                forall|j: int|
                    0 <= j < i ==> (#[trigger] copy@[j]).0 == self.paths@[j].0 && copy@[j].1@
                        == self.paths@[j].1@,
            decreases self.paths@.len() - i,
        {
            let key: u128 = self.paths.key_at(i);
            let path = self.paths.value_at(i).clone();
            proof {
                if has_key(copy@, key) {
                    let w = choose|j: int| 0 <= j < copy@.len() && (#[trigger] copy@[j]).0 == key;
                    assert(self.paths@[w].0 == self.paths@[i as int].0);
                }
            }
            copy.push_entry(key, path);
            i += 1;
        }
        assert(trails_of(copy@) =~= trails_of(self.paths@));
        copy
    }

    /// Puts every player back to where it waits for the next round.
    pub fn reset_all_players(players: &mut Players)
        ensures
            final(players)@ == reset_all(old(players)@),
    {
        let mut i: usize = 0;
        while i < players.len()
            invariant
                i <= players@.len(),
                players@.len() == old(players)@.len(),
                forall|j: int|
                    0 <= j < i ==> #[trigger] players@[j] == (
                        old(players)@[j].0,
                        reset(old(players)@[j].1),
                    ),
                forall|j: int| i <= j < players@.len() ==> #[trigger] players@[j] == old(players)@[j],
            decreases players@.len() - i,
        {
            let id: PlayerUuid = players.value_at(i).id;
            players.set_value(
                i,
                Player {
                    id,
                    x: 0,
                    y: 0,
                    angle_unit_vector_x: 0,
                    angle_unit_vector_y: 0,
                    is_ready: false,
                },
            );
            i += 1;
        }
        assert(players@ =~= reset_all(old(players)@));
    }

    /// What tells the members of the room who plays and in which state the
    /// room is.
    pub fn update_message(players: &Players, state: GameState) -> (message: CurverMessageToSend)
        ensures
            message@ == (Notice::Update { players: values_of(players@), game_state: state }),
    {
        CurverMessageToSend::Update { players: players.values(), game_state: state }
    }

    /// Advances the round by one tick. The players move in the order of
    /// their table, as `sweep` says; those that are out leave the table.
    /// With fewer than two players left the round is over: the winner, if
    /// there is one, gets a win, the players that are left are reset and the
    /// room waits again. A snapshot of the trails goes out on every tick
    /// whose number, counted from zero, is a multiple of
    /// `TICK_COUNT_TO_SYNC`.
    pub fn tick(
        &mut self,
        players: &mut Players,
        state: &mut GameState,
        score_board: &mut ScoreBoard,
    ) -> (report: TickReport)
        requires
            old(self).wf(),
            players_wf(old(players)@),
            old(score_board).wf(),
        ensures
            report.outcome == outcome_of(
                sweep(old(players)@, trails_of(old(self).paths@), old(players)@.len()).survivors,
            ),
            notices(report.messages@) == tick_notices(
                sweep(old(players)@, trails_of(old(self).paths@), old(players)@.len()),
                *old(state),
                old(score_board)@,
                old(self).tick_count,
            ),
            report.outcome.is_none() ==> final(players)@ == sweep(
                old(players)@,
                trails_of(old(self).paths@),
                old(players)@.len(),
            ).survivors && *final(state) == *old(state) && final(score_board)@ == old(score_board)@,
            report.outcome.is_some() ==> final(players)@ == reset_all(
                sweep(old(players)@, trails_of(old(self).paths@), old(players)@.len()).survivors,
            ) && *final(state) == GameState::Waiting && final(score_board)@ == scores_after(
                old(score_board)@,
                report.outcome.unwrap(),
            ),
            report.outcome.is_some() ==> forall|i: int|
                0 <= i < final(players)@.len() ==> {
                    let player = (#[trigger] final(players)@[i]).1;
                    !player.is_ready && player.x == 0 && player.y == 0
                        && player.angle_unit_vector_x == 0 && player.angle_unit_vector_y == 0
                },
            trails_of(final(self).paths@) == sweep(
                old(players)@,
                trails_of(old(self).paths@),
                old(players)@.len(),
            ).trails,
            final(self).tick_count == next_count(old(self).tick_count),
            final(self).wf(),
            players_wf(final(players)@),
            final(score_board).wf(),
    {
        let ghost start = players@;
        let ghost start_trails = trails_of(self.paths@);
        let mut survivors: Players = Table::new();
        let mut messages: Vec<CurverMessageToSend> = Vec::new();
        let n: usize = players.len();
        let mut i: usize = 0;
        assert(notices(messages@) =~= eliminations(Seq::empty()));
        while i < n
            invariant
                i <= n,
                n == start.len(),
                players@ == start,
                players_wf(start),
                self.wf(),
                self.tick_count == old(self).tick_count,
                trails_of(self.paths@) == sweep(start, start_trails, i as nat).trails,
                survivors@ == sweep(start, start_trails, i as nat).survivors,
                notices(messages@) == eliminations(sweep(start, start_trails, i as nat).eliminated),
                survivors.wf(),
                forall|m: int|
                    0 <= m < survivors@.len() ==> {
                        let entry = #[trigger] survivors@[m];
                        &&& entry.1.id.0 == entry.0
                        &&& !out_of_bounds(entry.1.x as int, entry.1.y as int)
                        &&& has_key(start.take(i as int), entry.0)
                    },
            decreases n - i,
        {
            let key: u128 = players.key_at(i);
            let mut player: Player = *players.value_at(i);
            let ghost before = sweep(start, start_trails, i as nat);
            proof {
                assert(start[i as int].1 == player);
                assert(player_steady(player));
                lemma_displacement_is_heading(player.angle_unit_vector_x as int);
                lemma_displacement_is_heading(player.angle_unit_vector_y as int);
                assert forall|m: int| 0 <= m < survivors@.len() implies has_key(
                    start.take(i + 1),
                    (#[trigger] survivors@[m]).0,
                ) by {
                    let k = survivors@[m].0;
                    let w = choose|j: int|
                        0 <= j < start.take(i as int).len() && (#[trigger] start.take(i as int)[j]).0
                            == k;
                    assert(start.take(i + 1)[w].0 == k);
                }
                if has_key(survivors@, key) {
                    let m = choose|m: int|
                        0 <= m < survivors@.len() && (#[trigger] survivors@[m]).0 == key;
                    let w = choose|j: int|
                        0 <= j < start.take(i as int).len() && (#[trigger] start.take(i as int)[j]).0
                            == key;
                    assert(start[w].0 == start[i as int].0);
                }
                assert(start.take(i + 1)[i as int].0 == key);
            }
            player.calculate_new_position();
            assert(player == start[i as int].1.advanced());
            let user_id = PlayerUuid(key);
            if player.check_if_out_of_bounds() {
                proof {
                    lemma_notices_push(messages@, CurverMessageToSend::UserEliminated { user_id });
                }
                messages.push(CurverMessageToSend::UserEliminated { user_id });
                assert(eliminations(before.eliminated.push(key)) =~= eliminations(
                    before.eliminated,
                ).push(Notice::UserEliminated { user_id }));
            } else {
                let hit = self.check_collision_with_paths(&player);
                self.add_players_location_to_path(user_id, Node(player.x, player.y));
                if hit {
                    proof {
                        lemma_notices_push(
                            messages@,
                            CurverMessageToSend::UserEliminated { user_id },
                        );
                    }
                    messages.push(CurverMessageToSend::UserEliminated { user_id });
                    assert(eliminations(before.eliminated.push(key)) =~= eliminations(
                        before.eliminated,
                    ).push(Notice::UserEliminated { user_id }));
                } else {
                    survivors.push_entry(key, player);
                }
            }
            i += 1;
        }
        let ghost done = sweep(start, start_trails, n as nat);
        *players = survivors;
        let ghost scores = score_board@;
        let ghost told = eliminations(done.eliminated);

        let update = Self::update_message(players, *state);
        proof {
            lemma_notices_push(messages@, update);
        }
        messages.push(update);

        let outcome: Option<GameOutcome> = if players.len() == 0 {
            Some(GameOutcome::Tie)
        } else if players.len() == 1 {
            Some(GameOutcome::Winner { user_id: PlayerUuid(players.key_at(0)) })
        } else {
            None
        };
        match outcome {
            Some(result) => {
                match result {
                    GameOutcome::Winner { user_id } => {
                        let wins: u32 = match score_board.get(user_id.0) {
                            Some(wins) => *wins,
                            None => 0,
                        };
                        proof {
                            lemma_index_of(score_board@, user_id.0);
                        }
                        let more: u32 = if wins < u32::MAX {
                            wins + 1
                        } else {
                            wins
                        };
                        score_board.insert(user_id.0, more);
                    },
                    GameOutcome::Tie => {},
                }
                let ended = CurverMessageToSend::GameEnded {
                    outcome: result,
                    score_board: score_board.duplicate(),
                };
                proof {
                    lemma_notices_push(messages@, ended);
                }
                messages.push(ended);
                Self::reset_all_players(players);
                *state = GameState::Waiting;
                let last = Self::update_message(players, *state);
                proof {
                    lemma_notices_push(messages@, last);
                }
                messages.push(last);
            },
            None => {},
        }
        assert(notices(messages@) =~= told + seq![
            Notice::Update { players: values_of(done.survivors), game_state: *old(state) },
        ] + ending_notices(done.survivors, scores));

        if self.tick_count % TICK_COUNT_TO_SYNC == 0 {
            let sync = CurverMessageToSend::SyncPaths { paths: self.snapshot_paths() };
            proof {
                lemma_notices_push(messages@, sync);
            }
            messages.push(sync);
        }
        assert(notices(messages@) =~= tick_notices(
            done,
            *old(state),
            scores,
            old(self).tick_count,
        ));
        self.tick_count = if self.tick_count < u32::MAX {
            self.tick_count + 1
        } else {
            0
        };
        TickReport { outcome, messages }
    }
}

} // verus!

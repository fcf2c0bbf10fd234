use rand::Rng;
use vstd::prelude::*;
use crate::constants::{HEADING_SCALE, MAP_HEIGHT, MAP_WIDTH, START_CIRCLE_RADIUS};
use crate::game::player::Player;

verus! {

/// The angles of a full turn. Angles are counted in thousandths of a degree.
pub const FULL_TURN: u32 = 360_000;

/// Draws a number below `bound` with `rand::Rng::gen_range` on the
/// generator of the thread, `rand::thread_rng`. Trusted: the number is
/// random and below `bound`; the call panics on an empty range, which the
/// precondition excludes.
#[verifier::external_body]
fn random_below(bound: u32) -> (value: u32)
    requires
        bound > 0,
    ensures
        value < bound,
{
    rand::thread_rng().gen_range(0..bound)
}

/// The angle `step` further round the circle than `angle`.
pub open spec fn turned_by(angle: u32, step: u32) -> u32 {
    ((angle + step) % FULL_TURN as int) as u32
}

/// The angles at which the players stand on the start circle, given the
/// numbers drawn for them: the first number is the angle of the first
/// player, and each further number is the way round the circle from one
/// player to the next.
pub open spec fn start_angles(samples: Seq<u32>) -> Seq<u32>
    decreases samples.len(),
{
    if samples.len() == 0 {
        Seq::empty()
    } else if samples.len() == 1 {
        seq![samples[0]]
    } else {
        let before = start_angles(samples.drop_last());
        before.push(turned_by(before.last(), samples.last()))
    }
}

/// There is an angle for every number drawn; and all angles are less than
/// a full turn if the first number is.
pub proof fn lemma_start_angles(samples: Seq<u32>)
    ensures
        start_angles(samples).len() == samples.len(),
        samples.len() > 0 && samples[0] < FULL_TURN ==> forall|i: int|
            0 <= i < samples.len() ==> #[trigger] start_angles(samples)[i] < FULL_TURN,
    decreases samples.len(),
{
    if samples.len() > 1 {
        lemma_start_angles(samples.drop_last());
    }
}

/// The angle `step` further round the circle than `angle`.
pub fn advance_angle(angle: u32, step: u32) -> (next: u32)
    ensures
        next == turned_by(angle, step),
{
    let sum: u64 = angle as u64 + step as u64;
    (sum % (FULL_TURN as u64)) as u32
}

/// The angles at which the players stand on the start circle, given the
/// numbers drawn for them.
pub fn angles_from_samples(samples: &Vec<u32>) -> (angles: Vec<u32>)
    ensures
        angles@ == start_angles(samples@),
{
    let mut angles: Vec<u32> = Vec::new();
    let mut i: usize = 0;
    while i < samples.len()
        invariant
            i <= samples@.len(),
            angles@ == start_angles(samples@.take(i as int)),
        decreases samples@.len() - i,
    {
        proof {
            lemma_start_angles(samples@.take(i as int));
            assert(samples@.take(i + 1).drop_last() =~= samples@.take(i as int));
        }
        if i == 0 {
            angles.push(samples[0]);
            assert(angles@ =~= seq![samples@[0]]);
        } else {
            let next = advance_angle(angles[i - 1], samples[i]);
            angles.push(next);
        }
        i += 1;
    }
    assert(samples@.take(samples@.len() as int) =~= samples@);
    angles
}

/// Draws the angles at which `count` players will stand on the start circle:
/// one random number below a full turn for each player, made into angles as
/// `start_angles` says.
pub fn draw_angles(count: usize) -> (angles: Vec<u32>)
    ensures
        angles@.len() == count,
        forall|i: int| 0 <= i < angles@.len() ==> #[trigger] angles@[i] < FULL_TURN,
        exists|samples: Seq<u32>|
            {
                &&& samples.len() == count
                &&& forall|i: int| 0 <= i < samples.len() ==> #[trigger] samples[i] < FULL_TURN
                &&& angles@ == start_angles(samples)
            },
{
    let mut samples: Vec<u32> = Vec::new();
    let mut i: usize = 0;
    while i < count
        invariant
            i <= count,
            samples@.len() == i,
            forall|j: int| 0 <= j < samples@.len() ==> #[trigger] samples@[j] < FULL_TURN,
        decreases count - i,
    {
        samples.push(random_below(FULL_TURN));
        i += 1;
    }
    proof {
        lemma_start_angles(samples@);
    }
    angles_from_samples(&samples)
}

/// The direction in which a player looks when a round begins: towards the
/// middle of the map. In both components `HEADING_SCALE` stands for one.
#[derive(Debug, PartialEq, Eq, Clone, Copy, Structural)]
pub struct Heading {
    pub x: i32,
    pub y: i32,
}

/// The way from the start circle to the middle of the map along a heading
/// component `heading`, in position units: the radius times the component.
pub open spec fn radius_times(heading: int) -> int {
    START_CIRCLE_RADIUS as int * heading / HEADING_SCALE as int
}

/// The radius is eighty headings of length one long.
pub proof fn lemma_radius_times(heading: int)
    ensures
        radius_times(heading) == 80 * heading,
{
    assert(671_088_640 * heading / 8_388_608 == 80 * heading) by (nonlinear_arith);
}

/// The player as it enters a round with the heading `heading`: so far from
/// the middle of the map that it reaches the middle by going the length of
/// the radius along its heading.
pub open spec fn placed(player: Player, heading: Heading) -> Player {
    Player {
        id: player.id,
        x: (MAP_WIDTH / 2 - radius_times(heading.x as int)) as i64,
        y: (MAP_HEIGHT / 2 - radius_times(heading.y as int)) as i64,
        angle_unit_vector_x: heading.x,
        angle_unit_vector_y: heading.y,
        is_ready: player.is_ready,
    }
}

/// All players placed, each with the heading that has its place in
/// `headings`.
pub open spec fn placed_all(players: Seq<(u128, Player)>, headings: Seq<Heading>) -> Seq<
    (u128, Player),
> {
    Seq::new(players.len(), |i: int| (players[i].0, placed(players[i].1, headings[i])))
}

/// A player that is placed with a heading of length one stands on the start
/// circle: its distance from the middle of the map is the radius.
pub proof fn lemma_unit_heading_starts_on_circle(player: Player, heading: Heading)
    requires
        heading.x * heading.x + heading.y * heading.y == HEADING_SCALE * HEADING_SCALE,
    ensures
        ({
            let to_middle_x = MAP_WIDTH / 2 - placed(player, heading).x;
            let to_middle_y = MAP_HEIGHT / 2 - placed(player, heading).y;
            to_middle_x * to_middle_x + to_middle_y * to_middle_y == START_CIRCLE_RADIUS
                * START_CIRCLE_RADIUS
        }),
{
    let hx = heading.x as int;
    let hy = heading.y as int;
    lemma_radius_times(hx);
    lemma_radius_times(hy);
    assert((80 * hx) * (80 * hx) + (80 * hy) * (80 * hy) == 6400 * (hx * hx + hy * hy))
        by (nonlinear_arith);
    assert(6400 * (8_388_608 * 8_388_608) == 671_088_640 * 671_088_640) by (nonlinear_arith);
}

} // verus!

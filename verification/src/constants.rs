use vstd::prelude::*;

verus! {

/// Simulation steps per second.
pub const TICK_RATE: u64 = 20;

/// A snapshot of every trail goes out once in this many ticks.
pub const TICK_COUNT_TO_SYNC: u32 = 20;

/// Seconds between the moment everybody is ready and the first tick.
pub const GAME_START_COUNTDOWN_SECONDS: u64 = 3;

/// Milliseconds between two ticks.
pub const MS_PER_TICK: u64 = 50;

/// Positions are fixed-point numbers: this many position units make one map
/// unit. Whoever speaks to clients in map units multiplies by this number and
/// rounds; all arithmetic in between is exact.
pub const POSITION_SCALE: i64 = 16_777_216;

/// Headings are fixed-point numbers too: a component of this size stands for
/// the number one.
pub const HEADING_SCALE: i64 = 8_388_608;

/// Position units that a player with a heading of length one covers in one
/// tick: half a map unit.
pub const DELTA_POS_PER_TICK: i64 = 8_388_608;

/// Width of the map in position units (150 map units).
pub const MAP_WIDTH: i64 = 2_516_582_400;

/// Height of the map in position units (100 map units).
pub const MAP_HEIGHT: i64 = 1_677_721_600;

/// Largest absolute value of a coordinate that the geometry accepts.
pub const COORDINATE_LIMIT: i64 = 1_099_511_627_776;

/// Radius, in position units, of the circle on which a round starts: four
/// tenths of the smaller side of the map.
pub const START_CIRCLE_RADIUS: i64 = 671_088_640;

/// Position units moved in one tick by a heading component `heading`.
pub open spec fn displacement(heading: int) -> int {
    heading * DELTA_POS_PER_TICK as int / HEADING_SCALE as int
}

/// The two scales are chosen so that a tick adds the heading to the position
/// without rounding.
pub proof fn lemma_displacement_is_heading(heading: int)
    ensures
        displacement(heading) == heading,
{
    assert(heading * 8_388_608 / 8_388_608 == heading) by (nonlinear_arith);
}

/// The constants are consistent with each other.
pub proof fn lemma_constants_agree()
    ensures
        MS_PER_TICK * TICK_RATE == 1000,
        DELTA_POS_PER_TICK * 2 == POSITION_SCALE,
        MAP_WIDTH == 150 * POSITION_SCALE,
        MAP_HEIGHT == 100 * POSITION_SCALE,
        START_CIRCLE_RADIUS * 10 == 4 * MAP_HEIGHT,
        MAP_HEIGHT <= MAP_WIDTH,
        MAP_WIDTH <= COORDINATE_LIMIT,
{
}

} // verus!

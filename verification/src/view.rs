//! The projection of the map into screen columns.
//!
//! One ray is cast for each of the [`VIEW_COLUMNS`] columns of the screen,
//! from the left edge of the field of view to the right. The nearer of the
//! ray's two intersections sets how tall the wall looks in that column. A
//! wall met on a vertical grid line is flagged as in shadow, so that the two
//! kinds of wall face can be drawn in different shades.
use crate::caster::{
    lemma_cast_periodic, spec_horizontal_intersection, spec_horizontal_ray, spec_ray_x,
    spec_ray_y, spec_steps, spec_vertical_intersection, spec_vertical_ray,
};
use crate::fixed::{
    lemma_distance_bounds, lemma_trunc_div_bound, spec_trunc_div, FRAC_PI_2, ONE, PI, TAU,
};
use crate::player::State;
use crate::trig::{cosf, lemma_half_wave_bounds, reduce, spec_cos, spec_reduce};
use vstd::prelude::*;

verus! {

/// Number of columns on the screen.
pub const VIEW_COLUMNS: usize = 160;

/// Half the field of view, in radians.
pub const HALF_FOV: i64 = 38127;

/// The angle between the rays of two neighbouring columns.
pub const ANGLE_STEP: i64 = 477;

/// The height in pixels of a wall that is one cell away.
pub const WALL_HEIGHT: i64 = 100;

/// The angle of the ray through column `column` for a player heading at
/// `heading`: column zero looks furthest to the left.
pub open spec fn spec_column_angle(heading: int, column: int) -> int {
    heading + HALF_FOV - column * ANGLE_STEP
}

/// The height in pixels of a wall at distance `dist` along a ray whose
/// angle to the heading has the cosine `cosine`: [`WALL_HEIGHT`] over the
/// distance at right angles to the screen, rounded toward zero. Where that
/// distance is zero, and where the height is out of range, the height
/// saturates.
pub open spec fn spec_wall_height(dist: int, cosine: int) -> int {
    let depth = dist * cosine;
    if depth == 0 {
        i32::MAX as int
    } else {
        let h = spec_trunc_div(WALL_HEIGHT * ONE * ONE, depth);
        if h > i32::MAX {
            i32::MAX as int
        } else if h < i32::MIN {
            i32::MIN as int
        } else {
            h
        }
    }
}

/// What column `column` of the screen shows for a player at `(x, y)`
/// heading at `heading`: the height of the wall, and whether it was met on
/// a vertical grid line.
pub open spec fn spec_column(rows: Seq<u16>, x: int, y: int, heading: int, column: int) -> (
    i32,
    bool,
) {
    let angle = spec_column_angle(heading, column);
    let h_dist = spec_horizontal_intersection(rows, x, y, angle);
    let v_dist = spec_vertical_intersection(rows, x, y, angle);
    let shadow = !(h_dist < v_dist);
    let min_dist = if shadow {
        v_dist
    } else {
        h_dist
    };
    (spec_wall_height(min_dist, spec_cos(angle - heading)) as i32, shadow)
}

/// The whole screen for a player at `(x, y)` heading at `heading`.
pub open spec fn spec_view(rows: Seq<u16>, x: int, y: int, heading: int) -> Seq<(i32, bool)> {
    Seq::new(VIEW_COLUMNS as nat, |column: int| spec_column(rows, x, y, heading, column))
}

/// A column shows the same whether or not the heading is taken a whole
/// number of turns further round.
pub proof fn lemma_column_periodic(
    rows: Seq<u16>,
    x: int,
    y: int,
    heading: int,
    turns: int,
    column: int,
)
    ensures
        spec_column(rows, x, y, heading + turns * TAU, column) == spec_column(
            rows,
            x,
            y,
            heading,
            column,
        ),
{
    lemma_cast_periodic(rows, x, y, spec_column_angle(heading, column), turns);
}

/// The screen is the same whether or not the heading is taken a whole
/// number of turns further round.
pub proof fn lemma_view_periodic(rows: Seq<u16>, x: int, y: int, heading: int, turns: int)
    ensures
        spec_view(rows, x, y, heading + turns * TAU) == spec_view(rows, x, y, heading),
{
    assert forall|column: int| 0 <= column < VIEW_COLUMNS implies spec_view(
        rows,
        x,
        y,
        heading + turns * TAU,
    )[column] == spec_view(rows, x, y, heading)[column] by {
        lemma_column_periodic(rows, x, y, heading, turns, column);
    }
    assert(spec_view(rows, x, y, heading + turns * TAU) =~= spec_view(rows, x, y, heading));
}

/// Within the field of view the cosine of a ray's angle to the heading is
/// not negative.
pub proof fn lemma_column_cosine_not_negative(column: int)
    requires
        0 <= column < VIEW_COLUMNS,
    ensures
        0 <= spec_cos(HALF_FOV - column * ANGLE_STEP) <= ONE,
{
    let t: int = HALF_FOV - column * ANGLE_STEP + FRAC_PI_2;
    assert(0 <= t <= PI);
    assert(spec_reduce(t) == t);
    lemma_half_wave_bounds(t);
}

/// No column shows a negative height.
pub proof fn lemma_column_height_not_negative(
    rows: Seq<u16>,
    x: int,
    y: int,
    heading: int,
    column: int,
)
    requires
        0 <= column < VIEW_COLUMNS,
    ensures
        spec_column(rows, x, y, heading, column).0 >= 0,
{
    let angle = spec_column_angle(heading, column);
    let h_dist = spec_horizontal_intersection(rows, x, y, angle);
    let v_dist = spec_vertical_intersection(rows, x, y, angle);
    let min_dist = if h_dist < v_dist {
        h_dist
    } else {
        v_dist
    };
    let cosine = spec_cos(angle - heading);
    lemma_column_cosine_not_negative(column);
    let h_ray = spec_horizontal_ray(y, angle);
    let v_ray = spec_vertical_ray(x, angle);
    let hk = spec_steps(rows, x, y, h_ray);
    let vk = spec_steps(rows, x, y, v_ray);
    lemma_distance_bounds(spec_ray_x(h_ray, hk), spec_ray_y(h_ray, hk));
    lemma_distance_bounds(spec_ray_x(v_ray, vk), spec_ray_y(v_ray, vk));
    let depth: int = min_dist * cosine;
    assert(depth >= 0) by (nonlinear_arith)
        requires
            depth == min_dist * cosine,
            min_dist >= 0,
            cosine >= 0,
    ;
    if depth != 0 {
        lemma_trunc_div_bound(WALL_HEIGHT * ONE * ONE, depth);
    }
}

/// Idempotence: the screen is set by the map and the pose alone. Any two
/// screens that each show, column by column, what the same pose on the same
/// map shows are the same screen.
pub proof fn lemma_view_is_determined(
    first: Seq<(i32, bool)>,
    second: Seq<(i32, bool)>,
    rows: Seq<u16>,
    x: int,
    y: int,
    heading: int,
)
    requires
        first.len() == VIEW_COLUMNS,
        second.len() == VIEW_COLUMNS,
        forall|column: int|
            0 <= column < VIEW_COLUMNS ==> first[column] == spec_column(
                rows,
                x,
                y,
                heading,
                column,
            ),
        forall|column: int|
            0 <= column < VIEW_COLUMNS ==> second[column] == spec_column(
                rows,
                x,
                y,
                heading,
                column,
            ),
    ensures
        first == second,
        first == spec_view(rows, x, y, heading),
{
    assert(first =~= spec_view(rows, x, y, heading));
    assert(second =~= spec_view(rows, x, y, heading));
}

/// The height in pixels of a wall at distance `dist` along a ray whose
/// angle to the heading has the cosine `cosine`.
pub fn wall_height(dist: i64, cosine: i64) -> (h: i32)
    ensures
        h == spec_wall_height(dist as int, cosine as int),
{
    assert(-0x4000_0000_0000_0000_0000_0000_0000_0000 <= dist * cosine
        <= 0x4000_0000_0000_0000_0000_0000_0000_0000) by (nonlinear_arith)
        requires
            -0x8000_0000_0000_0000 <= dist <= 0x7fff_ffff_ffff_ffff,
            -0x8000_0000_0000_0000 <= cosine <= 0x7fff_ffff_ffff_ffff,
    ;
    let depth: i128 = (dist as i128) * (cosine as i128);
    if depth == 0 {
        return i32::MAX;
    }
    let size: u128 = if depth < 0 {
        (-depth) as u128
    } else {
        depth as u128
    };
    let numerator: u128 = 100 * 65536 * 65536;
    let q: u128 = numerator / size;
    assert(q <= numerator) by (nonlinear_arith)
        requires
            q == numerator / size,
            size >= 1,
    ;
    if depth > 0 {
        if q > i32::MAX as u128 {
            i32::MAX
        } else {
            q as i32
        }
    } else {
        if q > 0x8000_0000 {
            i32::MIN
        } else {
            (-(q as i64)) as i32
        }
    }
}

impl State {
    /// The screen as the player sees it: for each column, left to right, the
    /// height in pixels of the nearest wall and whether that wall was met on
    /// a vertical grid line.
    pub fn get_view(&self) -> (walls: [(i32, bool); 160])
        requires
            self.wf(),
        ensures
            walls@ == spec_view(
                self.map@,
                self.player_x as int,
                self.player_y as int,
                self.player_angle as int,
            ),
            forall|column: int| 0 <= column < VIEW_COLUMNS ==> (#[trigger] walls[column]).0 >= 0,
    {
        let ghost rows = self.map@;
        let ghost x = self.player_x as int;
        let ghost y = self.player_y as int;
        let ghost heading = self.player_angle as int;
        let ghost turns = heading / (TAU as int);
        let base: i64 = reduce(self.player_angle);
        let starting_angle: i64 = base + HALF_FOV;
        let mut walls: [(i32, bool); 160] = [(0i32, false);160];
        let mut idx: usize = 0;
        while idx < VIEW_COLUMNS
            invariant
                self.wf(),
                rows == self.map@,
                x == self.player_x,
                y == self.player_y,
                heading == self.player_angle,
                turns == heading / (TAU as int),
                base == heading % (TAU as int),
                starting_angle == base + HALF_FOV,
                idx <= VIEW_COLUMNS,
                forall|column: int|
                    0 <= column < idx ==> walls[column] == spec_column(rows, x, y, heading, column),
            decreases VIEW_COLUMNS - idx,
        {
            let angle: i64 = starting_angle - (idx as i64) * ANGLE_STEP;
            proof {
                assert(spec_column_angle(heading, idx as int) == angle + turns * TAU);
                lemma_cast_periodic(rows, x, y, angle as int, turns);
            }
            let h_dist: i64 = self.horizontal_intersection(angle);
            let v_dist: i64 = self.vertical_intersection(angle);
            let shadow: bool = !(h_dist < v_dist);
            let min_dist: i64 = if shadow {
                v_dist
            } else {
                h_dist
            };
            let height: i32 = wall_height(min_dist, cosf(angle - base));
            walls[idx] = (height, shadow);
            idx = idx + 1;
        }
        assert(walls@ =~= spec_view(rows, x, y, heading));
        assert forall|column: int| 0 <= column < VIEW_COLUMNS implies (#[trigger] walls[column]).0
            >= 0 by {
            lemma_column_height_not_negative(rows, x, y, heading, column);
        }
        walls
    }
}

} // verus!

//! The player: a pose on a map, moved once per frame.
//!
//! A frame's input is four flags. Forward and backward each move the player
//! one stride along the heading, left and right each turn the heading by one
//! step; opposite flags cancel. A move that would end in a wall is dropped
//! whole: the player never slides along a wall. The turn is always taken.
use crate::fixed::{
    addf, lemma_mul_unit_bound, mulf, spec_mul, spec_sat, subf, FRAC_PI_2, ONE, TAU,
};
use crate::map::{
    spec_arena_rows, spec_bit, spec_cell_is_wall, spec_cell_of, spec_point_in_wall, GridMap,
};
use crate::trig::{
    cosf, lemma_cos_bounds, lemma_sin_bounds, lemma_trig_on_axes, lemma_trig_periodic, sinf,
    spec_cos, spec_sin,
};
use vstd::prelude::*;

verus! {

/// The greatest magnitude that a coordinate of the player may have.
pub const COORD_LIMIT: i64 = 0x8000_0000_0000;

/// The greatest number of rows that a map under a player may have.
pub const MAX_ROWS: usize = 0x8000_0000;

/// How far the player moves, and how far the heading turns, in one frame.
pub const STEP_SIZE: i64 = 2949;

/// The map and the player's pose on it.
pub struct State {
    /// The map that the player moves on.
    pub map: GridMap,
    /// The player's position along a row, in cells.
    pub player_x: i64,
    /// The player's position along a column, in cells.
    pub player_y: i64,
    /// The player's heading in radians. It grows to the left and is not kept
    /// within one turn.
    pub player_angle: i64,
}

/// One stride along the heading `angle`, along `x`.
pub open spec fn spec_stride_x(angle: int) -> int {
    spec_mul(spec_cos(angle), STEP_SIZE as int)
}

/// One stride along the heading `angle`, along `y`. The `y` axis points
/// down the map, against the sine.
pub open spec fn spec_stride_y(angle: int) -> int {
    spec_mul(-spec_sin(angle), STEP_SIZE as int)
}

/// The number of strides that the two movement flags ask for.
pub open spec fn spec_strides(forward: bool, backward: bool) -> int {
    (if forward {
        1int
    } else {
        0int
    }) - (if backward {
        1int
    } else {
        0int
    })
}

/// Where the movement flags would take the player along `x`.
pub open spec fn spec_tentative_x(x: int, angle: int, forward: bool, backward: bool) -> int {
    x + spec_strides(forward, backward) * spec_stride_x(angle)
}

/// Where the movement flags would take the player along `y`.
pub open spec fn spec_tentative_y(y: int, angle: int, forward: bool, backward: bool) -> int {
    y + spec_strides(forward, backward) * spec_stride_y(angle)
}

/// The movement flags would take the player into a wall.
pub open spec fn spec_move_blocked(
    rows: Seq<u16>,
    x: int,
    y: int,
    angle: int,
    forward: bool,
    backward: bool,
) -> bool {
    spec_point_in_wall(
        rows,
        spec_tentative_x(x, angle, forward, backward),
        spec_tentative_y(y, angle, forward, backward),
    )
}

/// The player's position after a frame: the tentative one, or the old one
/// where the tentative one lies in a wall.
pub open spec fn spec_moved(
    rows: Seq<u16>,
    x: int,
    y: int,
    angle: int,
    forward: bool,
    backward: bool,
) -> (int, int) {
    if spec_move_blocked(rows, x, y, angle, forward, backward) {
        (x, y)
    } else {
        (
            spec_tentative_x(x, angle, forward, backward),
            spec_tentative_y(y, angle, forward, backward),
        )
    }
}

/// The heading after a frame: a step to the right first, then a step to the
/// left, each saturating.
pub open spec fn spec_turned(angle: int, left: bool, right: bool) -> int {
    let after_right = if right {
        spec_sat(angle - STEP_SIZE)
    } else {
        angle
    };
    if left {
        spec_sat(after_right + STEP_SIZE)
    } else {
        after_right
    }
}

/// A stride is never longer than [`STEP_SIZE`] along either axis.
pub proof fn lemma_stride_within_step(angle: int)
    ensures
        -STEP_SIZE <= spec_stride_x(angle) <= STEP_SIZE,
        -STEP_SIZE <= spec_stride_y(angle) <= STEP_SIZE,
{
    lemma_cos_bounds(angle);
    lemma_sin_bounds(angle);
    lemma_mul_unit_bound(spec_cos(angle), STEP_SIZE as int);
    lemma_mul_unit_bound(-spec_sin(angle), STEP_SIZE as int);
}

/// Movement rejection: a move that would end in a wall leaves both
/// coordinates as they were.
pub proof fn lemma_blocked_move_is_dropped(
    rows: Seq<u16>,
    x: int,
    y: int,
    angle: int,
    forward: bool,
    backward: bool,
)
    requires
        spec_move_blocked(rows, x, y, angle, forward, backward),
    ensures
        spec_moved(rows, x, y, angle, forward, backward) == (x, y),
{
}

/// A player outside the walls stays outside them, whatever the input.
pub proof fn lemma_player_stays_out_of_walls(
    rows: Seq<u16>,
    x: int,
    y: int,
    angle: int,
    forward: bool,
    backward: bool,
)
    requires
        !spec_point_in_wall(rows, x, y),
    ensures
        !spec_point_in_wall(
            rows,
            spec_moved(rows, x, y, angle, forward, backward).0,
            spec_moved(rows, x, y, angle, forward, backward).1,
        ),
{
}

/// Collision boundary, far side: where no wall lies within [`STEP_SIZE`] of
/// the player along either axis, every move is taken, at any heading.
pub proof fn lemma_clear_move_is_taken(
    rows: Seq<u16>,
    x: int,
    y: int,
    angle: int,
    forward: bool,
    backward: bool,
)
    requires
        forall|px: int, py: int|
            x - STEP_SIZE <= px <= x + STEP_SIZE && y - STEP_SIZE <= py <= y + STEP_SIZE
                ==> !#[trigger] spec_point_in_wall(rows, px, py),
    ensures
        spec_moved(rows, x, y, angle, forward, backward) == (
            spec_tentative_x(x, angle, forward, backward),
            spec_tentative_y(y, angle, forward, backward),
        ),
{
    lemma_stride_within_step(angle);
    let n: int = spec_strides(forward, backward);
    let sx: int = spec_stride_x(angle);
    let sy: int = spec_stride_y(angle);
    assert(-STEP_SIZE <= n * sx <= STEP_SIZE && -STEP_SIZE <= n * sy <= STEP_SIZE)
        by (nonlinear_arith)
        requires
            -1 <= n <= 1,
            -STEP_SIZE <= sx <= STEP_SIZE,
            -STEP_SIZE <= sy <= STEP_SIZE,
    ;
}

/// The direction, in cells along `x` and `y`, of a heading of `quarter`
/// quarter turns: along the row, up the map, back along the row, down the map.
pub open spec fn spec_axis(quarter: int) -> (int, int) {
    if quarter == 0 {
        (1, 0)
    } else if quarter == 1 {
        (0, -1)
    } else if quarter == 2 {
        (-1, 0)
    } else {
        (0, 1)
    }
}

/// Collision boundary, near side: a player who stands in an open cell,
/// faces along an axis toward a wall in the next cell and steps forward is
/// moved by exactly [`STEP_SIZE`] if that keeps the player in the cell, that
/// is if the wall is further away than the step, and not at all otherwise.
pub proof fn lemma_step_toward_wall(rows: Seq<u16>, x: int, y: int, angle: int, quarter: int)
    requires
        0 <= quarter < 4,
        angle % (TAU as int) == quarter * FRAC_PI_2,
        !spec_point_in_wall(rows, x, y),
        spec_cell_is_wall(
            rows,
            spec_cell_of(x) + spec_axis(quarter).0,
            spec_cell_of(y) + spec_axis(quarter).1,
        ),
    ensures
        spec_stride_x(angle) == spec_axis(quarter).0 * STEP_SIZE,
        spec_stride_y(angle) == spec_axis(quarter).1 * STEP_SIZE,
        spec_moved(rows, x, y, angle, true, false) == if spec_cell_of(x + spec_stride_x(angle))
            == spec_cell_of(x) && spec_cell_of(y + spec_stride_y(angle)) == spec_cell_of(y) {
            (x + spec_stride_x(angle), y + spec_stride_y(angle))
        } else {
            (x, y)
        },
{
    lemma_trig_on_axes();
    let turns: int = angle / (TAU as int);
    lemma_trig_periodic(quarter * FRAC_PI_2, turns);
    assert(angle == quarter * FRAC_PI_2 + turns * TAU);
    assert(spec_cos(angle) == spec_axis(quarter).0 * ONE);
    assert(spec_sin(angle) == -spec_axis(quarter).1 * ONE);
    assert(ONE * STEP_SIZE == 193265664 && 0 * STEP_SIZE == 0 && (-ONE) * STEP_SIZE == -193265664)
        by (nonlinear_arith)
        requires
            ONE == 65536,
            STEP_SIZE == 2949,
    ;
    assert(spec_strides(true, false) * spec_stride_x(angle) == spec_stride_x(angle));
    assert(spec_strides(true, false) * spec_stride_y(angle) == spec_stride_y(angle));
}

impl State {
    /// The state can be worked on: both coordinates and the number of rows
    /// are within the limits that keep every intermediate value in range.
    pub open spec fn wf(&self) -> bool {
        &&& -COORD_LIMIT <= self.player_x <= COORD_LIMIT
        &&& -COORD_LIMIT <= self.player_y <= COORD_LIMIT
        &&& self.map@.len() <= MAX_ROWS
    }

    /// The player stands in a wall.
    pub open spec fn in_wall(&self) -> bool {
        spec_point_in_wall(self.map@, self.player_x as int, self.player_y as int)
    }

    /// The player at the centre of the cell `(1, 1)` of the built-in arena,
    /// which is open, heading along the row.
    pub fn start() -> (s: State)
        ensures
            s.wf(),
            !s.in_wall(),
            s.map@ == spec_arena_rows(),
            s.player_x == ONE + ONE / 2,
            s.player_y == ONE + ONE / 2,
            s.player_angle == 0,
    {
        assert(!spec_bit(0b1000001010000101u16, 1)) by (bit_vector);
        State {
            map: GridMap::arena(),
            player_x: ONE + ONE / 2,
            player_y: ONE + ONE / 2,
            player_angle: 0,
        }
    }

    /// Tells whether the state can be worked on.
    pub fn is_wf(&self) -> (ok: bool)
        ensures
            ok == self.wf(),
    {
        -COORD_LIMIT <= self.player_x && self.player_x <= COORD_LIMIT && -COORD_LIMIT
            <= self.player_y && self.player_y <= COORD_LIMIT && self.map.rows.len() <= MAX_ROWS
    }

    /// Moves and turns the player by one frame's input.
    ///
    /// `up` and `down` move forward and backward along the old heading;
    /// `left` and `right` turn. The new position is kept only if it is
    /// outside every wall: otherwise both coordinates stay as they were. The
    /// heading turns either way.
    pub fn update(&mut self, up: bool, down: bool, left: bool, right: bool)
        requires
            old(self).wf(),
        ensures
            final(self).wf(),
            final(self).map == old(self).map,
            final(self).player_angle == spec_turned(old(self).player_angle as int, left, right),
            (final(self).player_x as int, final(self).player_y as int) == spec_moved(
                old(self).map@,
                old(self).player_x as int,
                old(self).player_y as int,
                old(self).player_angle as int,
                up,
                down,
            ),
            spec_move_blocked(
                old(self).map@,
                old(self).player_x as int,
                old(self).player_y as int,
                old(self).player_angle as int,
                up,
                down,
            ) ==> final(self).player_x == old(self).player_x && final(self).player_y == old(
                self,
            ).player_y,
            !old(self).in_wall() ==> !final(self).in_wall(),
    {
        proof {
            lemma_stride_within_step(self.player_angle as int);
        }
        let stride_x: i64 = mulf(cosf(self.player_angle), STEP_SIZE);
        let stride_y: i64 = mulf(-sinf(self.player_angle), STEP_SIZE);
        let mut x: i64 = self.player_x;
        let mut y: i64 = self.player_y;
        if up {
            x = x + stride_x;
            y = y + stride_y;
        }
        if down {
            x = x - stride_x;
            y = y - stride_y;
        }
        assert(x == spec_tentative_x(
            self.player_x as int,
            self.player_angle as int,
            up,
            down,
        ) && y == spec_tentative_y(self.player_y as int, self.player_angle as int, up, down)) by {
            let n: int = spec_strides(up, down);
            assert(n * stride_x == if n == 1 {
                stride_x as int
            } else if n == 0 {
                0
            } else {
                -stride_x
            }) by (nonlinear_arith)
                requires
                    -1 <= n <= 1,
            ;
            assert(n * stride_y == if n == 1 {
                stride_y as int
            } else if n == 0 {
                0
            } else {
                -stride_y
            }) by (nonlinear_arith)
                requires
                    -1 <= n <= 1,
            ;
        }
        if right {
            self.player_angle = subf(self.player_angle, STEP_SIZE);
        }
        if left {
            self.player_angle = addf(self.player_angle, STEP_SIZE);
        }
        if !self.map.point_in_wall(x, y) {
            self.player_x = x;
            self.player_y = y;
        }
    }
}

} // verus!

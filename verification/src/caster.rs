//! The ray caster.
//!
//! A ray leaves the player at an angle and is followed twice: once from one
//! horizontal grid line to the next, once from one vertical grid line to the
//! next. Each march samples the cell behind the line it has reached and
//! stops at the first wall, or after [`MAX_STEPS`] lines. The nearer of the
//! two stopping points is where the ray meets a wall.
use crate::fixed::{
    ceilf, distance, divf, floorf, lemma_distance_bounds, lemma_div_unit_bound,
    lemma_mul_unit_bound, mulf, spec_ceil, spec_distance, spec_div, spec_floor, spec_magnitude,
    spec_mul, FRAC_PI_2, ONE, PI, TAU,
};
use crate::map::{spec_cell_of, spec_point_in_wall, MAP_WIDTH};
use crate::player::{State, COORD_LIMIT};
use crate::trig::{
    lemma_tan_bounds, lemma_trig_periodic, reduce, spec_reduce, spec_tan, tanf,
};
use vstd::arithmetic::div_mod::lemma_hoist_over_denominator;
use vstd::prelude::*;

verus! {

/// The draw distance: the greatest number of grid lines that a march
/// crosses before it gives up.
pub const MAX_STEPS: i64 = 256;

/// The greatest magnitude of a ray's offset or step along either axis.
pub const SLOPE_LIMIT: i64 = 0x1_0000_0000;

/// The greatest distance that a march returns: no more than the way of a
/// ray that took every step at the steepest slope along both axes.
pub const MAX_CAST_DISTANCE: i64 = 0x202_0000_0000;

/// A ray as a march follows it. All offsets are relative to the player.
pub struct Ray {
    /// Where the ray first meets a grid line, along `x`.
    pub first_x: int,
    /// Where the ray first meets a grid line, along `y`.
    pub first_y: int,
    /// The way from one grid line to the next, along `x`.
    pub step_x: int,
    /// The way from one grid line to the next, along `y`.
    pub step_y: int,
    /// What is added to a meeting point to get a point of the cell behind
    /// the line, along `x`: a cell back where the ray descends along `x`.
    pub shift_x: int,
    /// The same along `y`.
    pub shift_y: int,
}

/// The angle points toward greater `y`.
pub open spec fn spec_faces_up(angle: int) -> bool {
    (angle / (PI as int)) % 2 != 0
}

/// The angle points toward greater `x`.
pub open spec fn spec_faces_right(angle: int) -> bool {
    ((angle - FRAC_PI_2) / (PI as int)) % 2 != 0
}

/// The ray from height `y` at `angle`, followed along horizontal grid lines.
pub open spec fn spec_horizontal_ray(y: int, angle: int) -> Ray {
    let up = spec_faces_up(angle);
    let first_y = if up {
        spec_ceil(y) - y
    } else {
        spec_floor(y) - y
    };
    let step_y: int = if up {
        ONE as int
    } else {
        -ONE
    };
    Ray {
        first_x: spec_div(-first_y, spec_tan(angle)),
        first_y,
        step_x: spec_div(-step_y, spec_tan(angle)),
        step_y,
        shift_x: 0,
        shift_y: if up {
            0
        } else {
            -ONE
        },
    }
}

/// The ray from abscissa `x` at `angle`, followed along vertical grid lines.
pub open spec fn spec_vertical_ray(x: int, angle: int) -> Ray {
    let right = spec_faces_right(angle);
    let first_x = if right {
        spec_ceil(x) - x
    } else {
        spec_floor(x) - x
    };
    let step_x: int = if right {
        ONE as int
    } else {
        -ONE
    };
    Ray {
        first_x,
        first_y: spec_mul(-spec_tan(angle), first_x),
        step_x,
        step_y: spec_mul(step_x, -spec_tan(angle)),
        shift_x: if right {
            0
        } else {
            -ONE
        },
        shift_y: 0,
    }
}

/// Where the ray is after `k` steps, along `x`.
pub open spec fn spec_ray_x(ray: Ray, k: int) -> int {
    ray.first_x + k * ray.step_x
}

/// Where the ray is after `k` steps, along `y`.
pub open spec fn spec_ray_y(ray: Ray, k: int) -> int {
    ray.first_y + k * ray.step_y
}

/// The cell behind the grid line that the ray reaches after `k` steps holds
/// a wall.
pub open spec fn spec_sample_in_wall(rows: Seq<u16>, x: int, y: int, ray: Ray, k: int) -> bool {
    spec_point_in_wall(
        rows,
        spec_ray_x(ray, k) + x + ray.shift_x,
        spec_ray_y(ray, k) + y + ray.shift_y,
    )
}

/// The number of steps after which a march that has taken `k` steps without
/// meeting a wall stops.
pub open spec fn spec_march(rows: Seq<u16>, x: int, y: int, ray: Ray, k: int) -> int
    decreases MAX_STEPS - k,
{
    if k >= MAX_STEPS {
        MAX_STEPS as int
    } else if spec_sample_in_wall(rows, x, y, ray, k) {
        k
    } else {
        spec_march(rows, x, y, ray, k + 1)
    }
}

/// The number of steps that the march of `ray` from `(x, y)` takes.
pub open spec fn spec_steps(rows: Seq<u16>, x: int, y: int, ray: Ray) -> int {
    spec_march(rows, x, y, ray, 0)
}

/// The distance from the player to the point where the march of `ray` stops.
pub open spec fn spec_cast(rows: Seq<u16>, x: int, y: int, ray: Ray) -> int {
    let k = spec_steps(rows, x, y, ray);
    spec_distance(spec_ray_x(ray, k), spec_ray_y(ray, k))
}

/// The distance to the nearest wall along horizontal grid lines.
pub open spec fn spec_horizontal_intersection(rows: Seq<u16>, x: int, y: int, angle: int) -> int {
    spec_cast(rows, x, y, spec_horizontal_ray(y, angle))
}

/// The distance to the nearest wall along vertical grid lines.
pub open spec fn spec_vertical_intersection(rows: Seq<u16>, x: int, y: int, angle: int) -> int {
    spec_cast(rows, x, y, spec_vertical_ray(x, angle))
}

/// The ray's offsets and steps are within [`SLOPE_LIMIT`], and its shifts
/// are a cell back or nothing.
pub open spec fn spec_ray_in_range(ray: Ray) -> bool {
    &&& -SLOPE_LIMIT <= ray.first_x <= SLOPE_LIMIT
    &&& -SLOPE_LIMIT <= ray.first_y <= SLOPE_LIMIT
    &&& -SLOPE_LIMIT <= ray.step_x <= SLOPE_LIMIT
    &&& -SLOPE_LIMIT <= ray.step_y <= SLOPE_LIMIT
    &&& -ONE <= ray.shift_x <= 0
    &&& -ONE <= ray.shift_y <= 0
}

/// A march stops at the first sample that lies in a wall, and at the draw
/// distance if there is none before it.
pub proof fn lemma_march_stops_at_first_wall(rows: Seq<u16>, x: int, y: int, ray: Ray, k: int)
    requires
        0 <= k <= MAX_STEPS,
    ensures
        k <= spec_march(rows, x, y, ray, k) <= MAX_STEPS,
        forall|j: int|
            k <= j < spec_march(rows, x, y, ray, k) ==> !spec_sample_in_wall(rows, x, y, ray, j),
        spec_march(rows, x, y, ray, k) < MAX_STEPS ==> spec_sample_in_wall(
            rows,
            x,
            y,
            ray,
            spec_march(rows, x, y, ray, k),
        ),
    decreases MAX_STEPS - k,
{
    if k < MAX_STEPS && !spec_sample_in_wall(rows, x, y, ray, k) {
        lemma_march_stops_at_first_wall(rows, x, y, ray, k + 1);
    }
}

/// After at most [`MAX_STEPS`] steps a ray in range is within
/// [`MAX_CAST_DISTANCE`] of the player.
pub proof fn lemma_ray_reach(ray: Ray, k: int)
    requires
        spec_ray_in_range(ray),
        0 <= k <= MAX_STEPS,
    ensures
        spec_magnitude(spec_ray_x(ray, k)) <= (k + 1) * SLOPE_LIMIT,
        spec_magnitude(spec_ray_y(ray, k)) <= (k + 1) * SLOPE_LIMIT,
        (k + 1) * SLOPE_LIMIT <= 257 * SLOPE_LIMIT,
{
    let limit: int = SLOPE_LIMIT as int;
    let sx: int = ray.step_x;
    let sy: int = ray.step_y;
    assert(-(k * limit) <= k * sx <= k * limit) by (nonlinear_arith)
        requires
            0 <= k,
            -limit <= sx <= limit,
    ;
    assert(-(k * limit) <= k * sy <= k * limit) by (nonlinear_arith)
        requires
            0 <= k,
            -limit <= sy <= limit,
    ;
}

/// Whole turns change neither of the two directions of an angle.
pub proof fn lemma_facing_periodic(angle: int, turns: int)
    ensures
        spec_faces_up(angle + turns * TAU) == spec_faces_up(angle),
        spec_faces_right(angle + turns * TAU) == spec_faces_right(angle),
{
    let pi: int = PI as int;
    assert(turns * TAU == (2 * turns) * pi) by (nonlinear_arith)
        requires
            TAU == 2 * pi,
    ;
    lemma_hoist_over_denominator(angle, 2 * turns, pi as nat);
    lemma_hoist_over_denominator(angle - FRAC_PI_2, 2 * turns, pi as nat);
}

/// Both directions of an angle can be read off the angle reduced into one
/// turn: up in the second half of the turn, right in its first and last
/// quarter.
pub proof fn lemma_facing_by_reduced_angle(angle: int)
    ensures
        spec_faces_up(angle) == (spec_reduce(angle) >= PI),
        spec_faces_right(angle) == (spec_reduce(angle) < FRAC_PI_2 || spec_reduce(angle) >= PI
            + FRAC_PI_2),
{
    let turn: int = spec_reduce(angle);
    let turns: int = angle / (TAU as int);
    assert(angle == turn + turns * TAU);
    lemma_facing_periodic(turn, turns);
    assert(0 <= turn < TAU);
    assert(turn / (PI as int) == if turn >= PI {
        1int
    } else {
        0int
    });
    assert((turn - FRAC_PI_2) / (PI as int) == if turn < FRAC_PI_2 {
        -1int
    } else if turn < PI + FRAC_PI_2 {
        0int
    } else {
        1int
    });
}

/// A ray cast at an angle and one cast any whole number of turns further
/// round stop at the same distance, on horizontal and on vertical grid lines.
pub proof fn lemma_cast_periodic(rows: Seq<u16>, x: int, y: int, angle: int, turns: int)
    ensures
        spec_horizontal_intersection(rows, x, y, angle + turns * TAU)
            == spec_horizontal_intersection(rows, x, y, angle),
        spec_vertical_intersection(rows, x, y, angle + turns * TAU)
            == spec_vertical_intersection(rows, x, y, angle),
{
    lemma_facing_periodic(angle, turns);
    lemma_trig_periodic(angle, turns);
}

/// The rays of a player within the coordinate limit are in range.
pub proof fn lemma_rays_in_range(x: int, y: int, angle: int)
    requires
        -COORD_LIMIT <= x <= COORD_LIMIT,
        -COORD_LIMIT <= y <= COORD_LIMIT,
    ensures
        spec_ray_in_range(spec_horizontal_ray(y, angle)),
        spec_ray_in_range(spec_vertical_ray(x, angle)),
{
    let slope: int = spec_tan(angle);
    lemma_tan_bounds(angle);
    let h = spec_horizontal_ray(y, angle);
    lemma_div_unit_bound(-h.first_y, slope);
    lemma_div_unit_bound(-h.step_y, slope);
    let v = spec_vertical_ray(x, angle);
    lemma_mul_unit_bound(v.first_x, -slope);
    lemma_mul_unit_bound(v.step_x, -slope);
    assert(spec_mul(-slope, v.first_x) == spec_mul(v.first_x, -slope)) by {
        assert((-slope) * v.first_x == v.first_x * (-slope)) by (nonlinear_arith);
    }
}

/// The march of a ray in range ends within [`MAX_CAST_DISTANCE`] of the
/// player.
pub proof fn lemma_cast_within_reach(rows: Seq<u16>, x: int, y: int, ray: Ray)
    requires
        spec_ray_in_range(ray),
    ensures
        0 <= spec_cast(rows, x, y, ray) <= MAX_CAST_DISTANCE,
{
    let k: int = spec_steps(rows, x, y, ray);
    lemma_march_stops_at_first_wall(rows, x, y, ray, 0);
    lemma_ray_reach(ray, k);
    lemma_distance_bounds(spec_ray_x(ray, k), spec_ray_y(ray, k));
}

/// Both intersections of a player within the coordinate limit lie between
/// zero and [`MAX_CAST_DISTANCE`], at every angle and on every map.
pub proof fn lemma_intersections_within_reach(rows: Seq<u16>, x: int, y: int, angle: int)
    requires
        -COORD_LIMIT <= x <= COORD_LIMIT,
        -COORD_LIMIT <= y <= COORD_LIMIT,
    ensures
        0 <= spec_horizontal_intersection(rows, x, y, angle) <= MAX_CAST_DISTANCE,
        0 <= spec_vertical_intersection(rows, x, y, angle) <= MAX_CAST_DISTANCE,
{
    lemma_rays_in_range(x, y, angle);
    lemma_cast_within_reach(rows, x, y, spec_horizontal_ray(y, angle));
    lemma_cast_within_reach(rows, x, y, spec_vertical_ray(x, angle));
}

/// Every point that a horizontal march reaches lies on a horizontal grid
/// line, and every point that a vertical march reaches on a vertical one.
pub proof fn lemma_marches_follow_grid_lines(x: int, y: int, angle: int, k: int)
    requires
        -COORD_LIMIT <= x <= COORD_LIMIT,
        -COORD_LIMIT <= y <= COORD_LIMIT,
    ensures
        (spec_ray_y(spec_horizontal_ray(y, angle), k) + y) % (ONE as int) == 0,
        (spec_ray_x(spec_vertical_ray(x, angle), k) + x) % (ONE as int) == 0,
{
    let h = spec_horizontal_ray(y, angle);
    let v = spec_vertical_ray(x, angle);
    assert(k * h.step_y == if spec_faces_up(angle) {
        k * ONE
    } else {
        -(k * ONE)
    }) by (nonlinear_arith)
        requires
            h.step_y == if spec_faces_up(angle) {
                ONE as int
            } else {
                -ONE
            },
    ;
    assert(k * v.step_x == if spec_faces_right(angle) {
        k * ONE
    } else {
        -(k * ONE)
    }) by (nonlinear_arith)
        requires
            v.step_x == if spec_faces_right(angle) {
                ONE as int
            } else {
                -ONE
            },
    ;
}

/// The row that a horizontal march samples moves by one with every step,
/// away from the player.
pub proof fn lemma_horizontal_sample_row(y: int, angle: int, k: int)
    requires
        -COORD_LIMIT <= y <= COORD_LIMIT,
    ensures
        spec_cell_of(
            spec_ray_y(spec_horizontal_ray(y, angle), k) + y + spec_horizontal_ray(y, angle).shift_y,
        ) == if spec_faces_up(angle) {
            spec_cell_of(spec_ceil(y)) + k
        } else {
            spec_cell_of(y) - 1 - k
        },
{
    let ray = spec_horizontal_ray(y, angle);
    assert(k * ray.step_y == if spec_faces_up(angle) {
        k * ONE
    } else {
        -(k * ONE)
    }) by (nonlinear_arith)
        requires
            ray.step_y == if spec_faces_up(angle) {
                ONE as int
            } else {
                -ONE
            },
    ;
}

/// The column that a vertical march samples moves by one with every step,
/// away from the player.
pub proof fn lemma_vertical_sample_column(x: int, angle: int, k: int)
    requires
        -COORD_LIMIT <= x <= COORD_LIMIT,
    ensures
        spec_cell_of(
            spec_ray_x(spec_vertical_ray(x, angle), k) + x + spec_vertical_ray(x, angle).shift_x,
        ) == if spec_faces_right(angle) {
            spec_cell_of(spec_ceil(x)) + k
        } else {
            spec_cell_of(x) - 1 - k
        },
{
    let ray = spec_vertical_ray(x, angle);
    assert(k * ray.step_x == if spec_faces_right(angle) {
        k * ONE
    } else {
        -(k * ONE)
    }) by (nonlinear_arith)
        requires
            ray.step_x == if spec_faces_right(angle) {
                ONE as int
            } else {
                -ONE
            },
    ;
}

/// A march stops no later than at any sample that lies in a wall.
pub proof fn lemma_march_stops_by(rows: Seq<u16>, x: int, y: int, ray: Ray, k: int)
    requires
        0 <= k,
        spec_sample_in_wall(rows, x, y, ray, k),
    ensures
        spec_steps(rows, x, y, ray) <= k,
{
    lemma_march_stops_at_first_wall(rows, x, y, ray, 0);
}

/// The map is closed above and below: a horizontal march takes no more
/// steps than the map has rows, and on a map of fewer rows than the draw
/// distance it stops at a wall.
pub proof fn lemma_horizontal_march_meets_wall(rows: Seq<u16>, x: int, y: int, angle: int)
    requires
        -COORD_LIMIT <= y <= COORD_LIMIT,
    ensures
        0 <= spec_steps(rows, x, y, spec_horizontal_ray(y, angle)) <= rows.len(),
        rows.len() < MAX_STEPS ==> spec_sample_in_wall(
            rows,
            x,
            y,
            spec_horizontal_ray(y, angle),
            spec_steps(rows, x, y, spec_horizontal_ray(y, angle)),
        ),
{
    let ray = spec_horizontal_ray(y, angle);
    let first_row: int = if spec_faces_up(angle) {
        spec_cell_of(spec_ceil(y))
    } else {
        spec_cell_of(y) - 1
    };
    let last: int = if first_row < 0 || first_row >= rows.len() {
        0
    } else if spec_faces_up(angle) {
        rows.len() - first_row
    } else {
        first_row + 1
    };
    lemma_horizontal_sample_row(y, angle, last);
    lemma_march_stops_by(rows, x, y, ray, last);
    lemma_march_stops_at_first_wall(rows, x, y, ray, 0);
}

/// The map is closed to the left and to the right: a vertical march takes
/// no more steps than the map has columns, and stops at a wall.
pub proof fn lemma_vertical_march_meets_wall(rows: Seq<u16>, x: int, y: int, angle: int)
    requires
        -COORD_LIMIT <= x <= COORD_LIMIT,
    ensures
        0 <= spec_steps(rows, x, y, spec_vertical_ray(x, angle)) <= MAP_WIDTH,
        spec_sample_in_wall(
            rows,
            x,
            y,
            spec_vertical_ray(x, angle),
            spec_steps(rows, x, y, spec_vertical_ray(x, angle)),
        ),
{
    let ray = spec_vertical_ray(x, angle);
    let first_column: int = if spec_faces_right(angle) {
        spec_cell_of(spec_ceil(x))
    } else {
        spec_cell_of(x) - 1
    };
    let last: int = if first_column < 0 || first_column >= MAP_WIDTH {
        0
    } else if spec_faces_right(angle) {
        MAP_WIDTH - first_column
    } else {
        first_column + 1
    };
    lemma_vertical_sample_column(x, angle, last);
    lemma_march_stops_by(rows, x, y, ray, last);
    lemma_march_stops_at_first_wall(rows, x, y, ray, 0);
}

/// Tells whether an angle points toward greater `y`.
pub fn faces_up(angle: i64) -> (up: bool)
    ensures
        up == spec_faces_up(angle as int),
{
    proof {
        lemma_facing_by_reduced_angle(angle as int);
    }
    reduce(angle) >= PI
}

/// Tells whether an angle points toward greater `x`.
pub fn faces_right(angle: i64) -> (right: bool)
    ensures
        right == spec_faces_right(angle as int),
{
    proof {
        lemma_facing_by_reduced_angle(angle as int);
    }
    let turn: i64 = reduce(angle);
    turn < FRAC_PI_2 || turn >= PI + FRAC_PI_2
}

impl State {
    /// The distance from the player to the nearest wall that a ray at
    /// `angle` meets on a horizontal grid line, or to the point where the
    /// ray is when the draw distance is used up.
    pub fn horizontal_intersection(&self, angle: i64) -> (d: i64)
        requires
            self.wf(),
        ensures
            d == spec_horizontal_intersection(
                self.map@,
                self.player_x as int,
                self.player_y as int,
                angle as int,
            ),
            0 <= d <= MAX_CAST_DISTANCE,
    {
        let up: bool = faces_up(angle);
        let first_y: i64 = if up {
            ceilf(self.player_y) - self.player_y
        } else {
            floorf(self.player_y) - self.player_y
        };
        let slope: i64 = tanf(angle);
        let step_y: i64 = if up {
            ONE
        } else {
            -ONE
        };
        proof {
            lemma_div_unit_bound(-first_y, slope as int);
            lemma_div_unit_bound(-step_y, slope as int);
        }
        let first_x: i64 = divf(-first_y, slope);
        let step_x: i64 = divf(-step_y, slope);
        let shift_y: i64 = if up {
            0
        } else {
            -ONE
        };
        self.march(first_x, first_y, step_x, step_y, 0, shift_y)
    }

    /// The distance from the player to the nearest wall that a ray at
    /// `angle` meets on a vertical grid line, or to the point where the ray
    /// is when the draw distance is used up.
    pub fn vertical_intersection(&self, angle: i64) -> (d: i64)
        requires
            self.wf(),
        ensures
            d == spec_vertical_intersection(
                self.map@,
                self.player_x as int,
                self.player_y as int,
                angle as int,
            ),
            0 <= d <= MAX_CAST_DISTANCE,
    {
        let right: bool = faces_right(angle);
        let first_x: i64 = if right {
            ceilf(self.player_x) - self.player_x
        } else {
            floorf(self.player_x) - self.player_x
        };
        let slope: i64 = tanf(angle);
        let step_x: i64 = if right {
            ONE
        } else {
            -ONE
        };
        proof {
            lemma_mul_unit_bound(first_x as int, -slope);
            lemma_mul_unit_bound(step_x as int, -slope);
            assert(spec_mul(-slope, first_x as int) == spec_mul(first_x as int, -slope)) by {
                assert((-slope) * first_x == first_x * (-slope)) by (nonlinear_arith);
            }
        }
        let first_y: i64 = mulf(-slope, first_x);
        let step_y: i64 = mulf(step_x, -slope);
        let shift_x: i64 = if right {
            0
        } else {
            -ONE
        };
        self.march(first_x, first_y, step_x, step_y, shift_x, 0)
    }

    /// Follows a ray from the player until a sample lies in a wall or the
    /// draw distance is used up, and returns the distance from the player to
    /// the point reached.
    fn march(
        &self,
        first_x: i64,
        first_y: i64,
        step_x: i64,
        step_y: i64,
        shift_x: i64,
        shift_y: i64,
    ) -> (d: i64)
        requires
            self.wf(),
            spec_ray_in_range(
                (Ray {
                    first_x: first_x as int,
                    first_y: first_y as int,
                    step_x: step_x as int,
                    step_y: step_y as int,
                    shift_x: shift_x as int,
                    shift_y: shift_y as int,
                }),
            ),
        ensures
            d == spec_cast(
                self.map@,
                self.player_x as int,
                self.player_y as int,
                (Ray {
                    first_x: first_x as int,
                    first_y: first_y as int,
                    step_x: step_x as int,
                    step_y: step_y as int,
                    shift_x: shift_x as int,
                    shift_y: shift_y as int,
                }),
            ),
            0 <= d <= MAX_CAST_DISTANCE,
    {
        let ghost ray = Ray {
            first_x: first_x as int,
            first_y: first_y as int,
            step_x: step_x as int,
            step_y: step_y as int,
            shift_x: shift_x as int,
            shift_y: shift_y as int,
        };
        let ghost rows = self.map@;
        let ghost x = self.player_x as int;
        let ghost y = self.player_y as int;
        let mut next_x: i64 = first_x;
        let mut next_y: i64 = first_y;
        let mut k: i64 = 0;
        proof {
            lemma_ray_reach(ray, 0);
        }
        while k < MAX_STEPS && !self.map.point_in_wall(
            next_x + self.player_x + shift_x,
            next_y + self.player_y + shift_y,
        )
            invariant
                self.wf(),
                spec_ray_in_range(ray),
                rows == self.map@,
                x == self.player_x,
                y == self.player_y,
                ray.shift_x == shift_x,
                ray.shift_y == shift_y,
                ray.step_x == step_x,
                ray.step_y == step_y,
                0 <= k <= MAX_STEPS,
                next_x == spec_ray_x(ray, k as int),
                next_y == spec_ray_y(ray, k as int),
                spec_magnitude(next_x as int) <= 257 * SLOPE_LIMIT,
                spec_magnitude(next_y as int) <= 257 * SLOPE_LIMIT,
                spec_march(rows, x, y, ray, k as int) == spec_steps(rows, x, y, ray),
            decreases MAX_STEPS - k,
        {
            proof {
                lemma_ray_reach(ray, k + 1);
                assert((k + 1) * ray.step_x == k * ray.step_x + ray.step_x) by (nonlinear_arith);
                assert((k + 1) * ray.step_y == k * ray.step_y + ray.step_y) by (nonlinear_arith);
            }
            next_x = next_x + step_x;
            next_y = next_y + step_y;
            k = k + 1;
        }
        proof {
            assert(spec_steps(rows, x, y, ray) == k);
            lemma_distance_bounds(next_x as int, next_y as int);
        }
        distance(next_x, next_y)
    }
}

} // verus!

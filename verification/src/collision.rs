//! Narrow-phase collision resolution.
//!
//! Three exact pairwise responses: dynamic circle against dynamic circle,
//! against a static circle, and against a static axis-aligned rectangle.
//! Each executable resolver is specified by a closed-form spec function over
//! the fixed-point arithmetic of [`crate::fixed`], so the sub-step loop can
//! state precisely what a whole resolution pass computes.
//!
//! Degenerate geometry (coincident centers, a circle center inside a
//! rectangle) is resolved by deterministic fallback axes rather than by
//! failing: the fallbacks only exist to avoid dividing by a zero distance.

use vstd::prelude::*;
use crate::body::{Circle, CircleModel, StaticCircle, StaticCircleModel, StaticRectangle,
    StaticRectangleModel};
use crate::fixed::{clamp, fx_abs, fx_add, fx_dist, fx_div, fx_divi, fx_dot, fx_elastic, fx_mul,
    fx_neg, fx_refl, fx_sgn, fx_sub, lemma_dist_dominates, lemma_half_double, lemma_product_bound,
    lemma_square_mass_bounds, lemma_tdiv_bounds, lemma_tdiv_multiple, lemma_unit_quotient,
    lemma_zero_dist_means_coincident, s_abs, s_add, s_clamp, s_dist, s_div, s_divi, s_dot,
    s_elastic, s_mul, s_neg, s_refl, s_sgn, s_sub, FX_MAX, SCALE};

verus! {

/// Whether two dynamic circles overlap: their center distance is smaller
/// than the sum of their radii.
pub open spec fn circles_overlap(a: CircleModel, b: CircleModel) -> bool {
    s_dist(s_sub(b.x, a.x), s_sub(b.y, a.y)) < s_add(a.r, b.r)
}

/// Velocities of both circles after the elastic exchange along the unit
/// normal `(nx, ny)`, using `radius^2` as the mass proxy; tangential
/// components are untouched. When both mass proxies round to zero the
/// velocities are left unchanged (there is nothing to exchange).
pub open spec fn exchanged_velocities(a: CircleModel, b: CircleModel, nx: int, ny: int) -> (
    CircleModel,
    CircleModel,
) {
    let tx = s_neg(ny);
    let ty = nx;
    let v_an = s_dot(nx, ny, a.vx, a.vy);
    let v_at = s_dot(tx, ty, a.vx, a.vy);
    let v_bn = s_dot(nx, ny, b.vx, b.vy);
    let v_bt = s_dot(tx, ty, b.vx, b.vy);
    let m1 = s_mul(a.r, a.r);
    let m2 = s_mul(b.r, b.r);
    if m1 + m2 > 0 {
        let v_an2 = s_elastic(v_an, v_bn, m1, m2);
        let v_bn2 = s_elastic(v_bn, v_an, m2, m1);
        (
            CircleModel {
                vx: s_add(s_mul(v_an2, nx), s_mul(v_at, tx)),
                vy: s_add(s_mul(v_an2, ny), s_mul(v_at, ty)),
                ..a
            },
            CircleModel {
                vx: s_add(s_mul(v_bn2, nx), s_mul(v_bt, tx)),
                vy: s_add(s_mul(v_bn2, ny), s_mul(v_bt, ty)),
                ..b
            },
        )
    } else {
        (a, b)
    }
}

/// Both circles pushed apart along the unit normal by half the penetration
/// depth each, so their positions no longer overlap.
pub open spec fn pushed_apart(a: CircleModel, b: CircleModel, nx: int, ny: int, overlap: int) -> (
    CircleModel,
    CircleModel,
) {
    (
        CircleModel { x: s_sub(a.x, s_mul(overlap, nx)), y: s_sub(a.y, s_mul(overlap, ny)), ..a },
        CircleModel { x: s_add(b.x, s_mul(overlap, nx)), y: s_add(b.y, s_mul(overlap, ny)), ..b },
    )
}

/// The full dynamic-dynamic response: a no-op on separated pairs; otherwise
/// an elastic velocity exchange along the line of centers plus a positional
/// separation. Coincident centers are first nudged apart along the x axis,
/// which makes the x axis the contact normal.
pub open spec fn collide(a: CircleModel, b: CircleModel) -> (CircleModel, CircleModel) {
    let dx = s_sub(b.x, a.x);
    let dy = s_sub(b.y, a.y);
    let dist = s_dist(dx, dy);
    let min_d = s_add(a.r, b.r);
    if min_d <= dist {
        (a, b)
    } else {
        let overlap = s_divi(s_sub(min_d, dist), 2);
        if dist > 0 {
            let nx = s_div(dx, dist);
            let ny = s_div(dy, dist);
            let (a2, b2) = exchanged_velocities(a, b, nx, ny);
            pushed_apart(a2, b2, nx, ny, overlap)
        } else {
            let sep = s_add(min_d, 1);
            let half = s_divi(sep, 2);
            let a1 = CircleModel { x: s_sub(a.x, half), ..a };
            let b1 = CircleModel { x: s_add(b.x, half), ..b };
            let nx = s_div(s_sub(b1.x, a1.x), sep);
            let ny = s_div(s_sub(b1.y, a1.y), sep);
            let (a2, b2) = exchanged_velocities(a1, b1, nx, ny);
            pushed_apart(a2, b2, nx, ny, overlap)
        }
    }
}

/// Resolves a colliding pair of distinct dynamic circles in place.
pub fn avoid_collision(a: &mut Circle, b: &mut Circle)
    ensures
        (final(a)@, final(b)@) == collide(old(a)@, old(b)@),
{
    let dx = fx_sub(b.x_pos, a.x_pos);
    let dy = fx_sub(b.y_pos, a.y_pos);
    let dist = fx_dist(dx, dy);
    let min_d = fx_add(a.radius, b.radius);

    if min_d <= dist {
        return ;
    }
    let overlap = fx_divi(fx_sub(min_d, dist), 2);

    let (nx, ny): (i64, i64) = if dist > 0 {
        proof {
            lemma_dist_dominates(dx as int, dy as int);
            lemma_unit_quotient(dx as int, dist as int);
            lemma_unit_quotient(dy as int, dist as int);
        }
        (fx_div(dx, dist), fx_div(dy, dist))
    } else {
        proof {
            lemma_dist_dominates(dx as int, dy as int);
            lemma_zero_dist_means_coincident(dx as int, dy as int);
        }
        let sep = fx_add(min_d, 1);
        let half = fx_divi(sep, 2);
        proof {
            lemma_tdiv_bounds(sep as int, 2);
            lemma_half_double(sep as int);
        }
        a.x_pos = fx_sub(a.x_pos, half);
        b.x_pos = fx_add(b.x_pos, half);
        let dx1 = fx_sub(b.x_pos, a.x_pos);
        let dy1 = fx_sub(b.y_pos, a.y_pos);
        proof {
            lemma_unit_quotient(dx1 as int, sep as int);
            lemma_unit_quotient(dy1 as int, sep as int);
        }
        (fx_div(dx1, sep), fx_div(dy1, sep))
    };

    let tx = fx_neg(ny);
    let ty = nx;
    let v_an = fx_dot(nx, ny, a.velocity.0, a.velocity.1);
    let v_at = fx_dot(tx, ty, a.velocity.0, a.velocity.1);
    let v_bn = fx_dot(nx, ny, b.velocity.0, b.velocity.1);
    let v_bt = fx_dot(tx, ty, b.velocity.0, b.velocity.1);
    let m1 = fx_mul(a.radius, a.radius);
    let m2 = fx_mul(b.radius, b.radius);
    proof {
        lemma_square_mass_bounds(a.radius as int);
        lemma_square_mass_bounds(b.radius as int);
    }
    if m1 + m2 > 0 {
        let v_an2 = fx_elastic(v_an, v_bn, m1, m2);
        let v_bn2 = fx_elastic(v_bn, v_an, m2, m1);
        a.velocity.0 = fx_add(fx_mul(v_an2, nx), fx_mul(v_at, tx));
        a.velocity.1 = fx_add(fx_mul(v_an2, ny), fx_mul(v_at, ty));
        b.velocity.0 = fx_add(fx_mul(v_bn2, nx), fx_mul(v_bt, tx));
        b.velocity.1 = fx_add(fx_mul(v_bn2, ny), fx_mul(v_bt, ty));
    }
    a.x_pos = fx_sub(a.x_pos, fx_mul(overlap, nx));
    a.y_pos = fx_sub(a.y_pos, fx_mul(overlap, ny));
    b.x_pos = fx_add(b.x_pos, fx_mul(overlap, nx));
    b.y_pos = fx_add(b.y_pos, fx_mul(overlap, ny));
}

/// The dynamic circle with its velocity reflected about the unit normal
/// `(nx, ny)` and scaled by the elasticity coefficient `e`, after being
/// pushed out of the obstacle by `overlap` along that normal.
pub open spec fn bounced_off(c: CircleModel, nx: int, ny: int, overlap: int, e: int) -> CircleModel {
    let vn = s_dot(nx, ny, c.vx, c.vy);
    CircleModel {
        x: s_add(c.x, s_mul(overlap, nx)),
        y: s_add(c.y, s_mul(overlap, ny)),
        vx: s_sub(c.vx, s_refl(vn, nx, e)),
        vy: s_sub(c.vy, s_refl(vn, ny, e)),
        ..c
    }
}

/// Whether a dynamic circle overlaps a static circle.
pub open spec fn static_circle_overlap(c: CircleModel, s: StaticCircleModel) -> bool {
    s_dist(s_sub(c.x, s.x), s_sub(c.y, s.y)) < s_add(c.r, s.r)
}

/// Response of a dynamic circle against a static circle: pushed out by the
/// full penetration depth along the line of centers (the obstacle never
/// moves) with the velocity reflected and damped by the elasticity
/// coefficient; a no-op without overlap. Exactly coincident centers take
/// the x axis as the normal, only to avoid a division by zero.
pub open spec fn collide_static_circle(c: CircleModel, s: StaticCircleModel, e: int) -> CircleModel {
    let dx = s_sub(c.x, s.x);
    let dy = s_sub(c.y, s.y);
    let dist = s_dist(dx, dy);
    let min_d = s_add(c.r, s.r);
    if dist < min_d {
        let (nx, ny) = if dist > 0 {
            (s_div(dx, dist), s_div(dy, dist))
        } else {
            (SCALE as int, 0int)
        };
        bounced_off(c, nx, ny, s_sub(min_d, dist), e)
    } else {
        c
    }
}

/// Resolves a dynamic circle against a static circular obstacle in place.
pub fn circle_static_circle_collision(
    circle: &mut Circle,
    static_circle: &StaticCircle,
    elasticity: i64,
)
    requires
        0 <= elasticity <= SCALE,
    ensures
        final(circle)@ == collide_static_circle(old(circle)@, static_circle@, elasticity as int),
{
    let dx = fx_sub(circle.x_pos, static_circle.x_pos);
    let dy = fx_sub(circle.y_pos, static_circle.y_pos);
    let dist = fx_dist(dx, dy);
    let min_d = fx_add(circle.radius, static_circle.radius);
    if dist < min_d {
        let (nx, ny): (i64, i64) = if dist > 0 {
            proof {
                lemma_dist_dominates(dx as int, dy as int);
                lemma_unit_quotient(dx as int, dist as int);
                lemma_unit_quotient(dy as int, dist as int);
            }
            (fx_div(dx, dist), fx_div(dy, dist))
        } else {
            (SCALE, 0)
        };
        let overlap = fx_sub(min_d, dist);
        let vn = fx_dot(nx, ny, circle.velocity.0, circle.velocity.1);
        circle.x_pos = fx_add(circle.x_pos, fx_mul(overlap, nx));
        circle.y_pos = fx_add(circle.y_pos, fx_mul(overlap, ny));
        circle.velocity.0 = fx_sub(circle.velocity.0, fx_refl(vn, nx, elasticity));
        circle.velocity.1 = fx_sub(circle.velocity.1, fx_refl(vn, ny, elasticity));
    }
}

/// The point of an axis-aligned rectangle closest to `(x, y)`, found by
/// clamping each coordinate independently to the rectangle's extent.
pub open spec fn closest_rect_point(t: StaticRectangleModel, x: int, y: int) -> (int, int) {
    (s_clamp(x, t.x, s_add(t.x, t.w)), s_clamp(y, t.y, s_add(t.y, t.h)))
}

/// Whether a dynamic circle overlaps a static rectangle: the squared
/// distance from its center to the closest rectangle point is below the
/// squared radius.
pub open spec fn static_rect_overlap(c: CircleModel, t: StaticRectangleModel) -> bool {
    let (px, py) = closest_rect_point(t, c.x, c.y);
    let dx = s_sub(c.x, px);
    let dy = s_sub(c.y, py);
    dx * dx + dy * dy < c.r * c.r
}

/// Response of a dynamic circle against a static rectangle: pushed out of
/// the closest-point contact with the velocity reflected and damped, as for
/// a static circle. A center inside the rectangle (distance zero) falls
/// back to a signed axis normal, the axis with the larger center offset
/// magnitude winning and zero offsets counting as positive.
pub open spec fn collide_static_rect(c: CircleModel, t: StaticRectangleModel, e: int) -> CircleModel {
    let (px, py) = closest_rect_point(t, c.x, c.y);
    let dx = s_sub(c.x, px);
    let dy = s_sub(c.y, py);
    if dx * dx + dy * dy < c.r * c.r {
        let dist = s_dist(dx, dy);
        let (nx, ny) = if dist > 0 {
            (s_div(dx, dist), s_div(dy, dist))
        } else {
            if s_abs(dx) > s_abs(dy) {
                (s_sgn(dx), 0int)
            } else {
                (0int, s_sgn(dy))
            }
        };
        bounced_off(c, nx, ny, s_sub(c.r, dist), e)
    } else {
        c
    }
}

/// Resolves a dynamic circle against a static rectangular obstacle in place.
pub fn circle_static_rectangle_collision(
    circle: &mut Circle,
    rect: &StaticRectangle,
    elasticity: i64,
)
    requires
        0 <= elasticity <= SCALE,
    ensures
        final(circle)@ == collide_static_rect(old(circle)@, rect@, elasticity as int),
{
    let closest_x = clamp(circle.x_pos, rect.x_pos, fx_add(rect.x_pos, rect.width));
    let closest_y = clamp(circle.y_pos, rect.y_pos, fx_add(rect.y_pos, rect.height));
    let dx = fx_sub(circle.x_pos, closest_x);
    let dy = fx_sub(circle.y_pos, closest_y);
    proof {
        lemma_product_bound(dx as int, FX_MAX as int, dx as int, FX_MAX as int);
        lemma_product_bound(dy as int, FX_MAX as int, dy as int, FX_MAX as int);
        lemma_product_bound(
            circle.radius as int,
            0x8000_0000_0000_0000,
            circle.radius as int,
            0x8000_0000_0000_0000,
        );
    }
    let d2: i128 = (dx as i128) * (dx as i128) + (dy as i128) * (dy as i128);
    let r2: i128 = (circle.radius as i128) * (circle.radius as i128);
    if d2 < r2 {
        let dist = fx_dist(dx, dy);
        let (nx, ny): (i64, i64) = if dist > 0 {
            proof {
                lemma_dist_dominates(dx as int, dy as int);
                lemma_unit_quotient(dx as int, dist as int);
                lemma_unit_quotient(dy as int, dist as int);
            }
            (fx_div(dx, dist), fx_div(dy, dist))
        } else {
            if fx_abs(dx) > fx_abs(dy) {
                (fx_sgn(dx), 0)
            } else {
                (0, fx_sgn(dy))
            }
        };
        let overlap = fx_sub(circle.radius, dist);
        let vn = fx_dot(nx, ny, circle.velocity.0, circle.velocity.1);
        circle.x_pos = fx_add(circle.x_pos, fx_mul(overlap, nx));
        circle.y_pos = fx_add(circle.y_pos, fx_mul(overlap, ny));
        circle.velocity.0 = fx_sub(circle.velocity.0, fx_refl(vn, nx, elasticity));
        circle.velocity.1 = fx_sub(circle.velocity.1, fx_refl(vn, ny, elasticity));
    }
}

/// Resolution is safe to repeat: on a pair whose center distance already
/// reaches the sum of the radii it changes nothing, so a pair reported by
/// several broad-phase cells is resolved at most once.
pub proof fn lemma_separated_pair_untouched(a: CircleModel, b: CircleModel)
    requires
        !circles_overlap(a, b),
    ensures
        collide(a, b) == (a, b),
{
}

/// A dynamic circle already clear of a static circle is left untouched.
pub proof fn lemma_clear_of_static_circle_untouched(
    c: CircleModel,
    s: StaticCircleModel,
    e: int,
)
    requires
        !static_circle_overlap(c, s),
    ensures
        collide_static_circle(c, s, e) == c,
{
}

/// A dynamic circle already clear of a static rectangle is left untouched.
pub proof fn lemma_clear_of_static_rect_untouched(
    c: CircleModel,
    t: StaticRectangleModel,
    e: int,
)
    requires
        !static_rect_overlap(c, t),
    ensures
        collide_static_rect(c, t, e) == c,
{
}

/// With equal mass proxies the one-dimensional elastic exchange swaps the
/// two normal velocities exactly.
pub proof fn lemma_equal_mass_exchange(v1: int, v2: int, m: int)
    requires
        m >= 1,
        -FX_MAX <= v1 <= FX_MAX,
        -FX_MAX <= v2 <= FX_MAX,
    ensures
        s_elastic(v1, v2, m, m) == v2,
        s_elastic(v2, v1, m, m) == v1,
{
    assert(v1 * (m - m) + 2 * m * v2 == v2 * (m + m) && v2 * (m - m) + 2 * m * v1 == v1 * (m + m))
        by (nonlinear_arith);
    lemma_tdiv_multiple(v2, m + m);
    lemma_tdiv_multiple(v1, m + m);
}

/// Two equal-radius circles in collision exchange exactly their normal
/// velocity components: for any unit normal, the new normal component of
/// each circle is the old normal component of the other. In particular two
/// such circles meeting head-on with opposite velocities leave with them
/// swapped.
pub proof fn lemma_equal_radius_collision_swaps(a: CircleModel, b: CircleModel, nx: int, ny: int)
    requires
        a.r == b.r,
        s_mul(a.r, a.r) >= 1,
    ensures
        ({
            let v_an = s_dot(nx, ny, a.vx, a.vy);
            let v_bn = s_dot(nx, ny, b.vx, b.vy);
            let m = s_mul(a.r, a.r);
            s_elastic(v_an, v_bn, m, m) == v_bn && s_elastic(v_bn, v_an, m, m) == v_an
        }),
{
    let v_an = s_dot(nx, ny, a.vx, a.vy);
    let v_bn = s_dot(nx, ny, b.vx, b.vy);
    lemma_equal_mass_exchange(v_an, v_bn, s_mul(a.r, a.r));
}

} // verus!

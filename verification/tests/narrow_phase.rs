use physics_grid::collision::{
    avoid_collision, circle_static_circle_collision, circle_static_rectangle_collision,
};
use physics_grid::{Circle, StaticCircle, StaticRectangle};

const S: i64 = 1000;

#[test]
fn equal_radius_head_on_collision_exchanges_velocities() {
    let mut a = Circle { x_pos: 0, y_pos: 0, radius: 10 * S, velocity: (5 * S, 0) };
    let mut b = Circle { x_pos: 15 * S, y_pos: 0, radius: 10 * S, velocity: (-5 * S, 0) };
    avoid_collision(&mut a, &mut b);
    // Equal mass proxies: the normal (here: full) velocities swap exactly.
    assert_eq!(a.velocity, (-5 * S, 0));
    assert_eq!(b.velocity, (5 * S, 0));
    // Pushed apart by half the 5-unit overlap each, along the x axis.
    assert_eq!(a.x_pos, -2500);
    assert_eq!(b.x_pos, 17500);
    assert_eq!(a.y_pos, 0);
    assert_eq!(b.y_pos, 0);
    assert_eq!(a.radius, 10 * S);
    assert_eq!(b.radius, 10 * S);
}

#[test]
fn separated_pair_is_untouched() {
    let a0 = Circle { x_pos: 0, y_pos: 0, radius: 5 * S, velocity: (3 * S, -2 * S) };
    let b0 = Circle { x_pos: 20 * S, y_pos: 0, radius: 5 * S, velocity: (-S, S) };
    let mut a = a0;
    let mut b = b0;
    avoid_collision(&mut a, &mut b);
    assert_eq!((a.x_pos, a.y_pos, a.velocity), (a0.x_pos, a0.y_pos, a0.velocity));
    assert_eq!((b.x_pos, b.y_pos, b.velocity), (b0.x_pos, b0.y_pos, b0.velocity));
}

#[test]
fn resolution_is_idempotent_once_separated() {
    let mut a = Circle { x_pos: 0, y_pos: 0, radius: 10 * S, velocity: (5 * S, 0) };
    let mut b = Circle { x_pos: 15 * S, y_pos: 0, radius: 10 * S, velocity: (-5 * S, 0) };
    avoid_collision(&mut a, &mut b);
    let (a1, b1) = (a, b);
    // The pair now stands exactly at the touching distance; resolving the
    // same candidate pair again (as overlapping grid cells do) is a no-op.
    avoid_collision(&mut a, &mut b);
    assert_eq!((a.x_pos, a.y_pos, a.velocity), (a1.x_pos, a1.y_pos, a1.velocity));
    assert_eq!((b.x_pos, b.y_pos, b.velocity), (b1.x_pos, b1.y_pos, b1.velocity));
}

#[test]
fn coincident_centers_are_nudged_apart_along_x() {
    let mut a = Circle { x_pos: 7 * S, y_pos: 3 * S, radius: 2 * S, velocity: (0, 0) };
    let mut b = Circle { x_pos: 7 * S, y_pos: 3 * S, radius: 2 * S, velocity: (0, 0) };
    avoid_collision(&mut a, &mut b);
    assert!(a.x_pos < b.x_pos);
    assert_eq!(a.y_pos, 3 * S);
    assert_eq!(b.y_pos, 3 * S);
}

#[test]
fn static_circle_bounce_reflects_and_pushes_out() {
    // Falling straight down onto a static circle from above.
    let mut c = Circle { x_pos: 0, y_pos: -15 * S, radius: 10 * S, velocity: (0, 5 * S) };
    let obstacle = StaticCircle { x_pos: 0, y_pos: 0, radius: 10 * S };
    circle_static_circle_collision(&mut c, &obstacle, 900);
    // Pushed out by the full 5-unit overlap along the upward normal.
    assert_eq!(c.y_pos, -20 * S);
    assert_eq!(c.x_pos, 0);
    // v' = v - 2 (v.n) n e with e = 0.9: 5.0 becomes -4.0.
    assert_eq!(c.velocity, (0, -4 * S));
}

#[test]
fn rectangle_bounce_reflects_off_the_top_edge() {
    let mut c = Circle { x_pos: 400 * S, y_pos: 395 * S, radius: 10 * S, velocity: (0, 5 * S) };
    let rect = StaticRectangle { x_pos: 0, y_pos: 400 * S, width: 800 * S, height: 80 * S };
    circle_static_rectangle_collision(&mut c, &rect, 900);
    // Pushed up to tangency with the top edge.
    assert_eq!(c.y_pos, 390 * S);
    assert_eq!(c.x_pos, 400 * S);
    assert_eq!(c.velocity, (0, -4 * S));
}

#[test]
fn circle_center_inside_rectangle_is_pushed_along_an_axis() {
    let mut c = Circle { x_pos: 100 * S, y_pos: 100 * S, radius: 5 * S, velocity: (0, 0) };
    let rect = StaticRectangle { x_pos: 90 * S, y_pos: 95 * S, width: 20 * S, height: 10 * S };
    // The center lies strictly inside the rectangle, so the closest point is
    // the center itself; the fallback takes the positive y axis as the
    // normal and pushes the circle out by its full radius.
    circle_static_rectangle_collision(&mut c, &rect, 900);
    assert_eq!((c.x_pos, c.y_pos), (100 * S, 105 * S));
    // A zero normal velocity component reflects to nothing.
    assert_eq!(c.velocity, (0, 0));
}

#[test]
fn coincident_static_circle_takes_the_x_axis_normal() {
    let mut c = Circle { x_pos: 50 * S, y_pos: 50 * S, radius: 3 * S, velocity: (0, 0) };
    let obstacle = StaticCircle { x_pos: 50 * S, y_pos: 50 * S, radius: 4 * S };
    circle_static_circle_collision(&mut c, &obstacle, 900);
    // Pushed out by the 7-unit overlap along the +x fallback normal.
    assert_eq!((c.x_pos, c.y_pos), (57 * S, 50 * S));
}

#[test]
fn circle_clear_of_rectangle_is_untouched() {
    let c0 = Circle { x_pos: 400 * S, y_pos: 380 * S, radius: 10 * S, velocity: (S, S) };
    let mut c = c0;
    let rect = StaticRectangle { x_pos: 0, y_pos: 400 * S, width: 800 * S, height: 80 * S };
    circle_static_rectangle_collision(&mut c, &rect, 900);
    assert_eq!((c.x_pos, c.y_pos, c.velocity), (c0.x_pos, c0.y_pos, c0.velocity));
}

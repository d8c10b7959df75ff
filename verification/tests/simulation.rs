use physics_grid::{Circle, CommandQueue, Config, Grid, GridMessage, StaticRectangle};

const S: i64 = 1000;

fn frozen_config() -> Config {
    // No gravity, no damping, no radius decay: motion alone.
    Config { gravity: 0, damping: S, shrink: S, ..Config::default() }
}

#[test]
fn out_of_range_options_are_rejected_by_validation() {
    let valid = Config::default();
    assert!(valid.is_valid());
    let too_elastic = Config { elasticity: 2000, ..Config::default() };
    assert!(!too_elastic.is_valid());
    let no_substeps = Config { sub_ticks: 0, ..Config::default() };
    assert!(!no_substeps.is_valid());
    let empty_cells = Config { cell_size: 0, ..Config::default() };
    assert!(!empty_cells.is_valid());
}

#[test]
fn frame_number_increases_by_exactly_one_per_tick() {
    let mut grid = Grid::new(800 * S, 480 * S, Config::default());
    let f1 = grid.tick(Vec::new());
    let f2 = grid.tick(Vec::new());
    let f3 = grid.tick(Vec::new());
    assert_eq!(f1.get_frame_number(), 1);
    assert_eq!(f2.get_frame_number(), 2);
    assert_eq!(f3.get_frame_number(), 3);
}

#[test]
fn queued_commands_are_drained_into_the_world() {
    let mut grid = Grid::new(800 * S, 480 * S, frozen_config());
    let mut queue = CommandQueue::new(100);
    queue
        .try_send(GridMessage::AddCircle(Circle {
            x_pos: 100 * S,
            y_pos: 100 * S,
            radius: 10 * S,
            velocity: (0, 0),
        }))
        .unwrap();
    queue
        .try_send(GridMessage::AddStaticRectangle(StaticRectangle {
            x_pos: 0,
            y_pos: 400 * S,
            width: 800 * S,
            height: 80 * S,
        }))
        .unwrap();
    let frame = grid.tick(queue.drain());
    assert_eq!(frame.circles.len(), 1);
    assert_eq!(frame.static_rectangles.len(), 1);
    assert_eq!(frame.circles[0].x_pos, 100 * S);
    assert_eq!(frame.static_rectangles[0].y_pos, 400 * S);
}

#[test]
fn gravity_accumulates_over_substeps() {
    let mut config = frozen_config();
    config.gravity = 200;
    let mut grid = Grid::new(800 * S, 480 * S, config);
    let messages = vec![GridMessage::AddCircle(Circle {
        x_pos: 100 * S,
        y_pos: 100 * S,
        radius: 10 * S,
        velocity: (0, 0),
    })];
    let frame = grid.tick(messages);
    // Ten sub-steps: velocity grows by 20 each, the position advances by
    // the running velocity over ten: 2 + 4 + ... + 20 = 110.
    assert_eq!(frame.circles.len(), 1);
    assert_eq!(frame.circles[0].velocity, (0, 200));
    assert_eq!(frame.circles[0].y_pos, 100 * S + 110);
    assert_eq!(frame.circles[0].x_pos, 100 * S);
}

#[test]
fn uniform_motion_advances_position_by_velocity() {
    let mut grid = Grid::new(800 * S, 480 * S, frozen_config());
    let messages = vec![GridMessage::AddCircle(Circle {
        x_pos: 100 * S,
        y_pos: 100 * S,
        radius: 10 * S,
        velocity: (10 * S, 0),
    })];
    let frame = grid.tick(messages);
    assert_eq!(frame.circles[0].x_pos, 110 * S);
    assert_eq!(frame.circles[0].velocity, (10 * S, 0));
}

#[test]
fn wall_bounce_clamps_to_boundary_and_reverses_velocity() {
    let mut config = frozen_config();
    config.elasticity = 900;
    let mut grid = Grid::new(800 * S, 480 * S, config);
    // Fast enough to cross the right wall within the first sub-step.
    let messages = vec![GridMessage::AddCircle(Circle {
        x_pos: 789 * S,
        y_pos: 100 * S,
        radius: 10 * S,
        velocity: (20 * S, 0),
    })];
    let frame = grid.tick(messages);
    let c = frame.circles[0];
    // After the bounce the circle moves left and sits inside the world.
    assert!(c.velocity.0 < 0);
    assert!(c.x_pos + c.radius <= 800 * S);
    assert!(c.x_pos >= c.radius);
}

#[test]
fn damping_scales_velocity_once_per_tick() {
    let mut config = frozen_config();
    config.damping = 993;
    let mut grid = Grid::new(800 * S, 480 * S, config);
    let messages = vec![GridMessage::AddCircle(Circle {
        x_pos: 400 * S,
        y_pos: 100 * S,
        radius: 10 * S,
        velocity: (10 * S, 0),
    })];
    let frame = grid.tick(messages);
    // 10.0 * 0.993 = 9.93 exactly in fixed point.
    assert_eq!(frame.circles[0].velocity.0, 9930);
}

#[test]
fn radius_at_minimum_threshold_is_removed_next_tick() {
    let mut config = frozen_config();
    config.shrink = 998;
    let mut grid = Grid::new(800 * S, 480 * S, config);
    // Radius exactly at the minimum threshold 0.5: the next decay pass
    // brings it strictly below and the circle disappears.
    let messages = vec![GridMessage::AddCircle(Circle {
        x_pos: 400 * S,
        y_pos: 100 * S,
        radius: 500,
        velocity: (0, 0),
    })];
    let frame = grid.tick(messages);
    assert_eq!(frame.circles.len(), 0);
}

#[test]
fn radius_above_threshold_survives_decay() {
    let mut config = frozen_config();
    config.shrink = 998;
    let mut grid = Grid::new(800 * S, 480 * S, config);
    let messages = vec![GridMessage::AddCircle(Circle {
        x_pos: 400 * S,
        y_pos: 100 * S,
        radius: 10 * S,
        velocity: (0, 0),
    })];
    let frame = grid.tick(messages);
    assert_eq!(frame.circles.len(), 1);
    // 10.0 * 0.998 = 9.98 exactly.
    assert_eq!(frame.circles[0].radius, 9980);
}

#[test]
fn overlapping_circles_are_separated_by_the_grid_pass() {
    let mut grid = Grid::new(800 * S, 480 * S, frozen_config());
    let messages = vec![
        GridMessage::AddCircle(Circle {
            x_pos: 100 * S,
            y_pos: 100 * S,
            radius: 10 * S,
            velocity: (0, 0),
        }),
        GridMessage::AddCircle(Circle {
            x_pos: 112 * S,
            y_pos: 100 * S,
            radius: 10 * S,
            velocity: (0, 0),
        }),
    ];
    let frame = grid.tick(messages);
    assert_eq!(frame.circles.len(), 2);
    let a = frame.circles[0];
    let b = frame.circles[1];
    let dx = b.x_pos - a.x_pos;
    let dy = b.y_pos - a.y_pos;
    // Center distance reaches the sum of radii (squared comparison).
    assert!(dx * dx + dy * dy >= (a.radius + b.radius) * (a.radius + b.radius));
}

#[test]
fn circles_straddling_a_cell_boundary_still_collide() {
    // Cell size is 50 units; these circles overlap across the boundary at
    // x = 50 and are registered in two shared cells, so the pair is tested
    // twice; the repeated resolution must not over-separate them.
    let mut grid = Grid::new(800 * S, 480 * S, frozen_config());
    let messages = vec![
        GridMessage::AddCircle(Circle {
            x_pos: 45 * S,
            y_pos: 100 * S,
            radius: 10 * S,
            velocity: (0, 0),
        }),
        GridMessage::AddCircle(Circle {
            x_pos: 55 * S,
            y_pos: 100 * S,
            radius: 10 * S,
            velocity: (0, 0),
        }),
    ];
    let frame = grid.tick(messages);
    let a = frame.circles[0];
    let b = frame.circles[1];
    let gap = b.x_pos - a.x_pos;
    // Separated to exactly the touching distance by one resolution.
    assert_eq!(gap, 20 * S);
    assert_eq!(a.y_pos, 100 * S);
    assert_eq!(b.y_pos, 100 * S);
}

#[test]
fn out_of_bounds_spawns_are_accepted_and_pulled_in_by_the_walls() {
    let mut grid = Grid::new(800 * S, 480 * S, frozen_config());
    // No field validation: the command is taken as-is, and the wall pass
    // clamps the circle back inside during the first tick.
    let frame = grid.tick(vec![GridMessage::AddCircle(Circle {
        x_pos: -50 * S,
        y_pos: -50 * S,
        radius: 10 * S,
        velocity: (0, 0),
    })]);
    let c = frame.circles[0];
    assert_eq!((c.x_pos, c.y_pos), (10 * S, 10 * S));
}

#[test]
fn resize_relaxes_bounds_without_displacing_resting_bodies() {
    let mut grid = Grid::new(800 * S, 480 * S, frozen_config());
    // A circle resting exactly against the old right wall.
    let frame = grid.tick(vec![GridMessage::AddCircle(Circle {
        x_pos: 790 * S,
        y_pos: 100 * S,
        radius: 10 * S,
        velocity: (0, 0),
    })]);
    assert_eq!(frame.circles[0].x_pos, 790 * S);
    // Growing the world must not move the resting body at all.
    let frame = grid.tick(vec![GridMessage::Resize(1024 * S, 768 * S)]);
    assert_eq!(frame.width, 1024 * S);
    assert_eq!(frame.height, 768 * S);
    assert_eq!(frame.circles[0].x_pos, 790 * S);
    assert_eq!(frame.circles[0].y_pos, 100 * S);
    // And the relaxed bounds now admit a circle beyond the old wall.
    let frame = grid.tick(vec![GridMessage::AddCircle(Circle {
        x_pos: 900 * S,
        y_pos: 100 * S,
        radius: 10 * S,
        velocity: (0, 0),
    })]);
    assert_eq!(frame.circles[1].x_pos, 900 * S);
}

#[test]
fn dropped_circle_never_penetrates_a_rectangle_and_loses_speed_on_bounce() {
    let mut config = frozen_config();
    config.gravity = 200;
    config.elasticity = 700;
    let mut grid = Grid::new(800 * S, 480 * S, config);
    let mut messages = vec![
        GridMessage::AddStaticRectangle(StaticRectangle {
            x_pos: 0,
            y_pos: 400 * S,
            width: 800 * S,
            height: 80 * S,
        }),
        GridMessage::AddCircle(Circle {
            x_pos: 10 * S,
            y_pos: 10 * S,
            radius: 10 * S,
            velocity: (10 * S, 0),
        }),
    ];
    let mut prev_vy: i64 = 0;
    for _ in 0..300 {
        let frame = grid.tick(std::mem::take(&mut messages));
        assert_eq!(frame.circles.len(), 1);
        let c = frame.circles[0];
        // The circle's edge never crosses the rectangle's top edge.
        assert!(c.y_pos + c.radius <= 400 * S);
        // A downward-to-upward flip is a bounce; with elasticity 0.7 the
        // rebound is strictly slower than the impact.
        if prev_vy > S && c.velocity.1 < 0 {
            assert!(-c.velocity.1 < prev_vy);
        }
        prev_vy = c.velocity.1;
    }
}

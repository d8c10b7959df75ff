use physics_grid::fixed::{fx_dist, fx_div, fx_mul, fx_sgn, fx_sub, FX_MAX};
use physics_grid::{clamp, create_rounded_rectangle, GridMessage};

const S: i64 = 1000;

#[test]
fn rounded_rectangle_yields_two_rectangles_and_four_corners() {
    // A 200 x 200 square centered in an 800 x 480 world, corner radius 20.
    let messages = create_rounded_rectangle(300 * S, 140 * S, 200 * S, 200 * S, 20 * S);
    assert_eq!(messages.len(), 6);
    match &messages[0] {
        GridMessage::AddStaticRectangle(t) => {
            assert_eq!((t.x_pos, t.y_pos, t.width, t.height), (320 * S, 140 * S, 160 * S, 200 * S));
        }
        _ => panic!("expected the horizontal rectangle"),
    }
    match &messages[1] {
        GridMessage::AddStaticRectangle(t) => {
            assert_eq!((t.x_pos, t.y_pos, t.width, t.height), (300 * S, 160 * S, 200 * S, 160 * S));
        }
        _ => panic!("expected the vertical rectangle"),
    }
    let corners = [
        (320 * S, 160 * S),
        (480 * S, 160 * S),
        (320 * S, 320 * S),
        (480 * S, 320 * S),
    ];
    for (message, expected) in messages[2..].iter().zip(corners.iter()) {
        match message {
            GridMessage::AddStaticCircle(c) => {
                assert_eq!((c.x_pos, c.y_pos), *expected);
                assert_eq!(c.radius, 20 * S);
            }
            _ => panic!("expected a corner circle"),
        }
    }
}

#[test]
fn fixed_point_distance_is_an_exact_integer_square_root() {
    assert_eq!(fx_dist(3 * S, 4 * S), 5 * S);
    assert_eq!(fx_dist(-3 * S, 4 * S), 5 * S);
    assert_eq!(fx_dist(0, 0), 0);
    // floor(sqrt(2)) at scale 1000: 1.414.
    assert_eq!(fx_dist(S, S), 1414);
}

#[test]
fn fixed_point_products_and_quotients_truncate_toward_zero() {
    assert_eq!(fx_mul(1500, 1500), 2250);
    assert_eq!(fx_mul(-1500, 1500), -2250);
    assert_eq!(fx_mul(999, 999), 998);
    assert_eq!(fx_mul(-999, 999), -998);
    assert_eq!(fx_div(S, 3 * S), 333);
    assert_eq!(fx_div(-S, 3 * S), -333);
}

#[test]
fn arithmetic_saturates_at_the_representable_range() {
    assert_eq!(fx_mul(FX_MAX, 2 * S), FX_MAX);
    assert_eq!(fx_mul(-FX_MAX, 2 * S), -FX_MAX);
    assert_eq!(fx_sub(-FX_MAX, FX_MAX), -FX_MAX);
}

#[test]
fn clamp_prefers_the_lower_bound() {
    assert_eq!(clamp(5, 0, 10), 5);
    assert_eq!(clamp(-5, 0, 10), 0);
    assert_eq!(clamp(15, 0, 10), 10);
    // An inverted range resolves low values to the lower bound first.
    assert_eq!(clamp(-5, 10, 0), 10);
}

#[test]
fn sign_of_zero_is_positive() {
    assert_eq!(fx_sgn(0), S);
    assert_eq!(fx_sgn(-1), -S);
    assert_eq!(fx_sgn(1), S);
}

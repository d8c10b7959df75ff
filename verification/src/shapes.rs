//! Compound obstacle shapes, expressed as command batches.

use vstd::prelude::*;
use crate::body::{GridMessage, StaticCircle, StaticCircleModel, StaticRectangle,
    StaticRectangleModel};
use crate::fixed::{fx_add, fx_sub, s_add, s_sub};

verus! {

/// The six commands that build a rounded rectangle with top-left corner
/// `(x_pos, y_pos)`, outer size `width` by `height` and corner radius
/// `border_radius`: a horizontal and a vertical rectangle crossing in the
/// middle, and one circle per corner.
pub fn create_rounded_rectangle(
    x_pos: i64,
    y_pos: i64,
    width: i64,
    height: i64,
    border_radius: i64,
) -> (messages: Vec<GridMessage>)
    ensures
        messages@.len() == 6,
        messages@[0] matches GridMessage::AddStaticRectangle(t) && t@ == (StaticRectangleModel {
            x: s_add(x_pos as int, border_radius as int),
            y: y_pos as int,
            w: s_sub(width as int, s_add(border_radius as int, border_radius as int)),
            h: height as int,
        }),
        messages@[1] matches GridMessage::AddStaticRectangle(t) && t@ == (StaticRectangleModel {
            x: x_pos as int,
            y: s_add(y_pos as int, border_radius as int),
            w: width as int,
            h: s_sub(height as int, s_add(border_radius as int, border_radius as int)),
        }),
        messages@[2] matches GridMessage::AddStaticCircle(c) && c@ == (StaticCircleModel {
            x: s_add(x_pos as int, border_radius as int),
            y: s_add(y_pos as int, border_radius as int),
            r: border_radius as int,
        }),
        messages@[3] matches GridMessage::AddStaticCircle(c) && c@ == (StaticCircleModel {
            x: s_sub(s_add(x_pos as int, width as int), border_radius as int),
            y: s_add(y_pos as int, border_radius as int),
            r: border_radius as int,
        }),
        messages@[4] matches GridMessage::AddStaticCircle(c) && c@ == (StaticCircleModel {
            x: s_add(x_pos as int, border_radius as int),
            y: s_sub(s_add(y_pos as int, height as int), border_radius as int),
            r: border_radius as int,
        }),
        messages@[5] matches GridMessage::AddStaticCircle(c) && c@ == (StaticCircleModel {
            x: s_sub(s_add(x_pos as int, width as int), border_radius as int),
            y: s_sub(s_add(y_pos as int, height as int), border_radius as int),
            r: border_radius as int,
        }),
{
    let double_radius = fx_add(border_radius, border_radius);
    let right = fx_sub(fx_add(x_pos, width), border_radius);
    let bottom = fx_sub(fx_add(y_pos, height), border_radius);
    let mut messages: Vec<GridMessage> = Vec::new();

    // Horizontal rectangle in the middle.
    messages.push(
        GridMessage::AddStaticRectangle(
            StaticRectangle {
                x_pos: fx_add(x_pos, border_radius),
                y_pos,
                width: fx_sub(width, double_radius),
                height,
            },
        ),
    );

    // Vertical rectangle in the middle.
    messages.push(
        GridMessage::AddStaticRectangle(
            StaticRectangle {
                x_pos,
                y_pos: fx_add(y_pos, border_radius),
                width,
                height: fx_sub(height, double_radius),
            },
        ),
    );

    // Top-left corner.
    messages.push(
        GridMessage::AddStaticCircle(
            StaticCircle {
                x_pos: fx_add(x_pos, border_radius),
                y_pos: fx_add(y_pos, border_radius),
                radius: border_radius,
            },
        ),
    );

    // Top-right corner.
    messages.push(
        GridMessage::AddStaticCircle(
            StaticCircle {
                x_pos: right,
                y_pos: fx_add(y_pos, border_radius),
                radius: border_radius,
            },
        ),
    );

    // Bottom-left corner.
    messages.push(
        GridMessage::AddStaticCircle(
            StaticCircle {
                x_pos: fx_add(x_pos, border_radius),
                y_pos: bottom,
                radius: border_radius,
            },
        ),
    );

    // Bottom-right corner.
    messages.push(
        GridMessage::AddStaticCircle(
            StaticCircle { x_pos: right, y_pos: bottom, radius: border_radius },
        ),
    );

    messages
}

} // verus!

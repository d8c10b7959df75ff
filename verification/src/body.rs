//! The bodies of the world and the commands that create them.
//!
//! All coordinates are fixed-point values (see [`crate::fixed`]). Each
//! executable type has a ghost model with unbounded `int` fields, reached
//! through `View`, and every contract in the crate speaks of those models.

use vstd::prelude::*;

verus! {

/// A moving disc: center position, radius and velocity.
#[derive(Clone, Copy, Debug)]
pub struct Circle {
    pub x_pos: i64,
    pub y_pos: i64,
    pub radius: i64,
    pub velocity: (i64, i64),
}

/// Ghost model of a dynamic circle.
pub ghost struct CircleModel {
    pub x: int,
    pub y: int,
    pub r: int,
    pub vx: int,
    pub vy: int,
}

impl View for Circle {
    type V = CircleModel;

    open spec fn view(&self) -> CircleModel {
        CircleModel {
            x: self.x_pos as int,
            y: self.y_pos as int,
            r: self.radius as int,
            vx: self.velocity.0 as int,
            vy: self.velocity.1 as int,
        }
    }
}

/// An immovable circular obstacle.
#[derive(Clone, Copy, Debug)]
pub struct StaticCircle {
    pub x_pos: i64,
    pub y_pos: i64,
    pub radius: i64,
}

/// Ghost model of a static circle.
pub ghost struct StaticCircleModel {
    pub x: int,
    pub y: int,
    pub r: int,
}

impl View for StaticCircle {
    type V = StaticCircleModel;

    open spec fn view(&self) -> StaticCircleModel {
        StaticCircleModel { x: self.x_pos as int, y: self.y_pos as int, r: self.radius as int }
    }
}

/// An immovable axis-aligned rectangular obstacle; `(x_pos, y_pos)` is its
/// top-left corner.
#[derive(Clone, Copy, Debug)]
pub struct StaticRectangle {
    pub x_pos: i64,
    pub y_pos: i64,
    pub width: i64,
    pub height: i64,
}

/// Ghost model of a static rectangle.
pub ghost struct StaticRectangleModel {
    pub x: int,
    pub y: int,
    pub w: int,
    pub h: int,
}

impl View for StaticRectangle {
    type V = StaticRectangleModel;

    open spec fn view(&self) -> StaticRectangleModel {
        StaticRectangleModel {
            x: self.x_pos as int,
            y: self.y_pos as int,
            w: self.width as int,
            h: self.height as int,
        }
    }
}

/// A mutation request for the world, consumed at the start of a tick.
/// No field validation is performed: values are taken as given.
#[derive(Clone, Copy, Debug)]
pub enum GridMessage {
    AddCircle(Circle),
    AddStaticCircle(StaticCircle),
    AddStaticRectangle(StaticRectangle),
    /// New world width and height for the wall-collision bounds.
    Resize(i64, i64),
}

/// The models of a sequence of dynamic circles.
pub open spec fn circle_models(s: Seq<Circle>) -> Seq<CircleModel> {
    s.map_values(|c: Circle| c@)
}

/// The models of a sequence of static circles.
pub open spec fn static_circle_models(s: Seq<StaticCircle>) -> Seq<StaticCircleModel> {
    s.map_values(|c: StaticCircle| c@)
}

/// The models of a sequence of static rectangles.
pub open spec fn static_rectangle_models(s: Seq<StaticRectangle>) -> Seq<StaticRectangleModel> {
    s.map_values(|c: StaticRectangle| c@)
}

} // verus!

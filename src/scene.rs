use vstd::prelude::*;
use crate::color::Color;
use crate::input::{ExternalInput, Real};

verus! {

/// The bit pattern of the double `1`.
pub const ONE_BITS: u64 = 0x3ff0_0000_0000_0000;

/// The bit pattern of the double `0`.
pub const ZERO_BITS: u64 = 0;

/// A 2D affine map with coefficients `a` to `f`:
/// `(x, y) -> (a x + c y + e, b x + d y + f)`.
#[derive(Clone, Copy, Debug, PartialEq, Eq, Structural)]
pub struct Transform {
    pub a: Real,
    pub b: Real,
    pub c: Real,
    pub d: Real,
    pub e: Real,
    pub f: Real,
}

impl Transform {
    /// The map that leaves every point where it is.
    pub fn identity() -> (r: Transform)
        ensures
            r == Transform::identity_spec(),
    {
        let one = Real { bits: ONE_BITS };
        let zero = Real { bits: ZERO_BITS };
        Transform { a: one, b: zero, c: zero, d: one, e: zero, f: zero }
    }

    /// The shift by `(x, y)`.
    pub fn translate(x: Real, y: Real) -> (r: Transform)
        ensures
            r == Transform::translation_spec(x, y),
    {
        let one = Real { bits: ONE_BITS };
        let zero = Real { bits: ZERO_BITS };
        Transform { a: one, b: zero, c: zero, d: one, e: x, f: y }
    }
}

#[derive(Clone, Copy, Debug, PartialEq, Eq, Structural)]
pub struct Circle {
    pub radius: Real,
}

#[derive(Clone, Copy, Debug, PartialEq, Eq, Structural)]
pub struct Line {
    pub x0: Real,
    pub x1: Real,
    pub y0: Real,
    pub y1: Real,
}

impl Line {
    pub fn new(x0: Real, y0: Real, x1: Real, y1: Real) -> (r: Line)
        ensures
            r == (Line { x0, x1, y0, y1 }),
    {
        Line { x0, x1, y0, y1 }
    }
}

/// Pure shape data, independent of where the shape is placed.
#[derive(Clone, Copy, Debug, PartialEq, Eq, Structural)]
pub enum Geometry {
    Circle(Circle),
    Line(Line),
}

/// A geometry placed by a transform.
#[derive(Clone, Copy, Debug, PartialEq, Eq, Structural)]
pub struct Shape {
    pub geometry: Geometry,
    pub transform: Transform,
}

impl Shape {
    /// The geometry at the origin, untransformed.
    pub fn with_geometry(geometry: Geometry) -> (r: Shape)
        ensures
            r.geometry == geometry,
            r.transform == Transform::identity_spec(),
    {
        Shape { geometry, transform: Transform::identity() }
    }

    pub fn new(geometry: Geometry, transform: Transform) -> (r: Shape)
        ensures
            r == (Shape { geometry, transform }),
    {
        Shape { geometry, transform }
    }

    pub fn geometry(&self) -> (r: &Geometry)
        ensures
            *r == self.geometry,
    {
        &self.geometry
    }

    pub fn transform(&self) -> (r: &Transform)
        ensures
            *r == self.transform,
    {
        &self.transform
    }
}

impl Transform {
    pub open spec fn identity_spec() -> Transform {
        Transform::translation_spec(Real { bits: ZERO_BITS }, Real { bits: ZERO_BITS })
    }

    /// The shift by `(x, y)`.
    pub open spec fn translation_spec(x: Real, y: Real) -> Transform {
        Transform {
            a: Real { bits: ONE_BITS },
            b: Real { bits: ZERO_BITS },
            c: Real { bits: ZERO_BITS },
            d: Real { bits: ONE_BITS },
            e: x,
            f: y,
        }
    }
}

/// How a shape is painted: line width and colour.
#[derive(Clone, Copy, Debug, PartialEq, Eq, Structural)]
pub struct Stroke {
    pub width: Real,
    pub color: Color,
}

impl Stroke {
    pub fn from_color_and_width(color: Color, width: Real) -> (r: Stroke)
        ensures
            r == (Stroke { width, color }),
    {
        Stroke { width, color }
    }
}

/// A point in Cartesian coordinates.
#[derive(Clone, Copy, Debug, PartialEq, Eq, Structural)]
pub struct PointCarthesian {
    x: Real,
    y: Real,
}

impl PointCarthesian {
    pub fn new(x: Real, y: Real) -> (r: PointCarthesian)
        ensures
            r.x_spec() == x,
            r.y_spec() == y,
    {
        PointCarthesian { x, y }
    }

    pub closed spec fn x_spec(&self) -> Real {
        self.x
    }

    pub closed spec fn y_spec(&self) -> Real {
        self.y
    }

    pub fn x(&self) -> (r: Real)
        ensures
            r == self.x_spec(),
    {
        self.x
    }

    pub fn y(&self) -> (r: Real)
        ensures
            r == self.y_spec(),
    {
        self.y
    }
}

/// The scene a script builds: the canvas size and the shapes drawn on it,
/// in paint order.
#[derive(Clone, Debug)]
pub struct Context {
    pub canvas_width: i64,
    pub canvas_height: i64,
    pub shapes: Vec<(Shape, Stroke)>,
}

pub type Canvas = Context;

/// An empty canvas of the given size.
pub fn canvas_width_height(width: i64, height: i64) -> (r: Canvas)
    ensures
        r.canvas_width == width,
        r.canvas_height == height,
        r.shapes@ == Seq::<(Shape, Stroke)>::empty(),
{
    Canvas { canvas_width: width, canvas_height: height, shapes: Vec::new() }
}

pub fn stroke(width: Real, color: Color) -> (r: Stroke)
    ensures
        r == (Stroke { width, color }),
{
    Stroke { width, color }
}

/// A circle of the given radius around the origin.
pub fn circle(radius: Real) -> (r: Shape)
    ensures
        r.geometry == Geometry::Circle(Circle { radius }),
        r.transform == Transform::identity_spec(),
{
    Shape::with_geometry(Geometry::Circle(Circle { radius }))
}

/// A circle of the given radius around `(x, y)`.
pub fn circle_at(radius: Real, x: Real, y: Real) -> (r: Shape)
    ensures
        r.geometry == Geometry::Circle(Circle { radius }),
        r.transform == Transform::translation_spec(x, y),
{
    Shape::new(Geometry::Circle(Circle { radius }), Transform::translate(x, y))
}

pub fn translation(x: Real, y: Real) -> (r: Transform)
    ensures
        r == Transform::translation_spec(x, y),
{
    Transform::translate(x, y)
}

/// The shape's geometry under the given transform (which replaces the
/// shape's own).
pub fn transform(shape: Shape, t: Transform) -> (r: Shape)
    ensures
        r == (Shape { geometry: shape.geometry, transform: t }),
{
    Shape::new(shape.geometry, t)
}

/// Paints `shape` with `stroke` over everything drawn so far.
pub fn draw(canvas: &mut Canvas, shape: Shape, stroke: Stroke)
    ensures
        final(canvas).shapes@ == old(canvas).shapes@.push((shape, stroke)),
        final(canvas).canvas_width == old(canvas).canvas_width,
        final(canvas).canvas_height == old(canvas).canvas_height,
{
    canvas.shapes.push((shape, stroke))
}

/// The shapes drawn on the canvas, in paint order.
pub fn out(canvas: Canvas) -> (r: Vec<(Shape, Stroke)>)
    ensures
        r@ == canvas.shapes@,
{
    canvas.shapes
}

/// Declares an integer input ranging over `min..=max`.
pub fn extern_int(min: i64, max: i64) -> (r: ExternalInput)
    ensures
        r == (ExternalInput::Int { min, max }),
{
    ExternalInput::Int { min, max }
}

/// Declares a float input ranging over `min..=max`.
pub fn extern_float(min: Real, max: Real) -> (r: ExternalInput)
    ensures
        r == (ExternalInput::Float { min, max }),
{
    ExternalInput::Float { min, max }
}

pub fn point(x: Real, y: Real) -> (r: PointCarthesian)
    ensures
        r.x_spec() == x,
        r.y_spec() == y,
{
    PointCarthesian::new(x, y)
}

pub fn get_carthesian_x(point: PointCarthesian) -> (r: Real)
    ensures
        r == point.x_spec(),
{
    point.x()
}

pub fn get_carthesian_y(point: PointCarthesian) -> (r: Real)
    ensures
        r == point.y_spec(),
{
    point.y()
}

/// The segment between two points.
pub fn line_from_points0(start: PointCarthesian, end: PointCarthesian) -> (r: Shape)
    ensures
        r.geometry == Geometry::Line(
            Line { x0: start.x_spec(), y0: start.y_spec(), x1: end.x_spec(), y1: end.y_spec() },
        ),
        r.transform == Transform::identity_spec(),
{
    Shape::with_geometry(Geometry::Line(Line::new(start.x(), start.y(), end.x(), end.y())))
}

/// The segment from `(x0, y0)` to `(x1, y1)`.
pub fn line_from_coordinates(x0: Real, y0: Real, x1: Real, y1: Real) -> (r: Shape)
    ensures
        r.geometry == Geometry::Line(Line { x0, y0, x1, y1 }),
        r.transform == Transform::identity_spec(),
{
    Shape::with_geometry(Geometry::Line(Line::new(x0, y0, x1, y1)))
}

} // verus!

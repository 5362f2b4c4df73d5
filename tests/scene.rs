use imglang::color::Color;
use imglang::input::{ExternalInput, Real};
use imglang::render::{frame_svg, paint_order, Paint};
use imglang::scene::{
    canvas_width_height, circle, circle_at, draw, extern_float, extern_int, get_carthesian_x,
    get_carthesian_y, line_from_coordinates, line_from_points0, out, point, stroke, transform,
    translation, Circle, Geometry, Line, Transform,
};

fn num(x: f64) -> Real {
    Real { bits: x.to_bits() }
}

#[test]
fn one_circle_scene_and_its_frame() {
    let mut canvas = canvas_width_height(400, 300);
    draw(&mut canvas, circle(num(50.0)), stroke(num(2.0), Color::BLACK));
    assert_eq!(400, canvas.canvas_width);
    assert_eq!(300, canvas.canvas_height);
    let shapes = out(canvas.clone());
    assert_eq!(1, shapes.len());
    let (shape, s) = shapes[0];
    assert_eq!(Geometry::Circle(Circle { radius: num(50.0) }), shape.geometry);
    assert_eq!(Transform::identity(), shape.transform);
    assert_eq!(num(2.0), s.width);
    assert_eq!(Color::BLACK, s.color);

    let svg = frame_svg("<circle r=\"50\"/>", 400, 300);
    assert!(!svg.is_empty());
    assert!(svg.contains("width=\"400\" height=\"300\""));
    assert!(svg.contains("<circle r=\"50\"/>"));
    assert!(svg.ends_with("</svg>"));
}

#[test]
fn frame_header_text() {
    let svg = frame_svg("", 0, 1234567890);
    assert_eq!(
        "\n<svg xmlns=\"http://www.w3.org/2000/svg\" clip-path=\"url(#cut-off-bottom)\">\n  <defs>\n    <clipPath id=\"cut-off-bottom\">\n      <rect x=\"0\" y=\"0\" width=\"0\" height=\"1234567890\" />\n    </clipPath>\n  </defs>\n        </svg>",
        svg
    );
    assert!(frame_svg("", u64::MAX, 7).contains("width=\"18446744073709551615\" height=\"7\""));
}

#[test]
fn shapes_paint_in_drawing_order_after_background() {
    let mut canvas = canvas_width_height(10, 20);
    let a = circle(num(1.0));
    let b = line_from_coordinates(num(0.0), num(1.0), num(2.0), num(3.0));
    let s = stroke(num(1.0), Color::RED);
    draw(&mut canvas, a, s);
    draw(&mut canvas, b, s);
    let paints = paint_order(&canvas);
    assert_eq!(
        vec![
            Paint::Background { width: 10, height: 20 },
            Paint::Outline { shape: a, stroke: s },
            Paint::Outline { shape: b, stroke: s },
        ],
        paints
    );
}

#[test]
fn translations_and_transform_replacement() {
    let t = translation(num(3.0), num(-4.0));
    assert_eq!(num(1.0), t.a);
    assert_eq!(num(0.0), t.b);
    assert_eq!(num(0.0), t.c);
    assert_eq!(num(1.0), t.d);
    assert_eq!(num(3.0), t.e);
    assert_eq!(num(-4.0), t.f);
    let at = circle_at(num(5.0), num(3.0), num(-4.0));
    assert_eq!(t, at.transform);
    let moved = transform(circle(num(5.0)), t);
    assert_eq!(at, moved);
    assert_eq!(Transform::translate(num(0.0), num(0.0)), Transform::identity());
}

#[test]
fn lines_from_points_and_coordinates_agree() {
    let p = point(num(1.0), num(2.0));
    let q = point(num(3.0), num(4.0));
    assert_eq!(num(1.0), get_carthesian_x(p));
    assert_eq!(num(4.0), get_carthesian_y(q));
    let from_points = line_from_points0(p, q);
    let from_coords = line_from_coordinates(num(1.0), num(2.0), num(3.0), num(4.0));
    assert_eq!(from_points, from_coords);
    assert_eq!(
        Geometry::Line(Line::new(num(1.0), num(2.0), num(3.0), num(4.0))),
        from_coords.geometry
    );
}

#[test]
fn declaring_builtins() {
    assert_eq!(ExternalInput::Int { min: 1, max: 5 }, extern_int(1, 5));
    assert_eq!(
        ExternalInput::Float { min: num(0.5), max: num(1.5) },
        extern_float(num(0.5), num(1.5))
    );
}

use imglang::color::Color;
use imglang::input::{ExternalInput, InputMap, InputValue, Inputs, Real};
use imglang::render::frame_svg;
use imglang::scene::{self, Canvas, Circle, Geometry, Shape, Stroke};
use imglang::solver::{resolve_variable, Solver};
use rhai::{Dynamic, Engine, Scope};

fn num(x: f64) -> Real {
    Real { bits: x.to_bits() }
}

fn engine_with(inputs: Inputs) -> Engine {
    let mut engine = Engine::new();
    engine
        .register_type::<Canvas>()
        .register_type::<Shape>()
        .register_type::<Stroke>()
        .register_type::<Color>()
        .register_type::<ExternalInput>();
    engine.register_fn("extern", scene::extern_int);
    engine.register_fn("canvas_width_height", scene::canvas_width_height);
    engine.register_fn("circle", |r: f64| scene::circle(num(r)));
    engine.register_fn("stroke", |w: f64, c: Color| scene::stroke(num(w), c));
    engine.register_fn("draw", |c: &mut Canvas, s: Shape, k: Stroke| scene::draw(c, s, k));
    let mut constants = rhai::Module::new();
    constants.set_var("BLACK", Color::BLACK);
    engine.register_global_module(constants.into());
    engine.on_var(move |name, _, _| match resolve_variable(&inputs, name) {
        Some(InputValue::Int(v)) => Ok(Some(v.into())),
        Some(InputValue::Float(v)) => Ok(Some(Dynamic::from(f64::from_bits(v.bits)))),
        _ => Ok(None),
    });
    engine
}

#[test]
fn circle_script_builds_one_entry_scene() {
    let script = "let canvas = canvas_width_height(400, 300);\n\
                  draw(canvas, circle(50.0), stroke(2.0, BLACK));\n\
                  canvas";
    let map = InputMap::try_from_script(script).unwrap();
    let engine = engine_with(Inputs::init_from(&map));
    let canvas = engine.eval::<Canvas>(script).unwrap();
    assert_eq!(400, canvas.canvas_width);
    assert_eq!(300, canvas.canvas_height);
    assert_eq!(1, canvas.shapes.len());
    let (shape, stroke) = canvas.shapes[0];
    assert_eq!(Geometry::Circle(Circle { radius: num(50.0) }), shape.geometry);
    assert_eq!(num(2.0), stroke.width);
    assert_eq!(Color::BLACK, stroke.color);
    let svg = frame_svg("", canvas.canvas_width as u64, canvas.canvas_height as u64);
    assert!(svg.contains("width=\"400\" height=\"300\""));
}

#[test]
fn bound_input_overrides_script_binding() {
    let script = "let r = extern(10, 20);\n\
                  let canvas = canvas_width_height(r, r + 1);\n\
                  canvas";
    let map = InputMap::try_from_script(script).unwrap();
    let mut inputs = Inputs::init_from(&map);
    assert!(inputs.set_int("r", 17));
    let engine = engine_with(inputs);
    let canvas = engine.eval::<Canvas>(script).unwrap();
    assert_eq!(17, canvas.canvas_width);
    assert_eq!(18, canvas.canvas_height);
}

#[test]
fn time_is_seen_by_the_script() {
    let mut solver = Solver::new();
    solver.advance_time();
    solver.advance_time();
    let engine = engine_with(Inputs::new());
    let mut scope = Scope::new();
    scope.push_constant("TIME", solver.time_binding());
    let canvas = engine
        .eval_with_scope::<Canvas>(&mut scope, "canvas_width_height(TIME, 1)")
        .unwrap();
    assert_eq!(2, canvas.canvas_width);
}

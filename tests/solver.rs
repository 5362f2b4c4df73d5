use imglang::input::{ExternalInput, InputMap, InputValue, Inputs};
use imglang::solver::{refresh_inputs, resolve_variable, FrameCache, FrameKey, Solver};

fn inputs_for(script: &str) -> (InputMap, Inputs) {
    let map = InputMap::try_from_script(script).unwrap();
    let inputs = Inputs::init_from(&map);
    (map, inputs)
}

#[test]
fn time_starts_advances_and_resets() {
    let mut solver = Solver::new();
    assert_eq!(0, solver.get_time());
    solver.advance_time();
    solver.advance_time();
    assert_eq!(2, solver.get_time());
    assert_eq!(2, solver.time_binding());
    solver.reset_time();
    assert_eq!(0, solver.get_time());
    assert_eq!(0, Solver::default().get_time());
}

#[test]
fn first_tick_resets_then_repeats_advance() {
    let mut solver = Solver::new();
    solver.advance_time();
    let mut cache = FrameCache::new();
    let (_, inputs) = inputs_for("let r = extern(1, 2);");
    let key = FrameKey::make_key("x", &inputs);
    assert!(!cache.tick(&mut solver, key.clone()));
    assert_eq!(0, solver.get_time());
    assert!(cache.tick(&mut solver, key.clone()));
    assert_eq!(1, solver.get_time());
}

#[test]
fn key_is_stable_and_sensitive() {
    let (_, mut inputs) = inputs_for("let r = extern(10, 20);");
    let script = "let r = extern(10, 20);\nr";
    let a = FrameKey::make_key(script, &inputs);
    let b = FrameKey::make_key(script, &inputs);
    assert!(a.same_as(&b));
    let other_script = FrameKey::make_key("let r = extern(10, 20);\nr + 1", &inputs);
    assert!(!a.same_as(&other_script));
    assert!(inputs.set_int("r", 11));
    let other_value = FrameKey::make_key(script, &inputs);
    assert!(!a.same_as(&other_value));
}

#[test]
fn advancing_time_keeps_the_key() {
    let (_, inputs) = inputs_for("let r = extern(10, 20);");
    let script = "let r = extern(10, 20);";
    let mut solver = Solver::new();
    let mut cache = FrameCache::new();
    assert!(!cache.tick(&mut solver, FrameKey::make_key(script, &inputs)));
    assert_eq!(0, solver.get_time());
    for frame in 1..=5u32 {
        assert!(cache.tick(&mut solver, FrameKey::make_key(script, &inputs)));
        assert_eq!(frame, solver.get_time());
    }
    assert!(!cache.tick(&mut solver, FrameKey::make_key("changed", &inputs)));
    assert_eq!(0, solver.get_time());
}

#[test]
fn hook_answers_bound_value() {
    let (_, mut inputs) = inputs_for("let r = extern(10, 20);");
    assert!(inputs.set_int("r", 17));
    assert_eq!(Some(InputValue::Int(17)), resolve_variable(&inputs, "r"));
    assert_eq!(None, resolve_variable(&inputs, "s"));
}

#[test]
fn changed_declarations_reset_values() {
    let (mut current, mut inputs) = inputs_for("let r = extern(10, 20);");
    assert!(inputs.set_int("r", 15));
    let same = InputMap::try_from_script("let r = extern(10, 20);\nr").unwrap();
    assert!(!refresh_inputs(&mut current, &mut inputs, same));
    assert_eq!(Some(15), inputs.get_int("r"));
    let changed = InputMap::try_from_script("let r = extern(12, 20);").unwrap();
    assert!(refresh_inputs(&mut current, &mut inputs, changed));
    assert_eq!(Some(12), inputs.get_int("r"));
    assert_eq!(
        vec![("r".to_string(), ExternalInput::Int { min: 12, max: 20 })],
        current.get_inputs_sorted()
    );
}

use imglang::input::{
    input_from_stmt, Argument, BoundValue, ExternalInput, ExtractError, InputMap, InputValue,
    Inputs, Real, Statement,
};

fn num(x: f64) -> Real {
    Real { bits: x.to_bits() }
}

fn call(name: &str, function: &str, args: Vec<Argument>) -> Statement {
    Statement::Let {
        name: name.to_string(),
        value: BoundValue::Call { function: function.to_string(), args },
    }
}

#[test]
fn script_without_declarations_has_no_inputs() {
    let map = InputMap::try_from_script(
        "let c = canvas_width_height(400, 300);\nlet s = stroke(2.0, BLACK);\nc",
    )
    .unwrap();
    assert!(map.get_inputs_sorted().is_empty());
    let inputs = Inputs::init_from(&map);
    assert!(inputs.bound_values().is_empty());
}

#[test]
fn integer_declaration_is_extracted() {
    for script in [
        "let r = extern(10, 20)",
        "let r=extern(10,20);",
        "  let   r =\n extern( 10 ,\t20 ) ;\n",
    ] {
        let map = InputMap::try_from_script(script).unwrap();
        assert_eq!(
            vec![("r".to_string(), ExternalInput::Int { min: 10, max: 20 })],
            map.get_inputs_sorted()
        );
    }
}

#[test]
fn float_declaration_is_extracted() {
    let map = InputMap::try_from_script("let f = extern(1.0, 2.0);").unwrap();
    assert_eq!(
        vec![(
            "f".to_string(),
            ExternalInput::Float { min: num(1.0), max: num(2.0) }
        )],
        map.get_inputs_sorted()
    );
}

#[test]
fn inputs_come_sorted_by_name() {
    let map = InputMap::try_from_script(
        "let zeta = extern(1, 2);\nlet alpha = extern(3, 4);\nlet mid = extern(0.5, 1.5);",
    )
    .unwrap();
    let names: Vec<String> = map.get_inputs_sorted().into_iter().map(|(n, _)| n).collect();
    assert_eq!(vec!["alpha", "mid", "zeta"], names);
}

#[test]
fn equal_declarations_in_any_order_compare_equal() {
    let a = InputMap::try_from_script("let a = extern(1, 2);\nlet b = extern(3, 4);").unwrap();
    let b = InputMap::try_from_script("let b = extern(3, 4);\nlet a = extern(1, 2);").unwrap();
    assert!(a == b);
    let c = InputMap::try_from_script("let b = extern(3, 5);\nlet a = extern(1, 2);").unwrap();
    assert!(a != c);
}

#[test]
fn compile_error_is_reported() {
    let r = InputMap::try_from_script("let = = (");
    assert!(matches!(r, Err(ExtractError::Compile(_))));
}

#[test]
fn non_literal_bound_is_an_error() {
    let r = InputMap::try_from_script("let x = 3;\nlet r = extern(x, 20);");
    assert_eq!(Some(ExtractError::NotLiteral), r.err());
}

#[test]
fn mixed_bounds_are_an_error() {
    let r = InputMap::try_from_script("let r = extern(1, 2.0);");
    assert_eq!(Some(ExtractError::MixedKinds), r.err());
}

#[test]
fn string_bounds_are_unsupported() {
    let r = InputMap::try_from_script("let r = extern(\"a\", \"b\");");
    assert_eq!(Some(ExtractError::Unsupported), r.err());
}

#[test]
fn missing_bound_is_an_error() {
    let stmts = vec![call("r", "extern", vec![Argument::Int(1)])];
    assert_eq!(
        Some(ExtractError::MissingArguments),
        InputMap::from_statements(&stmts).err()
    );
}

#[test]
fn other_calls_and_statements_are_ignored() {
    let stmts = vec![
        Statement::Other,
        call("c", "canvas_width_height", vec![Argument::Int(1), Argument::Int(2)]),
        Statement::Let { name: "k".to_string(), value: BoundValue::NotCall },
        call("r", "extern", vec![Argument::Int(-5), Argument::Int(5)]),
    ];
    let map = InputMap::from_statements(&stmts).unwrap();
    assert_eq!(
        vec![("r".to_string(), ExternalInput::Int { min: -5, max: 5 })],
        map.get_inputs_sorted()
    );
    assert_eq!(Ok(None), input_from_stmt(&stmts[1]));
}

#[test]
fn later_declaration_replaces_earlier() {
    let stmts = vec![
        call("r", "extern", vec![Argument::Int(1), Argument::Int(2)]),
        call("r", "extern", vec![Argument::Int(7), Argument::Int(9)]),
    ];
    let map = InputMap::from_statements(&stmts).unwrap();
    assert_eq!(
        vec![("r".to_string(), ExternalInput::Int { min: 7, max: 9 })],
        map.get_inputs_sorted()
    );
}

#[test]
fn store_starts_at_lower_bounds() {
    let map = InputMap::try_from_script("let n = extern(3, 9);\nlet t = extern(0.25, 4.0);").unwrap();
    let inputs = Inputs::init_from(&map);
    assert_eq!(Some(InputValue::Int(3)), inputs.get("n"));
    assert_eq!(Some(InputValue::Float(num(0.25))), inputs.get("t"));
    assert_eq!(None, inputs.get("missing"));
    assert_eq!(Some(3), inputs.get_int("n"));
    assert_eq!(None, inputs.get_int("t"));
    assert_eq!(Some(num(0.25)), inputs.get_float("t"));
    assert_eq!(None, inputs.get_float("n"));
}

#[test]
fn typed_setters_only_touch_matching_inputs() {
    let mut map = InputMap::new();
    map.insert("n".to_string(), ExternalInput::Int { min: 0, max: 10 });
    map.insert("t".to_string(), ExternalInput::Float { min: num(0.0), max: num(1.0) });
    let mut inputs = Inputs::init_from(&map);
    assert!(inputs.set_int("n", 7));
    assert!(!inputs.set_int("t", 7));
    assert!(!inputs.set_int("nope", 7));
    assert!(inputs.set_float("t", num(0.5)));
    assert!(!inputs.set_float("n", num(0.5)));
    assert_eq!(Some(7), inputs.get_int("n"));
    assert_eq!(Some(num(0.5)), inputs.get_float("t"));
    assert_eq!(
        vec![InputValue::Int(7), InputValue::Float(num(0.5))],
        inputs.bound_values()
    );
}

#[test]
fn colour_inputs_are_not_bindable() {
    let mut map = InputMap::new();
    assert!(map.is_bindable());
    map.insert("c".to_string(), ExternalInput::Color(imglang::color::Color::RED));
    assert!(!map.is_bindable());
}

#[test]
fn input_value_conversions() {
    assert_eq!(InputValue::Int(4), InputValue::from(4i64));
    assert_eq!(InputValue::Float(num(1.5)), InputValue::from(num(1.5)));
}

#[test]
fn negative_bounds_are_literals() {
    let map = InputMap::try_from_script("let a = extern(-10, 10);\nlet b = extern(-1.5, 0.5);").unwrap();
    assert_eq!(
        vec![
            ("a".to_string(), ExternalInput::Int { min: -10, max: 10 }),
            ("b".to_string(), ExternalInput::Float { min: num(-1.5), max: num(0.5) }),
        ],
        map.get_inputs_sorted()
    );
}

#[test]
fn handles_write_through_to_the_store() {
    let map = InputMap::try_from_script("let n = extern(0, 10);\nlet t = extern(0.0, 1.0);").unwrap();
    let mut inputs = Inputs::init_from(&map);
    *inputs.get_int_mut("n").unwrap() = 9;
    *inputs.get_float_mut("t").unwrap() = num(0.75);
    assert!(inputs.get_int_mut("t").is_none());
    assert!(inputs.get_float_mut("n").is_none());
    assert!(inputs.get_int_mut("missing").is_none());
    assert_eq!(Some(9), inputs.get_int("n"));
    assert_eq!(Some(num(0.75)), inputs.get_float("t"));
}

#[test]
fn colour_input_keeps_its_colour() {
    let mut map = InputMap::new();
    map.insert("c".to_string(), ExternalInput::Color(imglang::color::Color::WHITE));
    let inputs = Inputs::init_from(&map);
    assert_eq!(Some(InputValue::Color(imglang::color::Color::WHITE)), inputs.get("c"));
}

#[test]
fn rejected_script_carries_the_engine_message() {
    match InputMap::try_from_script("let = ;") {
        Err(ExtractError::Compile(message)) => assert!(!message.is_empty()),
        other => panic!("expected a compile error, got {other:?}"),
    }
}

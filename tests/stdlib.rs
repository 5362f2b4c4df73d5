use imglang::stdlib::{extern_int, extern_int_test, ExternIntRange};

#[test]
fn test_partial_application() {
    let partial = extern_int_test(-10);
    let result = partial(10);

    assert_eq!(ExternIntRange { min: -10, max: 10 }, result);
}

#[test]
fn range_from_both_bounds() {
    assert_eq!(ExternIntRange { min: 3, max: 7 }, extern_int(3, 7));
}

use vstd::prelude::*;

verus! {

/// An inclusive integer range, as declared for an integer input.
#[derive(Debug, Clone, Copy, Eq, PartialEq, Structural)]
pub struct ExternIntRange {
    pub min: i64,
    pub max: i64,
}

pub fn extern_int(min: i64, max: i64) -> (r: ExternIntRange)
    ensures
        r == (ExternIntRange { min, max }),
{
    ExternIntRange { min, max }
}

/// The range constructor with its lower bound applied: the result takes
/// the upper bound.
pub fn extern_int_test(min: i64) -> (r: impl FnOnce(i64) -> ExternIntRange)
    ensures
        forall|max: i64| #[trigger] r.requires((max,)),
        forall|max: i64, out: ExternIntRange| #[trigger] r.ensures((max,), out) ==> out == (
        ExternIntRange { min, max }),
{
    move |max: i64| -> (out: ExternIntRange)
        ensures
            out == (ExternIntRange { min, max }),
        { ExternIntRange { min, max } }
}

} // verus!

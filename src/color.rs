use vstd::prelude::*;

verus! {

/// The paints a script can name; deliberately a closed set.
#[allow(non_camel_case_types)]
#[derive(Clone, Copy, Debug, PartialEq, Eq, Structural, Hash)]
pub enum Color {
    BLACK,
    WHITE,
    RED,
}

} // verus!

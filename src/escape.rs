use vstd::prelude::*;

verus! {

/// Outcome of the discrete escape test for one point of the plane.
#[derive(Clone, Copy, Debug, PartialEq, Eq, Structural)]
pub enum Output {
    /// The orbit stayed bounded for every iteration allowed.
    InSet,
    /// The orbit left the escape radius at the given (zero-based) step.
    NotInSet(usize),
}

/// Level of the discrete colouring: `100 + 100 * step`, held at 255, and 0
/// for points of the set.
pub open spec fn level_of(o: Output) -> u8 {
    match o {
        Output::InSet => 0,
        Output::NotInSet(step) => if step >= 2 { 255 } else { (100 + 100 * step) as u8 },
    }
}

/// Brightness that the discrete colouring gives an escape outcome.
pub fn discrete_level(o: Output) -> (r: u8)
    ensures
        r == level_of(o),
        o is InSet ==> r == 0,
        o matches Output::NotInSet(step) ==> r as int == if 100 + 100 * step > 255 {
            255
        } else {
            100 + 100 * step
        },
{
    match o {
        Output::InSet => 0,
        Output::NotInSet(step) => {
            if step >= 2 {
                255
            } else {
                (100 + 100 * step) as u8
            }
        },
    }
}

} // verus!

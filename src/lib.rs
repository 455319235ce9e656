//! A terminal countdown timer: a codec between compound duration strings and
//! seconds, and the per-frame decisions of the countdown loop.
use vstd::prelude::*;

pub mod countdown;
pub mod duration;
pub mod layout;

verus! {

} // verus!

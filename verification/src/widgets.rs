//! Small interface helpers whose logic is worth pinning down: the
//! loading-animation frame as a function of the clock reading.

use vstd::prelude::*;
use vstd::string::*;

use crate::clock::now_millis;

verus! {

/// The braille animation frame shown for a clock reading in
/// milliseconds: the frames cycle every 100 ms.
pub open spec fn spec_spinner_frame(millis: u64) -> Seq<char> {
    let idx = (millis / 100) % 8;
    if idx == 0 {
        "⣾"@
    } else if idx == 1 {
        "⣽"@
    } else if idx == 2 {
        "⣻"@
    } else if idx == 3 {
        "⢿"@
    } else if idx == 4 {
        "⡿"@
    } else if idx == 5 {
        "⣟"@
    } else if idx == 6 {
        "⣯"@
    } else {
        "⣷"@
    }
}

/// The animation frame for a given clock reading.
pub fn spinner_frame(millis: u64) -> (r: &'static str)
    ensures
        r@ == spec_spinner_frame(millis),
{
    let idx: u64 = (millis / 100) % 8;
    if idx == 0 {
        "⣾"
    } else if idx == 1 {
        "⣽"
    } else if idx == 2 {
        "⣻"
    } else if idx == 3 {
        "⢿"
    } else if idx == 4 {
        "⡿"
    } else if idx == 5 {
        "⣟"
    } else if idx == 6 {
        "⣯"
    } else {
        "⣷"
    }
}

/// The loading-animation frame for the current clock reading.
pub fn get_loading_spinner() -> (r: String)
    ensures
        exists|millis: u64| r@ == spec_spinner_frame(millis),
{
    let millis: u64 = now_millis();
    let frame = spinner_frame(millis);
    let s = String::from_str(frame);
    proof {
        assert(s@ == spec_spinner_frame(millis));
    }
    s
}

} // verus!

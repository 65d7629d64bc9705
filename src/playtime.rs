use vstd::prelude::*;

verus! {

/// A Lichess user's time spent playing and on TV, in seconds.
#[derive(Debug, Clone, Copy, PartialEq, Eq, Structural)]
pub struct PlayTime {
    pub total: i32,
    pub tv: i32,
}

} // verus!

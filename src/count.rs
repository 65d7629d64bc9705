use vstd::prelude::*;

verus! {

/// A Lichess user's overall game counts.
#[derive(Debug, Clone, Copy, PartialEq, Eq, Structural)]
pub struct Count {
    pub all: i32,
    pub rated: i32,
    pub ai: i32,
    pub draw: i32,
    pub draw_h: i32,
    pub loss: i32,
    pub loss_h: i32,
    pub win: i32,
    pub win_h: i32,
    pub bookmark: i32,
    pub playing: i32,
    pub import: i32,
    pub me: i32,
}

} // verus!

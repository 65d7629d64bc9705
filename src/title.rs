use vstd::prelude::*;

verus! {

/// A Lichess user's title.
#[derive(Debug, Clone, Copy, PartialEq, Eq, Structural)]
pub enum Title {
    GM,
    WGM,
    IM,
    WIM,
    FM,
    WFM,
    CM,
    WCM,
    NM,
    WNM,
    LM,
    BOT,
}

} // verus!

use crate::title::Title;
use crate::user::LightUser;
use vstd::prelude::*;

verus! {

/// A user's rating and recent progress in the variant of a top-10 list.
#[derive(Debug, Clone, Copy, PartialEq, Eq, Structural)]
pub struct Top10Performance {
    pub rating: i32,
    pub progress: i32,
}

/// A user in a top-10 list, with their performance in that list's variant.
#[derive(Debug, Clone)]
pub struct Top10 {
    pub user: LightUser,
    pub online: bool,
    pub perf: Top10Performance,
}

impl Top10 {
    /// Builds an entry from the fields of a leaderboard record, whose user
    /// name comes as `username`.
    pub fn from_entry(
        username: String,
        id: String,
        title: Option<Title>,
        patron: bool,
        online: bool,
        perf: Top10Performance,
    ) -> (r: Top10)
        ensures
            r.user.name == username,
            r.user.id == id,
            r.user.title == title,
            r.user.patron == patron,
            r.online == online,
            r.perf == perf,
    {
        Top10 { user: LightUser { name: username, id, title, patron }, online, perf }
    }
}

/// The top-10 lists of every variant.
#[derive(Debug, Clone)]
pub struct Top10s {
    pub bullet: [Top10; 10],
    pub blitz: [Top10; 10],
    pub rapid: [Top10; 10],
    pub classical: [Top10; 10],
    pub ultra_bullet: [Top10; 10],
    pub chess960: [Top10; 10],
    pub crazyhouse: [Top10; 10],
    pub antichess: [Top10; 10],
    pub atomic: [Top10; 10],
    pub horde: [Top10; 10],
    pub king_of_the_hill: [Top10; 10],
    pub racing_kings: [Top10; 10],
    pub three_check: [Top10; 10],
}

} // verus!

use crate::count::Count;
use crate::performances::Performances;
use crate::playtime::PlayTime;
use crate::profile::Profile;
use crate::title::Title;
use vstd::prelude::*;

verus! {

/// A light representation of a Lichess user.
#[derive(Debug, Clone)]
pub struct LightUser {
    pub name: String,
    pub title: Option<Title>,
    pub patron: bool,
    pub id: String,
}

/// A Lichess user. Instants are milliseconds since the Unix epoch.
#[derive(Debug, Clone)]
pub struct User {
    pub id: String,
    pub username: String,
    pub online: bool,
    pub perfs: Performances,
    pub created_at: i64,
    pub disabled: bool,
    pub tos_violation: bool,
    pub profile: Profile,
    pub seen_at: i64,
    pub patron: bool,
    pub verified: bool,
    pub play_time: PlayTime,
    pub title: Option<Title>,
}

/// The extended representation of a Lichess user. Instants are milliseconds
/// since the Unix epoch.
#[derive(Debug, Clone)]
pub struct ExtendedUser {
    pub id: String,
    pub username: String,
    pub online: bool,
    pub perfs: Performances,
    pub created_at: i64,
    pub disabled: bool,
    pub tos_violation: bool,
    pub profile: Profile,
    pub seen_at: i64,
    pub patron: bool,
    pub verified: bool,
    pub play_time: PlayTime,
    pub title: Option<Title>,
    pub url: String,
    pub playing: Option<String>,
    pub completion_rate: i32,
    pub count: Count,
    pub streaming: bool,
    /// `None` where the client is not authenticated and cannot know.
    pub followable: Option<bool>,
    pub following: Option<bool>,
    pub blocking: Option<bool>,
    pub follows_you: Option<bool>,
}

/// The value of a follow-relation field that the server left out: false, as
/// for every other absent flag.
pub fn follow_field_default() -> (r: Option<bool>)
    ensures
        r == Some(false),
{
    Some(false)
}

} // verus!

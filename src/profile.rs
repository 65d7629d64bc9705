use vstd::prelude::*;

verus! {

/// A Lichess user's profile; every field may be absent.
#[derive(Debug, Clone, Default)]
pub struct Profile {
    pub country: Option<String>,
    pub location: Option<String>,
    pub bio: Option<String>,
    pub first_name: Option<String>,
    pub last_name: Option<String>,
    pub fide_rating: Option<i32>,
    pub uscf_rating: Option<i32>,
    pub ecf_rating: Option<i32>,
    pub links: Option<String>,
}

} // verus!

use vstd::prelude::*;

verus! {

/// A user's performance in one variant other than Puzzle Storm.
#[derive(Debug, Clone, Copy, PartialEq, Eq, Structural)]
pub struct Performance {
    pub games: u64,
    pub rating: u64,
    pub rd: u64,
    pub prog: i64,
    pub prov: bool,
}

/// The performance of a user who has not played a variant: no games, the
/// initial rating of 1500 with deviation 500, provisional.
pub open spec fn unplayed() -> Performance {
    Performance { games: 0, rating: 1500, rd: 500, prog: 0, prov: true }
}

impl Default for Performance {
    fn default() -> (r: Self)
        ensures
            r == unplayed(),
    {
        Performance { games: 0, rating: 1500, rd: 500, prog: 0, prov: true }
    }
}

/// A user's performance in Puzzle Storm.
#[derive(Debug, Clone, Copy, PartialEq, Eq, Structural)]
pub struct StormPerformance {
    pub runs: u64,
    pub score: u64,
}

impl Default for StormPerformance {
    fn default() -> (r: Self)
        ensures
            r == (StormPerformance { runs: 0, score: 0 }),
    {
        StormPerformance { runs: 0, score: 0 }
    }
}

/// A user's performances in every variant.
#[derive(Debug, Clone, Copy, PartialEq, Eq, Structural)]
pub struct Performances {
    pub chess960: Performance,
    pub atomic: Performance,
    pub racing_kings: Performance,
    pub ultra_bullet: Performance,
    pub blitz: Performance,
    pub king_of_the_hill: Performance,
    pub bullet: Performance,
    pub correspondence: Performance,
    pub horde: Performance,
    pub puzzle: Performance,
    pub classical: Performance,
    pub rapid: Performance,
    pub storm: StormPerformance,
}

impl Default for Performances {
    /// Performances of a user who has played nothing.
    fn default() -> (r: Self)
        ensures
            r.chess960 == unplayed() && r.atomic == unplayed() && r.racing_kings == unplayed(),
            r.ultra_bullet == unplayed() && r.blitz == unplayed() && r.king_of_the_hill == unplayed(),
            r.bullet == unplayed() && r.correspondence == unplayed() && r.horde == unplayed(),
            r.puzzle == unplayed() && r.classical == unplayed() && r.rapid == unplayed(),
            r.storm == (StormPerformance { runs: 0, score: 0 }),
    {
        Performances {
            chess960: Performance::default(),
            atomic: Performance::default(),
            racing_kings: Performance::default(),
            ultra_bullet: Performance::default(),
            blitz: Performance::default(),
            king_of_the_hill: Performance::default(),
            bullet: Performance::default(),
            correspondence: Performance::default(),
            horde: Performance::default(),
            puzzle: Performance::default(),
            classical: Performance::default(),
            rapid: Performance::default(),
            storm: StormPerformance::default(),
        }
    }
}

} // verus!

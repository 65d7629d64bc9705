use lichess_client::performances::{Performance, Performances, StormPerformance};
use lichess_client::rating_history::{RatingHistory, RatingHistoryRecord};
use lichess_client::title::Title;
use lichess_client::top10s::{Top10, Top10Performance};
use lichess_client::user::follow_field_default;

#[test]
fn performance_default_is_unplayed() {
    let p = Performance::default();
    assert_eq!(p, Performance { games: 0, rating: 1500, rd: 500, prog: 0, prov: true });
    assert_eq!(StormPerformance::default(), StormPerformance { runs: 0, score: 0 });
    let all = Performances::default();
    assert_eq!(all.blitz, p);
    assert_eq!(all.puzzle, p);
    assert_eq!(all.storm, StormPerformance { runs: 0, score: 0 });
}

#[test]
fn follow_fields_default_to_false() {
    assert_eq!(follow_field_default(), Some(false));
}

#[test]
fn top10_entry_renames_username() {
    let t = Top10::from_entry(
        "DrNykterstein".to_string(),
        "drnykterstein".to_string(),
        Some(Title::GM),
        true,
        false,
        Top10Performance { rating: 3200, progress: 12 },
    );
    assert_eq!(t.user.name, "DrNykterstein");
    assert_eq!(t.user.id, "drnykterstein");
    assert_eq!(t.user.title, Some(Title::GM));
    assert!(t.user.patron);
    assert!(!t.online);
    assert_eq!(t.perf, Top10Performance { rating: 3200, progress: 12 });
}

#[test]
fn rating_point_month_counts_from_zero() {
    let r = RatingHistoryRecord::from_point([2020, 0, 31, 1800]).unwrap();
    assert_eq!(r.rating, 1800);
    assert_eq!((r.date.year, r.date.month, r.date.day), (2020, 1, 31));
    assert!(RatingHistoryRecord::from_point([2024, 1, 29, 1500]).is_some());
    assert!(RatingHistoryRecord::from_point([2023, 1, 29, 1500]).is_none());
    assert!(RatingHistoryRecord::from_point([1900, 1, 29, 1500]).is_none());
    assert!(RatingHistoryRecord::from_point([2000, 1, 29, 1500]).is_some());
    assert!(RatingHistoryRecord::from_point([2020, 3, 31, 1500]).is_none());
    assert!(RatingHistoryRecord::from_point([2020, 12, 1, 1500]).is_none());
    assert!(RatingHistoryRecord::from_point([2020, -1, 1, 1500]).is_none());
    assert!(RatingHistoryRecord::from_point([2020, 0, 0, 1500]).is_none());
    assert!(RatingHistoryRecord::from_point([400000, 0, 1, 1500]).is_none());
}

#[test]
fn rating_history_assigns_series_in_order() {
    let point = |rating: i32| RatingHistoryRecord::from_point([2021, 5, 1, rating]).unwrap();
    let series: Vec<Vec<RatingHistoryRecord>> = (0..15).map(|i| vec![point(i)]).collect();
    assert!(RatingHistory::from_series(series[..14].to_vec()).is_none());
    let h = RatingHistory::from_series(series).unwrap();
    assert_eq!(h.bullet[0].rating, 0);
    assert_eq!(h.blitz[0].rating, 1);
    assert_eq!(h.correspondence[0].rating, 4);
    assert_eq!(h.puzzles[0].rating, 13);
    assert_eq!(h.ultra_bullet[0].rating, 14);
}

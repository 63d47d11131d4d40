use ranking::rank::RankingError;
use ranking::timestamp::{normalize_timestamp, parse_create_timestamp};
use ranking::{PlayLog, PlayLogExt, Ranking, Score};

fn log(id: &str, points: i64) -> PlayLog {
    PlayLog::new(String::from(id), points, 0)
}

#[test]
fn play_log_creation() {
    let rows = vec![
        ("2021/01/01 12:00", "player0001", 12345i64),
        ("2021/01/02 13:00", "player0002", 10000i64),
        ("2021/01/02 14:00", "player0002", 1800i64),
    ];
    let mut playlogs: Vec<PlayLog> = vec![];
    for (ts, id, points) in rows.iter() {
        let created_at = parse_create_timestamp(ts).unwrap_or(0);
        playlogs.push(PlayLog::new(String::from(*id), *points, created_at));
    }
    let scores = vec![12345i64, 10000, 1800];
    for (score, playlog) in scores.iter().zip(playlogs.iter()) {
        assert_eq!(playlog.score().total, *score as i128);
    }
    assert_eq!(playlogs.len(), 3);
}

#[test]
fn play_log_top10() -> Result<(), RankingError> {
    let mut playlogs = vec![];
    for i in 0..20i64 {
        playlogs.push(log(&format!("test{i}"), 100 * (i / 3)));
    }
    let top_10 = playlogs.top_rankings(10)?;
    let mut prev_rank = 0;
    for (rank, _log) in top_10.iter() {
        assert!(*rank >= prev_rank);
        prev_rank = *rank;
    }
    assert!(top_10.len() >= 10);
    Ok(())
}

#[test]
fn calc_mean() {
    let mut playlogs = vec![];
    for i in 1..=20i64 {
        playlogs.push(log(&format!("test{}", i % 2), 100 * i));
    }
    let mean = playlogs.mean();
    assert_eq!(mean.len(), 2);
    assert_eq!(mean[0].score().rounded(), 1000);
    assert_eq!(mean[1].score().rounded(), 1100);
}

#[test]
fn mean_first_seen_order_and_exact_values() {
    let records = vec![log("a", 100), log("a", 200), log("b", 50)];
    let mean = records.mean();
    assert_eq!(mean.len(), 2);
    assert_eq!(mean[0].id(), "a");
    assert_eq!(mean[0].score().total, 300);
    assert_eq!(mean[0].score().plays, 2);
    assert_eq!(mean[0].score().rounded(), 150);
    assert_eq!(mean[1].id(), "b");
    assert_eq!(mean[1].score().rounded(), 50);

    let top = mean.top_rankings(1).unwrap();
    assert_eq!(top.len(), 1);
    assert_eq!(top[0].0, 1);
    assert_eq!(top[0].1.id(), "a");
    assert_eq!(top[0].1.score().rounded(), 150);
}

#[test]
fn mean_idempotent_on_aggregated_input() {
    let records = vec![log("a", 100), log("a", 200), log("b", 50), log("c", 7)];
    let once = records.mean();
    let twice = once.mean();
    assert_eq!(once.len(), twice.len());
    for (x, y) in once.iter().zip(twice.iter()) {
        assert_eq!(x.id(), y.id());
        assert_eq!(x.score().total, y.score().total);
        assert_eq!(x.score().plays, y.score().plays);
    }
}

#[test]
fn tie_at_first_place_extends_top_one() {
    let records = vec![log("a", 1000), log("b", 1000), log("c", 500)];
    let top = records.top_rankings(1).unwrap();
    assert_eq!(top.len(), 2);
    assert_eq!(top[0].0, 1);
    assert_eq!(top[0].1.id(), "a");
    assert_eq!(top[1].0, 1);
    assert_eq!(top[1].1.id(), "b");
}

#[test]
fn ties_from_rounding_at_the_cutoff() {
    // "b" plays twice for a mean of 10.5, which rounds to 11; "c" scores
    // 11 exactly: both tie past the cutoff, "a" at 10 is left out.
    let records = vec![log("a", 10), log("b", 21), log("b", 0), log("c", 11)];
    let mean = records.mean();
    let top = mean.top_rankings(1).unwrap();
    assert_eq!(top.len(), 2);
    assert_eq!(top[0].0, 1);
    assert_eq!(top[0].1.id(), "b");
    assert_eq!(top[1].0, 1);
    assert_eq!(top[1].1.id(), "c");
}

#[test]
fn competition_ranks_skip_after_ties() {
    let records = vec![log("a", 30), log("b", 30), log("c", 20), log("d", 10)];
    let top = records.top_rankings(4).unwrap();
    let got: Vec<(usize, String)> = top.iter().map(|(r, l)| (*r, l.id())).collect();
    assert_eq!(got[0], (1, String::from("a")));
    assert_eq!(got[1], (1, String::from("b")));
    assert_eq!(got[2], (3, String::from("c")));
    assert_eq!(got[3], (4, String::from("d")));
}

#[test]
fn top_zero_and_empty_input_yield_empty() {
    let records = vec![log("a", 1), log("b", 2)];
    let top = records.top_rankings(0).unwrap();
    assert_eq!(top.len(), 0);

    let empty: Vec<PlayLog> = vec![];
    let top = empty.top_rankings(10).unwrap();
    assert_eq!(top.len(), 0);
    let mean = empty.mean();
    assert_eq!(mean.len(), 0);
}

#[test]
fn top_larger_than_input_returns_everything() {
    let records = vec![log("a", 5), log("b", 9), log("c", 7)];
    let top = records.top_rankings(10).unwrap();
    assert_eq!(top.len(), 3);
    assert_eq!(top[0].1.id(), "b");
    assert_eq!(top[1].1.id(), "c");
    assert_eq!(top[2].1.id(), "a");
    assert_eq!(top[0].0, 1);
    assert_eq!(top[1].0, 2);
    assert_eq!(top[2].0, 3);
}

#[test]
fn stable_order_among_equal_rounded_scores() {
    // 100.4 is not representable: scores 502/5 and 100 both round to 100,
    // and the earlier player stays first despite the later exact tie.
    let records = vec![
        log("early", 502),
        log("early", 0),
        log("early", 0),
        log("early", 0),
        log("early", 0),
        log("late", 100),
    ];
    let mean = records.mean();
    let top = mean.top_rankings(1).unwrap();
    assert_eq!(top.len(), 2);
    assert_eq!(top[0].1.id(), "early");
    assert_eq!(top[1].1.id(), "late");
    assert_eq!(top[0].0, 1);
    assert_eq!(top[1].0, 1);
}

#[test]
fn negative_scores_rank_below_positive() {
    let records = vec![log("low", -100), log("high", 100), log("mid", 0)];
    let top = records.top_rankings(3).unwrap();
    assert_eq!(top[0].1.id(), "high");
    assert_eq!(top[1].1.id(), "mid");
    assert_eq!(top[2].1.id(), "low");
}

#[test]
fn rounding_is_half_away_from_zero() {
    // 1/2 rounds to 1 and -1/2 rounds to -1.
    let up = vec![log("u", 0), log("u", 1)];
    let mean = up.mean();
    assert_eq!(mean[0].score().rounded(), 1);

    let down = vec![log("d", 0), log("d", -1)];
    let mean = down.mean();
    assert_eq!(mean[0].score().rounded(), -1);

    // 7/3 rounds to 2 and -7/3 rounds to -2.
    let thirds = vec![log("t", 3), log("t", 3), log("t", 1)];
    let mean = thirds.mean();
    assert_eq!(mean[0].score().rounded(), 2);

    let neg = vec![log("n", -3), log("n", -3), log("n", -1)];
    let mean = neg.mean();
    assert_eq!(mean[0].score().rounded(), -2);
}

#[test]
fn score_single_is_one_play() {
    let s = Score::single(-42);
    assert_eq!(s.total, -42);
    assert_eq!(s.plays, 1);
    assert_eq!(s.rounded(), -42);
}

#[test]
fn set_score_replaces_the_score() {
    let mut p = log("a", 5);
    p.set_score(Score::single(9));
    assert_eq!(p.score().total, 9);
    assert_eq!(p.id(), "a");
}

#[test]
fn normalize_pads_missing_components() {
    assert_eq!(normalize_timestamp("2021/01/01 12:00"), "2021/01/01 12:00:00");
    assert_eq!(normalize_timestamp("2021/01/01 12:00:30"), "2021/01/01 12:00:30");
    assert_eq!(normalize_timestamp("2021/01/01 12:00:30:99"), "2021/01/01 12:00:30:99");
    assert_eq!(normalize_timestamp("2021/01/01 12"), "2021/01/01 12:00:00");
    assert_eq!(normalize_timestamp("2021/01/01"), "2021/01/01 00:00:00");
}

#[test]
fn parse_create_timestamp_accepts_padded_text() {
    assert!(parse_create_timestamp("2021/01/02 13:00").is_some());
    assert!(parse_create_timestamp("2021/01/02 13:00:59").is_some());
    assert!(parse_create_timestamp("2021/01/02 13").is_some());
    assert!(parse_create_timestamp("not a timestamp").is_none());
}

#[test]
fn bare_date_parses_as_midnight() {
    let day = parse_create_timestamp("2021/01/02").unwrap();
    let midnight = parse_create_timestamp("2021/01/02 00:00:00").unwrap();
    assert_eq!(day, midnight);
}

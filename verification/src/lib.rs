//! Tie-aware leaderboard computation over player score records.
//!
//! A sequence of play records (player identity, score, timestamp) is folded
//! into one record per player carrying the exact mean score, and a top-K
//! leaderboard is produced with competition ("1224") ranking over scores
//! rounded to the nearest integer.
//!
//! Scores are exact: each play carries an integer number of points, and an
//! aggregated score is the pair of total points over play count, so means
//! carry no rounding error. An ingestion front end that reads scores as
//! floating-point text must hand over integer values (and reject the rest
//! row by row), as the bundled command-line shell does.

pub mod aggregate;
pub mod rank;
pub mod record;
pub mod score;
pub mod timestamp;

pub use rank::RankingError;
pub use record::PlayLog;
pub use record::PlayLogExt;
pub use score::Score;

use vstd::prelude::*;

use crate::aggregate::{agg, distinct_ids, sum_plays};
use crate::rank::{cut_len, key_of, rank_at, ssort};
use crate::record::{all_wf, views, PlayLogV};

verus! {

/// The two leaderboard operations over a collection of play records.
pub trait Ranking {
    /// The mathematical values of the collection's records.
    spec fn logs(&self) -> Seq<PlayLogV>;

    /// Folds the records into one record per distinct player identity,
    /// in first-seen order; the record for a player carries the sum of
    /// that player's points over the sum of its play counts, so its
    /// score is exactly the arithmetic mean of the player's scores.
    fn mean(&self) -> (res: Vec<PlayLog>)
        requires
            all_wf(self.logs()),
            sum_plays(self.logs()) <= u64::MAX as int,
        ensures
            views(res@) == agg(self.logs()),
            all_wf(views(res@)),
            distinct_ids(views(res@)),
            sum_plays(views(res@)) == sum_plays(self.logs()),
    ;

    /// The tie-aware top-`top_rank` leaderboard: the records sorted by
    /// descending rounded score (stably, so equal rounded scores keep
    /// their order), paired with competition ("1224") ranks, cut after
    /// `top_rank` entries extended by every entry tied with the
    /// `top_rank`-th place. Never fails; `top_rank == 0` and empty
    /// input both yield an empty leaderboard.
    fn top_rankings(&self, top_rank: usize) -> (res: Result<
        Vec<(usize, PlayLog)>,
        RankingError,
    >)
        requires
            all_wf(self.logs()),
        ensures
            res is Ok,
            res->Ok_0@.len() == cut_len(ssort(self.logs()), top_rank as int),
            forall|i: int|
                0 <= i < res->Ok_0@.len() ==> (#[trigger] res->Ok_0@[i]).1@ == ssort(
                    self.logs(),
                )[i],
            forall|i: int|
                0 <= i < res->Ok_0@.len() ==> (#[trigger] res->Ok_0@[i]).0 as int == rank_at(
                    ssort(self.logs()),
                    i,
                ),
            forall|i: int|
                0 <= i < res->Ok_0@.len() - 1 ==> (#[trigger] res->Ok_0@[i]).0 <= res->Ok_0@[i
                    + 1].0,
            top_rank == 0 ==> res->Ok_0@.len() == 0,
            self.logs().len() == 0 ==> res->Ok_0@.len() == 0,
            self.logs().len() <= top_rank ==> res->Ok_0@.len() == self.logs().len(),
            1 <= top_rank <= self.logs().len() ==> res->Ok_0@.len() >= top_rank,
            forall|i: int|
                1 <= top_rank && top_rank as int <= i < self.logs().len() && key_of(
                    #[trigger] ssort(self.logs())[i],
                ) == key_of(ssort(self.logs())[top_rank - 1]) ==> i < res->Ok_0@.len(),
    ;
}

impl Ranking for Vec<PlayLog> {
    open spec fn logs(&self) -> Seq<PlayLogV> {
        views(self@)
    }

    fn mean(&self) -> (res: Vec<PlayLog>) {
        crate::aggregate::mean_logs(self)
    }

    fn top_rankings(&self, top_rank: usize) -> (res: Result<
        Vec<(usize, PlayLog)>,
        RankingError,
    >) {
        crate::rank::top_rankings_logs(self, top_rank)
    }
}

} // verus!

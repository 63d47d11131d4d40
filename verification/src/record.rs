//! The play record: one observed score event for a player, or the
//! aggregated mean record for a player after aggregation.

use vstd::prelude::*;
use crate::score::Score;

verus! {

/// Mathematical value of a play record: identity, exact score as a
/// total over a play count, and the creation time in epoch seconds.
pub struct PlayLogV {
    pub id: Seq<char>,
    pub total: int,
    pub plays: nat,
    pub created_at: int,
}

impl PlayLogV {
    /// Each play contributes a signed 64-bit number of points, so a
    /// well-formed total is bounded by the play count on both sides.
    pub open spec fn wf(self) -> bool {
        &&& 1 <= self.plays
        &&& self.plays as int * (i64::MIN as int) <= self.total
        &&& self.total <= self.plays as int * (i64::MAX as int)
    }
}

/// One play record: a player identity, an exact score, and a creation
/// timestamp in seconds since the Unix epoch (provenance only; it plays
/// no role in aggregation or ranking).
pub struct PlayLog {
    pub player_id: String,
    pub score: Score,
    pub create_timestamp: i64,
}

impl View for PlayLog {
    type V = PlayLogV;

    open spec fn view(&self) -> PlayLogV {
        PlayLogV {
            id: self.player_id@,
            total: self.score.total as int,
            plays: self.score.plays as nat,
            created_at: self.create_timestamp as int,
        }
    }
}

impl PlayLog {
    /// The record's score stays within the per-play bounds of its count.
    pub open spec fn wf(self) -> bool {
        self.score.wf()
    }

    /// A fresh record for one play of `points` points.
    pub fn new(player_id: String, points: i64, create_timestamp: i64) -> (r: PlayLog)
        ensures
            r@.id == player_id@,
            r@.total == points as int,
            r@.plays == 1,
            r@.created_at == create_timestamp as int,
            r.wf(),
    {
        PlayLog { player_id, score: Score::single(points), create_timestamp }
    }

    /// An identical, independently owned record.
    pub fn duplicate(&self) -> (r: PlayLog)
        ensures
            r@ == self@,
            r.wf() == self.wf(),
    {
        PlayLog {
            player_id: self.player_id.clone(),
            score: self.score,
            create_timestamp: self.create_timestamp,
        }
    }
}

/// The record interface the aggregation and ranking operations rely on.
pub trait PlayLogExt: Sized {
    /// The record's mathematical value.
    spec fn log_view(&self) -> PlayLogV;

    /// Well-formedness of the record's score.
    spec fn log_wf(&self) -> bool;

    /// The player identity the record belongs to.
    fn id(&self) -> (r: String)
        ensures
            r@ == self.log_view().id,
    ;

    /// The record's exact score.
    fn score(&self) -> (s: Score)
        ensures
            s.total as int == self.log_view().total,
            s.plays as nat == self.log_view().plays,
    ;

    /// Replaces the record's score.
    fn set_score(&mut self, score: Score)
        ensures
            final(self).log_view() == (PlayLogV { id: old(self).log_view().id, total: score.total as int, plays: score.plays as nat, created_at: old(self).log_view().created_at }),
    ;
}

impl PlayLogExt for PlayLog {
    open spec fn log_view(&self) -> PlayLogV {
        self@
    }

    open spec fn log_wf(&self) -> bool {
        self.wf()
    }

    fn id(&self) -> (r: String)
        ensures
            r@ == self@.id,
    {
        self.player_id.clone()
    }

    fn score(&self) -> (s: Score)
        ensures
            s == self.score,
    {
        self.score
    }

    fn set_score(&mut self, score: Score)
        ensures
            final(self)@ == (PlayLogV { id: old(self)@.id, total: score.total as int, plays: score.plays as nat, created_at: old(self)@.created_at }),
    {
        self.score = score;
    }
}

/// The sequence of mathematical values of a sequence of records.
pub open spec fn views(s: Seq<PlayLog>) -> Seq<PlayLogV> {
    s.map_values(|p: PlayLog| p@)
}

/// A record whose value is well-formed has a well-formed score.
pub proof fn lemma_wf_bridge(p: PlayLog)
    requires
        p@.wf(),
    ensures
        p.score.wf(),
{
}

/// Every record value in the sequence is well-formed.
pub open spec fn all_wf(s: Seq<PlayLogV>) -> bool {
    forall|i: int| 0 <= i < s.len() ==> (#[trigger] s[i]).wf()
}

} // verus!

//! Ranking: a stable sort by descending rounded score, competition
//! ("1224") rank assignment, and the tie-aware top-K cut.
//!
//! Two records tie exactly when their mean scores round to the same
//! integer, even where the exact means differ. The sort is stable:
//! records with equal rounded scores keep their input order, which after
//! aggregation is the first-seen order of the players.

use vstd::prelude::*;
use crate::record::{PlayLog, PlayLogV, views, all_wf};
use crate::score::round_div;

verus! {

/// The sort and tie key of a record value: its mean score rounded to
/// the nearest integer, halves away from zero.
pub open spec fn key_of(r: PlayLogV) -> int {
    round_div(r.total, r.plays as int)
}

/// Keys are non-increasing from left to right.
pub open spec fn sorted_desc(s: Seq<PlayLogV>) -> bool {
    forall|i: int, j: int| 0 <= i <= j < s.len() ==> key_of(s[i]) >= key_of(s[j])
}

/// Where a record with key `k` is inserted: right after every entry
/// whose key is at least `k`, counted from the front.
pub open spec fn insert_pos(acc: Seq<PlayLogV>, k: int) -> int
    decreases acc.len(),
{
    if acc.len() == 0 {
        0
    } else if key_of(acc[0]) >= k {
        1 + insert_pos(acc.drop_first(), k)
    } else {
        0
    }
}

/// One step of the stable sort: insert `r` after all entries that rank
/// at or above it.
pub open spec fn sort_step(acc: Seq<PlayLogV>, r: PlayLogV) -> Seq<PlayLogV> {
    acc.insert(insert_pos(acc, key_of(r)), r)
}

/// Stable sort by descending key: records are inserted left to right,
/// each after every entry with a key at least its own, so entries with
/// equal keys keep their input order.
pub open spec fn ssort(s: Seq<PlayLogV>) -> Seq<PlayLogV>
    decreases s.len(),
{
    if s.len() == 0 {
        Seq::empty()
    } else {
        sort_step(ssort(s.drop_last()), s.last())
    }
}

/// Competition rank of the entry at position `i` of a sorted sequence:
/// the first entry has rank 1; an entry tied with its predecessor shares
/// its rank; otherwise the rank is the 1-based position.
pub open spec fn rank_at(s: Seq<PlayLogV>, i: int) -> int
    decreases i,
{
    if i <= 0 {
        1
    } else if key_of(s[i]) == key_of(s[i - 1]) {
        rank_at(s, i - 1)
    } else {
        i + 1
    }
}

/// First position at or after `j` whose entry is not tied with its
/// predecessor (or the length, when every later entry is tied).
pub open spec fn cut_from(s: Seq<PlayLogV>, j: int) -> int
    decreases s.len() - j,
{
    if j < 0 || j >= s.len() {
        s.len() as int
    } else if key_of(s[j]) == key_of(s[j - 1]) {
        cut_from(s, j + 1)
    } else {
        j
    }
}

/// Number of entries of the sorted sequence that belong in the top `k`:
/// none for `k == 0`; everything when the sequence has at most `k`
/// entries; otherwise the first `k` and every later entry tied with the
/// `k`-th place.
pub open spec fn cut_len(s: Seq<PlayLogV>, k: int) -> int {
    if k <= 0 {
        0
    } else if s.len() <= k {
        s.len() as int
    } else {
        cut_from(s, k)
    }
}

/// `insert_pos` lies between 0 and the length; every entry before it has
/// a key at least `k`, and the entry at it (if any) has a smaller key.
pub proof fn lemma_insert_pos_bounds(acc: Seq<PlayLogV>, k: int)
    ensures
        0 <= insert_pos(acc, k) <= acc.len(),
        forall|m: int| 0 <= m < insert_pos(acc, k) ==> key_of(acc[m]) >= k,
        insert_pos(acc, k) < acc.len() ==> key_of(acc[insert_pos(acc, k)]) < k,
    decreases acc.len(),
{
    if acc.len() > 0 && key_of(acc[0]) >= k {
        lemma_insert_pos_bounds(acc.drop_first(), k);
        assert(forall|i: int| 0 <= i < acc.drop_first().len() ==> acc.drop_first()[i] == acc[i + 1]);
        assert forall|m: int| 0 <= m < insert_pos(acc, k) implies key_of(acc[m]) >= k by {
            if m >= 1 {
                assert(acc[m] == acc.drop_first()[m - 1]);
            }
        }
        if insert_pos(acc, k) < acc.len() {
            assert(acc[insert_pos(acc, k)] == acc.drop_first()[insert_pos(acc, k) - 1]);
        }
    }
}

/// A left-to-right scan that stops at the first key below `k` stops at
/// `insert_pos`.
pub proof fn lemma_insert_pos_from_scan(acc: Seq<PlayLogV>, k: int, p: int)
    requires
        0 <= p <= acc.len(),
        forall|m: int| 0 <= m < p ==> key_of(acc[m]) >= k,
        p < acc.len() ==> key_of(acc[p]) < k,
    ensures
        insert_pos(acc, k) == p,
    decreases acc.len(),
{
    if p == 0 {
    } else {
        assert(key_of(acc[0]) >= k);
        assert(forall|i: int| 0 <= i < acc.drop_first().len() ==> acc.drop_first()[i] == acc[i + 1]);
        lemma_insert_pos_from_scan(acc.drop_first(), k, p - 1);
    }
}

/// The stable sort keeps the length, sorts the keys in non-increasing
/// order, and keeps every entry well-formed.
pub proof fn lemma_ssort_props(s: Seq<PlayLogV>)
    ensures
        ssort(s).len() == s.len(),
        sorted_desc(ssort(s)),
        all_wf(s) ==> all_wf(ssort(s)),
    decreases s.len(),
{
    if s.len() > 0 {
        let prev = ssort(s.drop_last());
        let r = s.last();
        let k = key_of(r);
        let pos = insert_pos(prev, k);
        lemma_ssort_props(s.drop_last());
        assert(forall|i: int| 0 <= i < s.drop_last().len() ==> s.drop_last()[i] == s[i]);
        if all_wf(s) {
            assert(all_wf(s.drop_last()));
        }
        lemma_insert_pos_bounds(prev, k);
        prev.insert_ensures(pos, r);
        let out = ssort(s);
        assert(out == prev.insert(pos, r));
        assert forall|i: int, j: int| 0 <= i <= j < out.len() implies key_of(out[i]) >= key_of(
            out[j],
        ) by {
            if i < pos && j > pos {
                assert(out[i] == prev[i]);
                assert(out[j] == prev[j - 1]);
            }
            if i == pos && j > pos {
                assert(out[j] == prev[j - 1]);
                assert(key_of(prev[j - 1]) <= key_of(prev[pos]));
            }
            if i < pos && j == pos {
                assert(out[i] == prev[i]);
            }
        }
        if all_wf(s) {
            assert forall|i: int| 0 <= i < out.len() implies (#[trigger] out[i]).wf() by {
                if i < pos {
                    assert(out[i] == prev[i]);
                } else if i == pos {
                    assert(out[i] == r);
                } else {
                    assert(out[i] == prev[i - 1]);
                }
            }
        }
    }
}

/// The sort permutes the records: no record is lost, added or changed.
pub proof fn lemma_ssort_multiset(s: Seq<PlayLogV>)
    ensures
        ssort(s).to_multiset() == s.to_multiset(),
    decreases s.len(),
{
    broadcast use vstd::seq_lib::group_to_multiset_ensures;
    broadcast use vstd::multiset::group_multiset_axioms;

    if s.len() > 0 {
        let prev = ssort(s.drop_last());
        let r = s.last();
        let pos = insert_pos(prev, key_of(r));
        lemma_ssort_props(s.drop_last());
        lemma_insert_pos_bounds(prev, key_of(r));
        lemma_ssort_multiset(s.drop_last());
        let sub0 = prev.subrange(0, pos);
        let sub1 = prev.subrange(pos, prev.len() as int);
        assert(ssort(s) == sub0.push(r) + sub1);
        vstd::seq_lib::lemma_multiset_commutative(sub0.push(r), sub1);
        vstd::seq_lib::lemma_multiset_commutative(sub0, sub1);
        assert(prev =~= sub0 + sub1);
        assert(sub0.push(r).to_multiset() =~= sub0.to_multiset().insert(r));
        assert(ssort(s).to_multiset() =~= prev.to_multiset().insert(r));
        assert(s.drop_last().push(r) =~= s);
        assert(s.to_multiset() =~= s.drop_last().to_multiset().insert(r));
    }
}

/// Ranks start at 1, never exceed the 1-based position, and never
/// decrease from one entry to the next.
pub proof fn lemma_rank_at_bounds(s: Seq<PlayLogV>, i: int)
    requires
        0 <= i < s.len(),
    ensures
        1 <= rank_at(s, i) <= i + 1,
        i >= 1 ==> rank_at(s, i - 1) <= rank_at(s, i),
    decreases i,
{
    if i >= 1 {
        lemma_rank_at_bounds(s, i - 1);
    }
}

/// The cut never stops before `j` nor past the end.
pub proof fn lemma_cut_from_range(s: Seq<PlayLogV>, j: int)
    requires
        0 <= j <= s.len(),
    ensures
        j <= cut_from(s, j) <= s.len(),
    decreases s.len() - j,
{
    if j < s.len() && key_of(s[j]) == key_of(s[j - 1]) {
        lemma_cut_from_range(s, j + 1);
    }
}

/// A scan that included everything tied from `j` up to `i` and stopped
/// there computes exactly the cut.
pub proof fn lemma_cut_from_eq(s: Seq<PlayLogV>, j: int, i: int)
    requires
        0 <= j <= i <= s.len(),
        forall|m: int| j <= m < i ==> key_of(#[trigger] s[m]) == key_of(s[m - 1]),
        i < s.len() ==> key_of(s[i]) != key_of(s[i - 1]),
    ensures
        cut_from(s, j) == i,
    decreases i - j,
{
    if j == i {
    } else {
        assert(key_of(s[j]) == key_of(s[j - 1]));
        lemma_cut_from_eq(s, j + 1, i);
    }
}

/// The error a ranking run would surface if an internal invariant were
/// violated; with exact integer scores no such violation can arise, so
/// `top_rankings` proves that it never returns it.
#[derive(Debug)]
pub struct RankingError {}

/// Stable sort by descending rounded score.
fn sort_logs(v: &Vec<PlayLog>) -> (res: Vec<PlayLog>)
    requires
        all_wf(views(v@)),
    ensures
        views(res@) == ssort(views(v@)),
{
    let ghost vs = views(v@);
    let mut res: Vec<PlayLog> = Vec::new();
    let mut idx: usize = 0;
    proof {
        assert(vs.take(0int) =~= Seq::<PlayLogV>::empty());
        assert(views(res@) =~= Seq::<PlayLogV>::empty());
    }
    while idx < v.len()
        invariant
            idx <= v@.len(),
            vs == views(v@),
            all_wf(vs),
            views(res@) == ssort(vs.take(idx as int)),
        decreases v@.len() - idx,
    {
        let ghost prefix = vs.take(idx as int);
        proof {
            assert(all_wf(prefix)) by {
                assert(forall|i: int| 0 <= i < prefix.len() ==> prefix[i] == vs[i]);
            }
            lemma_ssort_props(prefix);
            assert(vs[idx as int] == v@[idx as int]@);
        }
        let r = &v[idx];
        let k = r.score.rounded();
        let rlen = res.len();
        let mut pos: usize = 0;
        while pos < rlen
            invariant_except_break
                pos <= rlen,
                rlen == res@.len(),
                views(res@) == ssort(prefix),
                all_wf(views(res@)),
                forall|m: int| 0 <= m < pos ==> key_of(#[trigger] views(res@)[m]) >= k as int,
            ensures
                pos <= rlen,
                rlen == res@.len(),
                forall|m: int| 0 <= m < pos ==> key_of(#[trigger] views(res@)[m]) >= k as int,
                pos < rlen ==> key_of(views(res@)[pos as int]) < k as int,
            decreases rlen - pos,
        {
            proof {
                assert(views(res@)[pos as int] == res@[pos as int]@);
                assert(views(res@)[pos as int].wf());
                crate::record::lemma_wf_bridge(res@[pos as int]);
            }
            let kp = res[pos].score.rounded();
            if kp < k {
                break ;
            }
            pos += 1;
        }
        proof {
            lemma_insert_pos_from_scan(views(res@), k as int, pos as int);
        }
        res.insert(pos, r.duplicate());
        proof {
            assert(views(res@) =~= ssort(prefix).insert(pos as int, vs[idx as int]));
            assert(vs.take(idx as int + 1).drop_last() =~= prefix);
            assert(vs.take(idx as int + 1).last() == vs[idx as int]);
        }
        idx += 1;
    }
    proof {
        assert(vs.take(vs.len() as int) =~= vs);
    }
    res
}

/// The tie-aware top-`top_rank` leaderboard: the records sorted by
/// descending rounded score (stably, so equal rounded scores keep their
/// input order), paired with competition ("1224") ranks, cut after the
/// first `top_rank` entries extended by every entry tied with the
/// `top_rank`-th place. Never fails; `top_rank == 0` and empty input
/// both yield an empty leaderboard.
pub fn top_rankings_logs(v: &Vec<PlayLog>, top_rank: usize) -> (res: Result<
    Vec<(usize, PlayLog)>,
    RankingError,
>)
    requires
        all_wf(views(v@)),
    ensures
        res is Ok,
        res->Ok_0@.len() == cut_len(ssort(views(v@)), top_rank as int),
        forall|i: int|
            0 <= i < res->Ok_0@.len() ==> (#[trigger] res->Ok_0@[i]).1@ == ssort(views(v@))[i],
        forall|i: int|
            0 <= i < res->Ok_0@.len() ==> (#[trigger] res->Ok_0@[i]).0 as int == rank_at(
                ssort(views(v@)),
                i,
            ),
        forall|i: int|
            0 <= i < res->Ok_0@.len() - 1 ==> (#[trigger] res->Ok_0@[i]).0 <= res->Ok_0@[i + 1].0,
        top_rank == 0 ==> res->Ok_0@.len() == 0,
        v@.len() == 0 ==> res->Ok_0@.len() == 0,
        v@.len() <= top_rank ==> res->Ok_0@.len() == v@.len(),
        1 <= top_rank <= v@.len() ==> res->Ok_0@.len() >= top_rank,
        forall|i: int|
            1 <= top_rank && top_rank as int <= i < v@.len() && key_of(
                #[trigger] ssort(views(v@))[i],
            ) == key_of(ssort(views(v@))[top_rank - 1]) ==> i < res->Ok_0@.len(),
{
    let ghost svs = ssort(views(v@));
    proof {
        lemma_ssort_props(views(v@));
    }
    let sorted = sort_logs(v);
    let mut out: Vec<(usize, PlayLog)> = Vec::new();
    if top_rank == 0 {
        return Ok(out);
    }
    let mut i: usize = 0;
    let mut prev_score: i64 = 0;
    let mut prev_rank: usize = 1;
    while i < sorted.len()
        invariant_except_break
            1 <= top_rank,
            views(sorted@) == svs,
            all_wf(svs),
            sorted_desc(svs),
            i <= svs.len(),
            out@.len() == i,
            forall|m: int| 0 <= m < i ==> (#[trigger] out@[m]).1@ == svs[m],
            forall|m: int| 0 <= m < i ==> (#[trigger] out@[m]).0 as int == rank_at(svs, m),
            i > 0 ==> prev_score as int == key_of(svs[i - 1]),
            i > 0 ==> prev_rank as int == rank_at(svs, i - 1),
            forall|m: int|
                top_rank as int <= m < i ==> key_of(#[trigger] svs[m]) == key_of(svs[m - 1]),
        ensures
            i <= svs.len(),
            out@.len() == i,
            forall|m: int| 0 <= m < i ==> (#[trigger] out@[m]).1@ == svs[m],
            forall|m: int| 0 <= m < i ==> (#[trigger] out@[m]).0 as int == rank_at(svs, m),
            forall|m: int|
                top_rank as int <= m < i ==> key_of(#[trigger] svs[m]) == key_of(svs[m - 1]),
            i == svs.len() || (i >= top_rank && key_of(svs[i as int]) != key_of(
                svs[i as int - 1],
            )),
        decreases svs.len() - i,
    {
        proof {
            assert(views(sorted@)[i as int] == sorted@[i as int]@);
            assert(svs[i as int].wf());
            crate::record::lemma_wf_bridge(sorted@[i as int]);
        }
        let sc = sorted[i].score.rounded();
        if i >= top_rank && sc != prev_score {
            break ;
        }
        let rank: usize = if i > 0 && sc == prev_score {
            prev_rank
        } else {
            i + 1
        };
        out.push((rank, sorted[i].duplicate()));
        prev_score = sc;
        prev_rank = rank;
        i += 1;
    }
    proof {
        if i < svs.len() {
            lemma_cut_from_eq(svs, top_rank as int, i as int);
        } else if top_rank < svs.len() {
            lemma_cut_from_eq(svs, top_rank as int, i as int);
        }
        assert(out@.len() == cut_len(svs, top_rank as int));
        assert forall|m: int| 0 <= m < out@.len() - 1 implies (#[trigger] out@[m]).0 <= out@[m
            + 1].0 by {
            lemma_rank_at_bounds(svs, m + 1);
        }
        if 1 <= top_rank && top_rank < svs.len() {
            lemma_cut_from_range(svs, top_rank as int);
        }
        assert forall|ii: int|
            1 <= top_rank && top_rank as int <= ii < v@.len() && key_of(#[trigger] svs[ii])
                == key_of(svs[top_rank - 1]) implies ii < out@.len() by {
            lemma_cut_from_ties(svs, top_rank as int, ii);
        }
    }
    Ok(out)
}

/// In a sorted sequence, every entry tied with the entry before the cut
/// start lies below the cut: ties at the boundary are all included.
pub proof fn lemma_cut_from_ties(s: Seq<PlayLogV>, j: int, i: int)
    requires
        sorted_desc(s),
        1 <= j <= i < s.len(),
        key_of(s[i]) == key_of(s[j - 1]),
    ensures
        cut_from(s, j) > i,
    decreases i - j,
{
    assert(key_of(s[j - 1]) >= key_of(s[j]) >= key_of(s[i]));
    assert(key_of(s[j]) == key_of(s[j - 1]));
    if j == i {
        lemma_cut_from_range(s, j + 1);
    } else {
        lemma_cut_from_ties(s, j + 1, i);
    }
}

} // verus!

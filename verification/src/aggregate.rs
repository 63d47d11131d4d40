//! Aggregation: folding a sequence of play records into one mean-score
//! record per distinct player, in first-seen order.
//!
//! The mathematical model is `agg`: a left fold that pools each record
//! into the accumulator entry with the same identity, or appends a new
//! entry when the identity has not been seen yet. Pooling adds totals
//! and play counts, so the entry for a player carries exactly the sum
//! of that player's points over the number of its plays.

use vstd::prelude::*;
use vstd::seq_lib::commutative_foldl;
use vstd::seq_lib::lemma_fold_left_permutation;
use crate::record::{PlayLog, PlayLogV, views, all_wf};

verus! {

/// Some entry of `acc` carries the identity `id`.
pub open spec fn has_id(acc: Seq<PlayLogV>, id: Seq<char>) -> bool {
    exists|j: int| 0 <= j < acc.len() && acc[j].id == id
}

/// The index of the entry of `acc` carrying `id` (unique when the
/// identities of `acc` are distinct).
pub open spec fn id_index(acc: Seq<PlayLogV>, id: Seq<char>) -> int {
    choose|j: int| 0 <= j < acc.len() && acc[j].id == id
}

/// Pools a new record into an existing entry: totals and play counts
/// add; identity and first-seen timestamp stay with the entry.
pub open spec fn merged(a: PlayLogV, r: PlayLogV) -> PlayLogV {
    PlayLogV { id: a.id, total: a.total + r.total, plays: (a.plays + r.plays) as nat, created_at: a.created_at }
}

/// One step of aggregation: pool `r` into its entry, or append it.
pub open spec fn agg_step(acc: Seq<PlayLogV>, r: PlayLogV) -> Seq<PlayLogV> {
    if has_id(acc, r.id) {
        acc.update(id_index(acc, r.id), merged(acc[id_index(acc, r.id)], r))
    } else {
        acc.push(r)
    }
}

/// Aggregation of a whole sequence, record by record from the left.
pub open spec fn agg(s: Seq<PlayLogV>) -> Seq<PlayLogV>
    decreases s.len(),
{
    if s.len() == 0 {
        Seq::empty()
    } else {
        agg_step(agg(s.drop_last()), s.last())
    }
}

/// Total number of plays over all entries.
pub open spec fn sum_plays(s: Seq<PlayLogV>) -> int
    decreases s.len(),
{
    if s.len() == 0 {
        0
    } else {
        sum_plays(s.drop_last()) + s.last().plays
    }
}

/// Total points over all entries.
pub open spec fn sum_totals(s: Seq<PlayLogV>) -> int
    decreases s.len(),
{
    if s.len() == 0 {
        0
    } else {
        sum_totals(s.drop_last()) + s.last().total
    }
}

/// No two entries carry the same identity.
pub open spec fn distinct_ids(s: Seq<PlayLogV>) -> bool {
    forall|i: int, j: int| 0 <= i < j < s.len() ==> s[i].id != s[j].id
}

/// With distinct identities, `id_index` is the one matching index.
pub proof fn lemma_id_index_of(acc: Seq<PlayLogV>, id: Seq<char>, j: int)
    requires
        distinct_ids(acc),
        0 <= j < acc.len(),
        acc[j].id == id,
    ensures
        has_id(acc, id),
        id_index(acc, id) == j,
{
    assert(has_id(acc, id));
    let k = id_index(acc, id);
    assert(0 <= k < acc.len() && acc[k].id == id);
    if k != j {
        assert(false);
    }
}

/// Play counts are non-negative, so every prefix sum is bounded by the
/// whole sum.
pub proof fn lemma_sum_plays_take_le(s: Seq<PlayLogV>, k: int)
    requires
        0 <= k <= s.len(),
    ensures
        sum_plays(s.take(k)) <= sum_plays(s),
    decreases s.len(),
{
    if k == s.len() {
        assert(s.take(k) =~= s);
    } else {
        assert(s.drop_last().take(k) =~= s.take(k));
        lemma_sum_plays_take_le(s.drop_last(), k);
    }
}

/// Extending a prefix by one entry adds that entry's play count.
pub proof fn lemma_sum_plays_take_succ(s: Seq<PlayLogV>, k: int)
    requires
        0 <= k < s.len(),
    ensures
        sum_plays(s.take(k + 1)) == sum_plays(s.take(k)) + s[k].plays,
{
    assert(s.take(k + 1).drop_last() =~= s.take(k));
    assert(s.take(k + 1).last() == s[k]);
}

/// Each entry's play count is bounded by the sum over all entries.
pub proof fn lemma_sum_plays_entry(s: Seq<PlayLogV>, j: int)
    requires
        0 <= j < s.len(),
    ensures
        s[j].plays <= sum_plays(s),
    decreases s.len(),
{
    if j == s.len() - 1 {
        lemma_sum_plays_nonneg(s.drop_last());
    } else {
        lemma_sum_plays_entry(s.drop_last(), j);
    }
}

/// A sum of play counts is non-negative.
pub proof fn lemma_sum_plays_nonneg(s: Seq<PlayLogV>)
    ensures
        sum_plays(s) >= 0,
    decreases s.len(),
{
    if s.len() > 0 {
        lemma_sum_plays_nonneg(s.drop_last());
    }
}

/// A sequence of single plays — every freshly ingested record is one —
/// has as many plays as records, so the play-count bound of `mean`
/// holds for any raw input that fits in memory.
pub proof fn lemma_sum_plays_single(s: Seq<PlayLogV>)
    requires
        forall|i: int| 0 <= i < s.len() ==> (#[trigger] s[i]).plays == 1,
    ensures
        sum_plays(s) == s.len(),
    decreases s.len(),
{
    if s.len() > 0 {
        assert(forall|i: int| 0 <= i < s.drop_last().len() ==> s.drop_last()[i] == s[i]);
        lemma_sum_plays_single(s.drop_last());
    }
}

/// Updating one entry changes the sum by the difference at that entry.
pub proof fn lemma_sum_plays_update(s: Seq<PlayLogV>, j: int, e: PlayLogV)
    requires
        0 <= j < s.len(),
    ensures
        sum_plays(s.update(j, e)) == sum_plays(s) - s[j].plays + e.plays,
    decreases s.len(),
{
    if j == s.len() - 1 {
        assert(s.update(j, e).drop_last() =~= s.drop_last());
        assert(s.update(j, e).last() == e);
    } else {
        assert(s.update(j, e).drop_last() =~= s.drop_last().update(j, e));
        assert(s.update(j, e).last() == s.last());
        lemma_sum_plays_update(s.drop_last(), j, e);
    }
}

/// An identity occurs in a non-empty sequence exactly when it occurs in
/// the sequence without its last entry or is the last entry's identity.
pub proof fn lemma_has_id_unlast(s: Seq<PlayLogV>, id: Seq<char>)
    requires
        s.len() > 0,
    ensures
        has_id(s, id) <==> (has_id(s.drop_last(), id) || s.last().id == id),
{
    assert(forall|i: int| 0 <= i < s.drop_last().len() ==> s.drop_last()[i] == s[i]);
    if has_id(s, id) {
        let j = choose|j: int| 0 <= j < s.len() && s[j].id == id;
        if j < s.len() - 1 {
            assert(s.drop_last()[j].id == id);
        }
    }
    if has_id(s.drop_last(), id) {
        let j = choose|j: int| 0 <= j < s.drop_last().len() && s.drop_last()[j].id == id;
        assert(s[j].id == id);
    }
    if s.last().id == id {
        assert(s[s.len() - 1].id == id);
    }
}

/// Two sequences with the same identities entry by entry carry the same
/// identities.
pub proof fn lemma_has_id_equiv(s1: Seq<PlayLogV>, s2: Seq<PlayLogV>, id: Seq<char>)
    requires
        s1.len() == s2.len(),
        forall|i: int| 0 <= i < s1.len() ==> s1[i].id == s2[i].id,
    ensures
        has_id(s1, id) <==> has_id(s2, id),
{
    if has_id(s1, id) {
        let j = choose|j: int| 0 <= j < s1.len() && s1[j].id == id;
        assert(s2[j].id == id);
    }
    if has_id(s2, id) {
        let j = choose|j: int| 0 <= j < s2.len() && s2[j].id == id;
        assert(s1[j].id == id);
    }
}

/// Aggregation keeps identities distinct, introduces exactly the
/// identities of its input, preserves well-formedness of every entry,
/// and preserves the total number of plays.
pub proof fn lemma_agg_props(s: Seq<PlayLogV>)
    ensures
        distinct_ids(agg(s)),
        forall|id: Seq<char>| has_id(agg(s), id) <==> has_id(s, id),
        agg(s).len() <= s.len(),
        all_wf(s) ==> all_wf(agg(s)),
        sum_plays(agg(s)) == sum_plays(s),
    decreases s.len(),
{
    if s.len() > 0 {
        let prev = agg(s.drop_last());
        let r = s.last();
        lemma_agg_props(s.drop_last());
        assert(forall|i: int| 0 <= i < s.drop_last().len() ==> s.drop_last()[i] == s[i]);
        if all_wf(s) {
            assert(all_wf(s.drop_last()));
        }
        if has_id(prev, r.id) {
            let j = id_index(prev, r.id);
            assert(0 <= j < prev.len() && prev[j].id == r.id);
            let m = merged(prev[j], r);
            assert(agg(s) == prev.update(j, m));
            assert(forall|i: int| 0 <= i < prev.len() ==> agg(s)[i].id == prev[i].id);
            assert forall|id: Seq<char>| has_id(agg(s), id) <==> has_id(s, id) by {
                lemma_has_id_unlast(s, id);
                lemma_has_id_equiv(agg(s), prev, id);
            }
            lemma_sum_plays_update(prev, j, m);
            if all_wf(s) {
                lemma_merged_wf(prev[j], r);
                assert(all_wf(agg(s)));
            }
        } else {
            assert(agg(s) == prev.push(r));
            assert(agg(s).drop_last() =~= prev);
            assert(agg(s).last() == r);
            assert forall|id: Seq<char>| has_id(agg(s), id) <==> has_id(s, id) by {
                lemma_has_id_unlast(s, id);
                lemma_has_id_unlast(agg(s), id);
            }
            assert(forall|i: int| 0 <= i < prev.len() ==> agg(s)[i] == prev[i]);
            assert(forall|i: int| 0 <= i < prev.len() ==> prev[i].id != r.id);
            assert(distinct_ids(agg(s)));
            if all_wf(s) {
                assert(all_wf(agg(s)));
            }
        }
    }
}

/// Pooling two well-formed entries yields a well-formed entry.
pub proof fn lemma_merged_wf(a: PlayLogV, r: PlayLogV)
    requires
        a.wf(),
        r.wf(),
    ensures
        merged(a, r).wf(),
{
    let pa = a.plays as int;
    let pr = r.plays as int;
    assert((pa + pr) * (i64::MIN as int) == pa * (i64::MIN as int) + pr * (i64::MIN as int))
        by (nonlinear_arith);
    assert((pa + pr) * (i64::MAX as int) == pa * (i64::MAX as int) + pr * (i64::MAX as int))
        by (nonlinear_arith);
}

/// The records of `s` that belong to player `pid`, in order.
pub open spec fn of_player(s: Seq<PlayLogV>, pid: Seq<char>) -> Seq<PlayLogV> {
    s.filter(|r: PlayLogV| r.id == pid)
}

/// Appending one entry adds its total and play count to the sums.
proof fn lemma_sums_push(x: Seq<PlayLogV>, r: PlayLogV)
    ensures
        sum_totals(x.push(r)) == sum_totals(x) + r.total,
        sum_plays(x.push(r)) == sum_plays(x) + r.plays,
{
    assert(x.push(r).drop_last() =~= x);
    assert(x.push(r).last() == r);
}

/// A player that occurs nowhere has no records.
proof fn lemma_of_player_none(s: Seq<PlayLogV>, pid: Seq<char>)
    requires
        !has_id(s, pid),
    ensures
        of_player(s, pid) == Seq::<PlayLogV>::empty(),
    decreases s.len(),
{
    reveal(Seq::filter);
    if s.len() > 0 {
        lemma_has_id_unlast(s, pid);
        lemma_of_player_none(s.drop_last(), pid);
        assert(of_player(s, pid) =~= Seq::<PlayLogV>::empty());
    } else {
        assert(of_player(s, pid) =~= Seq::<PlayLogV>::empty());
    }
}

/// Mean correctness: the aggregated entry for each player carries
/// exactly the sum of that player's points and the sum of its play
/// counts, so its mean score is `sum of scores / number of plays`.
pub proof fn lemma_mean_is_exact_sum(s: Seq<PlayLogV>, pid: Seq<char>)
    requires
        has_id(s, pid),
    ensures
        has_id(agg(s), pid),
        agg(s)[id_index(agg(s), pid)].id == pid,
        agg(s)[id_index(agg(s), pid)].total == sum_totals(of_player(s, pid)),
        agg(s)[id_index(agg(s), pid)].plays == sum_plays(of_player(s, pid)),
    decreases s.len(),
{
    reveal(Seq::filter);
    let sp = s.drop_last();
    let r = s.last();
    let prev = agg(sp);
    lemma_agg_props(sp);
    lemma_agg_props(s);
    lemma_has_id_unlast(s, pid);
    assert(of_player(s, pid) == if r.id == pid {
        of_player(sp, pid).push(r)
    } else {
        of_player(sp, pid)
    });
    if r.id == pid {
        lemma_sums_push(of_player(sp, pid), r);
        if has_id(sp, pid) {
            lemma_mean_is_exact_sum(sp, pid);
            let j = id_index(prev, pid);
            assert(0 <= j < prev.len() && prev[j].id == pid);
            lemma_id_index_of(prev, r.id, j);
            assert(agg(s) == prev.update(j, merged(prev[j], r)));
            lemma_id_index_of(agg(s), pid, j);
        } else {
            lemma_of_player_none(sp, pid);
            assert(!has_id(prev, r.id));
            assert(agg(s) == prev.push(r));
            assert(agg(s)[prev.len() as int] == r);
            lemma_id_index_of(agg(s), pid, prev.len() as int);
            assert(sum_totals(of_player(s, pid)) == r.total);
            assert(sum_plays(of_player(s, pid)) == r.plays);
        }
    } else {
        assert(has_id(sp, pid));
        lemma_mean_is_exact_sum(sp, pid);
        let jp = id_index(prev, pid);
        assert(0 <= jp < prev.len() && prev[jp].id == pid);
        if has_id(prev, r.id) {
            let j = id_index(prev, r.id);
            assert(0 <= j < prev.len() && prev[j].id == r.id);
            assert(j != jp);
            assert(agg(s) == prev.update(j, merged(prev[j], r)));
            assert(agg(s)[jp] == prev[jp]);
            lemma_id_index_of(agg(s), pid, jp);
        } else {
            assert(agg(s) == prev.push(r));
            assert(agg(s)[jp] == prev[jp]);
            lemma_id_index_of(agg(s), pid, jp);
        }
    }
}

/// The identities of the entries, in order.
pub open spec fn ids_of(s: Seq<PlayLogV>) -> Seq<Seq<char>> {
    s.map_values(|r: PlayLogV| r.id)
}

/// The distinct player identities of the input, in order of first
/// occurrence.
pub open spec fn first_seen_ids(s: Seq<PlayLogV>) -> Seq<Seq<char>>
    decreases s.len(),
{
    if s.len() == 0 {
        Seq::empty()
    } else {
        let prev = first_seen_ids(s.drop_last());
        if prev.contains(s.last().id) {
            prev
        } else {
            prev.push(s.last().id)
        }
    }
}

/// Mean correctness, order of the output: the aggregated entries carry
/// exactly the distinct player identities of the input, in order of
/// first occurrence — none missing, none added, none repeated (their
/// distinctness is `lemma_agg_props`).
pub proof fn lemma_mean_first_seen_order(s: Seq<PlayLogV>)
    ensures
        ids_of(agg(s)) == first_seen_ids(s),
    decreases s.len(),
{
    if s.len() == 0 {
        assert(ids_of(agg(s)) =~= Seq::<Seq<char>>::empty());
    } else {
        let sp = s.drop_last();
        let r = s.last();
        let prev = agg(sp);
        lemma_mean_first_seen_order(sp);
        lemma_agg_props(sp);
        assert(ids_of(prev).contains(r.id) <==> has_id(prev, r.id)) by {
            if ids_of(prev).contains(r.id) {
                let j = choose|j: int|
                    0 <= j < ids_of(prev).len() && #[trigger] ids_of(prev)[j] == r.id;
                assert(prev[j].id == r.id);
            }
            if has_id(prev, r.id) {
                let j = id_index(prev, r.id);
                assert(0 <= j < prev.len() && prev[j].id == r.id);
                assert(ids_of(prev)[j] == r.id);
            }
        }
        if has_id(prev, r.id) {
            let j = id_index(prev, r.id);
            assert(0 <= j < prev.len() && prev[j].id == r.id);
            assert(agg(s) == prev.update(j, merged(prev[j], r)));
            assert(ids_of(agg(s)) =~= ids_of(prev));
        } else {
            assert(agg(s) == prev.push(r));
            assert(ids_of(agg(s)) =~= ids_of(prev).push(r.id));
        }
    }
}

/// Sums as left folds, for the permutation lemma.
proof fn lemma_sums_as_fold(s: Seq<PlayLogV>)
    ensures
        s.fold_left(0int, |b: int, r: PlayLogV| b + r.total) == sum_totals(s),
        s.fold_left(0int, |b: int, r: PlayLogV| b + r.plays) == sum_plays(s),
    decreases s.len(),
{
    if s.len() > 0 {
        lemma_sums_as_fold(s.drop_last());
    }
}

/// Sums over a sequence depend only on its multiset of entries.
proof fn lemma_sums_permutation(x: Seq<PlayLogV>, y: Seq<PlayLogV>)
    requires
        x.to_multiset() == y.to_multiset(),
    ensures
        sum_totals(x) == sum_totals(y),
        sum_plays(x) == sum_plays(y),
{
    let f = |b: int, r: PlayLogV| b + r.total;
    let g = |b: int, r: PlayLogV| b + r.plays;
    assert(commutative_foldl(f));
    assert(commutative_foldl(g));
    lemma_fold_left_permutation(x, y, f, 0int);
    lemma_fold_left_permutation(x, y, g, 0int);
    lemma_sums_as_fold(x);
    lemma_sums_as_fold(y);
}

/// Mean correctness, order insensitivity: a player's aggregated totals
/// depend only on the multiset of that player's own records, not on the
/// order they arrive in.
pub proof fn lemma_mean_order_insensitive(s1: Seq<PlayLogV>, s2: Seq<PlayLogV>, pid: Seq<char>)
    requires
        has_id(s1, pid),
        has_id(s2, pid),
        of_player(s1, pid).to_multiset() == of_player(s2, pid).to_multiset(),
    ensures
        agg(s1)[id_index(agg(s1), pid)].total == agg(s2)[id_index(agg(s2), pid)].total,
        agg(s1)[id_index(agg(s1), pid)].plays == agg(s2)[id_index(agg(s2), pid)].plays,
{
    lemma_mean_is_exact_sum(s1, pid);
    lemma_mean_is_exact_sum(s2, pid);
    lemma_sums_permutation(of_player(s1, pid), of_player(s2, pid));
}

/// Idempotence of mean: aggregating a sequence that already has one
/// record per player returns it unchanged.
pub proof fn lemma_mean_idempotent(s: Seq<PlayLogV>)
    requires
        distinct_ids(s),
    ensures
        agg(s) == s,
    decreases s.len(),
{
    if s.len() > 0 {
        let sp = s.drop_last();
        let r = s.last();
        assert(forall|i: int| 0 <= i < sp.len() ==> sp[i] == s[i]);
        assert(distinct_ids(sp));
        lemma_mean_idempotent(sp);
        lemma_agg_props(sp);
        assert(!has_id(sp, r.id)) by {
            if has_id(sp, r.id) {
                let j = choose|j: int| 0 <= j < sp.len() && sp[j].id == r.id;
                assert(s[j].id == s[s.len() - 1].id);
                assert(false);
            }
        }
        assert(agg(s) == sp.push(r));
        assert(sp.push(r) =~= s);
    }
}

/// Folds the input into one record per distinct player identity, in
/// first-seen order: the entry for a player carries the sum of that
/// player's points over the sum of its play counts, so its score is
/// exactly the arithmetic mean of the player's scores.
pub fn mean_logs(v: &Vec<PlayLog>) -> (res: Vec<PlayLog>)
    requires
        all_wf(views(v@)),
        sum_plays(views(v@)) <= u64::MAX as int,
    ensures
        views(res@) == agg(views(v@)),
        all_wf(views(res@)),
        distinct_ids(views(res@)),
        sum_plays(views(res@)) == sum_plays(views(v@)),
{
    let ghost vs = views(v@);
    let mut res: Vec<PlayLog> = Vec::new();
    let mut idx: usize = 0;
    proof {
        assert(vs.take(0int) =~= Seq::<PlayLogV>::empty());
        assert(views(res@) =~= Seq::<PlayLogV>::empty());
    }
    while idx < v.len()
        invariant
            idx <= v@.len(),
            vs == views(v@),
            all_wf(vs),
            sum_plays(vs) <= u64::MAX as int,
            views(res@) == agg(vs.take(idx as int)),
        decreases v@.len() - idx,
    {
        let ghost prefix = vs.take(idx as int);
        proof {
            assert(all_wf(prefix)) by {
                assert(forall|i: int| 0 <= i < prefix.len() ==> prefix[i] == vs[i]);
            }
            lemma_agg_props(prefix);
            assert(vs[idx as int] == v@[idx as int]@);
        }
        let r = &v[idx];
        let rlen = res.len();
        let mut j: usize = 0;
        while j < rlen
            invariant
                j <= rlen,
                rlen == res@.len(),
                forall|m: int| 0 <= m < j ==> views(res@)[m].id != r@.id,
                vs == views(v@),
                views(res@) == agg(prefix),
            ensures
                j <= rlen,
                forall|m: int| 0 <= m < j ==> views(res@)[m].id != r@.id,
                j < rlen ==> views(res@)[j as int].id == r@.id,
            decreases rlen - j,
        {
            if res[j].player_id == r.player_id {
                break ;
            }
            j += 1;
        }
        proof {
            lemma_sum_plays_take_succ(vs, idx as int);
            lemma_sum_plays_take_le(vs, idx as int + 1);
            lemma_sum_plays_nonneg(prefix);
            assert(agg(vs.take(idx as int + 1)) == agg_step(agg(prefix), vs[idx as int])) by {
                assert(vs.take(idx as int + 1).drop_last() =~= prefix);
                assert(vs.take(idx as int + 1).last() == vs[idx as int]);
            }
        }
        if j < res.len() {
            proof {
                lemma_id_index_of(views(res@), r@.id, j as int);
                lemma_sum_plays_entry(views(res@), j as int);
            }
            let pid = res[j].player_id.clone();
            let ts = res[j].create_timestamp;
            let ms = res[j].score.merge(r.score);
            res[j] = PlayLog { player_id: pid, score: ms, create_timestamp: ts };
            proof {
                assert(views(res@) =~= agg(prefix).update(
                    j as int,
                    merged(agg(prefix)[j as int], vs[idx as int]),
                ));
            }
        } else {
            res.push(r.duplicate());
            proof {
                assert(!has_id(agg(prefix), vs[idx as int].id));
                assert(views(res@) =~= agg(prefix).push(vs[idx as int]));
            }
        }
        idx += 1;
    }
    proof {
        assert(vs.take(vs.len() as int) =~= vs);
        lemma_agg_props(vs);
    }
    res
}

} // verus!

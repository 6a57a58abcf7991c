//! Backward reconstruction of a proposal's activity history.
//!
//! The ledger exposes, for a proposal at a given block, only its most
//! recent window of activity-log stubs, each just a block height.  To
//! recover everything above a known boundary `limit`, the driver fetches
//! the current window and, while a window comes back full, re-queries the
//! proposal as it stood just below the window's minimum height.  The
//! decision of each hop is [`hop_decision`]; the collected stubs are
//! sorted, deduplicated and cut at the boundary by [`finish_stubs`]; and
//! [`reconstruct_simulated`] runs the whole loop against a simulated
//! upstream, which shows that the procedure terminates and returns exactly
//! the heights above the boundary.

use vstd::prelude::*;

use crate::types::ProposalLog;

verus! {

/// How many stubs a full window holds; a window this long means older
/// entries were truncated away and may still exist.
pub const LOG_LIMIT: usize = 20;

/// A sequence of heights that strictly increases: sorted, no duplicates.
pub open spec fn sorted_strict(s: Seq<u64>) -> bool {
    forall|i: int, j: int| 0 <= i < j < s.len() ==> s[i] < s[j]
}

/// Some stub among the first `n` of `s` sits at block height `h`.
pub open spec fn has_height_upto(s: Seq<ProposalLog>, n: int, h: u64) -> bool {
    exists|i: int| 0 <= i < n && #[trigger] s[i].block_height == h
}

/// Some stub of `s` sits at block height `h`.
pub open spec fn has_height(s: Seq<ProposalLog>, h: u64) -> bool {
    has_height_upto(s, s.len() as int, h)
}

/// Height `h` occurs in `full` at or after position `e`.
pub open spec fn full_has_from(full: Seq<u64>, e: int, h: u64) -> bool {
    exists|i: int| e <= i < full.len() && full[i] == h
}

/// What the driver does after looking at one fetched window: stop, or
/// re-query the history as it stood at the given older block.
#[derive(Clone, Copy, Debug, PartialEq, Eq, Structural)]
pub enum HopDecision {
    Stop,
    FetchOlderAt(u64),
}

/// The smallest block height in a window; zero for an empty window.
pub open spec fn window_min(w: Seq<ProposalLog>) -> u64
    decreases w.len(),
{
    if w.len() == 0 {
        0
    } else if w.len() == 1 {
        w[0].block_height
    } else {
        let rest = window_min(w.drop_last());
        if w.last().block_height < rest {
            w.last().block_height
        } else {
            rest
        }
    }
}

/// The minimum of a non-empty window is attained and bounds every entry.
pub proof fn lemma_window_min(w: Seq<ProposalLog>)
    requires
        w.len() > 0,
    ensures
        exists|i: int| 0 <= i < w.len() && #[trigger] w[i].block_height == window_min(w),
        forall|i: int| 0 <= i < w.len() ==> window_min(w) <= #[trigger] w[i].block_height,
    decreases w.len(),
{
    if w.len() == 1 {
        assert(w[0].block_height == window_min(w));
    }
    if w.len() > 1 {
        lemma_window_min(w.drop_last());
        let rest = w.drop_last();
        assert(forall|i: int| 0 <= i < rest.len() ==> rest[i] == w[i]);
        if w.last().block_height < window_min(rest) {
            assert(w[w.len() - 1].block_height == window_min(w));
        } else {
            let i = choose|i: int|
                0 <= i < rest.len() && #[trigger] rest[i].block_height == window_min(rest);
            assert(w[i].block_height == window_min(w));
        }
    }
}

fn window_min_exec(w: &Vec<ProposalLog>) -> (r: u64)
    ensures
        r == window_min(w@),
{
    let n = w.len();
    if n == 0 {
        return 0;
    }
    let mut m = w[0].block_height;
    let mut i: usize = 1;
    while i < n
        invariant
            n == w@.len(),
            1 <= i <= n,
            m == window_min(w@.subrange(0, i as int)),
        decreases n - i,
    {
        proof {
            assert(w@.subrange(0, i as int + 1).drop_last() =~= w@.subrange(0, i as int));
            assert(w@.subrange(0, i as int + 1).last() == w@[i as int]);
        }
        if w[i].block_height < m {
            m = w[i].block_height;
        }
        i += 1;
    }
    proof {
        assert(w@.subrange(0, n as int) =~= w@);
    }
    m
}

/// One step of the backward walk over the truncated log.  A full window
/// whose minimum still lies above `limit` may hide older entries, so the
/// history is re-queried at the block just below that minimum; any shorter
/// window, or one that has reached known history, ends the walk.
pub fn hop_decision(window: &Vec<ProposalLog>, limit: u64, k: usize) -> (r: HopDecision)
    ensures
        r == (if window@.len() == k && window_min(window@) > limit {
            HopDecision::FetchOlderAt((window_min(window@) - 1) as u64)
        } else {
            HopDecision::Stop
        }),
{
    if window.len() != k {
        return HopDecision::Stop;
    }
    let m = window_min_exec(window);
    if m > limit {
        HopDecision::FetchOlderAt(m - 1)
    } else {
        HopDecision::Stop
    }
}

/// Insert a height into a strictly sorted list, keeping it strictly
/// sorted; a height already present is left alone.
fn insert_sorted_unique(v: &mut Vec<u64>, x: u64)
    requires
        sorted_strict(old(v)@),
    ensures
        sorted_strict(final(v)@),
        forall|y: u64| final(v)@.contains(y) <==> (old(v)@.contains(y) || y == x),
{
    let n = v.len();
    let mut i: usize = 0;
    while i < n && v[i] < x
        invariant
            n == v@.len(),
            i <= n,
            sorted_strict(v@),
            forall|j: int| 0 <= j < i ==> v@[j] < x,
        decreases n - i,
    {
        i += 1;
    }
    if i < n && v[i] == x {
        proof {
            assert(v@[i as int] == x);
            assert(v@.contains(x));
        }
        return;
    }
    let ghost oldv = v@;
    proof {
        if i < n {
            assert(oldv[i as int] > x);
        }
    }
    v.insert(i, x);
    proof {
        let newv = v@;
        assert forall|p: int, q: int| 0 <= p < q < newv.len() implies newv[p] < newv[q] by {
            if q < i {
                assert(newv[p] == oldv[p] && newv[q] == oldv[q]);
            } else if p < i && q == i {
                assert(newv[p] == oldv[p]);
            } else if p < i && q > i {
                assert(newv[p] == oldv[p]);
                assert(newv[q] == oldv[q - 1]);
                if q - 1 > i {
                    assert(oldv[i as int] < oldv[q - 1]);
                }
            } else if p == i {
                assert(newv[q] == oldv[q - 1]);
                if q - 1 > i {
                    assert(oldv[i as int] < oldv[q - 1]);
                }
            } else {
                assert(newv[p] == oldv[p - 1] && newv[q] == oldv[q - 1]);
            }
        }
        assert forall|y: u64| newv.contains(y) <==> (oldv.contains(y) || y == x) by {
            if newv.contains(y) {
                let j = choose|j: int| 0 <= j < newv.len() && newv[j] == y;
                if j < i {
                    assert(oldv[j] == y);
                    assert(oldv.contains(y));
                } else if j > i {
                    assert(oldv[j - 1] == y);
                    assert(oldv.contains(y));
                }
            }
            if oldv.contains(y) {
                let j = choose|j: int| 0 <= j < oldv.len() && oldv[j] == y;
                if j < i {
                    assert(newv[j] == y);
                } else {
                    assert(newv[j + 1] == y);
                }
                assert(newv.contains(y));
            }
            if y == x {
                assert(newv[i as int] == y);
                assert(newv.contains(y));
            }
        }
    }
}

/// Sort the accumulated stub heights ascending, drop duplicates, and keep
/// only heights strictly above the boundary: a stub exactly at `limit`
/// belongs to already-known history and is excluded, one at `limit + 1` is
/// kept.
pub fn finish_stubs(stubs: &Vec<ProposalLog>, limit: u64) -> (r: Vec<u64>)
    ensures
        sorted_strict(r@),
        forall|h: u64| #[trigger] r@.contains(h) <==> (h > limit && has_height(stubs@, h)),
{
    let n = stubs.len();
    let mut out: Vec<u64> = Vec::new();
    let mut i: usize = 0;
    while i < n
        invariant
            n == stubs@.len(),
            i <= n,
            sorted_strict(out@),
            forall|h: u64|
                #[trigger] out@.contains(h) <==> (h > limit && has_height_upto(
                    stubs@,
                    i as int,
                    h,
                )),
        decreases n - i,
    {
        let h = stubs[i].block_height;
        let ghost old_out = out@;
        if h > limit {
            insert_sorted_unique(&mut out, h);
        }
        proof {
            assert forall|y: u64| #[trigger] out@.contains(y) <==> (y > limit && has_height_upto(
                stubs@,
                i as int + 1,
                y,
            )) by {
                if out@.contains(y) {
                    if y == h {
                        assert(stubs@[i as int].block_height == y);
                    }
                }
                if y > limit && has_height_upto(stubs@, i as int + 1, y) {
                    let j = choose|j: int|
                        0 <= j < i as int + 1 && #[trigger] stubs@[j].block_height == y;
                    if j == i as int {
                        assert(y == h);
                        assert(out@.contains(y));
                    } else {
                        assert(has_height_upto(stubs@, i as int, y));
                        assert(old_out.contains(y));
                        assert(out@.contains(y));
                    }
                }
            }
        }
        i += 1;
    }
    proof {
        assert(forall|h: u64| has_height_upto(stubs@, n as int, h) == has_height(stubs@, h));
    }
    out
}

/// The stubs of `full[lo..hi]`, as the simulated ledger would report them.
fn window_slice(full: &Vec<u64>, lo: usize, hi: usize) -> (r: Vec<ProposalLog>)
    requires
        lo <= hi <= full@.len(),
    ensures
        r@.len() == hi - lo,
        forall|i: int| 0 <= i < r@.len() ==> #[trigger] r@[i].block_height == full@[lo + i],
{
    let mut out: Vec<ProposalLog> = Vec::new();
    let mut i: usize = lo;
    while i < hi
        invariant
            lo <= i <= hi <= full@.len(),
            out@.len() == i - lo,
            forall|j: int| 0 <= j < out@.len() ==> #[trigger] out@[j].block_height == full@[lo + j],
        decreases hi - i,
    {
        out.push(ProposalLog { block_height: full[i] });
        i += 1;
    }
    out
}

/// The whole reconstruction, run against a simulated ledger whose complete
/// stub history for the proposal is `full`, in ascending order, reported
/// in windows of `k` most recent entries.  The walk terminates; when run
/// from the genesis boundary it makes exactly as many backward hops as
/// whole windows fit into the history; and the result is precisely the set
/// of heights above `limit`, ascending and without duplicates.
pub fn reconstruct_simulated(full: &Vec<u64>, limit: u64, k: usize) -> (r: (Vec<u64>, usize))
    requires
        k >= 1,
        sorted_strict(full@),
    ensures
        sorted_strict(r.0@),
        forall|h: u64| #[trigger] r.0@.contains(h) <==> (full@.contains(h) && h > limit),
        r.1 <= full@.len() as int / k as int,
        r.1 <= (full@.len() as int + k as int - 1) / k as int,
        (limit == 0 && (forall|i: int| 0 <= i < full@.len() ==> full@[i] >= 1)) ==> r.1
            == full@.len() as int / k as int,
{
    let m = full.len();
    let mut e: usize = m;
    let mut collected: Vec<ProposalLog> = Vec::new();
    let mut hops: usize = 0;
    let mut window: Vec<ProposalLog> = window_slice(full, if m >= k { m - k } else { 0 }, m);
    loop
        invariant
            k >= 1,
            m == full@.len(),
            e <= m,
            sorted_strict(full@),
            window@.len() == (if e >= k { k as int } else { e as int }),
            forall|i: int|
                0 <= i < window@.len() ==> #[trigger] window@[i].block_height == full@[e
                    - window@.len() + i],
            forall|h: u64| #[trigger] has_height(collected@, h) <==> full_has_from(
                full@,
                e as int,
                h,
            ),
            hops * k == m - e,
        ensures
            e <= m,
            window@.len() == (if e >= k { k as int } else { e as int }),
            forall|i: int|
                0 <= i < window@.len() ==> #[trigger] window@[i].block_height == full@[e
                    - window@.len() + i],
            forall|h: u64| #[trigger] has_height(collected@, h) <==> full_has_from(
                full@,
                e as int,
                h,
            ),
            hops * k == m - e,
            !(window@.len() == k && window_min(window@) > limit),
        decreases e,
    {
        let d = hop_decision(&window, limit, k);
        match d {
            HopDecision::Stop => {
                break;
            },
            HopDecision::FetchOlderAt(_) => {
                proof {
                    assert(window@.len() == k);
                    assert(e >= k);
                }
                let ghost old_collected = collected@;
                let ghost old_window = window@;
                let ghost old_e = e as int;
                let ghost old_hops = hops as int;
                collected.append(&mut window);
                e = e - k;
                window = window_slice(full, if e >= k { e - k } else { 0 }, e);
                proof {
                    assert(old_hops * k <= m - 1) by (nonlinear_arith)
                        requires
                            old_hops * k == m - old_e,
                            old_e >= 1,
                    ;
                    assert(old_hops <= old_hops * k) by (nonlinear_arith)
                        requires
                            old_hops >= 0,
                            k >= 1,
                    ;
                    assert((old_hops + 1) * k == old_hops * k + k) by (nonlinear_arith);
                }
                hops = hops + 1;
                proof {
                    assert(hops * k == m - e);
                    assert forall|h: u64| #[trigger] has_height(collected@, h) <==> full_has_from(
                        full@,
                        e as int,
                        h,
                    ) by {
                        if has_height(collected@, h) {
                            let i = choose|i: int|
                                0 <= i < collected@.len() && #[trigger] collected@[i].block_height
                                    == h;
                            if i < old_collected.len() {
                                assert(old_collected[i].block_height == h);
                                assert(has_height(old_collected, h));
                                let j = choose|j: int|
                                    old_e <= j < full@.len() && full@[j] == h;
                                assert(e as int <= j);
                            } else {
                                let off = i - old_collected.len();
                                assert(collected@[i] == old_window[off]);
                                assert(old_window[off].block_height == full@[old_e
                                    - old_window.len() + off]);
                                assert(full_has_from(full@, e as int, h));
                            }
                        }
                        if full_has_from(full@, e as int, h) {
                            let i = choose|i: int| e as int <= i < full@.len() && full@[i] == h;
                            if i >= old_e {
                                assert(full_has_from(full@, old_e, h));
                                assert(has_height(old_collected, h));
                                let j = choose|j: int|
                                    0 <= j < old_collected.len()
                                        && #[trigger] old_collected[j].block_height == h;
                                assert(collected@[j].block_height == h);
                            } else {
                                assert(collected@[old_collected.len() + (i - e as int)].block_height
                                    == h);
                            }
                            assert(has_height(collected@, h));
                        }
                    }
                }
            },
        }
    }
    let ghost e_stop = e as int;
    let ghost win_stop = window@;
    let ghost coll_before = collected@;
    collected.append(&mut window);
    let out = finish_stubs(&collected, limit);
    proof {
        let coll = collected@;
        assert(coll == coll_before + win_stop);
        assert forall|h: u64| #[trigger] out@.contains(h) <==> (full@.contains(h) && h > limit) by {
            if out@.contains(h) {
                assert(has_height(coll, h));
                let i = choose|i: int| 0 <= i < coll.len() && #[trigger] coll[i].block_height == h;
                if i < coll_before.len() {
                    assert(coll_before[i].block_height == h);
                    assert(has_height(coll_before, h));
                    let j = choose|j: int| e_stop <= j < full@.len() && full@[j] == h;
                    assert(full@[j] == h);
                    assert(full@.contains(h));
                } else {
                    let off = i - coll_before.len();
                    assert(win_stop[off].block_height == h);
                    assert(full@[e_stop - win_stop.len() + off] == h);
                    assert(full@.contains(h));
                }
            }
            if full@.contains(h) && h > limit {
                let i = choose|i: int| 0 <= i < full@.len() && full@[i] == h;
                if i >= e_stop {
                    assert(full_has_from(full@, e_stop, h));
                    assert(has_height(coll_before, h));
                    let j = choose|j: int|
                        0 <= j < coll_before.len() && #[trigger] coll_before[j].block_height == h;
                    assert(coll[j].block_height == h);
                    assert(has_height(coll, h));
                } else {
                    // The walk stopped with the window covering the slice
                    // just below e_stop; a shorter window reaches the very
                    // start, and a full window stopped only because its
                    // minimum is at or under the boundary, under which
                    // every yet older height also lies.
                    if win_stop.len() == k {
                        assert(window_min(win_stop) <= limit);
                        lemma_window_min(win_stop);
                        let w0 = choose|j: int|
                            0 <= j < win_stop.len() && #[trigger] win_stop[j].block_height
                                == window_min(win_stop);
                        if i < e_stop - win_stop.len() {
                            assert(full@[e_stop - win_stop.len() + w0] == win_stop[w0].block_height);
                            assert(full@[i] < full@[e_stop - win_stop.len() + w0]);
                            assert(h <= limit);
                            assert(false);
                        }
                    } else {
                        assert(e_stop < k);
                        assert(win_stop.len() == e_stop);
                    }
                    assert(i >= e_stop - win_stop.len());
                    let off = i - (e_stop - win_stop.len());
                    assert(win_stop[off].block_height == full@[i]);
                    assert(coll[coll_before.len() + off].block_height == h);
                    assert(has_height(coll, h));
                }
            }
        }
        if limit == 0 && (forall|i: int| 0 <= i < full@.len() ==> full@[i] >= 1) {
            if e_stop >= k {
                assert(win_stop.len() == k);
                lemma_window_min(win_stop);
                let w0 = choose|j: int|
                    0 <= j < win_stop.len() && #[trigger] win_stop[j].block_height == window_min(
                        win_stop,
                    );
                assert(win_stop[w0].block_height == full@[e_stop - win_stop.len() + w0]);
                assert(window_min(win_stop) >= 1);
                assert(false);
            }
            assert(hops as int == m as int / k as int) by (nonlinear_arith)
                requires
                    hops * k == m - e_stop,
                    0 <= e_stop < k,
                    k >= 1,
            ;
        }
        assert(hops as int <= m as int / k as int) by (nonlinear_arith)
            requires
                hops * k == m - e_stop,
                e_stop >= 0,
                k >= 1,
        ;
        // The walk also stays within one window fetch per whole or partial
        // window of the history.
        vstd::arithmetic::div_mod::lemma_div_is_ordered(
            m as int,
            m as int + k as int - 1,
            k as int,
        );
    }
    (out, hops)
}

} // verus!

//! Greedy lane assignment: ranges that overlap go side by side.

use vstd::prelude::*;

verus! {

/// The first lane whose last range ends no later than `start`, or a new one.
pub open spec fn free_lane(ends: Seq<i64>, start: i64) -> int
    decreases ends.len(),
{
    if ends.len() == 0 || ends[0] <= start {
        0
    } else {
        1 + free_lane(ends.drop_first(), start)
    }
}

/// Where the last range of each lane ends, once a range is put into the first free lane.
pub open spec fn ends_with(ends: Seq<i64>, range: (i64, i64)) -> Seq<i64> {
    let lane = free_lane(ends, range.0);
    if lane < ends.len() {
        ends.update(lane, range.1)
    } else {
        ends.push(range.1)
    }
}

/// Where the last range of each lane ends, once every range is put into the first free lane.
pub open spec fn lane_ends(ranges: Seq<(i64, i64)>) -> Seq<i64>
    decreases ranges.len(),
{
    if ranges.len() == 0 {
        Seq::empty()
    } else {
        ends_with(lane_ends(ranges.drop_last()), ranges.last())
    }
}

/// The lane of each range: the first one that is free once the ranges before it are placed.
pub open spec fn greedy_lanes(ranges: Seq<(i64, i64)>) -> Seq<int>
    decreases ranges.len(),
{
    if ranges.len() == 0 {
        Seq::empty()
    } else {
        greedy_lanes(ranges.drop_last()).push(
            free_lane(lane_ends(ranges.drop_last()), ranges.last().0),
        )
    }
}

/// Lane numbers as mathematical integers.
pub open spec fn as_lanes(lanes: Seq<usize>) -> Seq<int> {
    lanes.map_values(|l: usize| l as int)
}

proof fn lemma_free_lane(ends: Seq<i64>, start: i64)
    ensures
        0 <= free_lane(ends, start) <= ends.len(),
        free_lane(ends, start) < ends.len() ==> ends[free_lane(ends, start)] <= start,
        forall|k: int| 0 <= k < free_lane(ends, start) ==> #[trigger] ends[k] > start,
    decreases ends.len(),
{
    if ends.len() > 0 && ends[0] > start {
        let t = ends.drop_first();
        lemma_free_lane(t, start);
        assert forall|k: int| 0 <= k < free_lane(ends, start) implies #[trigger] ends[k] > start by {
            if k > 0 {
                assert(t[k - 1] == ends[k]);
            }
        }
    }
}

proof fn lemma_free_lane_unique(ends: Seq<i64>, start: i64, k: int)
    requires
        0 <= k <= ends.len(),
        k < ends.len() ==> ends[k] <= start,
        forall|j: int| 0 <= j < k ==> #[trigger] ends[j] > start,
    ensures
        free_lane(ends, start) == k,
{
    lemma_free_lane(ends, start);
    let f = free_lane(ends, start);
    if f < k {
        assert(ends[f] > start);
    }
}

/// Puts each range into the first lane that is free for it and says which lane that is. Ranges are
/// pairs of a start and an end that is not part of them.
pub fn assign_lanes(ranges: &[(i64, i64)]) -> (r: Vec<usize>)
    ensures
        as_lanes(r@) == greedy_lanes(ranges@),
        r@.len() == ranges@.len(),
        forall|i: int| 0 <= i < r@.len() ==> #[trigger] r@[i] < ranges@.len(),
{
    let mut ends: Vec<i64> = Vec::new();
    let mut lanes: Vec<usize> = Vec::new();
    let mut i: usize = 0;
    assert(ranges@.take(0) =~= Seq::<(i64, i64)>::empty());
    assert(as_lanes(lanes@) =~= greedy_lanes(ranges@.take(0)));
    assert(ends@ =~= lane_ends(ranges@.take(0)));
    while i < ranges.len()
        invariant
            i <= ranges.len(),
            lanes@.len() == i,
            ends@.len() <= i,
            ends@ == lane_ends(ranges@.take(i as int)),
            as_lanes(lanes@) == greedy_lanes(ranges@.take(i as int)),
            forall|k: int| 0 <= k < lanes@.len() ==> #[trigger] lanes@[k] < ranges@.len(),
        decreases ranges.len() - i,
    {
        let (start, end) = ranges[i];
        let mut lane: usize = 0;
        while lane < ends.len() && ends[lane] > start
            invariant
                lane <= ends.len(),
                forall|j: int| 0 <= j < lane ==> #[trigger] ends@[j] > start,
            decreases ends.len() - lane,
        {
            lane += 1;
        }
        let ghost before = ends@;
        proof {
            lemma_free_lane_unique(ends@, start, lane as int);
            assert(ranges@.take(i + 1).drop_last() =~= ranges@.take(i as int));
        }
        if lane < ends.len() {
            ends.set(lane, end);
        } else {
            ends.push(end);
        }
        assert(ends@ =~= ends_with(before, ranges@[i as int]));
        let ghost earlier = as_lanes(lanes@);
        lanes.push(lane);
        assert(as_lanes(lanes@) =~= earlier.push(lane as int));
        i += 1;
    }
    assert(ranges@.take(i as int) =~= ranges@);
    lanes
}

/// Ranges in the order of their starts.
pub open spec fn starts_sorted(ranges: Seq<(i64, i64)>) -> bool {
    forall|i: int, j: int| 0 <= i <= j < ranges.len() ==> (#[trigger] ranges[i]).0 <= (#[trigger] ranges[j]).0
}

/// No two ranges that share a lane overlap: the earlier one ends before the later one starts.
pub open spec fn lanes_disjoint(ranges: Seq<(i64, i64)>, lanes: Seq<int>) -> bool {
    forall|i: int, j: int|
        0 <= i < j < ranges.len() && #[trigger] lanes[i] == #[trigger] lanes[j] ==> ranges[i].1
            <= ranges[j].0
}

/// The range `i` keeps every lane below its own busy: one of the ranges before it is still running
/// there when it starts.
spec fn lane_needed(ranges: Seq<(i64, i64)>, lanes: Seq<int>, i: int, lane: int) -> bool {
    exists|j: int| 0 <= j < i && #[trigger] lanes[j] == lane && ranges[j].1 > ranges[i].0
}

/// The range `j` is the last one of its lane and ends where the lane ends.
spec fn ends_lane(ranges: Seq<(i64, i64)>, lanes: Seq<int>, ends: Seq<i64>, lane: int, j: int) -> bool {
    &&& 0 <= j < ranges.len()
    &&& lanes[j] == lane
    &&& ranges[j].1 == ends[lane]
    &&& forall|k: int| j < k < ranges.len() ==> #[trigger] lanes[k] != lane
}

/// Some range is the last one of the lane.
spec fn lane_used(ranges: Seq<(i64, i64)>, lanes: Seq<int>, ends: Seq<i64>, lane: int) -> bool {
    exists|j: int| #[trigger] ends_lane(ranges, lanes, ends, lane, j)
}

proof fn lemma_greedy_facts(ranges: Seq<(i64, i64)>)
    ensures
        greedy_lanes(ranges).len() == ranges.len(),
        forall|i: int|
            0 <= i < ranges.len() ==> 0 <= #[trigger] greedy_lanes(ranges)[i] < lane_ends(ranges).len(),
        forall|l: int|
            0 <= l < lane_ends(ranges).len() ==> #[trigger] lane_used(
                ranges,
                greedy_lanes(ranges),
                lane_ends(ranges),
                l,
            ),
        forall|i: int, l: int|
            0 <= i < ranges.len() && 0 <= l < greedy_lanes(ranges)[i] ==> #[trigger] lane_needed(
                ranges,
                greedy_lanes(ranges),
                i,
                l,
            ),
    decreases ranges.len(),
{
    if ranges.len() > 0 {
        let head = ranges.drop_last();
        lemma_greedy_facts(head);
        let ends = lane_ends(head);
        let lanes = greedy_lanes(head);
        let range = ranges.last();
        let lane = free_lane(ends, range.0);
        lemma_free_lane(ends, range.0);
        let new_ends = lane_ends(ranges);
        let new_lanes = greedy_lanes(ranges);
        let n = head.len() as int;
        assert forall|i: int| 0 <= i < ranges.len() implies 0 <= #[trigger] new_lanes[i]
            < new_ends.len() by {
            if i < n {
                assert(new_lanes[i] == lanes[i]);
            }
        }
        assert forall|l: int| 0 <= l < new_ends.len() implies #[trigger] lane_used(
            ranges,
            new_lanes,
            new_ends,
            l,
        ) by {
            if l == lane {
                assert(ends_lane(ranges, new_lanes, new_ends, l, n));
            } else {
                assert(lane_used(head, lanes, ends, l));
                let j = choose|j: int| #[trigger] ends_lane(head, lanes, ends, l, j);
                assert forall|k: int| j < k < ranges.len() implies #[trigger] new_lanes[k] != l by {
                    if k < n {
                        assert(lanes[k] != l);
                    }
                }
                assert(ends_lane(ranges, new_lanes, new_ends, l, j));
            }
        }
        assert forall|i: int, l: int|
            0 <= i < ranges.len() && 0 <= l < new_lanes[i] implies #[trigger] lane_needed(
            ranges,
            new_lanes,
            i,
            l,
        ) by {
            if i < n {
                assert(new_lanes[i] == lanes[i]);
                assert(lane_needed(head, lanes, i, l));
                let j = choose|j: int| 0 <= j < i && #[trigger] lanes[j] == l && head[j].1 > head[i].0;
                assert(new_lanes[j] == l && ranges[j].1 > ranges[i].0);
            } else {
                assert(lane_used(head, lanes, ends, l));
                let j = choose|j: int| #[trigger] ends_lane(head, lanes, ends, l, j);
                assert(ends[l] > range.0);
                assert(new_lanes[j] == l && ranges[j].1 > ranges[i].0);
            }
        }
    }
}

/// No lane is opened without need: in every lane below that of a range there is one of the ranges
/// before it that is still running when it starts.
pub proof fn lemma_lower_lanes_busy(ranges: Seq<(i64, i64)>, i: int, lane: int)
    requires
        0 <= i < ranges.len(),
        0 <= lane < greedy_lanes(ranges)[i],
    ensures
        exists|j: int|
            0 <= j < i && #[trigger] greedy_lanes(ranges)[j] == lane && ranges[j].1 > ranges[i].0,
{
    lemma_greedy_facts(ranges);
    assert(lane_needed(ranges, greedy_lanes(ranges), i, lane));
}

/// There are no more lanes than ranges.
pub proof fn lemma_lanes_bounded(ranges: Seq<(i64, i64)>)
    ensures
        greedy_lanes(ranges).len() == ranges.len(),
        lane_ends(ranges).len() <= ranges.len(),
        forall|i: int| 0 <= i < ranges.len() ==> 0 <= #[trigger] greedy_lanes(ranges)[i] < ranges.len(),
    decreases ranges.len(),
{
    lemma_greedy_facts(ranges);
    if ranges.len() > 0 {
        lemma_lanes_bounded(ranges.drop_last());
        lemma_free_lane(lane_ends(ranges.drop_last()), ranges.last().0);
    }
}

/// No two ranges that share a lane overlap, for ranges in the order of their starts.
pub proof fn lemma_lanes_disjoint(ranges: Seq<(i64, i64)>)
    requires
        starts_sorted(ranges),
    ensures
        lanes_disjoint(ranges, greedy_lanes(ranges)),
    decreases ranges.len(),
{
    if ranges.len() > 0 {
        let head = ranges.drop_last();
        assert forall|i: int, j: int| 0 <= i <= j < head.len() implies (#[trigger] head[i]).0 <= (
        #[trigger] head[j]).0 by {
            assert(ranges[i].0 <= ranges[j].0);
        }
        lemma_lanes_disjoint(head);
        lemma_greedy_facts(head);
        let lanes = greedy_lanes(head);
        let ends = lane_ends(head);
        let new_lanes = greedy_lanes(ranges);
        let n = head.len() as int;
        lemma_free_lane(ends, ranges.last().0);
        assert forall|i: int, j: int|
            0 <= i < j < ranges.len() && #[trigger] new_lanes[i] == #[trigger] new_lanes[j] implies ranges[i].1
            <= ranges[j].0 by {
            if j < n {
                assert(lanes[i] == new_lanes[i] && lanes[j] == new_lanes[j]);
                assert(head[i].1 <= head[j].0);
            } else {
                let lane = new_lanes[n];
                assert(lanes[i] == lane);
                assert(lane_used(head, lanes, ends, lane));
                let k = choose|k: int| #[trigger] ends_lane(head, lanes, ends, lane, k);
                assert(i <= k) by {
                    if k < i {
                        assert(lanes[i] != lane);
                    }
                }
                if i < k {
                    assert(lanes[i] == lanes[k]);
                    assert(head[i].1 <= head[k].0);
                    assert(ranges[k].0 <= ranges[j].0);
                }
            }
        }
    }
}

/// Distinct numbers from 0 on: among more than `n` of them one is at least `n`.
proof fn lemma_distinct_reach(s: Seq<int>, n: int)
    requires
        s.no_duplicates(),
        s.len() > n >= 0,
        forall|i: int| 0 <= i < s.len() ==> 0 <= #[trigger] s[i],
    ensures
        exists|i: int| 0 <= i < s.len() && #[trigger] s[i] >= n,
{
    if forall|i: int| 0 <= i < s.len() ==> #[trigger] s[i] < n {
        s.unique_seq_to_set();
        vstd::set_lib::lemma_int_range(0, n);
        let range = vstd::set_lib::set_int_range(0, n);
        assert forall|x: int| s.to_set().contains(x) implies range.contains(x) by {
            let i = choose|i: int| 0 <= i < s.len() && s[i] == x;
            assert(0 <= s[i] < n);
        }
        assert(s.to_set().subset_of(range));
        vstd::set_lib::lemma_len_subset(s.to_set(), range);
        assert(false);
    }
}

/// No assignment does with fewer lanes, for ranges in the order of their starts: wherever the
/// greedy one uses a lane, any other one without overlaps uses one that is at least as high.
pub proof fn lemma_lanes_minimal(ranges: Seq<(i64, i64)>, other: Seq<int>, i: int)
    requires
        starts_sorted(ranges),
        other.len() == ranges.len(),
        lanes_disjoint(ranges, other),
        forall|k: int| 0 <= k < other.len() ==> 0 <= #[trigger] other[k],
        0 <= i < ranges.len(),
    ensures
        exists|k: int| 0 <= k < other.len() && #[trigger] other[k] >= greedy_lanes(ranges)[i],
{
    lemma_greedy_facts(ranges);
    let lanes = greedy_lanes(ranges);
    let n = lanes[i];
    let at = |l: int| choose|j: int| 0 <= j < i && #[trigger] lanes[j] == l && ranges[j].1 > ranges[i].0;
    let s = Seq::new(
        (n + 1) as nat,
        |l: int|
            if l < n {
                other[at(l)]
            } else {
                other[i]
            },
    );
    assert forall|l: int| 0 <= l < n implies 0 <= #[trigger] at(l) < i && lanes[at(l)] == l && ranges[at(
        l,
    )].1 > ranges[i].0 by {
        assert(lane_needed(ranges, lanes, i, l));
    }
    assert forall|a: int, b: int| 0 <= a < b < s.len() implies s[a] != s[b] by {
        let x = at(a);
        if b == n {
            if other[x] == other[i] {
                assert(ranges[x].1 <= ranges[i].0);
            }
        } else {
            let y = at(b);
            assert(x != y);
            if x < y {
                assert(ranges[y].0 <= ranges[i].0);
                if other[x] == other[y] {
                    assert(ranges[x].1 <= ranges[y].0);
                }
            } else {
                assert(ranges[x].0 <= ranges[i].0);
                if other[y] == other[x] {
                    assert(ranges[y].1 <= ranges[x].0);
                }
            }
        }
    }
    assert forall|l: int| 0 <= l < s.len() implies 0 <= #[trigger] s[l] by {
        if l < n {
            assert(0 <= other[at(l)]);
        } else {
            assert(0 <= other[i]);
        }
    }
    lemma_distinct_reach(s, n);
    let l = choose|l: int| 0 <= l < s.len() && #[trigger] s[l] >= n;
    if l < n {
        assert(other[at(l)] >= n);
    } else {
        assert(other[i] >= n);
    }
}

} // verus!

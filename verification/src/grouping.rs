//! Grouping the fire points of one image into connected sets of cells.
//!
//! A group is written as the list of its members' positions in the list of
//! fire points.

use crate::firepoint::{touching, FirePoint};
use vstd::prelude::*;

verus! {

/// `groups[g][k]` exists.
pub open spec fn placed(groups: Seq<Seq<usize>>, g: int, k: int) -> bool {
    0 <= g < groups.len() && 0 <= k < groups[g].len()
}

/// Some group has `i` as a member.
pub open spec fn grouped(groups: Seq<Seq<usize>>, i: int) -> bool {
    exists|g: int, k: int| placed(groups, g, k) && #[trigger] groups[g][k] == i
}

/// The groups split the positions below `n` among them: every member is such
/// a position, no position is a member twice, and every position is a member.
pub open spec fn partitions(n: nat, groups: Seq<Seq<usize>>) -> bool {
    &&& forall|g: int, k: int| placed(groups, g, k) ==> (#[trigger] groups[g][k]) < n
    &&& forall|g1: int, k1: int, g2: int, k2: int|
        placed(groups, g1, k1) && placed(groups, g2, k2) && #[trigger] groups[g1][k1]
            == #[trigger] groups[g2][k2] ==> g1 == g2 && k1 == k2
    &&& forall|i: int| 0 <= i < n ==> #[trigger] grouped(groups, i)
}

/// The member at `k` touches a member that stands before it in the group.
pub open spec fn joins_earlier(points: Seq<FirePoint>, group: Seq<usize>, k: int) -> bool {
    exists|p: int| 0 <= p < k && touching(points[#[trigger] group[p] as int], points[group[k] as int])
}

/// The group is not empty, and each member but the first touches a member
/// that stands before it.
pub open spec fn grown_from_seed(points: Seq<FirePoint>, group: Seq<usize>) -> bool {
    &&& group.len() > 0
    &&& forall|k: int| 0 < k < group.len() ==> #[trigger] joins_earlier(points, group, k)
}

/// No member of one group touches a member of another.
pub open spec fn apart(points: Seq<FirePoint>, groups: Seq<Seq<usize>>) -> bool {
    forall|g1: int, k1: int, g2: int, k2: int|
        placed(groups, g1, k1) && placed(groups, g2, k2) && g1 != g2 ==> !touching(
            points[#[trigger] groups[g1][k1] as int],
            points[#[trigger] groups[g2][k2] as int],
        )
}

/// The first member of each group is the least of its members, and the groups
/// stand in the order of their first members.
pub open spec fn in_seed_order(groups: Seq<Seq<usize>>) -> bool {
    &&& forall|g: int, k: int|
        placed(groups, g, k) && k > 0 ==> groups[g][0] < #[trigger] groups[g][k]
    &&& forall|g1: int, g2: int|
        0 <= g1 < g2 < groups.len() && groups[g1].len() > 0 && groups[g2].len() > 0
            ==> #[trigger] groups[g1][0] < #[trigger] groups[g2][0]
}

/// The groups are the connected sets of the points: they split the points
/// among them, each is connected, no two of them touch, and they are in the
/// order of their first members.
pub open spec fn is_grouping(points: Seq<FirePoint>, groups: Seq<Seq<usize>>) -> bool {
    &&& partitions(points.len(), groups)
    &&& forall|g: int| 0 <= g < groups.len() ==> #[trigger] grown_from_seed(points, groups[g])
    &&& apart(points, groups)
    &&& in_seed_order(groups)
}

/// `path` is a chain of points: each is a position in `points` and touches
/// the next.
pub open spec fn is_chain(points: Seq<FirePoint>, path: Seq<usize>) -> bool {
    &&& path.len() > 0
    &&& forall|t: int| 0 <= t < path.len() ==> (#[trigger] path[t]) < points.len()
    &&& forall|t: int|
        0 <= t < path.len() - 1 ==> touching(
            points[#[trigger] path[t] as int],
            points[path[t + 1] as int],
        )
}

/// `path` is a chain of members of `group` that leads from `from` to `to`.
pub open spec fn links(
    points: Seq<FirePoint>,
    group: Seq<usize>,
    path: Seq<usize>,
    from: usize,
    to: usize,
) -> bool {
    &&& is_chain(points, path)
    &&& path[0] == from
    &&& path[path.len() - 1] == to
    &&& forall|t: int| 0 <= t < path.len() ==> group.contains(#[trigger] path[t])
}

proof fn chain_from_seed(points: Seq<FirePoint>, group: Seq<usize>, k: int) -> (path: Seq<usize>)
    requires
        grown_from_seed(points, group),
        forall|p: int| 0 <= p < group.len() ==> (#[trigger] group[p]) < points.len(),
        0 <= k < group.len(),
    ensures
        links(points, group, path, group[0], group[k]),
    decreases k,
{
    if k == 0 {
        let path = seq![group[0]];
        assert(group.contains(path[0]));
        path
    } else {
        assert(joins_earlier(points, group, k));
        let p = choose|p: int|
            0 <= p < k && touching(points[#[trigger] group[p] as int], points[group[k] as int]);
        let front = chain_from_seed(points, group, p);
        let path = front.push(group[k]);
        assert forall|t: int| 0 <= t < path.len() implies group.contains(#[trigger] path[t]) by {
            if t < front.len() {
                assert(path[t] == front[t]);
            }
        }
        assert forall|t: int| 0 <= t < path.len() - 1 implies touching(
            points[#[trigger] path[t] as int],
            points[path[t + 1] as int],
        ) by {
            if t < front.len() - 1 {
                assert(path[t] == front[t]);
                assert(path[t + 1] == front[t + 1]);
            }
        }
        path
    }
}

proof fn lemma_chain_backwards(
    points: Seq<FirePoint>,
    group: Seq<usize>,
    path: Seq<usize>,
    from: usize,
    to: usize,
)
    requires
        links(points, group, path, from, to),
    ensures
        links(points, group, path.reverse(), to, from),
{
    let back = path.reverse();
    assert forall|t: int| 0 <= t < back.len() - 1 implies touching(
        points[#[trigger] back[t] as int],
        points[back[t + 1] as int],
    ) by {
        let u = path.len() - 2 - t;
        assert(back[t] == path[u + 1]);
        assert(back[t + 1] == path[u]);
        assert(touching(points[path[u] as int], points[path[u + 1] as int]));
    }
    assert forall|t: int| 0 <= t < back.len() implies group.contains(#[trigger] back[t]) by {
        assert(back[t] == path[path.len() - 1 - t]);
    }
}

/// Any two members of a group are linked by a chain of members of that group
/// in which each cell touches the next.
pub proof fn lemma_chain_within_group(
    points: Seq<FirePoint>,
    groups: Seq<Seq<usize>>,
    g: int,
    a: int,
    b: int,
)
    requires
        is_grouping(points, groups),
        placed(groups, g, a),
        placed(groups, g, b),
    ensures
        exists|path: Seq<usize>| #[trigger] links(points, groups[g], path, groups[g][a], groups[g][b]),
{
    let group = groups[g];
    assert(grown_from_seed(points, groups[g]));
    assert forall|p: int| 0 <= p < group.len() implies (#[trigger] group[p]) < points.len() by {
        assert(placed(groups, g, p));
        assert(groups[g][p] < points.len());
    }
    let to_a = chain_from_seed(points, group, a);
    let to_b = chain_from_seed(points, group, b);
    lemma_chain_backwards(points, group, to_a, group[0], group[a]);
    let from_a = to_a.reverse();
    let path = from_a + to_b;
    assert forall|t: int| 0 <= t < path.len() implies group.contains(#[trigger] path[t]) && path[t]
        < points.len() by {
        if t < from_a.len() {
            assert(path[t] == from_a[t]);
        } else {
            assert(path[t] == to_b[t - from_a.len()]);
        }
    }
    assert forall|t: int| 0 <= t < path.len() - 1 implies touching(
        points[#[trigger] path[t] as int],
        points[path[t + 1] as int],
    ) by {
        if t < from_a.len() - 1 {
            assert(path[t] == from_a[t]);
            assert(path[t + 1] == from_a[t + 1]);
        } else if t == from_a.len() - 1 {
            assert(path[t] == from_a[t]);
            assert(path[t + 1] == to_b[0]);
        } else {
            assert(path[t] == to_b[t - from_a.len()]);
            assert(path[t + 1] == to_b[t + 1 - from_a.len()]);
        }
    }
    assert(path[0] == from_a[0]);
    assert(path[path.len() - 1] == to_b[to_b.len() - 1]);
    assert(links(points, groups[g], path, groups[g][a], groups[g][b]));
}

/// A chain of points that starts in a group never leaves it.
pub proof fn lemma_chain_stays_in_group(
    points: Seq<FirePoint>,
    groups: Seq<Seq<usize>>,
    g: int,
    path: Seq<usize>,
    t: int,
)
    requires
        is_grouping(points, groups),
        0 <= g < groups.len(),
        is_chain(points, path),
        groups[g].contains(path[0]),
        0 <= t < path.len(),
    ensures
        groups[g].contains(path[t]),
    decreases t,
{
    if t > 0 {
        lemma_chain_stays_in_group(points, groups, g, path, t - 1);
        let k = choose|k: int| 0 <= k < groups[g].len() && groups[g][k] == path[t - 1];
        assert(grouped(groups, path[t] as int));
        let (g2, k2) = choose|g2: int, k2: int|
            placed(groups, g2, k2) && #[trigger] groups[g2][k2] == path[t] as int;
        assert(placed(groups, g, k));
        assert(touching(points[path[t - 1] as int], points[path[t - 1 + 1] as int]));
        if g2 != g {
            assert(!touching(points[groups[g][k] as int], points[groups[g2][k2] as int]));
        }
    }
}

/// No chain of points in which each cell touches the next leads from a member
/// of one group to a member of another.
pub proof fn lemma_no_chain_between_groups(
    points: Seq<FirePoint>,
    groups: Seq<Seq<usize>>,
    g1: int,
    k1: int,
    g2: int,
    k2: int,
    path: Seq<usize>,
)
    requires
        is_grouping(points, groups),
        placed(groups, g1, k1),
        placed(groups, g2, k2),
        g1 != g2,
        is_chain(points, path),
        path[0] == groups[g1][k1],
    ensures
        path[path.len() - 1] != groups[g2][k2],
{
    assert(groups[g1].contains(path[0]));
    lemma_chain_stays_in_group(points, groups, g1, path, path.len() - 1);
    let k = choose|k: int| 0 <= k < groups[g1].len() && groups[g1][k] == path[path.len() - 1];
    assert(placed(groups, g1, k));
}

/// The lists of members that the vectors hold.
pub open spec fn lists(groups: Seq<Vec<usize>>) -> Seq<Seq<usize>> {
    Seq::new(groups.len(), |g: int| groups[g]@)
}

/// Some member of the group touches the point at `j`.
pub open spec fn touches_group(points: Seq<FirePoint>, group: Seq<usize>, j: int) -> bool {
    exists|p: int| 0 <= p < group.len() && touching(points[#[trigger] group[p] as int], points[j])
}

/// One pass over the points from position `j` on: each point that no group
/// has taken and that touches a member of `group` is taken and joins the
/// group at its end, in the order of the points. Gives what is taken after
/// the pass, and the group.
pub open spec fn sweep(points: Seq<FirePoint>, taken: Seq<bool>, group: Seq<usize>, j: int) -> (
    Seq<bool>,
    Seq<usize>,
)
    decreases points.len() - j,
{
    if j < 0 || j >= points.len() {
        (taken, group)
    } else if !taken[j] && touches_group(points, group, j) {
        sweep(points, taken.update(j, true), group.push(j as usize), j + 1)
    } else {
        sweep(points, taken, group, j + 1)
    }
}

/// The group after `rounds` passes over the points behind its first member,
/// which stands at `seed`.
pub open spec fn settle(
    points: Seq<FirePoint>,
    taken: Seq<bool>,
    group: Seq<usize>,
    seed: int,
    rounds: nat,
) -> (Seq<bool>, Seq<usize>)
    decreases rounds,
{
    if rounds == 0 {
        (taken, group)
    } else {
        let before = settle(points, taken, group, seed, (rounds - 1) as nat);
        sweep(points, before.0, before.1, seed + 1)
    }
}

/// The groups that the points from position `i` on start, in order: each
/// point that is not taken starts one, which is grown by passes over the
/// points behind it. There are as many passes as points, by which time a pass
/// adds no member.
pub open spec fn groups_from(points: Seq<FirePoint>, taken: Seq<bool>, i: int) -> Seq<Seq<usize>>
    decreases points.len() - i,
{
    if i < 0 || i >= points.len() {
        Seq::empty()
    } else if taken[i] {
        groups_from(points, taken, i + 1)
    } else {
        let grown = settle(points, taken.update(i, true), seq![i as usize], i, points.len());
        seq![grown.1] + groups_from(points, grown.0, i + 1)
    }
}

/// The groups of the points, each with its members in the order in which they
/// joined.
pub open spec fn groups_of(points: Seq<FirePoint>) -> Seq<Seq<usize>> {
    groups_from(points, Seq::new(points.len(), |i: int| false), 0)
}

/// The number of positions that no group has taken yet.
pub open spec fn free_count(taken: Seq<bool>) -> nat
    decreases taken.len(),
{
    if taken.len() == 0 {
        0
    } else {
        free_count(taken.drop_last()) + if taken.last() {
            0nat
        } else {
            1nat
        }
    }
}

proof fn lemma_take_one_more(taken: Seq<bool>, j: int)
    requires
        0 <= j < taken.len(),
        !taken[j],
    ensures
        free_count(taken.update(j, true)) + 1 == free_count(taken),
    decreases taken.len(),
{
    let after = taken.update(j, true);
    if j == taken.len() - 1 {
        assert(after.drop_last() =~= taken.drop_last());
    } else {
        assert(after.drop_last() =~= taken.drop_last().update(j, true));
        lemma_take_one_more(taken.drop_last(), j);
    }
}

proof fn lemma_free_count_bound(taken: Seq<bool>)
    ensures
        free_count(taken) <= taken.len(),
    decreases taken.len(),
{
    if taken.len() > 0 {
        lemma_free_count_bound(taken.drop_last());
    }
}

proof fn lemma_settled_stays(
    points: Seq<FirePoint>,
    taken: Seq<bool>,
    group: Seq<usize>,
    seed: int,
    rounds: nat,
    more: nat,
)
    requires
        settle(points, taken, group, seed, rounds + 1) == settle(points, taken, group, seed, rounds),
    ensures
        settle(points, taken, group, seed, rounds + more) == settle(
            points,
            taken,
            group,
            seed,
            rounds,
        ),
    decreases more,
{
    if more > 0 {
        lemma_settled_stays(points, taken, group, seed, rounds, (more - 1) as nat);
        assert(settle(points, taken, group, seed, rounds + more) == sweep(
            points,
            settle(points, taken, group, seed, (rounds + more - 1) as nat).0,
            settle(points, taken, group, seed, (rounds + more - 1) as nat).1,
            seed + 1,
        ));
        assert(settle(points, taken, group, seed, rounds + 1) == sweep(
            points,
            settle(points, taken, group, seed, rounds).0,
            settle(points, taken, group, seed, rounds).1,
            seed + 1,
        ));
    }
}

/// What holds of the groups that are finished while the points from `i` on
/// are still being looked at.
spec fn closed_ok(
    points: Seq<FirePoint>,
    taken: Seq<bool>,
    home: Seq<(int, int)>,
    groups: Seq<Seq<usize>>,
    i: int,
) -> bool {
    &&& taken.len() == points.len()
    &&& home.len() == points.len()
    &&& forall|g: int, k: int|
        placed(groups, g, k) ==> {
            &&& (#[trigger] groups[g][k]) < points.len()
            &&& taken[groups[g][k] as int]
            &&& home[groups[g][k] as int] == (g, k)
        }
    &&& forall|g: int| 0 <= g < groups.len() ==> #[trigger] grown_from_seed(points, groups[g])
    &&& forall|g: int, k: int, idx: int|
        placed(groups, g, k) && 0 <= idx < points.len() && !#[trigger] taken[idx] ==> !touching(
            points[#[trigger] groups[g][k] as int],
            points[idx],
        )
    &&& apart(points, groups)
    &&& in_seed_order(groups)
    &&& forall|g: int| 0 <= g < groups.len() ==> (#[trigger] groups[g])[0] < i
}

/// What holds of the group that is being grown from the point at `i`.
spec fn open_ok(
    points: Seq<FirePoint>,
    taken: Seq<bool>,
    home: Seq<(int, int)>,
    groups: Seq<Seq<usize>>,
    current: Seq<usize>,
    i: int,
) -> bool {
    &&& 0 <= i < points.len()
    &&& current.len() > 0
    &&& current[0] == i
    &&& forall|p: int|
        0 <= p < current.len() ==> {
            &&& (#[trigger] current[p]) < points.len()
            &&& taken[current[p] as int]
            &&& home[current[p] as int] == (groups.len() as int, p)
            &&& (p > 0 ==> i < current[p])
        }
    &&& forall|k: int| 0 < k < current.len() ==> #[trigger] joins_earlier(points, current, k)
    &&& forall|g: int, k: int, p: int|
        placed(groups, g, k) && 0 <= p < current.len() ==> !touching(
            points[#[trigger] groups[g][k] as int],
            points[#[trigger] current[p] as int],
        )
    &&& forall|idx: int| 0 <= idx <= i ==> #[trigger] taken[idx]
    &&& forall|idx: int|
        0 <= idx < points.len() && #[trigger] taken[idx] ==> {
            ||| placed(groups, home[idx].0, home[idx].1) && groups[home[idx].0][home[idx].1]
                == idx
            ||| home[idx].0 == groups.len() && 0 <= home[idx].1 < current.len()
                && current[home[idx].1] == idx
        }
}

/// Tells whether some member of the group touches the point at `j`.
fn touches_any(points: &Vec<FirePoint>, group: &Vec<usize>, j: usize) -> (r: bool)
    requires
        j < points.len(),
        forall|p: int| 0 <= p < group.len() ==> (#[trigger] group[p]) < points.len(),
    ensures
        r == touches_group(points@, group@, j as int),
{
    let mut p: usize = 0;
    while p < group.len()
        invariant
            p <= group.len(),
            j < points.len(),
            forall|q: int| 0 <= q < group.len() ==> (#[trigger] group[q]) < points.len(),
            forall|q: int|
                0 <= q < p ==> !touching(points[#[trigger] group[q] as int], points[j as int]),
        decreases group.len() - p,
    {
        if points[group[p]].touches(&points[j]) {
            return true;
        }
        p += 1;
    }
    false
}

/// Sorts the fire points of an image into groups of touching cells.
///
/// The points are taken in order. Each point that no group holds yet starts a
/// group. The later points are then gone through again and again, and each
/// that touches a member of the group joins it, until a pass adds none.
pub fn connected_groups(points: &Vec<FirePoint>) -> (groups: Vec<Vec<usize>>)
    ensures
        lists(groups@) == groups_of(points@),
        is_grouping(points@, lists(groups@)),
{
    let n = points.len();
    let mut taken: Vec<bool> = Vec::new();
    let mut fill: usize = 0;
    while fill < n
        invariant
            fill <= n,
            taken.len() == fill,
            forall|idx: int| 0 <= idx < fill ==> !#[trigger] taken[idx],
        decreases n - fill,
    {
        taken.push(false);
        fill += 1;
    }
    let mut groups: Vec<Vec<usize>> = Vec::new();
    let ghost mut home: Seq<(int, int)> = Seq::new(n as nat, |idx: int| (0int, 0int));
    let mut i: usize = 0;
    assert(lists(groups@) =~= Seq::<Seq<usize>>::empty());
    assert(taken@ =~= Seq::new(points.len() as nat, |i: int| false));
    assert(groups_of(points@) =~= lists(groups@) + groups_from(points@, taken@, 0));
    while i < n
        invariant
            n == points.len(),
            i <= n,
            groups_of(points@) == lists(groups@) + groups_from(points@, taken@, i as int),
            closed_ok(points@, taken@, home, lists(groups@), i as int),
            forall|idx: int| 0 <= idx < i ==> #[trigger] taken[idx],
            forall|idx: int|
                0 <= idx < n && #[trigger] taken[idx] ==> placed(
                    lists(groups@),
                    home[idx].0,
                    home[idx].1,
                ) && lists(groups@)[home[idx].0][home[idx].1] == idx,
        decreases n - i,
    {
        if !taken[i] {
            let ghost closed = lists(groups@);
            let ghost taken_before = taken@;
            taken[i] = true;
            let ghost taken_at_seed = taken@;
            let ghost rounds: nat = 0;
            proof {
                lemma_free_count_bound(taken_at_seed);
            }
            proof {
                home = home.update(i as int, (closed.len() as int, 0int));
            }
            let mut current: Vec<usize> = Vec::new();
            current.push(i);
            loop
                invariant
                    n == points.len(),
                    i < n,
                    closed == lists(groups@),
                    closed_ok(points@, taken@, home, closed, i as int),
                    open_ok(points@, taken@, home, closed, current@, i as int),
                    taken_at_seed.len() == n,
                    rounds + free_count(taken@) <= free_count(taken_at_seed) <= n,
                    (taken@, current@) == settle(
                        points@,
                        taken_at_seed,
                        seq![i],
                        i as int,
                        rounds,
                    ),
                ensures
                    rounds <= n,
                    (taken@, current@) == settle(
                        points@,
                        taken_at_seed,
                        seq![i],
                        i as int,
                        rounds,
                    ),
                    settle(points@, taken_at_seed, seq![i], i as int, rounds + 1) == settle(
                        points@,
                        taken_at_seed,
                        seq![i],
                        i as int,
                        rounds,
                    ),
                    forall|idx: int, p: int|
                        0 <= idx < n && !#[trigger] taken[idx] && 0 <= p < current.len()
                            ==> !touching(points[#[trigger] current[p] as int], points[idx]),
                decreases free_count(taken@),
            {
                let start_len = current.len();
                let ghost free_at_start = free_count(taken@);
                let ghost taken_at_start = taken@;
                let ghost group_at_start = current@;
                let mut j: usize = i + 1;
                while j < n
                    invariant
                        n == points.len(),
                        i < j <= n,
                        taken@.len() == n,
                        sweep(points@, taken_at_start, group_at_start, i + 1) == sweep(
                            points@,
                            taken@,
                            current@,
                            j as int,
                        ),
                        current.len() == start_len ==> taken@ == taken_at_start && current@
                            == group_at_start,
                        closed == lists(groups@),
                        closed_ok(points@, taken@, home, closed, i as int),
                        open_ok(points@, taken@, home, closed, current@, i as int),
                        start_len <= current.len(),
                        free_count(taken@) + current.len() == free_at_start + start_len,
                        forall|idx: int, p: int|
                            i < idx < j && !#[trigger] taken[idx] && 0 <= p < start_len
                                ==> !touching(points[#[trigger] current[p] as int], points[idx]),
                    decreases n - j,
                {
                    if !taken[j] && touches_any(points, &current, j) {
                        proof {
                            lemma_take_one_more(taken@, j as int);
                            let p = choose|p: int|
                                0 <= p < current.len() && touching(
                                    points[#[trigger] current[p] as int],
                                    points[j as int],
                                );
                            let grown = current@.push(j);
                            assert(grown[p] == current[p]);
                            assert(joins_earlier(points@, grown, current.len() as int));
                            assert forall|k: int| 0 < k < grown.len() implies #[trigger] joins_earlier(
                                points@,
                                grown,
                                k,
                            ) by {
                                if k < current.len() {
                                    assert(joins_earlier(points@, current@, k));
                                    let q = choose|q: int|
                                        0 <= q < k && touching(
                                            points[#[trigger] current[q] as int],
                                            points[current[k] as int],
                                        );
                                    assert(grown[q] == current[q]);
                                }
                            }
                            home = home.update(j as int, (closed.len() as int, current.len() as int));
                        }
                        taken[j] = true;
                        current.push(j);
                    }
                    j += 1;
                }
                if current.len() == start_len {
                    break;
                }
                proof {
                    rounds = rounds + 1;
                }
            }
            proof {
                lemma_settled_stays(
                    points@,
                    taken_at_seed,
                    seq![i],
                    i as int,
                    rounds,
                    (n - rounds) as nat,
                );
                assert(taken_at_seed == taken_before.update(i as int, true));
                let rest = groups_from(points@, taken@, i + 1);
                assert(groups_from(points@, taken_before, i as int) == seq![current@] + rest);
                assert(lists(groups@.push(current)) + rest =~= lists(groups@) + (seq![current@]
                    + rest));
            }
            proof {
                let c = current@;
                let after = closed.push(c);
                assert(lists(groups@.push(current)) =~= after);
                assert forall|g: int, k: int| placed(after, g, k) implies {
                    &&& (#[trigger] after[g][k]) < points.len()
                    &&& taken[after[g][k] as int]
                    &&& home[after[g][k] as int] == (g, k)
                } by {
                    if g < closed.len() {
                        assert(after[g] == closed[g]);
                        assert(placed(closed, g, k));
                    }
                }
                assert forall|g: int| 0 <= g < after.len() implies #[trigger] grown_from_seed(
                    points@,
                    after[g],
                ) by {
                    if g < closed.len() {
                        assert(after[g] == closed[g]);
                    }
                }
                assert forall|g: int, k: int, idx: int|
                    placed(after, g, k) && 0 <= idx < points.len() && !#[trigger] taken[idx]
                    implies !touching(points[#[trigger] after[g][k] as int], points[idx]) by {
                    if g < closed.len() {
                        assert(after[g] == closed[g]);
                        assert(placed(closed, g, k));
                    }
                }
                assert forall|g1: int, k1: int, g2: int, k2: int|
                    placed(after, g1, k1) && placed(after, g2, k2) && g1 != g2 implies !touching(
                    points[#[trigger] after[g1][k1] as int],
                    points[#[trigger] after[g2][k2] as int],
                ) by {
                    if g1 < closed.len() {
                        assert(after[g1] == closed[g1]);
                        assert(placed(closed, g1, k1));
                    }
                    if g2 < closed.len() {
                        assert(after[g2] == closed[g2]);
                        assert(placed(closed, g2, k2));
                    }
                }
                assert forall|g: int, k: int| placed(after, g, k) && k > 0 implies after[g][0]
                    < #[trigger] after[g][k] by {
                    if g < closed.len() {
                        assert(after[g] == closed[g]);
                        assert(placed(closed, g, k));
                    }
                }
                assert forall|g1: int, g2: int|
                    0 <= g1 < g2 < after.len() && after[g1].len() > 0 && after[g2].len()
                        > 0 implies #[trigger] after[g1][0] < #[trigger] after[g2][0] by {
                    assert(after[g1] == closed[g1]);
                    if g2 < closed.len() {
                        assert(after[g2] == closed[g2]);
                    }
                }
                assert forall|g: int| 0 <= g < after.len() implies (#[trigger] after[g])[0] < i
                    + 1 by {
                    if g < closed.len() {
                        assert(after[g] == closed[g]);
                    }
                }
                assert forall|idx: int| 0 <= idx < n && #[trigger] taken[idx] implies placed(
                    after,
                    home[idx].0,
                    home[idx].1,
                ) && after[home[idx].0][home[idx].1] == idx by {
                    if placed(closed, home[idx].0, home[idx].1) {
                        assert(after[home[idx].0] == closed[home[idx].0]);
                    }
                }
            }
            groups.push(current);
        }
        i += 1;
    }
    proof {
        let all = lists(groups@);
        assert forall|idx: int| 0 <= idx < n implies #[trigger] grouped(all, idx) by {
            assert(taken[idx]);
            assert(placed(all, home[idx].0, home[idx].1));
            assert(all[home[idx].0][home[idx].1] == idx);
        }
    }
    groups
}

} // verus!

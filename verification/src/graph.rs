//! The commit graph: one line of rails and nodes per commit.
//!
//! Columns are *lanes*; a lane is free or waits for a commit further down.

use vstd::prelude::*;

use crate::oid::{Id, Oid};
#[allow(unused_imports)]
use crate::text::texts;

verus! {

/// What each lane waits for.
pub type Lanes = Seq<Option<Id>>;

/// What a lane waits for.
pub open spec fn lane(l: Option<Oid>) -> Option<Id> {
    match l {
        Some(o) => Some(o@),
        None => None,
    }
}

/// What each lane of a list waits for.
pub open spec fn lanes_view(v: Seq<Option<Oid>>) -> Lanes {
    v.map_values(|l: Option<Oid>| lane(l))
}

/// The ids in a list.
pub open spec fn ids(v: Seq<Oid>) -> Seq<Id> {
    v.map_values(|o: Oid| o@)
}

/// A commit and its parents.
pub struct Node {
    pub oid: Oid,
    pub parents: Vec<Oid>,
}

/// The contents of a commit and its parents.
#[verifier::ext_equal]
pub struct NodeView {
    pub id: Id,
    pub parents: Seq<Id>,
}

impl View for Node {
    type V = NodeView;

    open spec fn view(&self) -> NodeView {
        NodeView { id: self.oid@, parents: ids(self.parents@) }
    }
}

/// The contents of a history.
pub open spec fn history(v: Seq<Node>) -> Seq<NodeView> {
    v.map_values(|n: Node| n@)
}

// ---------------------------------------------------------------------------
// What the layout is
// ---------------------------------------------------------------------------

/// The leftmost lane at or after `i` in the state `want`, or the number of lanes.
pub open spec fn first_lane_from(lanes: Lanes, want: Option<Id>, i: int) -> int
    decreases lanes.len() - i,
{
    if i < 0 || i >= lanes.len() || lanes[i] == want {
        i
    } else {
        first_lane_from(lanes, want, i + 1)
    }
}

/// The leftmost lane in the state `want`, or the number of lanes if there is none.
pub open spec fn first_lane(lanes: Lanes, want: Option<Id>) -> int {
    first_lane_from(lanes, want, 0)
}

/// The lane `i` reserved for `id`; a lane behind the last is opened.
pub open spec fn reserved(lanes: Lanes, i: int, id: Id) -> Lanes {
    if i < lanes.len() {
        lanes.update(i, Some(id))
    } else {
        lanes.push(Some(id))
    }
}

/// The leftmost free lane, or a new one, reserved for `id`.
pub open spec fn allocated(lanes: Lanes, id: Id) -> Lanes {
    reserved(lanes, first_lane(lanes, None), id)
}

/// The lane of a commit: the leftmost that waits for it, else the leftmost
/// free one, else a new one.
pub open spec fn lane_for(lanes: Lanes, id: Id) -> int {
    if first_lane(lanes, Some(id)) < lanes.len() {
        first_lane(lanes, Some(id))
    } else {
        first_lane(lanes, None)
    }
}

/// The lanes as they are drawn in the row of the commit `id`: its own lane is
/// there, and the other lanes that waited for it end.
pub open spec fn drawn(lanes: Lanes, id: Id) -> Lanes {
    let mine = lane_for(lanes, id);
    let opened = if first_lane(lanes, Some(id)) < lanes.len() {
        lanes
    } else {
        allocated(lanes, id)
    };
    Seq::new(
        opened.len(),
        |j: int|
            if j != mine && opened[j] == Some(id) {
                None
            } else {
                opened[j]
            },
    )
}

/// One row: a node in the lane `mine`, a rail in every other lane that waits,
/// and a space behind each.
pub open spec fn row_of(lanes: Lanes, mine: int) -> Seq<char> {
    Seq::new(
        2 * lanes.len(),
        |i: int|
            if i % 2 == 1 {
                ' '
            } else if i / 2 == mine {
                '●'
            } else if lanes[i / 2] is Some {
                '│'
            } else {
                ' '
            },
    )
}

/// The lanes once each of `rest` that no lane waits for has got one.
pub open spec fn with_lanes_for(lanes: Lanes, rest: Seq<Id>) -> Lanes
    decreases rest.len(),
{
    if rest.len() == 0 {
        lanes
    } else {
        let before = with_lanes_for(lanes, rest.drop_last());
        if first_lane(before, Some(rest.last())) < before.len() {
            before
        } else {
            allocated(before, rest.last())
        }
    }
}

/// The lanes below a commit drawn in the lane `mine`: its first parent goes on
/// in that lane, the others get lanes of their own unless they have one, and
/// without parents the lane ends.
pub open spec fn routed(lanes: Lanes, mine: int, parents: Seq<Id>) -> Lanes {
    if parents.len() == 0 {
        lanes.update(mine, None)
    } else {
        with_lanes_for(lanes.update(mine, Some(parents[0])), parents.skip(1))
    }
}

/// The lanes below the row of a commit.
pub open spec fn lanes_below(lanes: Lanes, c: NodeView) -> Lanes {
    routed(drawn(lanes, c.id), lane_for(lanes, c.id), c.parents)
}

/// The lanes below the rows of all the commits.
pub open spec fn lanes_after(commits: Seq<NodeView>) -> Lanes
    decreases commits.len(),
{
    if commits.len() == 0 {
        Seq::empty()
    } else {
        lanes_below(lanes_after(commits.drop_last()), commits.last())
    }
}

/// The row of a commit.
pub open spec fn commit_row(lanes: Lanes, id: Id) -> Seq<char> {
    row_of(drawn(lanes, id), lane_for(lanes, id))
}

/// The rows of a history, one per commit.
pub open spec fn rows_of(commits: Seq<NodeView>) -> Seq<Seq<char>> {
    Seq::new(
        commits.len(),
        |i: int| commit_row(lanes_after(commits.take(i)), commits[i].id),
    )
}

proof fn lemma_first_lane(lanes: Lanes, want: Option<Id>, i: int)
    requires
        0 <= i <= lanes.len(),
    ensures
        i <= first_lane_from(lanes, want, i) <= lanes.len(),
        first_lane_from(lanes, want, i) < lanes.len() ==> lanes[first_lane_from(lanes, want, i)]
            == want,
        forall|j: int| i <= j < first_lane_from(lanes, want, i) ==> lanes[j] != want,
    decreases lanes.len() - i,
{
    if i < lanes.len() && lanes[i] != want {
        lemma_first_lane(lanes, want, i + 1);
    }
}

// ---------------------------------------------------------------------------
// Laying it out
// ---------------------------------------------------------------------------

/// The leftmost free lane, or the number of lanes.
fn find_free(lanes: &Vec<Option<Oid>>) -> (r: usize)
    ensures
        r == first_lane(lanes_view(lanes@), None),
        r <= lanes@.len(),
{
    let ghost l = lanes_view(lanes@);
    let mut i: usize = 0;
    while i < lanes.len()
        invariant
            i <= lanes@.len(),
            l == lanes_view(lanes@),
            first_lane(l, None) == first_lane_from(l, None, i as int),
        decreases lanes.len() - i,
    {
        assert(l[i as int] == lane(lanes@[i as int]));
        if lanes[i].is_none() {
            return i;
        }
        i += 1;
    }
    i
}

/// The leftmost lane that waits for `oid`, or the number of lanes.
fn find_waiting(lanes: &Vec<Option<Oid>>, oid: &Oid) -> (r: usize)
    ensures
        r == first_lane(lanes_view(lanes@), Some(oid@)),
        r <= lanes@.len(),
{
    let ghost l = lanes_view(lanes@);
    let mut i: usize = 0;
    while i < lanes.len()
        invariant
            i <= lanes@.len(),
            l == lanes_view(lanes@),
            first_lane(l, Some(oid@)) == first_lane_from(l, Some(oid@), i as int),
        decreases lanes.len() - i,
    {
        assert(l[i as int] == lane(lanes@[i as int]));
        if waits_for(&lanes[i], oid) {
            return i;
        }
        i += 1;
    }
    i
}

fn waits_for(l: &Option<Oid>, oid: &Oid) -> (r: bool)
    ensures
        r == (lane(*l) == Some(oid@)),
{
    match l {
        Some(o) => o.same(oid),
        None => false,
    }
}

/// Find a free lane (or append one) and reserve it for `oid`. Returns its index.
pub fn allocate_lane(lanes: &mut Vec<Option<Oid>>, oid: Oid) -> (r: usize)
    ensures
        r == first_lane(lanes_view(old(lanes)@), None),
        lanes_view(final(lanes)@) == allocated(lanes_view(old(lanes)@), oid@),
        r < final(lanes)@.len(),
{
    let ghost was = lanes_view(lanes@);
    let i: usize = find_free(lanes);
    if i < lanes.len() {
        lanes[i] = Some(oid);
    } else {
        lanes.push(Some(oid));
    }
    assert(lanes_view(lanes@) =~= allocated(was, oid@));
    i
}

/// Close every lane but `mine` that waits for `oid`.
fn close_others(lanes: &mut Vec<Option<Oid>>, mine: usize, oid: &Oid)
    ensures
        lanes_view(final(lanes)@) == Seq::new(
            lanes_view(old(lanes)@).len(),
            |j: int|
                if j != mine && lanes_view(old(lanes)@)[j] == Some(oid@) {
                    None
                } else {
                    lanes_view(old(lanes)@)[j]
                },
        ),
{
    let ghost was = lanes_view(lanes@);
    let n: usize = lanes.len();
    let mut j: usize = 0;
    while j < n
        invariant
            j <= n == lanes@.len() == was.len(),
            forall|i: int| j <= i < n ==> lane(#[trigger] lanes@[i]) == was[i],
            forall|i: int|
                0 <= i < j ==> lane(#[trigger] lanes@[i]) == (if i != mine && was[i] == Some(
                    oid@,
                ) {
                    None
                } else {
                    was[i]
                }),
        decreases n - j,
    {
        assert(lane(lanes@[j as int]) == was[j as int]);
        if j != mine && waits_for(&lanes[j], oid) {
            lanes[j] = None;
        }
        j += 1;
    }
    assert(lanes_view(lanes@) =~= Seq::new(
        was.len(),
        |j: int|
            if j != mine && was[j] == Some(oid@) {
                None
            } else {
                was[j]
            },
    ));
}

/// Draw a row.
fn draw_row(lanes: &Vec<Option<Oid>>, mine: usize) -> (row: String)
    ensures
        row@ == row_of(lanes_view(lanes@), mine as int),
{
    let ghost l = lanes_view(lanes@);
    let mut row = String::new();
    let mut j: usize = 0;
    while j < lanes.len()
        invariant
            j <= lanes@.len(),
            l == lanes_view(lanes@),
            row@.len() == 2 * j,
            forall|i: int| 0 <= i < 2 * j ==> row@[i] == row_of(l, mine as int)[i],
        decreases lanes.len() - j,
    {
        assert(l[j as int] == lane(lanes@[j as int]));
        let c = if j == mine {
            '●'
        } else if lanes[j].is_some() {
            '│'
        } else {
            ' '
        };
        row.push(c);
        row.push(' ');
        j += 1;
        assert(row_of(l, mine as int)[2 * (j - 1)] == c) by {
            assert((2 * (j - 1)) / 2 == j - 1);
        }
    }
    assert(row@ =~= row_of(l, mine as int));
    row
}

/// Route the parents of the commit in the lane `mine` into lanes for the rows
/// below.
fn route(lanes: &mut Vec<Option<Oid>>, mine: usize, parents: &Vec<Oid>)
    requires
        mine < old(lanes)@.len(),
    ensures
        lanes_view(final(lanes)@) == routed(
            lanes_view(old(lanes)@),
            mine as int,
            ids(parents@),
        ),
{
    let ghost was = lanes_view(lanes@);
    let ghost all = ids(parents@);
    if parents.len() == 0 {
        lanes[mine] = None;
        assert(lanes_view(lanes@) =~= routed(was, mine as int, all));
        return;
    }
    lanes[mine] = Some(parents[0]);
    let ghost start = was.update(mine as int, Some(all[0]));
    let ghost rest = all.skip(1);
    assert(lanes_view(lanes@) =~= start);
    let mut i: usize = 1;
    assert(rest.take(0).len() == 0);
    while i < parents.len()
        invariant
            1 <= i <= parents@.len(),
            all == ids(parents@),
            rest == all.skip(1),
            lanes_view(lanes@) == with_lanes_for(start, rest.take(i - 1)),
        decreases parents.len() - i,
    {
        proof {
            assert(rest.take(i as int).drop_last() =~= rest.take(i - 1));
            assert(rest[i - 1] == parents@[i as int]@);
            lemma_first_lane(lanes_view(lanes@), Some(parents@[i as int]@), 0);
        }
        let p = parents[i];
        if find_waiting(lanes, &p) == lanes.len() {
            allocate_lane(lanes, p);
        }
        i += 1;
    }
    assert(rest.take(i - 1) =~= rest);
}

/// Turn a newest-first history into one graph prefix per commit.
pub fn build_graph(commits: &Vec<Node>) -> (rows: Vec<String>)
    ensures
        texts(rows@) == rows_of(history(commits@)),
{
    let ghost h = history(commits@);
    let mut lanes: Vec<Option<Oid>> = Vec::new();
    let mut rows: Vec<String> = Vec::new();
    let mut i: usize = 0;
    assert(lanes_view(lanes@) =~= lanes_after(h.take(0)));
    while i < commits.len()
        invariant
            i <= commits@.len(),
            h == history(commits@),
            lanes_view(lanes@) == lanes_after(h.take(i as int)),
            rows@.len() == i,
            forall|j: int| 0 <= j < i ==> (#[trigger] rows@[j])@ == rows_of(h)[j],
        decreases commits.len() - i,
    {
        let ghost before = lanes_view(lanes@);
        let oid = commits[i].oid;
        proof {
            assert(h[i as int] == commits@[i as int]@);
            lemma_first_lane(before, Some(oid@), 0);
            lemma_first_lane(before, None, 0);
        }

        // Find this commit's lane, or open a new one (a branch tip).
        let found: usize = find_waiting(&lanes, &oid);
        let mine: usize = if found < lanes.len() {
            found
        } else {
            allocate_lane(&mut lanes, oid)
        };
        assert(mine == lane_for(before, oid@));

        // Other lanes waiting for this same commit converge here: close them.
        close_others(&mut lanes, mine, &oid);
        assert(lanes_view(lanes@) =~= drawn(before, oid@));

        let row = draw_row(&lanes, mine);
        rows.push(row);
        route(&mut lanes, mine, &commits[i].parents);
        assert(h.take(i + 1).drop_last() =~= h.take(i as int));
        i += 1;
    }
    assert(texts(rows@) =~= rows_of(h));
    rows
}

// ---------------------------------------------------------------------------
// What the graph promises
// ---------------------------------------------------------------------------

/// Every row has exactly one node, and it stands in the lane of its commit.
pub proof fn every_row_has_one_node(lanes: Lanes, id: Id)
    ensures
        0 <= lane_for(lanes, id) < drawn(lanes, id).len(),
        commit_row(lanes, id).len() == 2 * drawn(lanes, id).len(),
        forall|i: int|
            0 <= i < commit_row(lanes, id).len() ==> (#[trigger] commit_row(lanes, id)[i]
                == '●' <==> i == 2 * lane_for(lanes, id)),
{
    lemma_first_lane(lanes, Some(id), 0);
    lemma_first_lane(lanes, None, 0);
    let mine = lane_for(lanes, id);
    let row = commit_row(lanes, id);
    assert forall|i: int| 0 <= i < row.len() implies (#[trigger] row[i] == '●' <==> i == 2
        * mine) by {
        if i % 2 == 0 {
            assert(i == 2 * (i / 2));
        }
    }
}

/// A commit that a lane waits for is drawn in the leftmost such lane.
pub proof fn a_waiting_lane_gets_its_commit(lanes: Lanes, id: Id)
    requires
        lanes.contains(Some(id)),
    ensures
        lane_for(lanes, id) < lanes.len(),
        lanes[lane_for(lanes, id)] == Some(id),
        forall|j: int| 0 <= j < lane_for(lanes, id) ==> lanes[j] != Some(id),
{
    lemma_first_lane(lanes, Some(id), 0);
    let k = choose|k: int| 0 <= k < lanes.len() && lanes[k] == Some(id);
    assert(lanes[k] == Some(id));
}

proof fn lemma_with_lanes_for(lanes: Lanes, rest: Seq<Id>)
    ensures
        with_lanes_for(lanes, rest).len() >= lanes.len(),
        forall|j: int|
            0 <= j < lanes.len() && lanes[j] is Some ==> #[trigger] with_lanes_for(lanes, rest)[j]
                == lanes[j],
        forall|j: int|
            0 <= j < with_lanes_for(lanes, rest).len() ==> {
                let l = #[trigger] with_lanes_for(lanes, rest)[j];
                l is None || rest.contains(l->0) || (j < lanes.len() && lanes[j] == l)
            },
        forall|k: int|
            0 <= k < rest.len() ==> with_lanes_for(lanes, rest).contains(
                Some(#[trigger] rest[k]),
            ),
    decreases rest.len(),
{
    if rest.len() > 0 {
        let before = with_lanes_for(lanes, rest.drop_last());
        let now = with_lanes_for(lanes, rest);
        let p = rest.last();
        lemma_with_lanes_for(lanes, rest.drop_last());
        lemma_first_lane(before, Some(p), 0);
        lemma_first_lane(before, None, 0);
        assert(rest.contains(p)) by {
            assert(rest[rest.len() - 1] == p);
        }
        let f = first_lane(before, Some(p));
        let free = first_lane(before, None);
        assert forall|j: int| 0 <= j < now.len() implies {
            let l = #[trigger] now[j];
            l is None || rest.contains(l->0) || (j < lanes.len() && lanes[j] == l)
        } by {
            if j < before.len() && now[j] == before[j] {
                let l = before[j];
                if l is Some && rest.drop_last().contains(l->0) {
                    let m = choose|m: int|
                        0 <= m < rest.drop_last().len() && rest.drop_last()[m] == l->0;
                    assert(rest[m] == l->0);
                }
            } else {
                assert(now[j] == Some(p));
            }
        }
        assert forall|k: int| 0 <= k < rest.len() implies now.contains(
            Some(#[trigger] rest[k]),
        ) by {
            if k < rest.len() - 1 {
                assert(rest.drop_last()[k] == rest[k]);
                let m = choose|m: int| 0 <= m < before.len() && before[m] == Some(rest[k]);
                assert(now[m] == Some(rest[k]));
            } else if f < before.len() {
                assert(now[f] == Some(p));
            } else {
                assert(now[free] == Some(p));
            }
        }
    }
}

/// Below a commit, its first parent goes on in the commit's lane, every parent
/// is waited for, and the commit itself is not waited for any more.
pub proof fn parents_are_waited_for(lanes: Lanes, c: NodeView)
    ensures
        c.parents.len() > 0 ==> lanes_below(lanes, c)[lane_for(lanes, c.id)] == Some(
            c.parents[0],
        ),
        forall|k: int|
            0 <= k < c.parents.len() ==> lanes_below(lanes, c).contains(
                Some(#[trigger] c.parents[k]),
            ),
        !c.parents.contains(c.id) ==> !lanes_below(lanes, c).contains(Some(c.id)),
{
    every_row_has_one_node(lanes, c.id);
    let mine = lane_for(lanes, c.id);
    let d = drawn(lanes, c.id);
    let now = lanes_below(lanes, c);
    if c.parents.len() > 0 {
        let start = d.update(mine, Some(c.parents[0]));
        let rest = c.parents.skip(1);
        lemma_with_lanes_for(start, rest);
        assert(now[mine] == Some(c.parents[0]));
        assert forall|k: int| 0 <= k < c.parents.len() implies now.contains(
            Some(#[trigger] c.parents[k]),
        ) by {
            if k > 0 {
                assert(rest[k - 1] == c.parents[k]);
            }
        }
        if !c.parents.contains(c.id) && now.contains(Some(c.id)) {
            let j = choose|j: int| 0 <= j < now.len() && now[j] == Some(c.id);
            assert(now[j] == Some(c.id));
            if rest.contains(c.id) {
                let m = choose|m: int| 0 <= m < rest.len() && rest[m] == c.id;
                assert(c.parents[m + 1] == c.id);
            } else {
                assert(start[j] == Some(c.id));
                if j == mine {
                    assert(c.parents[0] == c.id);
                } else {
                    assert(d[j] == Some(c.id));
                }
            }
        }
    } else {
        if now.contains(Some(c.id)) {
            let j = choose|j: int| 0 <= j < now.len() && now[j] == Some(c.id);
            assert(d[j] == Some(c.id));
        }
    }
}

proof fn lemma_waiting_goes_on(lanes: Lanes, c: NodeView, id: Id)
    requires
        lanes.contains(Some(id)),
        id != c.id,
    ensures
        lanes_below(lanes, c).contains(Some(id)),
{
    lemma_first_lane(lanes, Some(c.id), 0);
    lemma_first_lane(lanes, None, 0);
    let mine = lane_for(lanes, c.id);
    let d = drawn(lanes, c.id);
    let j = choose|j: int| 0 <= j < lanes.len() && lanes[j] == Some(id);
    assert(lanes[j] == Some(id));
    assert(j != mine);
    assert(d[j] == Some(id));
    if c.parents.len() == 0 {
        assert(lanes_below(lanes, c)[j] == Some(id));
    } else {
        let start = d.update(mine, Some(c.parents[0]));
        assert(start[j] == Some(id));
        lemma_with_lanes_for(start, c.parents.skip(1));
        assert(lanes_below(lanes, c)[j] == Some(id));
    }
}

/// A rail runs from every commit down to each of its parents: in each row below
/// the commit, up to that of the parent, a lane waits for the parent.
pub proof fn rails_run_down_to_the_parents(commits: Seq<NodeView>, j: int, k: int, i: int)
    requires
        0 <= j < i <= commits.len(),
        0 <= k < commits[j].parents.len(),
        forall|m: int| j < m < i ==> (#[trigger] commits[m]).id != commits[j].parents[k],
    ensures
        lanes_after(commits.take(i)).contains(Some(commits[j].parents[k])),
    decreases i,
{
    let p = commits[j].parents[k];
    let here = commits.take(i);
    assert(here.drop_last() =~= commits.take(i - 1));
    assert(here.last() == commits[i - 1]);
    if j == i - 1 {
        parents_are_waited_for(lanes_after(here.drop_last()), here.last());
    } else {
        rails_run_down_to_the_parents(commits, j, k, i - 1);
        lemma_waiting_goes_on(lanes_after(here.drop_last()), here.last(), p);
    }
}

/// Every lane that waits is drawn as a rail in the row of another commit, and
/// every rail is a lane that waits for another commit.
pub proof fn rails_are_waiting_lanes(lanes: Lanes, id: Id, j: int)
    requires
        0 <= j < drawn(lanes, id).len(),
    ensures
        commit_row(lanes, id)[2 * j] == '│' <==> j != lane_for(lanes, id) && drawn(lanes, id)[j]
            is Some,
        j != lane_for(lanes, id) && drawn(lanes, id)[j] is Some ==> drawn(lanes, id)[j] != Some(id)
            && j < lanes.len() && drawn(lanes, id)[j] == lanes[j],
{
    lemma_first_lane(lanes, Some(id), 0);
    lemma_first_lane(lanes, None, 0);
    assert((2 * j) / 2 == j);
}

/// A commit's own lane is the only one that drawing and routing it takes away or
/// retargets: every lane that waits for another commit still waits for it.
pub proof fn routing_leaves_other_lanes_alone(lanes: Lanes, c: NodeView, j: int)
    requires
        0 <= j < lanes.len(),
        lanes[j] is Some,
        lanes[j] != Some(c.id),
    ensures
        j != lane_for(lanes, c.id),
        j < drawn(lanes, c.id).len(),
        drawn(lanes, c.id)[j] == lanes[j],
        j < lanes_below(lanes, c).len(),
        lanes_below(lanes, c)[j] == lanes[j],
{
    lemma_first_lane(lanes, Some(c.id), 0);
    lemma_first_lane(lanes, None, 0);
    let mine = lane_for(lanes, c.id);
    let d = drawn(lanes, c.id);
    if c.parents.len() > 0 {
        lemma_with_lanes_for(d.update(mine, Some(c.parents[0])), c.parents.skip(1));
    }
}

/// A lane that waits for a commit goes on waiting for it, in its place, down to
/// the row of that commit.
pub proof fn waiting_lanes_run_straight_down(commits: Seq<NodeView>, from: int, i: int, l: int, id: Id)
    requires
        0 <= from <= i <= commits.len(),
        0 <= l < lanes_after(commits.take(from)).len(),
        lanes_after(commits.take(from))[l] == Some(id),
        forall|m: int| from <= m < i ==> (#[trigger] commits[m]).id != id,
    ensures
        l < lanes_after(commits.take(i)).len(),
        lanes_after(commits.take(i))[l] == Some(id),
    decreases i - from,
{
    if from < i {
        waiting_lanes_run_straight_down(commits, from, i - 1, l, id);
        let here = commits.take(i);
        assert(here.drop_last() =~= commits.take(i - 1));
        assert(here.last() == commits[i - 1]);
        routing_leaves_other_lanes_alone(lanes_after(here.drop_last()), here.last(), l);
    }
}

proof fn lemma_rail_or_end(commits: Seq<NodeView>, i: int, l: int, id: Id)
    requires
        0 <= i < commits.len(),
        0 <= l < lanes_after(commits.take(i)).len(),
        lanes_after(commits.take(i))[l] == Some(id),
    ensures
        2 * l < rows_of(commits)[i].len(),
        commits[i].id != id ==> rows_of(commits)[i][2 * l] == '│',
        commits[i].id == id ==> exists|y: int|
            0 <= y <= 2 * l && #[trigger] rows_of(commits)[i][y] == '●' && (y == 2 * l
                || rows_of(commits)[i][2 * l] == ' '),
{
    let lanes = lanes_after(commits.take(i));
    every_row_has_one_node(lanes, commits[i].id);
    if commits[i].id != id {
        routing_leaves_other_lanes_alone(lanes, commits[i], l);
        rails_are_waiting_lanes(lanes, commits[i].id, l);
    } else {
        assert(lanes.contains(Some(id)));
        a_waiting_lane_gets_its_commit(lanes, id);
        lemma_first_lane(lanes, Some(id), 0);
        assert((2 * l) / 2 == l);
        assert(rows_of(commits)[i][2 * lane_for(lanes, id)] == '●');
    }
}

/// From the node of a commit a rail runs straight down, in the very column of the
/// node, to the row of its first parent: in every row between there is a rail in
/// that column. In the row of the parent the rail meets the node there, or has
/// ended because the node stands in a column further left.
pub proof fn a_rail_runs_straight_to_the_first_parent(
    commits: Seq<NodeView>,
    j: int,
    i: int,
    x: int,
)
    requires
        0 <= j < i < commits.len(),
        commits[j].parents.len() > 0,
        forall|m: int| j < m < i ==> (#[trigger] commits[m]).id != commits[j].parents[0],
        0 <= x < rows_of(commits)[j].len(),
        rows_of(commits)[j][x] == '●',
    ensures
        x < rows_of(commits)[i].len(),
        commits[i].id != commits[j].parents[0] ==> rows_of(commits)[i][x] == '│',
        commits[i].id == commits[j].parents[0] ==> exists|y: int|
            0 <= y <= x && #[trigger] rows_of(commits)[i][y] == '●' && (y == x
                || rows_of(commits)[i][x] == ' '),
{
    let lanes = lanes_after(commits.take(j));
    let mine = lane_for(lanes, commits[j].id);
    every_row_has_one_node(lanes, commits[j].id);
    assert(x == 2 * mine);
    parents_are_waited_for(lanes, commits[j]);
    let next = commits.take(j + 1);
    assert(next.drop_last() =~= commits.take(j));
    assert(next.last() == commits[j]);
    let d = drawn(lanes, commits[j].id);
    lemma_with_lanes_for(d.update(mine, Some(commits[j].parents[0])), commits[j].parents.skip(1));
    waiting_lanes_run_straight_down(commits, j + 1, i, mine, commits[j].parents[0]);
    lemma_rail_or_end(commits, i, mine, commits[j].parents[0]);
}

/// Whether no row behind `j`, up to `i`, is that of the commit `id`.
pub open spec fn not_yet(commits: Seq<NodeView>, j: int, i: int, id: Id) -> bool {
    forall|m: int| j < m <= i ==> (#[trigger] commits[m]).id != id
}

/// From every commit a rail runs down to each of its parents in one column: there
/// is a column that holds a rail in every row between.
pub proof fn a_rail_runs_straight_to_every_parent(commits: Seq<NodeView>, j: int, k: int) -> (x: int)
    requires
        0 <= j < commits.len(),
        0 <= k < commits[j].parents.len(),
    ensures
        forall|i: int|
            j < i < commits.len() && #[trigger] not_yet(commits, j, i, commits[j].parents[k])
                ==> 0 <= x < rows_of(commits)[i].len() && rows_of(commits)[i][x] == '│',
{
    let p = commits[j].parents[k];
    let lanes = lanes_after(commits.take(j));
    parents_are_waited_for(lanes, commits[j]);
    let next = commits.take(j + 1);
    assert(next.drop_last() =~= commits.take(j));
    assert(next.last() == commits[j]);
    let below = lanes_after(next);
    let l = choose|l: int| 0 <= l < below.len() && below[l] == Some(p);
    assert(below[l] == Some(p));
    let x = 2 * l;
    assert forall|i: int|
        j < i < commits.len() && #[trigger] not_yet(
            commits,
            j,
            i,
            commits[j].parents[k],
        ) implies 0 <= x < rows_of(commits)[i].len() && rows_of(commits)[i][x] == '│' by {
        waiting_lanes_run_straight_down(commits, j + 1, i, l, p);
        lemma_rail_or_end(commits, i, l, p);
        assert(commits[i].id != p);
    }
    x
}

/// Every row is as wide as its lanes, two columns each; the second column of each
/// is blank, and the first holds a node, a rail or nothing.
pub proof fn rows_hold_nothing_else(commits: Seq<NodeView>, i: int, x: int)
    requires
        0 <= i < commits.len(),
        0 <= x < rows_of(commits)[i].len(),
    ensures
        rows_of(commits).len() == commits.len(),
        rows_of(commits)[i].len() % 2 == 0,
        x % 2 == 1 ==> rows_of(commits)[i][x] == ' ',
        x % 2 == 0 && rows_of(commits)[i][x] == '│' ==> {
            let lanes = lanes_after(commits.take(i));
            &&& x / 2 < lanes.len()
            &&& lanes[x / 2] is Some
            &&& lanes[x / 2] != Some(commits[i].id)
        },
        rows_of(commits)[i][x] == '●' || rows_of(commits)[i][x] == '│' || rows_of(commits)[i][x]
            == ' ',
{
    let lanes = lanes_after(commits.take(i));
    every_row_has_one_node(lanes, commits[i].id);
    if x % 2 == 0 {
        assert(x == 2 * (x / 2));
        rails_are_waiting_lanes(lanes, commits[i].id, x / 2);
    }
}

/// A commit that no lane waits for, a branch tip, opens the leftmost free lane,
/// or one behind the last.
pub proof fn a_tip_takes_the_leftmost_free_lane(lanes: Lanes, id: Id)
    requires
        !lanes.contains(Some(id)),
    ensures
        0 <= lane_for(lanes, id) <= lanes.len(),
        lane_for(lanes, id) < lanes.len() ==> lanes[lane_for(lanes, id)] is None,
        forall|k: int| 0 <= k < lane_for(lanes, id) ==> (#[trigger] lanes[k]) is Some,
        drawn(lanes, id).len() == (if lane_for(lanes, id) < lanes.len() {
            lanes.len()
        } else {
            lanes.len() + 1
        }),
{
    lemma_first_lane(lanes, Some(id), 0);
    lemma_first_lane(lanes, None, 0);
    if first_lane(lanes, Some(id)) < lanes.len() {
        assert(lanes[first_lane(lanes, Some(id))] == Some(id));
    }
}

/// A waited-for commit opens no lane, and the other lanes that waited for it end
/// in its row.
pub proof fn converging_lanes_end(lanes: Lanes, id: Id, j: int)
    requires
        lanes.contains(Some(id)),
        0 <= j < lanes.len(),
        lanes[j] == Some(id),
    ensures
        drawn(lanes, id).len() == lanes.len(),
        j != lane_for(lanes, id) ==> drawn(lanes, id)[j] is None && commit_row(lanes, id)[2 * j]
            == ' ',
        lane_for(lanes, id) <= j,
{
    a_waiting_lane_gets_its_commit(lanes, id);
    lemma_first_lane(lanes, Some(id), 0);
    assert((2 * j) / 2 == j);
}

/// A root commit ends its lane and opens none.
pub proof fn a_root_ends_its_lane(lanes: Lanes, c: NodeView)
    requires
        c.parents.len() == 0,
    ensures
        lanes_below(lanes, c).len() == drawn(lanes, c.id).len(),
        lanes_below(lanes, c)[lane_for(lanes, c.id)] is None,
        !lanes_below(lanes, c).contains(Some(c.id)),
{
    every_row_has_one_node(lanes, c.id);
    parents_are_waited_for(lanes, c);
}

/// Whether the lane `j` was opened by going from `start` to `now`.
spec fn opened(start: Lanes, now: Lanes, j: int) -> bool {
    0 <= j < now.len() && now[j] is Some && (j >= start.len() || start[j] is None)
}

proof fn lemma_opened(start: Lanes, rest: Seq<Id>)
    ensures
        forall|j: int|
            start.len() <= j < with_lanes_for(start, rest).len() ==> (#[trigger] with_lanes_for(
                start,
                rest,
            )[j]) is Some,
        forall|j: int, k: int|
            #![trigger with_lanes_for(start, rest)[j], with_lanes_for(start, rest)[k]]
            opened(start, with_lanes_for(start, rest), j) && 0 <= k < with_lanes_for(
                start,
                rest,
            ).len() && k != j ==> with_lanes_for(start, rest)[k] != with_lanes_for(start, rest)[j],
        forall|j: int, k: int|
            #![trigger with_lanes_for(start, rest)[j], with_lanes_for(start, rest)[k]]
            opened(start, with_lanes_for(start, rest), j) && 0 <= k < j ==> with_lanes_for(
                start,
                rest,
            )[k] is Some,
        forall|j: int, k: int, b: int|
            #![trigger with_lanes_for(start, rest)[j], with_lanes_for(start, rest)[k], rest[b]]
            opened(start, with_lanes_for(start, rest), j) && opened(
                start,
                with_lanes_for(start, rest),
                k,
            ) && j < k && 0 <= b < rest.len() && Some(rest[b]) == with_lanes_for(start, rest)[k]
                ==> rest.take(b).contains(with_lanes_for(start, rest)[j]->0),
    decreases rest.len(),
{
    if rest.len() > 0 {
        let init = rest.drop_last();
        let before = with_lanes_for(start, init);
        let now = with_lanes_for(start, rest);
        let p = rest.last();
        lemma_opened(start, init);
        lemma_with_lanes_for(start, init);
        lemma_first_lane(before, Some(p), 0);
        lemma_first_lane(before, None, 0);
        let fresh = first_lane(before, Some(p)) >= before.len();
        let f = first_lane(before, None);
        assert forall|j: int, k: int, b: int|
            #![trigger now[j], now[k], rest[b]]
            opened(start, now, j) && opened(start, now, k) && j < k && 0 <= b < rest.len() && Some(
                rest[b],
            ) == now[k] implies rest.take(b).contains(now[j]->0) by {
            if fresh && k == f {
                // The newest lane: all that were opened before stand to its left.
                if b < rest.len() - 1 {
                    assert(init[b] == p);
                    assert(before.contains(Some(init[b])));
                    let m = choose|m: int| 0 <= m < before.len() && before[m] == Some(p);
                    assert(before[m] == Some(p));
                    assert(false);
                }
                assert(j < before.len() && before[j] == now[j]);
                assert(init.contains(before[j]->0));
                assert(rest.take(b) =~= init);
            } else {
                assert(k < before.len() && before[k] == now[k]);
                if fresh && j == f {
                    assert(opened(start, before, k));
                    assert(before[j] is Some);
                    assert(false);
                }
                assert(before[j] == now[j]);
                assert(opened(start, before, j) && opened(start, before, k));
                if b < rest.len() - 1 {
                    assert(init[b] == rest[b]);
                    assert(rest.take(b) =~= init.take(b));
                } else {
                    assert(init.contains(before[k]->0));
                    let e = choose|e: int| 0 <= e < init.len() && init[e] == before[k]->0;
                    assert(init.take(e).contains(before[j]->0));
                    let g = choose|g: int|
                        0 <= g < init.take(e).len() && init.take(e)[g] == before[j]->0;
                    assert(rest.take(b)[g] == before[j]->0);
                }
            }
        }
        assert forall|j: int, k: int|
            #![trigger now[j], now[k]]
            opened(start, now, j) && 0 <= k < now.len() && k != j implies now[k] != now[j] by {
            if fresh && j == f {
                assert(k < before.len() && before[k] == now[k]);
            } else if fresh && k == f {
                assert(j < before.len() && before[j] == now[j]);
            } else {
                assert(j < before.len() && before[j] == now[j]);
                assert(k < before.len() && before[k] == now[k]);
                assert(opened(start, before, j));
            }
        }
        assert forall|j: int, k: int|
            #![trigger now[j], now[k]]
            opened(start, now, j) && 0 <= k < j implies now[k] is Some by {
            if fresh && j == f {
                assert(before[k] is Some);
            } else {
                assert(j < before.len() && before[j] == now[j]);
                assert(opened(start, before, j));
                assert(before[k] is Some);
            }
        }
    }
}

/// A lane that is opened below a commit, in a free place or at the end, waits for
/// one of the further parents, which has no other lane; no place further left is
/// left free; and the parents get their lanes in their order.
pub proof fn further_parents_open_lanes_from_the_left(lanes: Lanes, c: NodeView, j: int)
    requires
        c.parents.len() > 0,
        0 <= j < lanes_below(lanes, c).len(),
        j != lane_for(lanes, c.id),
        lanes_below(lanes, c)[j] is Some,
        j >= lanes.len() || lanes[j] is None || lanes[j] == Some(c.id),
    ensures
        c.parents.skip(1).contains(lanes_below(lanes, c)[j]->0),
        forall|k: int|
            0 <= k < lanes_below(lanes, c).len() && k != j ==> #[trigger] lanes_below(lanes, c)[k]
                != lanes_below(lanes, c)[j],
        forall|k: int| 0 <= k < j ==> (#[trigger] lanes_below(lanes, c)[k]) is Some,
        forall|k: int, b: int|
            #![trigger lanes_below(lanes, c)[k], c.parents[b]]
            j < k < lanes_below(lanes, c).len() && k != lane_for(lanes, c.id) && (k >= lanes.len()
                || lanes[k] is None || lanes[k] == Some(c.id)) && 1 <= b < c.parents.len() && Some(
                c.parents[b],
            ) == lanes_below(lanes, c)[k] ==> c.parents.subrange(1, b).contains(
                lanes_below(lanes, c)[j]->0,
            ),
{
    every_row_has_one_node(lanes, c.id);
    lemma_first_lane(lanes, Some(c.id), 0);
    lemma_first_lane(lanes, None, 0);
    let mine = lane_for(lanes, c.id);
    let d = drawn(lanes, c.id);
    let start = d.update(mine, Some(c.parents[0]));
    let rest = c.parents.skip(1);
    let now = lanes_below(lanes, c);
    lemma_opened(start, rest);
    lemma_with_lanes_for(start, rest);
    assert(opened(start, now, j));
    assert forall|k: int, b: int|
        #![trigger now[k], c.parents[b]]
        j < k < now.len() && k != mine && (k >= lanes.len() || lanes[k] is None || lanes[k] == Some(
            c.id,
        )) && 1 <= b < c.parents.len() && Some(c.parents[b])
            == now[k] implies c.parents.subrange(1, b).contains(now[j]->0) by {
        assert(opened(start, now, k));
        assert(rest[b - 1] == c.parents[b]);
        assert(rest.take(b - 1) =~= c.parents.subrange(1, b));
    }
}

/// Below a commit, lanes wait for its parents and for what they waited for above
/// it, and for nothing else; and no place behind the last lane is left free.
pub proof fn lanes_below_hold_nothing_else(lanes: Lanes, c: NodeView, j: int)
    requires
        0 <= j < lanes_below(lanes, c).len(),
    ensures
        lanes_below(lanes, c)[j] is Some ==> c.parents.contains(lanes_below(lanes, c)[j]->0) || (j
            < lanes.len() && lanes_below(lanes, c)[j] == lanes[j]),
        j >= drawn(lanes, c.id).len() ==> lanes_below(lanes, c)[j] is Some,
{
    every_row_has_one_node(lanes, c.id);
    lemma_first_lane(lanes, Some(c.id), 0);
    lemma_first_lane(lanes, None, 0);
    let mine = lane_for(lanes, c.id);
    let d = drawn(lanes, c.id);
    let now = lanes_below(lanes, c);
    if c.parents.len() > 0 {
        let start = d.update(mine, Some(c.parents[0]));
        let rest = c.parents.skip(1);
        lemma_with_lanes_for(start, rest);
        lemma_opened(start, rest);
        if now[j] is Some {
            if rest.contains(now[j]->0) {
                let m = choose|m: int| 0 <= m < rest.len() && rest[m] == now[j]->0;
                assert(c.parents[m + 1] == now[j]->0);
            } else if j == mine {
                assert(c.parents[0] == now[j]->0);
            }
        }
    }
}

/// The graph is laid out from the top: it starts without lanes, each row hands
/// its lanes on to the next, and what follows further down changes no row.
pub proof fn rows_do_not_depend_on_what_follows(commits: Seq<NodeView>, more: Seq<NodeView>)
    ensures
        lanes_after(Seq::<NodeView>::empty()) == Seq::<Option<Id>>::empty(),
        forall|c: NodeView|
            #[trigger] lanes_after(commits.push(c)) == lanes_below(lanes_after(commits), c),
        rows_of(commits).len() == commits.len(),
        rows_of(commits + more).take(commits.len() as int) == rows_of(commits),
{
    assert forall|c: NodeView|
        #[trigger] lanes_after(commits.push(c)) == lanes_below(lanes_after(commits), c) by {
        assert(commits.push(c).drop_last() =~= commits);
    }
    assert forall|i: int| 0 <= i < commits.len() implies rows_of(commits + more)[i] == rows_of(
        commits,
    )[i] by {
        assert((commits + more).take(i) =~= commits.take(i));
    }
    assert(rows_of(commits + more).take(commits.len() as int) =~= rows_of(commits));
}

} // verus!

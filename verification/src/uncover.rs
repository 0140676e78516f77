use vstd::prelude::*;
use crate::data::{Data, neighbours, count_unmarked, lemma_count_insert, spec_won};
use crate::pos_set::PosSet;

verus! {

broadcast use vstd::seq_lib::group_seq_properties;

// ---------------------------------------------------------------------------
// What uncovering a cell does
// ---------------------------------------------------------------------------

/// The neighbours of `pos` on the board of `d`, diagonals included.
pub open spec fn nbrs(d: Data, pos: (usize, usize)) -> Seq<(usize, usize)> {
    neighbours(d.width as int, d.height as int, pos, true)
}

/// Some neighbour of `a` is a mine.
pub open spec fn has_mine_nearby(d: Data, a: (usize, usize)) -> bool {
    exists|i: int| 0 <= i < nbrs(d, a).len() && d.mines@.contains(#[trigger] nbrs(d, a)[i])
}

/// While `pos` is uncovered in state `d`, uncovering spreads from `a` to `b`:
/// `a` has no mine around it, `b` is next to it, and `b` was neither uncovered
/// before nor is flagged (the flag on `pos` itself is taken off).
pub open spec fn spreads(d: Data, pos: (usize, usize), a: (usize, usize), b: (usize, usize)) -> bool {
    &&& !has_mine_nearby(d, a)
    &&& nbrs(d, a).contains(b)
    &&& !d.clicked@.contains(b)
    &&& !d.flagged@.remove(pos).contains(b)
}

/// `path` starts at `pos` and every step of it is one along which uncovering spreads.
pub open spec fn is_spread_path(d: Data, pos: (usize, usize), path: Seq<(usize, usize)>) -> bool {
    &&& path.len() > 0
    &&& path[0] == pos
    &&& forall|i: int| 0 <= i < path.len() - 1 ==> spreads(d, pos, #[trigger] path[i], path[i + 1])
}

/// Uncovering `pos` in state `d` reaches `b`.
pub open spec fn reachable(d: Data, pos: (usize, usize), b: (usize, usize)) -> bool {
    exists|path: Seq<(usize, usize)>| #[trigger] is_spread_path(d, pos, path) && path.last() == b
}

/// Every cell that uncovering `pos` in state `d` uncovers.
pub open spec fn flood(d: Data, pos: (usize, usize)) -> Set<(usize, usize)> {
    Set::new(|b: (usize, usize)| reachable(d, pos, b))
}

/// The mines that get a flag of their own after `pos` is uncovered in state
/// `d`: those next to a newly uncovered cell all of whose neighbours are now
/// uncovered.
pub open spec fn auto_flags(d: Data, pos: (usize, usize)) -> Set<(usize, usize)> {
    Set::new(
        |m: (usize, usize)|
            {
                &&& d.mines@.contains(m)
                &&& exists|s: (usize, usize)| #[trigger]
                    flood(d, pos).contains(s) && nbrs(d, s).contains(m)
                &&& forall|n: (usize, usize)|
                    #[trigger] nbrs(d, m).contains(n) ==> d.clicked@.union(flood(d, pos)).contains(n)
            },
    )
}

pub proof fn lemma_reach_start(d: Data, pos: (usize, usize))
    ensures
        reachable(d, pos, pos),
{
    let path = seq![pos];
    assert(is_spread_path(d, pos, path));
}

pub proof fn lemma_reach_extend(d: Data, pos: (usize, usize), a: (usize, usize), b: (usize, usize))
    requires
        reachable(d, pos, a),
        spreads(d, pos, a, b),
    ensures
        reachable(d, pos, b),
{
    let path = choose|path: Seq<(usize, usize)>| #[trigger]
        is_spread_path(d, pos, path) && path.last() == a;
    let longer = path.push(b);
    assert forall|i: int| 0 <= i < longer.len() - 1 implies spreads(
        d,
        pos,
        #[trigger] longer[i],
        longer[i + 1],
    ) by {
        if i < path.len() - 1 {
            assert(spreads(d, pos, path[i], path[i + 1]));
        }
    }
    assert(is_spread_path(d, pos, longer));
}

/// A cell that is not uncovered before `pos` is, and is reached, is `pos` or
/// was reached along a spreading step.
pub proof fn lemma_reach_not_clicked(d: Data, pos: (usize, usize), b: (usize, usize))
    requires
        reachable(d, pos, b),
        !d.clicked@.contains(pos),
    ensures
        !d.clicked@.contains(b),
{
    let path = choose|path: Seq<(usize, usize)>| #[trigger]
        is_spread_path(d, pos, path) && path.last() == b;
    if path.len() > 1 {
        assert(spreads(d, pos, path[path.len() - 2], path[path.len() - 1]));
    }
}

/// A set that holds `pos` and is closed under spreading holds every reached cell.
pub proof fn lemma_flood_complete(d: Data, pos: (usize, usize), c: Set<(usize, usize)>, b: (usize, usize))
    requires
        c.contains(pos),
        !d.clicked@.contains(pos),
        forall|v: (usize, usize), n: (usize, usize)|
            c.contains(v) && !d.clicked@.contains(v) && !has_mine_nearby(d, v) && #[trigger] nbrs(
                d,
                v,
            ).contains(n) ==> d.clicked@.contains(n) || d.flagged@.remove(pos).contains(n)
                || #[trigger] c.contains(n),
        reachable(d, pos, b),
    ensures
        c.contains(b),
{
    let path = choose|path: Seq<(usize, usize)>| #[trigger]
        is_spread_path(d, pos, path) && path.last() == b;
    lemma_path_in(d, pos, c, path, path.len() - 1);
}

proof fn lemma_path_in(
    d: Data,
    pos: (usize, usize),
    c: Set<(usize, usize)>,
    path: Seq<(usize, usize)>,
    i: int,
)
    requires
        c.contains(pos),
        !d.clicked@.contains(pos),
        forall|v: (usize, usize), n: (usize, usize)|
            c.contains(v) && !d.clicked@.contains(v) && !has_mine_nearby(d, v) && #[trigger] nbrs(
                d,
                v,
            ).contains(n) ==> d.clicked@.contains(n) || d.flagged@.remove(pos).contains(n)
                || #[trigger] c.contains(n),
        is_spread_path(d, pos, path),
        0 <= i < path.len(),
    ensures
        c.contains(path[i]),
        !d.clicked@.contains(path[i]),
    decreases i,
{
    if i > 0 {
        lemma_path_in(d, pos, c, path, i - 1);
        assert(spreads(d, pos, path[i - 1], path[i]));
    }
}

/// The neighbours of a cell inside a box that covers the board stay inside it.
pub proof fn lemma_nbrs_in_box(d: Data, a: (usize, usize), bx: int, by: int)
    requires
        d.width >= 1,
        d.height >= 1,
        d.width - 1 <= bx,
        d.height - 1 <= by,
        a.0 <= bx,
        a.1 <= by,
    ensures
        forall|n: (usize, usize)| #[trigger] nbrs(d, a).contains(n) ==> n.0 <= bx && n.1 <= by,
{
    assert forall|n: (usize, usize)| #[trigger] nbrs(d, a).contains(n) implies n.0 <= bx && n.1
        <= by by {
        let k = choose|k: int| 0 <= k < nbrs(d, a).len() && nbrs(d, a)[k] == n;
    }
}

/// A neighbour of a cell with no mine around it is not a mine.
pub proof fn lemma_no_mine_nbr(d: Data, a: (usize, usize), q: (usize, usize))
    requires
        !has_mine_nearby(d, a),
        nbrs(d, a).contains(q),
    ensures
        !d.mines@.contains(q),
{
    let k = choose|k: int| 0 <= k < nbrs(d, a).len() && nbrs(d, a)[k] == q;
}


/// `after` and `result` are what uncovering `pos` in state `before` gives:
/// nothing happens to a cell that is already uncovered; an uncovered mine
/// loses the game; any other cell uncovers the whole `flood` around it and
/// flags the mines of `auto_flags`, and the result says whether the game is
/// won.
pub open spec fn uncovered(before: Data, pos: (usize, usize), after: Data, result: bool) -> bool {
    &&& after.width == before.width
    &&& after.height == before.height
    &&& after.number_of_mines == before.number_of_mines
    &&& after.mines == before.mines
    &&& if before.clicked@.contains(pos) {
        &&& after.clicked@ == before.clicked@
        &&& after.flagged@ == before.flagged@
        &&& !result
    } else if before.mines@.contains(pos) {
        &&& after.clicked@ == before.clicked@.insert(pos)
        &&& after.flagged@ == before.flagged@.remove(pos)
        &&& result
    } else {
        &&& after.clicked@ == before.clicked@.union(flood(before, pos))
        &&& after.flagged@ == before.flagged@.remove(pos).union(auto_flags(before, pos))
        &&& result == spec_won(after)
    }
}

/// `q` is next to a reached cell that has no mine around it.
pub open spec fn queued_ok(d: Data, pos: (usize, usize), q: (usize, usize)) -> bool {
    exists|a: (usize, usize)| #[trigger]
        reachable(d, pos, a) && !has_mine_nearby(d, a) && nbrs(d, a).contains(q)
}

/// The mines next to a cell uncovered since state `d`.
pub open spec fn mines_next_to_new(d: Data, clicked: Set<(usize, usize)>) -> Set<(usize, usize)> {
    Set::new(
        |m: (usize, usize)|
            d.mines@.contains(m) && exists|s: (usize, usize)| #[trigger]
                clicked.contains(s) && !d.clicked@.contains(s) && nbrs(d, s).contains(m),
    )
}

/// The mines to flag, seen from the uncovered cells and the mines next to the new ones.
proof fn lemma_auto_flags_eq(
    d: Data,
    pos: (usize, usize),
    cf: Set<(usize, usize)>,
    auto: Set<(usize, usize)>,
)
    requires
        !d.clicked@.contains(pos),
        cf == d.clicked@.union(flood(d, pos)),
        auto == mines_next_to_new(d, cf),
    ensures
        auto_flags(d, pos) == Set::new(
            |m: (usize, usize)|
                auto.contains(m) && forall|n: (usize, usize)|
                    #[trigger] nbrs(d, m).contains(n) ==> cf.contains(n),
        ),
{
    assert forall|s: (usize, usize)| flood(d, pos).contains(s) implies !d.clicked@.contains(s) by {
        lemma_reach_not_clicked(d, pos, s);
    }
    let target = Set::new(
        |m: (usize, usize)|
            auto.contains(m) && forall|n: (usize, usize)|
                #[trigger] nbrs(d, m).contains(n) ==> cf.contains(n),
    );
    assert forall|m: (usize, usize)| auto_flags(d, pos).contains(m) <==> target.contains(m) by {
        if auto_flags(d, pos).contains(m) {
            let s = choose|s: (usize, usize)| #[trigger]
                flood(d, pos).contains(s) && nbrs(d, s).contains(m);
            assert(cf.contains(s) && !d.clicked@.contains(s) && nbrs(d, s).contains(m));
        }
        if auto.contains(m) {
            let s = choose|s: (usize, usize)| #[trigger]
                cf.contains(s) && !d.clicked@.contains(s) && nbrs(d, s).contains(m);
            assert(flood(d, pos).contains(s));
        }
    }
    assert(auto_flags(d, pos) =~= target);
}

/// The mines next to `pos` are the mines next to the cells uncovered so far
/// when `pos` is the only one.
proof fn lemma_first_auto(
    d: Data,
    pos: (usize, usize),
    clicked: Set<(usize, usize)>,
    auto: Set<(usize, usize)>,
)
    requires
        !d.clicked@.contains(pos),
        clicked == d.clicked@.insert(pos),
        auto == Set::<(usize, usize)>::empty().union(
            Set::new(|m: (usize, usize)| d.mines@.contains(m) && nbrs(d, pos).contains(m)),
        ),
    ensures
        auto == mines_next_to_new(d, clicked),
{
    assert forall|m: (usize, usize)| mines_next_to_new(d, clicked).contains(m) implies auto.contains(m) by {
        let s = choose|s: (usize, usize)| #[trigger]
            clicked.contains(s) && !d.clicked@.contains(s) && nbrs(d, s).contains(m);
        assert(s == pos);
    }
    assert forall|m: (usize, usize)| auto.contains(m) implies mines_next_to_new(d, clicked).contains(m) by {
        assert(clicked.contains(pos) && !d.clicked@.contains(pos) && nbrs(d, pos).contains(m));
    }
    assert(auto =~= mines_next_to_new(d, clicked));
}

/// What the first cells to look at satisfy: `pos` is reached, each queued cell
/// is next to it, inside the box, and every neighbour of `pos` that matters
/// is queued unless a mine is around `pos`.
#[verifier::rlimit(50)]
#[verifier::spinoff_prover]
proof fn lemma_first_wave(
    d: Data,
    pos: (usize, usize),
    clicked: Set<(usize, usize)>,
    queue: Seq<(usize, usize)>,
    mine_next: bool,
    bx: int,
    by: int,
)
    requires
        clicked == d.clicked@.insert(pos),
        !d.clicked@.contains(pos),
        d.width >= 1,
        d.height >= 1,
        d.width - 1 <= bx,
        d.height - 1 <= by,
        pos.0 <= bx,
        pos.1 <= by,
        mine_next == exists|i: int| 0 <= i < nbrs(d, pos).len() && d.mines@.contains(#[trigger] nbrs(d, pos)[i]),
        queue == (if mine_next { Seq::<(usize, usize)>::empty() } else { nbrs(d, pos) }),
    ensures
        forall|c: (usize, usize)| clicked.contains(c) && !d.clicked@.contains(c) ==> reachable(d, pos, c),
        forall|i: int| 0 <= i < queue.len() ==> queued_ok(d, pos, #[trigger] queue[i]),
        forall|i: int| 0 <= i < queue.len() ==> (#[trigger] queue[i]).0 <= bx && queue[i].1 <= by,
        forall|v: (usize, usize), n: (usize, usize)|
            clicked.contains(v) && !d.clicked@.contains(v) && !has_mine_nearby(d, v)
                && #[trigger] nbrs(d, v).contains(n) ==> d.clicked@.contains(n)
                || d.flagged@.remove(pos).contains(n) || clicked.contains(n) || queue.contains(n),
{
    lemma_reach_start(d, pos);
    lemma_nbrs_in_box(d, pos, bx, by);
    assert(mine_next == has_mine_nearby(d, pos));
    assert forall|c: (usize, usize)| clicked.contains(c) && !d.clicked@.contains(c)
        implies reachable(d, pos, c) by {
        assert(c == pos);
    }
    if !mine_next {
        assert forall|i: int| 0 <= i < queue.len() implies queued_ok(d, pos, #[trigger] queue[i]) by {
            assert(reachable(d, pos, pos) && !has_mine_nearby(d, pos) && nbrs(d, pos).contains(queue[i]));
        }
    }
    assert forall|v: (usize, usize), n: (usize, usize)|
        clicked.contains(v) && !d.clicked@.contains(v) && !has_mine_nearby(d, v)
            && #[trigger] nbrs(d, v).contains(n) implies d.clicked@.contains(n)
            || d.flagged@.remove(pos).contains(n) || clicked.contains(n) || queue.contains(n) by {
        assert(v == pos);
    }
}

/// Whether `v` holds `p`.
fn vec_contains(v: &Vec<(usize, usize)>, p: (usize, usize)) -> (r: bool)
    ensures
        r == v@.contains(p),
{
    let mut i: usize = 0;
    while i < v.len()
        invariant
            i <= v@.len(),
            forall|j: int| 0 <= j < i ==> v@[j] != p,
        decreases v@.len() - i,
    {
        let (x, y) = v[i];
        if x == p.0 && y == p.1 {
            assert(v@[i as int] == p);
            return true;
        }
        i = i + 1;
    }
    false
}

impl Data {
    /// Adds every mine among `cells` to `found`; the result says whether there was one.
    fn collect_mines(&self, cells: &Vec<(usize, usize)>, found: &mut PosSet) -> (r: bool)
        ensures
            final(found)@ == old(found)@.union(
                Set::new(|m: (usize, usize)| self.mines@.contains(m) && cells@.contains(m)),
            ),
            r == exists|i: int| 0 <= i < cells@.len() && self.mines@.contains(#[trigger] cells@[i]),
    {
        let mut any = false;
        let mut i: usize = 0;
        while i < cells.len()
            invariant
                i <= cells@.len(),
                found@ == old(found)@.union(
                    Set::new(|m: (usize, usize)| self.mines@.contains(m) && cells@.take(i as int).contains(m)),
                ),
                any == exists|j: int| 0 <= j < i && self.mines@.contains(#[trigger] cells@[j]),
            decreases cells@.len() - i,
        {
            let c = cells[i];
            if self.mines.contains(c) {
                found.insert(c);
                any = true;
            }
            proof {
                assert(cells@.take(i + 1) =~= cells@.take(i as int).push(c));
                assert(found@ =~= old(found)@.union(
                    Set::new(|m: (usize, usize)| self.mines@.contains(m) && cells@.take(i + 1).contains(m)),
                ));
            }
            i = i + 1;
        }
        assert(cells@.take(i as int) =~= cells@);
        any
    }

    /// Appends to `queue` each of `cells` that is neither uncovered, flagged
    /// nor queued already.
    fn enqueue_covered(&self, cells: &Vec<(usize, usize)>, queue: &mut Vec<(usize, usize)>)
        ensures
            final(queue)@.len() >= old(queue)@.len(),
            final(queue)@.subrange(0, old(queue)@.len() as int) == old(queue)@,
            forall|k: int| old(queue)@.len() <= k < final(queue)@.len() ==> cells@.contains(#[trigger] final(queue)@[k])
                && !self.clicked@.contains(final(queue)@[k]),
            forall|n: (usize, usize)| #[trigger] cells@.contains(n) ==> self.clicked@.contains(n)
                || self.flagged@.contains(n) || final(queue)@.contains(n),
    {
        let ghost start = queue@;
        let mut i: usize = 0;
        while i < cells.len()
            invariant
                i <= cells@.len(),
                queue@.len() >= start.len(),
                queue@.subrange(0, start.len() as int) == start,
                forall|k: int| start.len() <= k < queue@.len() ==> cells@.contains(#[trigger] queue@[k])
                    && !self.clicked@.contains(queue@[k]),
                forall|j: int| 0 <= j < i ==> self.clicked@.contains(#[trigger] cells@[j])
                    || self.flagged@.contains(cells@[j]) || queue@.contains(cells@[j]),
            decreases cells@.len() - i,
        {
            let c = cells[i];
            if !self.clicked.contains(c) && !self.flagged.contains(c) && !vec_contains(queue, c) {
                let ghost before = queue@;
                queue.push(c);
                proof {
                    assert(queue@.subrange(0, start.len() as int) =~= before.subrange(0, start.len() as int));
                    assert forall|j: int| 0 <= j < i implies self.clicked@.contains(#[trigger] cells@[j])
                        || self.flagged@.contains(cells@[j]) || queue@.contains(cells@[j]) by {
                        if before.contains(cells@[j]) {
                            let k = choose|k: int| 0 <= k < before.len() && before[k] == cells@[j];
                            assert(queue@[k] == cells@[j]);
                        }
                    }
                    assert(queue@[queue@.len() - 1] == c);
                }
            }
            i = i + 1;
        }
        proof {
            assert forall|n: (usize, usize)| #[trigger] cells@.contains(n) implies self.clicked@.contains(n)
                || self.flagged@.contains(n) || queue@.contains(n) by {
                let k = choose|k: int| 0 <= k < cells@.len() && cells@[k] == n;
            }
        }
    }
}

impl Data {
    /// Uncovers the queued cells and spreads from those with no mine around
    /// them, until nothing is left to uncover.
    fn spread(
        &mut self,
        pos: (usize, usize),
        queue: Vec<(usize, usize)>,
        auto: &mut PosSet,
        Ghost(d): Ghost<Data>,
        Ghost(bx): Ghost<int>,
        Ghost(by): Ghost<int>,
    )
        requires
            old(self).width == d.width,
            old(self).height == d.height,
            old(self).mines == d.mines,
            old(self).flagged@ == d.flagged@.remove(pos),
            !d.clicked@.contains(pos),
            !d.mines@.contains(pos),
            d.width >= 1,
            d.height >= 1,
            d.width - 1 <= bx <= usize::MAX,
            d.height - 1 <= by <= usize::MAX,
            pos.0 <= bx,
            pos.1 <= by,
            forall|c: (usize, usize)| d.clicked@.contains(c) ==> old(self).clicked@.contains(c),
            old(self).clicked@.contains(pos),
            forall|c: (usize, usize)|
                old(self).clicked@.contains(c) && !d.clicked@.contains(c) ==> reachable(d, pos, c),
            forall|i: int| 0 <= i < queue@.len() ==> queued_ok(d, pos, #[trigger] queue@[i]),
            forall|i: int| 0 <= i < queue@.len() ==> (#[trigger] queue@[i]).0 <= bx && queue@[i].1 <= by,
            forall|v: (usize, usize), n: (usize, usize)|
                old(self).clicked@.contains(v) && !d.clicked@.contains(v) && !has_mine_nearby(d, v)
                    && #[trigger] nbrs(d, v).contains(n) ==> d.clicked@.contains(n)
                    || d.flagged@.remove(pos).contains(n) || old(self).clicked@.contains(n)
                    || queue@.contains(n),
            old(auto)@ == mines_next_to_new(d, old(self).clicked@),
        ensures
            final(self).width == d.width,
            final(self).height == d.height,
            final(self).number_of_mines == old(self).number_of_mines,
            final(self).mines == d.mines,
            final(self).flagged@ == d.flagged@.remove(pos),
            final(self).clicked@ == d.clicked@.union(flood(d, pos)),
            final(auto)@ == mines_next_to_new(d, final(self).clicked@),
    {
        let ghost c0 = d.clicked@;
        let ghost f1 = d.flagged@.remove(pos);
        let mut queue = queue;
        while queue.len() > 0
            invariant
                self.width == d.width,
                self.height == d.height,
                self.number_of_mines == old(self).number_of_mines,
                self.mines == d.mines,
                self.flagged@ == f1,
                c0 == d.clicked@,
                f1 == d.flagged@.remove(pos),
                !c0.contains(pos),
                !d.mines@.contains(pos),
                d.width >= 1,
                d.height >= 1,
                d.width - 1 <= bx <= usize::MAX,
                d.height - 1 <= by <= usize::MAX,
                pos.0 <= bx,
                pos.1 <= by,
                forall|c: (usize, usize)| c0.contains(c) ==> self.clicked@.contains(c),
                self.clicked@.contains(pos),
                forall|c: (usize, usize)|
                    self.clicked@.contains(c) && !c0.contains(c) ==> reachable(d, pos, c),
                forall|i: int| 0 <= i < queue@.len() ==> queued_ok(d, pos, #[trigger] queue@[i]),
                forall|i: int|
                    0 <= i < queue@.len() ==> (#[trigger] queue@[i]).0 <= bx && queue@[i].1 <= by,
                forall|v: (usize, usize), n: (usize, usize)|
                    self.clicked@.contains(v) && !c0.contains(v) && !has_mine_nearby(d, v)
                        && #[trigger] nbrs(d, v).contains(n) ==> c0.contains(n) || f1.contains(n)
                        || self.clicked@.contains(n) || queue@.contains(n),
                auto@ == mines_next_to_new(d, self.clicked@),
            decreases count_unmarked(self.clicked@, (bx + 1) as nat, (by + 1) as nat), queue@.len(),
        {
            let ghost queue_before = queue@;
            let q = queue.pop().unwrap();
            assert(queue_before[queue_before.len() - 1] == q);
            let ghost a = choose|a: (usize, usize)| #[trigger]
                reachable(d, pos, a) && !has_mine_nearby(d, a) && nbrs(d, a).contains(q);
            proof {
                assert(queued_ok(d, pos, queue_before[queue_before.len() - 1]));
                lemma_no_mine_nbr(d, a, q);
                assert forall|i: int| 0 <= i < queue@.len() implies queued_ok(d, pos, #[trigger] queue@[i]) by {
                    assert(queue@[i] == queue_before[i]);
                }
                assert forall|i: int| 0 <= i < queue@.len() implies (#[trigger] queue@[i]).0 <= bx && queue@[i].1 <= by by {
                    assert(queue@[i] == queue_before[i]);
                }
                assert(q.0 <= bx && q.1 <= by);
            }
            if self.mines.contains(q) {
                auto.insert(q);
            } else if !self.clicked.contains(q) && !self.flagged.contains(q) {
                let ghost clicked_before = self.clicked@;
                let ghost auto_before = auto@;
                let ghost queue_mid = queue@;
                self.clicked.insert(q);
                proof {
                    lemma_reach_extend(d, pos, a, q);
                    lemma_count_insert(clicked_before, (bx + 1) as nat, (by + 1) as nat, q);
                    lemma_nbrs_in_box(d, q, bx, by);
                }
                let around = self.get_neighbours(q, true);
                let mine_here = self.collect_mines(&around, auto);
                assert(mine_here == has_mine_nearby(d, q));
                if !mine_here {
                    self.enqueue_covered(&around, &mut queue);
                }
                proof {
                    assert forall|i: int| 0 <= i < queue@.len() implies queued_ok(d, pos, #[trigger] queue@[i]) by {
                        if i < queue_mid.len() {
                            assert(queue@.subrange(0, queue_mid.len() as int)[i] == queue@[i]);
                            assert(queue_mid[i] == queue@[i]);
                        } else {
                            assert(nbrs(d, q).contains(queue@[i]));
                            assert(reachable(d, pos, q) && !has_mine_nearby(d, q) && nbrs(d, q).contains(queue@[i]));
                        }
                    }
                    assert forall|i: int| 0 <= i < queue@.len() implies (#[trigger] queue@[i]).0 <= bx && queue@[i].1 <= by by {
                        if i < queue_mid.len() {
                            assert(queue@.subrange(0, queue_mid.len() as int)[i] == queue@[i]);
                            assert(queue_mid[i] == queue@[i]);
                        } else {
                            assert(nbrs(d, q).contains(queue@[i]));
                        }
                    }
                    assert forall|v: (usize, usize), n: (usize, usize)|
                        self.clicked@.contains(v) && !c0.contains(v) && !has_mine_nearby(d, v)
                            && #[trigger] nbrs(d, v).contains(n) implies c0.contains(n) || f1.contains(n)
                            || self.clicked@.contains(n) || queue@.contains(n) by {
                        if v != q {
                            if queue_mid.contains(n) {
                                let k = choose|k: int| 0 <= k < queue_mid.len() && queue_mid[k] == n;
                                assert(queue@.subrange(0, queue_mid.len() as int)[k] == queue@[k]);
                            }
                            if queue_before.contains(n) && !queue_mid.contains(n) {
                                let k = choose|k: int| 0 <= k < queue_before.len() && queue_before[k] == n;
                                if k < queue_mid.len() {
                                    assert(queue_mid[k] == n);
                                } else {
                                    assert(n == q);
                                }
                            }
                        } else {
                            assert(around@.contains(n));
                        }
                    }
                    assert(auto@ =~= mines_next_to_new(d, self.clicked@)) by {
                        assert forall|m: (usize, usize)| auto@.contains(m) implies mines_next_to_new(d, self.clicked@).contains(m) by {
                            if !auto_before.contains(m) {
                                assert(self.clicked@.contains(q) && !d.clicked@.contains(q) && nbrs(d, q).contains(m));
                            } else {
                                let s = choose|s: (usize, usize)| #[trigger]
                                    clicked_before.contains(s) && !d.clicked@.contains(s) && nbrs(d, s).contains(m);
                                assert(self.clicked@.contains(s));
                            }
                        }
                        assert forall|m: (usize, usize)| mines_next_to_new(d, self.clicked@).contains(m) implies auto@.contains(m) by {
                            let s = choose|s: (usize, usize)| #[trigger]
                                self.clicked@.contains(s) && !d.clicked@.contains(s) && nbrs(d, s).contains(m);
                            if s != q {
                                assert(mines_next_to_new(d, clicked_before).contains(m));
                            }
                        }
                    }
                }
            } else {
                proof {
                    assert forall|v: (usize, usize), n: (usize, usize)|
                        self.clicked@.contains(v) && !c0.contains(v) && !has_mine_nearby(d, v)
                            && #[trigger] nbrs(d, v).contains(n) implies c0.contains(n) || f1.contains(n)
                            || self.clicked@.contains(n) || queue@.contains(n) by {
                        if queue_before.contains(n) {
                            let k = choose|k: int| 0 <= k < queue_before.len() && queue_before[k] == n;
                            if k < queue@.len() {
                                assert(queue@[k] == n);
                            }
                        }
                    }
                }
            }
        }
        proof {
            assert forall|b: (usize, usize)| reachable(d, pos, b) implies self.clicked@.contains(b) by {
                lemma_flood_complete(d, pos, self.clicked@, b);
            }
            assert(self.clicked@ =~= c0.union(flood(d, pos)));
        }
    }
}

impl Data {
    /// Flags each of `auto` whose neighbours are all uncovered.
    fn flag_surrounded(&mut self, auto: &PosSet, Ghost(d): Ghost<Data>)
        requires
            old(self).width == d.width,
            old(self).height == d.height,
            old(self).width >= 1,
            old(self).height >= 1,
        ensures
            final(self).width == old(self).width,
            final(self).height == old(self).height,
            final(self).number_of_mines == old(self).number_of_mines,
            final(self).mines == old(self).mines,
            final(self).clicked == old(self).clicked,
            final(self).flagged@ == old(self).flagged@.union(
                Set::new(
                    |m: (usize, usize)|
                        auto@.contains(m) && forall|n: (usize, usize)|
                            #[trigger] nbrs(d, m).contains(n) ==> old(self).clicked@.contains(n),
                ),
            ),
    {
        proof {
            use_type_invariant(auto);
            auto.lemma_size();
        }
        let ghost target = Set::new(
            |m: (usize, usize)|
                auto@.contains(m) && forall|n: (usize, usize)|
                    #[trigger] nbrs(d, m).contains(n) ==> old(self).clicked@.contains(n),
        );
        let n_auto = auto.len();
        let mut i: usize = 0;
        while i < n_auto
            invariant
                n_auto == auto.elems().len(),
                i <= n_auto,
                self.width == d.width,
                self.height == d.height,
                self.width >= 1,
                self.height >= 1,
                self.number_of_mines == old(self).number_of_mines,
                self.mines == old(self).mines,
                self.clicked == old(self).clicked,
                self.flagged@ == old(self).flagged@.union(
                    Set::new(
                        |m: (usize, usize)|
                            (exists|j: int| 0 <= j < i && auto.elems()[j] == m) && forall|n: (usize, usize)|
                                #[trigger] nbrs(d, m).contains(n) ==> old(self).clicked@.contains(n),
                    ),
                ),
            decreases n_auto - i,
        {
            let m = auto.get(i);
            let around = self.get_neighbours(m, true);
            let ghost before = self.flagged@;
            let surrounded = self.all_clicked(&around);
            if surrounded {
                self.flagged.insert(m);
            }
            proof {
                let next = Set::new(
                    |m: (usize, usize)|
                        (exists|j: int| 0 <= j < i + 1 && auto.elems()[j] == m) && forall|n: (usize, usize)|
                            #[trigger] nbrs(d, m).contains(n) ==> old(self).clicked@.contains(n),
                );
                assert(surrounded == forall|n: (usize, usize)|
                    #[trigger] nbrs(d, m).contains(n) ==> old(self).clicked@.contains(n)) by {
                    if surrounded {
                        assert forall|n: (usize, usize)| #[trigger] nbrs(d, m).contains(n)
                            implies old(self).clicked@.contains(n) by {
                            let k = choose|k: int| 0 <= k < around@.len() && around@[k] == n;
                        }
                    } else {
                        let k = choose|k: int| 0 <= k < around@.len() && !self.clicked@.contains(#[trigger] around@[k]);
                        assert(nbrs(d, m).contains(around@[k]));
                    }
                }
                assert forall|p: (usize, usize)| self.flagged@.contains(p) <==> old(self).flagged@.union(next).contains(p) by {
                    if p != m {
                        if (exists|j: int| 0 <= j < i + 1 && auto.elems()[j] == p) {
                            let j = choose|j: int| 0 <= j < i + 1 && auto.elems()[j] == p;
                            assert(j < i);
                        }
                    }
                }
                assert(self.flagged@ =~= old(self).flagged@.union(next));
            }
            i = i + 1;
        }
        proof {
            assert forall|m: (usize, usize)| auto@.contains(m) implies (exists|j: int| 0 <= j < i && auto.elems()[j] == m) by {
                let j = choose|j: int| 0 <= j < auto.elems().len() && auto.elems()[j] == m;
            }
            assert(self.flagged@ =~= old(self).flagged@.union(target));
        }
    }

    /// The cells to look at first when `pos` is uncovered, and the mines
    /// around `pos`.
    #[verifier::rlimit(50)]
    #[verifier::spinoff_prover]
    fn first_wave(
        &self,
        pos: (usize, usize),
        Ghost(d): Ghost<Data>,
        Ghost(bx): Ghost<int>,
        Ghost(by): Ghost<int>,
    ) -> (r: (Vec<(usize, usize)>, PosSet))
        requires
            self.width == d.width,
            self.height == d.height,
            self.mines == d.mines,
            self.clicked@ == d.clicked@.insert(pos),
            !d.clicked@.contains(pos),
            !d.mines@.contains(pos),
            d.width >= 1,
            d.height >= 1,
            d.width - 1 <= bx,
            d.height - 1 <= by,
            pos.0 <= bx,
            pos.1 <= by,
        ensures
            forall|c: (usize, usize)|
                self.clicked@.contains(c) && !d.clicked@.contains(c) ==> reachable(d, pos, c),
            forall|i: int| 0 <= i < r.0@.len() ==> queued_ok(d, pos, #[trigger] r.0@[i]),
            forall|i: int| 0 <= i < r.0@.len() ==> (#[trigger] r.0@[i]).0 <= bx && r.0@[i].1 <= by,
            forall|v: (usize, usize), n: (usize, usize)|
                self.clicked@.contains(v) && !d.clicked@.contains(v) && !has_mine_nearby(d, v)
                    && #[trigger] nbrs(d, v).contains(n) ==> d.clicked@.contains(n)
                    || d.flagged@.remove(pos).contains(n) || self.clicked@.contains(n)
                    || r.0@.contains(n),
            r.1@ == mines_next_to_new(d, self.clicked@),
    {
        let mut queue = self.get_neighbours(pos, true);
        let mut auto = PosSet::new();
        let mine_next = self.collect_mines(&queue, &mut auto);
        proof {
            assert(queue@ == nbrs(d, pos));
            assert(mine_next == has_mine_nearby(d, pos));
            lemma_first_auto(d, pos, self.clicked@, auto@);
        }
        if mine_next {
            queue.clear();
        }
        proof {
            lemma_first_wave(d, pos, self.clicked@, queue@, mine_next, bx, by);
        }
        (queue, auto)
    }

    /// Uncovers `pos` as `uncovered` says, once the mines are placed. The
    /// result says whether the game is now over (lost, or won).
    pub fn uncover(&mut self, pos: (usize, usize)) -> (r: bool)
        requires
            (!old(self).clicked@.contains(pos) && !old(self).mines@.contains(pos)) ==> {
                &&& old(self).width >= 1
                &&& old(self).height >= 1
                &&& old(self).width * old(self).height <= usize::MAX
            },
        ensures
            uncovered(*old(self), pos, *final(self), r),
    {
        let ghost d = *self;
        if self.clicked.contains(pos) {
            return false;
        }
        self.clicked.insert(pos);
        self.flagged.remove(pos);
        if self.mines.contains(pos) {
            return true;
        }
        let ghost bx: int = if pos.0 >= d.width - 1 { pos.0 as int } else { d.width - 1 };
        let ghost by: int = if pos.1 >= d.height - 1 { pos.1 as int } else { d.height - 1 };
        let (queue, mut auto) = self.first_wave(pos, Ghost(d), Ghost(bx), Ghost(by));
        self.spread(pos, queue, &mut auto, Ghost(d), Ghost(bx), Ghost(by));
        let ghost after_spread = *self;
        self.flag_surrounded(&auto, Ghost(d));
        proof {
            lemma_auto_flags_eq(d, pos, after_spread.clicked@, auto@);
            assert(self.flagged@ =~= d.flagged@.remove(pos).union(auto_flags(d, pos)));
        }
        self.game_has_been_won()
    }
}

} // verus!

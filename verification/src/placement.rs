use vstd::prelude::*;
use crate::data::{Data, spec_index_to_coords};
use crate::pos_set::PosSet;
use crate::uncover::uncovered;

verus! {

broadcast use vstd::seq_lib::group_seq_properties;

/// The random number generator of the `fastrand` crate.
#[verifier::external_type_specification]
#[verifier::external_body]
pub struct ExRng(fastrand::Rng);

/// Picks `amount` of `candidates` at random with fastrand's
/// `Rng::choose_multiple` (reservoir sampling). Which ones come out depends on
/// the generator; what is stated holds of every outcome: exactly `amount` of
/// them come out (the source fills the reservoir with the first `amount` and
/// only ever replaces slots), each is one of the candidates, and no candidate
/// comes out twice. The order in which they come out is not stated.
#[verifier::external_body]
fn choose_positions(rng: &mut fastrand::Rng, candidates: Vec<(usize, usize)>, amount: usize) -> (r:
    Vec<(usize, usize)>)
    requires
        amount <= candidates@.len(),
    ensures
        r@.len() == amount,
        forall|i: int| 0 <= i < r@.len() ==> candidates@.contains(#[trigger] r@[i]),
        candidates@.no_duplicates() ==> r@.no_duplicates(),
{
    rng.choose_multiple(candidates, amount)
}

/// The cells where mines may go when `pos` is the first cell uncovered: every
/// cell of the board but `pos`, in row-major order.
pub open spec fn mine_candidates(width: int, height: int, pos: (usize, usize)) -> Seq<(usize, usize)> {
    board_cells(width, height).filter(other_than(pos))
}

/// Every cell of the board in row-major order.
pub open spec fn board_cells(width: int, height: int) -> Seq<(usize, usize)> {
    Seq::new((width * height) as nat, |i: int| spec_index_to_coords(i, width))
}

/// Holds of every position but `pos`.
pub open spec fn other_than(pos: (usize, usize)) -> spec_fn((usize, usize)) -> bool {
    |c: (usize, usize)| c != pos
}

/// `d` with its mines replaced.
pub open spec fn with_mines(d: Data, mines: PosSet) -> Data {
    Data {
        width: d.width,
        height: d.height,
        number_of_mines: d.number_of_mines,
        flagged: d.flagged,
        clicked: d.clicked,
        mines: mines,
    }
}

/// Clicking `pos` in state `d` stays clear of what overflows or underflows:
/// placing mines counts the cells of the board, and uncovering a cell that
/// is neither uncovered nor a mine looks at its neighbours (a board at least
/// one cell wide and high) and counts the cells.
pub open spec fn click_fits(d: Data, pos: (usize, usize)) -> bool {
    &&& d.mines@.len() == 0 ==> d.width * d.height <= usize::MAX
    &&& (!d.clicked@.contains(pos) && !d.mines@.contains(pos)) ==> {
        &&& d.width >= 1
        &&& d.height >= 1
        &&& d.width * d.height <= usize::MAX
    }
}

/// `after` and `result` are what clicking `pos` in state `before` gives:
/// mines already placed stay; when none is, as many as `number_of_mines` asks
/// (fewer if the board has no room) are placed among `mine_candidates`; then
/// `pos` is uncovered in the state with those mines, as `uncovered` says.
pub open spec fn click_outcome(before: Data, pos: (usize, usize), after: Data, result: bool) -> bool {
    &&& before.mines@.len() > 0 ==> after.mines == before.mines
    &&& before.mines@.len() == 0 ==> {
        let cands = mine_candidates(before.width as int, before.height as int, pos);
        &&& after.mines@.len() == if before.number_of_mines <= cands.len() {
            before.number_of_mines as int
        } else {
            cands.len() as int
        }
        &&& forall|m: (usize, usize)| #[trigger] after.mines@.contains(m) ==> cands.contains(m)
    }
    &&& uncovered(with_mines(before, after.mines), pos, after, result)
}

impl Data {
    /// Every cell of the board but `pos`, in row-major order.
    pub fn candidates_for_mines(&self, pos: (usize, usize)) -> (r: Vec<(usize, usize)>)
        requires
            self.width * self.height <= usize::MAX,
        ensures
            r@ == mine_candidates(self.width as int, self.height as int, pos),
    {
        let total = self.width * self.height;
        let ghost all = board_cells(self.width as int, self.height as int);
        let ghost pred = other_than(pos);
        let mut r: Vec<(usize, usize)> = Vec::new();
        let mut i: usize = 0;
        while i < total
            invariant
                i <= total,
                total == self.width * self.height,
                total > 0 ==> self.width > 0,
                all == board_cells(self.width as int, self.height as int),
                all.len() == total,
                pred == other_than(pos),
                r@ == all.take(i as int).filter(pred),
            decreases total - i,
        {
            proof {
                if self.width == 0 {
                    assert(self.width * self.height == 0) by (nonlinear_arith)
                        requires self.width == 0;
                }
            }
            let c = Data::index_to_coords(i, self.width);
            proof {
                assert(all.take(i + 1) =~= all.take(i as int).push(all[i as int]));
                all.take(i as int).lemma_filter_push(all[i as int], pred);
            }
            if !(c.0 == pos.0 && c.1 == pos.1) {
                r.push(c);
            }
            i = i + 1;
        }
        assert(all.take(total as int) =~= all);
        r
    }

    /// Adds the positions of `chosen` to the mines.
    pub fn place_mines(&mut self, chosen: &Vec<(usize, usize)>)
        ensures
            final(self).mines@ == old(self).mines@.union(chosen@.to_set()),
            final(self).width == old(self).width,
            final(self).height == old(self).height,
            final(self).number_of_mines == old(self).number_of_mines,
            final(self).flagged == old(self).flagged,
            final(self).clicked == old(self).clicked,
    {
        let mut i: usize = 0;
        while i < chosen.len()
            invariant
                i <= chosen@.len(),
                self.mines@ == old(self).mines@.union(chosen@.take(i as int).to_set()),
                self.width == old(self).width,
                self.height == old(self).height,
                self.number_of_mines == old(self).number_of_mines,
                self.flagged == old(self).flagged,
                self.clicked == old(self).clicked,
            decreases chosen@.len() - i,
        {
            self.mines.insert(chosen[i]);
            proof {
                assert(chosen@.take(i + 1) =~= chosen@.take(i as int).push(chosen@[i as int]));
                assert(self.mines@ =~= old(self).mines@.union(chosen@.take(i + 1).to_set()));
            }
            i = i + 1;
        }
        assert(chosen@.take(i as int) =~= chosen@);
    }

    /// Uncovers `pos`. When no mine is placed yet, first places them at random:
    /// as many as `number_of_mines` asks (fewer if the board has no room),
    /// on distinct cells other than `pos`. Then it uncovers `pos` in the state
    /// with those mines as `uncovered` says; the result says whether the game
    /// is now over.
    pub fn click(&mut self, pos: (usize, usize), rng: &mut fastrand::Rng) -> (r: bool)
        requires
            click_fits(*old(self), pos),
        ensures
            click_outcome(*old(self), pos, *final(self), r),
    {
        let ghost start = *self;
        if self.mines.is_empty() {
            let candidates = self.candidates_for_mines(pos);
            let amount = if self.number_of_mines <= candidates.len() {
                self.number_of_mines
            } else {
                candidates.len()
            };
            proof {
                assert(candidates@.no_duplicates()) by {
                    lemma_candidates_distinct(self.width as int, self.height as int, pos);
                }
            }
            let ghost cands = candidates@;
            let chosen = choose_positions(rng, candidates, amount);
            self.place_mines(&chosen);
            proof {
                assert(self.mines@ =~= chosen@.to_set());
                chosen@.unique_seq_to_set();
            }
        }
        let ghost placed = *self;
        assert(placed == with_mines(start, self.mines));
        self.uncover(pos)
    }
}

/// The cells of the board are listed once each.
proof fn lemma_board_cells_distinct(width: int, height: int)
    requires
        width >= 0,
        height >= 0,
        width * height <= usize::MAX,
    ensures
        board_cells(width, height).no_duplicates(),
{
    let all = board_cells(width, height);
    if width == 0 {
        assert(width * height == 0);
        assert(all.len() == 0);
    }
    assert forall|i: int, j: int| 0 <= i < all.len() && 0 <= j < all.len() && i != j implies all[i] != all[j] by {
        lemma_index_coords_fit(i, width, height);
        lemma_index_coords_fit(j, width, height);
        if all[i] == all[j] {
            assert(all[i].0 == i % width && all[i].1 == i / width);
            assert(all[j].0 == j % width && all[j].1 == j / width);
            vstd::arithmetic::div_mod::lemma_fundamental_div_mod(i, width);
            vstd::arithmetic::div_mod::lemma_fundamental_div_mod(j, width);
        }
    }
}

/// The candidates for mines are listed once each.
proof fn lemma_candidates_distinct(width: int, height: int, pos: (usize, usize))
    requires
        width >= 0,
        height >= 0,
        width * height <= usize::MAX,
    ensures
        mine_candidates(width, height, pos).no_duplicates(),
{
    lemma_board_cells_distinct(width, height);
    lemma_filter_no_dups(board_cells(width, height), other_than(pos));
}

/// On a board whose size fits, the candidates for mines around a cell of the
/// board are all the other cells of the board: `width * height - 1` of them,
/// each on the board and none of them `pos`.
pub proof fn lemma_candidates_of_cell(width: int, height: int, pos: (usize, usize))
    requires
        pos.0 < width,
        pos.1 < height,
        width * height <= usize::MAX,
    ensures
        mine_candidates(width, height, pos).len() == width * height - 1,
        forall|c: (usize, usize)| #[trigger] mine_candidates(width, height, pos).contains(c)
            ==> c.0 < width && c.1 < height && c != pos,
{
    broadcast use vstd::seq_lib::group_filter_ensures;
    let all = board_cells(width, height);
    let cands = mine_candidates(width, height, pos);
    lemma_board_cells_distinct(width, height);
    lemma_candidates_distinct(width, height, pos);
    let k = pos.1 * width + pos.0;
    assert(0 <= k < width * height) by (nonlinear_arith)
        requires k == pos.1 * width + pos.0, pos.0 < width, pos.1 < height, pos.0 >= 0, pos.1 >= 0;
    vstd::arithmetic::div_mod::lemma_fundamental_div_mod_converse(k, width, pos.1 as int, pos.0 as int);
    assert(all[k] == pos);
    assert(all.contains(pos));
    assert forall|c: (usize, usize)| #[trigger] cands.contains(c) implies c.0 < width && c.1 < height && c != pos by {
        let j = choose|j: int| 0 <= j < cands.len() && cands[j] == c;
        assert(other_than(pos)(cands[j]));
        lemma_filter_within(all, other_than(pos), c);
        let i = choose|i: int| 0 <= i < all.len() && all[i] == c;
        lemma_index_coords_fit(i, width, height);
        assert(i / width < height) by (nonlinear_arith)
            requires 0 <= i < width * height, width >= 1;
    }
    assert(cands.to_set() =~= all.to_set().remove(pos)) by {
        assert forall|c: (usize, usize)| all.to_set().remove(pos).contains(c) implies cands.to_set().contains(c) by {
            all.lemma_filter_contains_rev(other_than(pos), c);
        }
        assert forall|c: (usize, usize)| cands.to_set().contains(c) implies all.to_set().remove(pos).contains(c) by {
            let j = choose|j: int| 0 <= j < cands.len() && cands[j] == c;
            assert(other_than(pos)(cands[j]));
            lemma_filter_within(all, other_than(pos), c);
        }
    }
    all.unique_seq_to_set();
    cands.unique_seq_to_set();
    assert(all.to_set().contains(pos));
    vstd::seq_lib::seq_to_set_is_finite(all);
}

/// The coordinates of an index of the board fit in `usize`.
proof fn lemma_index_coords_fit(i: int, width: int, height: int)
    requires
        width >= 1,
        0 <= i < width * height,
        width * height <= usize::MAX,
    ensures
        0 <= i % width < width,
        i % width <= i,
        0 <= i / width <= i,
{
    assert(0 <= i % width < width) by (nonlinear_arith) requires width >= 1;
    assert(i % width <= i) by (nonlinear_arith) requires width >= 1, i >= 0;
    assert(0 <= i / width <= i) by (nonlinear_arith) requires width >= 1, i >= 0;
}

/// What filtering keeps was in the list.
pub proof fn lemma_filter_within(s: Seq<(usize, usize)>, p: spec_fn((usize, usize)) -> bool, c: (usize, usize))
    requires
        s.filter(p).contains(c),
    ensures
        s.contains(c),
    decreases s.len(),
{
    reveal_with_fuel(Seq::filter, 1);
    if s.len() > 0 {
        let rest = s.drop_last();
        if c == s.last() {
            assert(s[s.len() - 1] == c);
        } else {
            let f = s.filter(p);
            let j = choose|j: int| 0 <= j < f.len() && f[j] == c;
            if p(s.last()) {
                assert(f == rest.filter(p).push(s.last()));
                assert(rest.filter(p)[j] == c);
            } else {
                assert(f == rest.filter(p));
            }
            assert(rest.filter(p).contains(c));
            lemma_filter_within(rest, p, c);
            let i = choose|i: int| 0 <= i < rest.len() && rest[i] == c;
            assert(s[i] == c);
        }
    }
}

/// Filtering keeps a list free of repeats.
pub proof fn lemma_filter_no_dups(s: Seq<(usize, usize)>, p: spec_fn((usize, usize)) -> bool)
    requires
        s.no_duplicates(),
    ensures
        s.filter(p).no_duplicates(),
    decreases s.len(),
{
    reveal_with_fuel(Seq::filter, 1);
    if s.len() > 0 {
        let rest = s.drop_last();
        assert(rest.no_duplicates());
        lemma_filter_no_dups(rest, p);
        assert(s =~= rest.push(s.last()));
        rest.lemma_filter_push(s.last(), p);
        if p(s.last()) {
            assert(!rest.contains(s.last()));
            if rest.filter(p).contains(s.last()) {
                rest.lemma_filter_contains_rev(p, s.last());
            }
        }
    }
}

} // verus!

use vstd::prelude::*;
use crate::pos_set::PosSet;

verus! {

broadcast use vstd::seq_lib::group_seq_properties;

/// The whole state of a game: the board's size, how many mines it is meant to
/// hold, and which positions are flagged, uncovered and mined. The mines are
/// only placed when the first cell is uncovered.
#[derive(Debug)]
pub struct Data {
    pub width: usize,
    pub height: usize,
    pub number_of_mines: usize,
    pub flagged: PosSet,
    pub clicked: PosSet,
    pub mines: PosSet,
}

// ---------------------------------------------------------------------------
// The board's geometry
// ---------------------------------------------------------------------------

/// `pos` lies on a `width` by `height` board.
pub open spec fn in_grid(width: int, height: int, pos: (usize, usize)) -> bool {
    pos.0 < width && pos.1 < height
}

/// The position that a row-major index stands for.
pub open spec fn spec_index_to_coords(idx: int, width: int) -> (usize, usize) {
    ((idx % width) as usize, (idx / width) as usize)
}

/// The row-major index of a position.
pub open spec fn spec_coords_to_index(pos: (usize, usize), width: int) -> int {
    pos.1 * width + pos.0
}

/// A one-element sequence when `cond` holds, else an empty one.
pub open spec fn opt_pos(cond: bool, pos: (usize, usize)) -> Seq<(usize, usize)> {
    if cond {
        seq![pos]
    } else {
        Seq::empty()
    }
}

/// The neighbours of `pos` in the order the game lists them: left, right,
/// above, below, then (with diagonals) above-left, below-left, above-right and
/// below-right. A neighbour to the right or below exists only while it stays
/// on the board; one to the left or above only while its coordinate stays
/// non-negative.
pub open spec fn neighbours(
    width: int,
    height: int,
    pos: (usize, usize),
    include_diagonals: bool,
) -> Seq<(usize, usize)> {
    let x = pos.0;
    let y = pos.1;
    let left = x > 0;
    let right = x < width - 1;
    let above = y > 0;
    let below = y < height - 1;
    opt_pos(left, ((x - 1) as usize, y))
        + opt_pos(right, ((x + 1) as usize, y))
        + opt_pos(above, (x, (y - 1) as usize))
        + opt_pos(below, (x, (y + 1) as usize))
        + opt_pos(include_diagonals && left && above, ((x - 1) as usize, (y - 1) as usize))
        + opt_pos(include_diagonals && left && below, ((x - 1) as usize, (y + 1) as usize))
        + opt_pos(include_diagonals && right && above, ((x + 1) as usize, (y - 1) as usize))
        + opt_pos(include_diagonals && right && below, ((x + 1) as usize, (y + 1) as usize))
}

// ---------------------------------------------------------------------------
// Counting cells of the board
// ---------------------------------------------------------------------------

/// How many of the cells `(x, 0) .. (x, h - 1)` are not in `s`.
pub open spec fn count_column_unmarked(s: Set<(usize, usize)>, x: usize, h: nat) -> nat
    decreases h,
{
    if h == 0 {
        0
    } else {
        count_column_unmarked(s, x, (h - 1) as nat) + if s.contains((x, (h - 1) as usize)) {
            0nat
        } else {
            1nat
        }
    }
}

/// How many cells of the `w` by `h` board are not in `s`.
pub open spec fn count_unmarked(s: Set<(usize, usize)>, w: nat, h: nat) -> nat
    decreases w,
{
    if w == 0 {
        0
    } else {
        count_unmarked(s, (w - 1) as nat, h) + count_column_unmarked(s, (w - 1) as usize, h)
    }
}

pub proof fn lemma_count_column_bound(s: Set<(usize, usize)>, x: usize, h: nat)
    ensures
        count_column_unmarked(s, x, h) <= h,
    decreases h,
{
    if h > 0 {
        lemma_count_column_bound(s, x, (h - 1) as nat);
    }
}

pub proof fn lemma_count_bound(s: Set<(usize, usize)>, w: nat, h: nat)
    ensures
        count_unmarked(s, w, h) <= w * h,
    decreases w,
{
    if w > 0 {
        lemma_count_bound(s, (w - 1) as nat, h);
        lemma_count_column_bound(s, (w - 1) as usize, h);
        assert((w - 1) * h + h == w * h) by (nonlinear_arith);
    }
}

/// Marking one more cell of a column takes one off the column's count.
pub proof fn lemma_count_column_insert(s: Set<(usize, usize)>, x: usize, h: nat, q: (usize, usize))
    requires
        !s.contains(q),
        h <= usize::MAX + 1,
    ensures
        count_column_unmarked(s.insert(q), x, h) + (if q.0 == x && q.1 < h {
            1nat
        } else {
            0nat
        }) == count_column_unmarked(s, x, h),
    decreases h,
{
    if h > 0 {
        lemma_count_column_insert(s, x, (h - 1) as nat, q);
    }
}

/// Marking one more cell of the board takes one off the count.
pub proof fn lemma_count_insert(s: Set<(usize, usize)>, w: nat, h: nat, q: (usize, usize))
    requires
        !s.contains(q),
        w <= usize::MAX + 1,
        h <= usize::MAX + 1,
    ensures
        count_unmarked(s.insert(q), w, h) + (if q.0 < w && q.1 < h {
            1nat
        } else {
            0nat
        }) == count_unmarked(s, w, h),
    decreases w,
{
    if w > 0 {
        lemma_count_insert(s, (w - 1) as nat, h, q);
        lemma_count_column_insert(s, (w - 1) as usize, h, q);
    }
}

/// The cells that count as interacted with: the uncovered ones, and the flagged
/// ones too when flags count.
pub open spec fn interacted(d: Data, flags_are_interaction: bool) -> Set<(usize, usize)> {
    if flags_are_interaction {
        d.clicked@.union(d.flagged@)
    } else {
        d.clicked@
    }
}

/// How many cells of the board have not been interacted with.
pub open spec fn uninteracted_count(d: Data, flags_are_interaction: bool) -> nat {
    count_unmarked(interacted(d, flags_are_interaction), d.width as nat, d.height as nat)
}

// ---------------------------------------------------------------------------
// The state of the game
// ---------------------------------------------------------------------------

/// Some mine has been uncovered.
pub open spec fn spec_lost(d: Data) -> bool {
    exists|p: (usize, usize)| d.mines@.contains(p) && d.clicked@.contains(p)
}

/// The mines are placed, every cell that is not a mine is uncovered, and no
/// mine is.
pub open spec fn spec_won(d: Data) -> bool {
    &&& d.mines@.len() > 0
    &&& uninteracted_count(d, false) == d.mines@.len()
    &&& d.mines@.disjoint(d.clicked@)
}

/// The mines are placed, and either a mine is uncovered or as many cells are
/// still covered as there are mines.
pub open spec fn spec_over(d: Data) -> bool {
    &&& d.mines@.len() > 0
    &&& (spec_lost(d) || uninteracted_count(d, false) == d.mines@.len())
}

/// How many of the neighbours of `pos` (diagonals included) are mines.
pub open spec fn mine_count(d: Data, pos: (usize, usize)) -> nat {
    neighbours(d.width as int, d.height as int, pos, true).filter(
        |n: (usize, usize)| d.mines@.contains(n),
    ).len()
}

/// The hint of every cell in row-major order.
pub open spec fn spec_counts(d: Data) -> Seq<u8> {
    Seq::new(
        (d.width * d.height) as nat,
        |i: int| mine_count(d, spec_index_to_coords(i, d.width as int)) as u8,
    )
}

/// The sum of the row-major indices of `s`, each times `multiplier`.
pub open spec fn index_sum(s: Seq<(usize, usize)>, width: int, multiplier: int) -> int
    decreases s.len(),
{
    if s.len() == 0 {
        0
    } else {
        index_sum(s.drop_last(), width, multiplier) + spec_coords_to_index(s.last(), width)
            * multiplier
    }
}

/// A cheap fingerprint of a game state.
pub open spec fn spec_hash(d: Data) -> int {
    d.height * d.width * d.number_of_mines + index_sum(d.mines.elems(), d.width as int, 1)
        + index_sum(d.clicked.elems(), d.width as int, 3) + index_sum(
        d.flagged.elems(),
        d.width as int,
        5,
    )
}

/// Deciding whether the game is over counts the covered cells only when the
/// mines are placed and none is uncovered; the number of cells must then fit.
pub open spec fn over_fits(d: Data) -> bool {
    (d.mines@.len() > 0 && !spec_lost(d)) ==> d.width * d.height <= usize::MAX
}

/// Toggling a flag at `pos` counts the covered cells only when it places a
/// flag; the number of cells must then fit.
pub open spec fn flag_fits(d: Data, pos: (usize, usize)) -> bool {
    (!d.flagged@.contains(pos) && d.flagged@.len() < d.mines@.len() && d.mines@.len() > 0
        && !d.clicked@.contains(pos)) ==> d.width * d.height <= usize::MAX
}

/// The positions after a flag is toggled at `pos`.
pub open spec fn spec_toggled_flags(d: Data, pos: (usize, usize)) -> Set<(usize, usize)> {
    if d.flagged@.contains(pos) {
        d.flagged@.remove(pos)
    } else if d.flagged@.len() < d.mines@.len() && d.mines@.len() > 0 && !d.clicked@.contains(
        pos,
    ) {
        d.flagged@.insert(pos)
    } else {
        d.flagged@
    }
}

pub proof fn lemma_index_sum_nonneg(s: Seq<(usize, usize)>, width: int, multiplier: int)
    requires
        width >= 0,
        multiplier >= 0,
    ensures
        index_sum(s, width, multiplier) >= 0,
    decreases s.len(),
{
    if s.len() > 0 {
        lemma_index_sum_nonneg(s.drop_last(), width, multiplier);
        let p = s.last();
        assert(spec_coords_to_index(p, width) * multiplier >= 0) by (nonlinear_arith)
            requires width >= 0, multiplier >= 0, p.0 >= 0, p.1 >= 0;
    }
}

/// The prefix sums of `index_sum` never exceed the whole sum.
pub proof fn lemma_index_sum_prefix(s: Seq<(usize, usize)>, width: int, multiplier: int, i: int)
    requires
        width >= 0,
        multiplier >= 0,
        0 <= i <= s.len(),
    ensures
        index_sum(s.take(i), width, multiplier) <= index_sum(s, width, multiplier),
    decreases s.len() - i,
{
    if i < s.len() {
        lemma_index_sum_prefix(s, width, multiplier, i + 1);
        assert(s.take(i + 1).drop_last() =~= s.take(i));
        let p = s[i];
        assert(spec_coords_to_index(p, width) * multiplier >= 0) by (nonlinear_arith)
            requires width >= 0, multiplier >= 0, p.0 >= 0, p.1 >= 0;
    } else {
        assert(s.take(i) =~= s);
    }
}

/// Sums the row-major indices of the positions of `set`, each times `multiplier`.
fn index_total(set: &PosSet, width: usize, multiplier: usize) -> (r: usize)
    requires
        multiplier >= 1,
        index_sum(set.elems(), width as int, multiplier as int) <= usize::MAX,
    ensures
        r == index_sum(set.elems(), width as int, multiplier as int),
{
    let n = set.len();
    let mut total: usize = 0;
    let mut i: usize = 0;
    while i < n
        invariant
            n == set.elems().len(),
            i <= n,
            multiplier >= 1,
            index_sum(set.elems(), width as int, multiplier as int) <= usize::MAX,
            total == index_sum(set.elems().take(i as int), width as int, multiplier as int),
        decreases n - i,
    {
        let p = set.get(i);
        proof {
            lemma_index_sum_prefix(set.elems(), width as int, multiplier as int, i + 1);
            assert(set.elems().take(i + 1).drop_last() =~= set.elems().take(i as int));
            lemma_index_sum_nonneg(set.elems().take(i as int), width as int, multiplier as int);
            assert(p.1 * width <= spec_coords_to_index(p, width as int)) by (nonlinear_arith)
                requires p.0 >= 0;
            assert(spec_coords_to_index(p, width as int) <= spec_coords_to_index(p, width as int)
                * multiplier) by (nonlinear_arith)
                requires multiplier >= 1, spec_coords_to_index(p, width as int) >= 0;
        }
        let idx = Data::coords_to_index(p, width);
        total = total + idx * multiplier;
        i = i + 1;
    }
    assert(set.elems().take(n as int) =~= set.elems());
    total
}

impl Clone for Data {
    fn clone(&self) -> (r: Self)
        ensures
            r.width == self.width,
            r.height == self.height,
            r.number_of_mines == self.number_of_mines,
            r.flagged.elems() == self.flagged.elems(),
            r.clicked.elems() == self.clicked.elems(),
            r.mines.elems() == self.mines.elems(),
    {
        Data {
            width: self.width,
            height: self.height,
            number_of_mines: self.number_of_mines,
            flagged: self.flagged.clone(),
            clicked: self.clicked.clone(),
            mines: self.mines.clone(),
        }
    }
}

impl Data {
    pub fn new_blank(width: usize, height: usize, number_of_mines: usize) -> (r: Self)
        ensures
            r.width == width,
            r.height == height,
            r.number_of_mines == number_of_mines,
            r.flagged@ == Set::<(usize, usize)>::empty(),
            r.clicked@ == Set::<(usize, usize)>::empty(),
            r.mines@ == Set::<(usize, usize)>::empty(),
            r.flagged.elems().len() == 0,
            r.clicked.elems().len() == 0,
            r.mines.elems().len() == 0,
    {
        Self {
            width,
            height,
            number_of_mines,
            flagged: PosSet::new(),
            clicked: PosSet::new(),
            mines: PosSet::new(),
        }
    }

    pub fn index_to_coords(idx: usize, width: usize) -> (r: (usize, usize))
        requires
            width > 0,
        ensures
            r == spec_index_to_coords(idx as int, width as int),
    {
        (idx % width, idx / width)
    }

    pub fn coords_to_index(pos: (usize, usize), width: usize) -> (r: usize)
        requires
            spec_coords_to_index(pos, width as int) <= usize::MAX,
        ensures
            r == spec_coords_to_index(pos, width as int),
    {
        proof {
            assert(pos.1 * width <= pos.1 * width + pos.0) by (nonlinear_arith)
                requires pos.0 >= 0;
        }
        pos.1 * width + pos.0
    }

    /// Counts the cells that have not been interacted with; with
    /// `FLAGS_ARE_INTERACTION` a flagged cell counts as interacted with.
    pub fn total_uninteracted<const FLAGS_ARE_INTERACTION: bool>(&self) -> (r: usize)
        requires
            self.width * self.height <= usize::MAX,
        ensures
            r == uninteracted_count(*self, FLAGS_ARE_INTERACTION),
    {
        let ghost s = interacted(*self, FLAGS_ARE_INTERACTION);
        let mut count: usize = 0;
        let mut x: usize = 0;
        while x < self.width
            invariant
                x <= self.width,
                self.width * self.height <= usize::MAX,
                s == interacted(*self, FLAGS_ARE_INTERACTION),
                count == count_unmarked(s, x as nat, self.height as nat),
            decreases self.width - x,
        {
            let mut y: usize = 0;
            proof {
                lemma_count_bound(s, x as nat, self.height as nat);
                assert(x * self.height + self.height <= self.width * self.height) by (nonlinear_arith)
                    requires x < self.width;
            }
            while y < self.height
                invariant
                    x < self.width,
                    y <= self.height,
                    s == interacted(*self, FLAGS_ARE_INTERACTION),
                    count == count_unmarked(s, x as nat, self.height as nat)
                        + count_column_unmarked(s, x, y as nat),
                    count_unmarked(s, x as nat, self.height as nat) + self.height <= usize::MAX,
                decreases self.height - y,
            {
                proof {
                    lemma_count_column_bound(s, x, y as nat);
                }
                let pos = (x, y);
                let interacted_here = self.clicked.contains(pos) || (self.flagged.contains(pos)
                    && FLAGS_ARE_INTERACTION);
                if !interacted_here {
                    count = count + 1;
                }
                y = y + 1;
            }
            x = x + 1;
        }
        count
    }

    /// A cheap fingerprint of the state.
    pub fn shitty_hash(&self) -> (r: usize)
        requires
            self.height * self.width <= usize::MAX,
            spec_hash(*self) <= usize::MAX,
        ensures
            r == spec_hash(*self),
    {
        let w = self.width;
        proof {
            lemma_index_sum_nonneg(self.mines.elems(), w as int, 1);
            lemma_index_sum_nonneg(self.clicked.elems(), w as int, 3);
            lemma_index_sum_nonneg(self.flagged.elems(), w as int, 5);
            assert(0 <= self.height * self.width * self.number_of_mines) by (nonlinear_arith);
        }
        let m = index_total(&self.mines, w, 1);
        let c = index_total(&self.clicked, w, 3);
        let f = index_total(&self.flagged, w, 5);
        self.height * self.width * self.number_of_mines + m + c + f
    }

    /// The neighbours of `pos`, as `neighbours` lists them.
    pub fn get_neighbours(&self, pos: (usize, usize), include_diagonals: bool) -> (r: Vec<
        (usize, usize),
    >)
        requires
            self.width >= 1,
            self.height >= 1,
        ensures
            r@ == neighbours(self.width as int, self.height as int, pos, include_diagonals),
    {
        let (x, y) = pos;
        let left = x > 0;
        let right = x < self.width - 1;
        let above = y > 0;
        let below = y < self.height - 1;
        let mut r: Vec<(usize, usize)> = Vec::new();
        if left {
            r.push((x - 1, y));
        }
        if right {
            r.push((x + 1, y));
        }
        if above {
            r.push((x, y - 1));
        }
        if below {
            r.push((x, y + 1));
        }
        if include_diagonals && left && above {
            r.push((x - 1, y - 1));
        }
        if include_diagonals && left && below {
            r.push((x - 1, y + 1));
        }
        if include_diagonals && right && above {
            r.push((x + 1, y - 1));
        }
        if include_diagonals && right && below {
            r.push((x + 1, y + 1));
        }
        assert(r@ =~= neighbours(self.width as int, self.height as int, pos, include_diagonals));
        r
    }

    /// How many of `cells` are mines.
    pub fn count_mines_among(&self, cells: &Vec<(usize, usize)>) -> (r: usize)
        ensures
            r == cells@.filter(|n: (usize, usize)| self.mines@.contains(n)).len(),
    {
        let ghost pred = |n: (usize, usize)| self.mines@.contains(n);
        let mut count: usize = 0;
        let mut i: usize = 0;
        while i < cells.len()
            invariant
                i <= cells@.len(),
                pred == (|n: (usize, usize)| self.mines@.contains(n)),
                count == cells@.take(i as int).filter(pred).len(),
                count <= i,
            decreases cells@.len() - i,
        {
            proof {
                assert(cells@.take(i + 1) =~= cells@.take(i as int).push(cells@[i as int]));
                cells@.take(i as int).lemma_filter_push(cells@[i as int], pred);
            }
            if self.mines.contains(cells[i]) {
                count = count + 1;
            }
            i = i + 1;
        }
        assert(cells@.take(i as int) =~= cells@);
        count
    }

    /// Whether all of `cells` are uncovered.
    pub fn all_clicked(&self, cells: &Vec<(usize, usize)>) -> (r: bool)
        ensures
            r == (forall|i: int| 0 <= i < cells@.len() ==> self.clicked@.contains(#[trigger] cells@[i])),
    {
        let mut i: usize = 0;
        while i < cells.len()
            invariant
                i <= cells@.len(),
                forall|j: int| 0 <= j < i ==> self.clicked@.contains(#[trigger] cells@[j]),
            decreases cells@.len() - i,
        {
            if !self.clicked.contains(cells[i]) {
                return false;
            }
            i = i + 1;
        }
        true
    }

    /// Whether some uncovered position is a mine.
    pub fn game_has_been_lost(&self) -> (r: bool)
        ensures
            r == spec_lost(*self),
    {
        proof {
            use_type_invariant(&self.mines);
            self.mines.lemma_size();
        }
        let n = self.mines.len();
        let mut i: usize = 0;
        while i < n
            invariant
                n == self.mines.elems().len(),
                i <= n,
                forall|j: int| 0 <= j < i ==> !self.clicked@.contains(#[trigger] self.mines.elems()[j]),
            decreases n - i,
        {
            let p = self.mines.get(i);
            if self.clicked.contains(p) {
                assert(self.mines@.contains(p));
                return true;
            }
            i = i + 1;
        }
        proof {
            assert forall|p: (usize, usize)| self.mines@.contains(p) implies !self.clicked@.contains(p) by {
                let k = choose|k: int| 0 <= k < self.mines.elems().len() && self.mines.elems()[k] == p;
            }
        }
        false
    }

    pub fn game_has_been_won(&self) -> (r: bool)
        requires
            self.width * self.height <= usize::MAX,
        ensures
            r == spec_won(*self),
    {
        if self.mines.is_empty() {
            return false;
        }
        if self.total_uninteracted::<false>() != self.mines.len() {
            return false;
        }
        let lost = self.game_has_been_lost();
        assert(self.mines@.disjoint(self.clicked@) == !spec_lost(*self));
        !lost
    }

    pub fn game_is_over(&self) -> (r: bool)
        requires
            over_fits(*self),
        ensures
            r == spec_over(*self),
    {
        if self.mines.is_empty() {
            return false;
        }
        self.game_has_been_lost() || self.total_uninteracted::<false>() == self.mines.len()
    }

    /// Whether toggling a flag at `pos` changes anything is decided as in
    /// `spec_toggled_flags`; the result says whether placing this flag left
    /// exactly the mines covered.
    pub fn toggle_flag(&mut self, pos: (usize, usize)) -> (r: bool)
        requires
            flag_fits(*old(self), pos),
        ensures
            final(self).flagged@ == spec_toggled_flags(*old(self), pos),
            final(self).width == old(self).width,
            final(self).height == old(self).height,
            final(self).number_of_mines == old(self).number_of_mines,
            final(self).clicked == old(self).clicked,
            final(self).mines == old(self).mines,
            r == (!old(self).flagged@.contains(pos) && spec_toggled_flags(*old(self), pos)
                != old(self).flagged@ && uninteracted_count(*old(self), false)
                == old(self).mines@.len()),
    {
        if self.flagged.contains(pos) {
            self.flagged.remove(pos);
        } else if self.flagged.len() < self.mines.len() && !self.mines.is_empty()
            && !self.clicked.contains(pos) {
            self.flagged.insert(pos);
            assert(!old(self).flagged@.insert(pos).remove(pos).contains(pos));
            assert(spec_toggled_flags(*old(self), pos) != old(self).flagged@) by {
                assert(spec_toggled_flags(*old(self), pos).contains(pos));
            }
            assert(uninteracted_count(*self, false) == uninteracted_count(*old(self), false));
            return self.total_uninteracted::<false>() == self.mines.len();
        }
        false
    }

    /// The hint of every cell in row-major order, once the mines are placed.
    pub fn generate_counts(&self) -> (r: Option<Vec<u8>>)
        requires
            self.width * self.height <= usize::MAX,
        ensures
            self.mines@.len() == 0 ==> r is None,
            self.mines@.len() > 0 ==> (r matches Some(v) && v@ == spec_counts(*self)),
    {
        if self.mines.is_empty() {
            return None;
        }
        let mut counts: Vec<u8> = Vec::new();
        let mut y: usize = 0;
        while y < self.height
            invariant
                y <= self.height,
                self.width * self.height <= usize::MAX,
                counts@.len() == y * self.width,
                forall|i: int| 0 <= i < counts@.len() ==> #[trigger] counts@[i] == spec_counts(*self)[i],
            decreases self.height - y,
        {
            let mut x: usize = 0;
            proof {
                assert(y * self.width + self.width <= self.width * self.height) by (nonlinear_arith)
                    requires y < self.height;
            }
            while x < self.width
                invariant
                    y < self.height,
                    x <= self.width,
                    self.width * self.height <= usize::MAX,
                    y * self.width + self.width <= self.width * self.height,
                    counts@.len() == y * self.width + x,
                    forall|i: int| 0 <= i < counts@.len() ==> #[trigger] counts@[i] == spec_counts(*self)[i],
                decreases self.width - x,
            {
                let pos = (x, y);
                let around = self.get_neighbours(pos, true);
                let count = self.count_mines_among(&around);
                proof {
                    let i = y * self.width + x;
                    vstd::arithmetic::div_mod::lemma_fundamental_div_mod_converse(
                        i,
                        self.width as int,
                        y as int,
                        x as int,
                    );
                    assert(spec_index_to_coords(i, self.width as int) == pos);
                    assert(count <= 8) by {
                        around@.filter(|n: (usize, usize)| self.mines@.contains(n)).lemma_filter_len(
                            |n: (usize, usize)| self.mines@.contains(n));
                    }
                }
                counts.push(count as u8);
                x = x + 1;
            }
            proof {
                assert(y * self.width + self.width == (y + 1) * self.width) by (nonlinear_arith);
            }
            y = y + 1;
        }
        assert(self.height * self.width == self.width * self.height) by (nonlinear_arith);
        assert(counts@ =~= spec_counts(*self));
        Some(counts)
    }
}

} // verus!

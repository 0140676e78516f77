//! Properties of the game that hold across its operations.

use vstd::prelude::*;
use crate::data::{
    Data, neighbours, opt_pos, in_grid, spec_index_to_coords, spec_coords_to_index, spec_won, spec_lost,
    spec_over, spec_toggled_flags, spec_hash, index_sum, mine_count, spec_counts,
};
use crate::placement::{lemma_filter_within, mine_candidates, board_cells, other_than, click_outcome, with_mines, lemma_candidates_of_cell};
use crate::board::{element_type, spec_uv, GridElementType, RenderedGridElement, SpriteAtlas};
use crate::tile::{Tile, new_state, tis_of, mine_bit, flag_bit, discovered_bit, TileInteractionState};
use crate::uncover::{uncovered, flood, reachable, is_spread_path, spreads, has_mine_nearby, nbrs, lemma_reach_start, lemma_reach_not_clicked, lemma_reach_extend, lemma_no_mine_nbr, auto_flags};

verus! {

broadcast use vstd::seq_lib::group_seq_properties;

// ---------------------------------------------------------------------------
// Tiles
// ---------------------------------------------------------------------------

/// Toggling the flag bit twice gives the byte back.
pub proof fn law_tile_toggle_twice(state: u8)
    ensures
        (state ^ 2u8) ^ 2u8 == state,
{
    assert((state ^ 2u8) ^ 2u8 == state) by (bit_vector);
}

/// Toggling a tile's flag twice gives the same tile back (`u` is `t` after one
/// `toggle_flag`, `v` is `u` after another), and uncovering a tile a second
/// time (`c2` is `c1` after another `click`, `c1` is `t` after one) leaves
/// it the same tile.
pub proof fn law_tile_repeated_moves(t: Tile, u: Tile, v: Tile, c1: Tile, c2: Tile)
    requires
        u.spec_state() == t.spec_state() ^ 2u8,
        v.spec_state() == u.spec_state() ^ 2u8,
        c2.spec_state() == c1.spec_state() | 4u8,
        c1.spec_state() == t.spec_state() | 4u8,
    ensures
        v == t,
        c2 == c1,
{
    law_tile_toggle_twice(t.spec_state());
    law_tile_click_idempotent(t.spec_state());
    Tile::law_tile_is_its_state(v, t);
    Tile::law_tile_is_its_state(c2, c1);
}

/// Uncovering a tile a second time changes nothing.
pub proof fn law_tile_click_idempotent(state: u8)
    ensures
        (state | 4u8) | 4u8 == state | 4u8,
{
    assert((state | 4u8) | 4u8 == state | 4u8) by (bit_vector);
}

/// Neither flagging nor uncovering changes whether a tile is a mine, and an
/// uncovered tile stays uncovered whatever its flag does.
pub proof fn law_tile_mine_kept(state: u8)
    ensures
        mine_bit(state ^ 2u8) == mine_bit(state),
        mine_bit(state | 4u8) == mine_bit(state),
        discovered_bit(state | 4u8),
        discovered_bit(state) ==> discovered_bit(state ^ 2u8),
        tis_of(state | 4u8) == TileInteractionState::Discovered,
        flag_bit(state ^ 2u8) == !flag_bit(state),
{
    assert(((state ^ 2u8) & 1u8 != 0) == (state & 1u8 != 0)) by (bit_vector);
    assert(((state | 4u8) & 1u8 != 0) == (state & 1u8 != 0)) by (bit_vector);
    assert((state | 4u8) & 4u8 != 0) by (bit_vector);
    assert((state & 4u8 != 0) ==> ((state ^ 2u8) & 4u8 != 0)) by (bit_vector);
    assert(((state ^ 2u8) & 2u8 != 0) == !(state & 2u8 != 0)) by (bit_vector);
}

/// A new tile reads back as the interaction state and the mine it was made with.
pub proof fn law_tile_new_reads_back(is_mine: bool, tis: TileInteractionState)
    ensures
        tis_of(new_state(is_mine, tis)) == tis,
        mine_bit(new_state(is_mine, tis)) == is_mine,
{
    let first: u8 = if is_mine { 1u8 } else { 0u8 };
    assert(first <= 1u8 ==> (first | 4u8) & 4u8 != 0 && (first | 4u8) & 1u8 == first) by (bit_vector);
    assert(first <= 1u8 ==> (first | 2u8) & 4u8 == 0 && (first | 2u8) & 2u8 != 0 && (first | 2u8) & 1u8 == first) by (bit_vector);
    assert(first <= 1u8 ==> first & 4u8 == 0 && first & 2u8 == 0 && first & 1u8 == first) by (bit_vector);
}

// ---------------------------------------------------------------------------
// The board's geometry
// ---------------------------------------------------------------------------

/// A cell's index on the board gives the cell back.
pub proof fn law_index_round_trip(pos: (usize, usize), width: int)
    requires
        pos.0 < width,
        spec_coords_to_index(pos, width) <= usize::MAX,
    ensures
        spec_index_to_coords(spec_coords_to_index(pos, width), width) == pos,
{
    assert(pos.1 * width >= 0) by (nonlinear_arith) requires width >= 1;
    vstd::arithmetic::div_mod::lemma_fundamental_div_mod_converse(
        spec_coords_to_index(pos, width),
        width,
        pos.1 as int,
        pos.0 as int,
    );
}

/// On the board, the neighbours of a cell are exactly the other cells of the
/// board at most one step away in each direction, and (without diagonals)
/// in the same row or column.
pub proof fn law_neighbours_exact(
    width: int,
    height: int,
    a: (usize, usize),
    include_diagonals: bool,
    b: (usize, usize),
)
    requires
        width <= usize::MAX,
        height <= usize::MAX,
        in_grid(width, height, a),
    ensures
        neighbours(width, height, a, include_diagonals).contains(b) <==> (in_grid(width, height, b)
            && b != a && a.0 - 1 <= b.0 <= a.0 + 1 && a.1 - 1 <= b.1 <= a.1 + 1 && (include_diagonals
            || b.0 == a.0 || b.1 == a.1)),
{
    let x = a.0;
    let y = a.1;
    let dg = include_diagonals;
    let left = x > 0;
    let right = x < width - 1;
    let above = y > 0;
    let below = y < height - 1;
    let p1 = opt_pos(left, ((x - 1) as usize, y));
    let p2 = opt_pos(right, ((x + 1) as usize, y));
    let p3 = opt_pos(above, (x, (y - 1) as usize));
    let p4 = opt_pos(below, (x, (y + 1) as usize));
    let p5 = opt_pos(dg && left && above, ((x - 1) as usize, (y - 1) as usize));
    let p6 = opt_pos(dg && left && below, ((x - 1) as usize, (y + 1) as usize));
    let p7 = opt_pos(dg && right && above, ((x + 1) as usize, (y - 1) as usize));
    let p8 = opt_pos(dg && right && below, ((x + 1) as usize, (y + 1) as usize));
    lemma_opt_pos_contains(left, ((x - 1) as usize, y), b);
    lemma_opt_pos_contains(right, ((x + 1) as usize, y), b);
    lemma_opt_pos_contains(above, (x, (y - 1) as usize), b);
    lemma_opt_pos_contains(below, (x, (y + 1) as usize), b);
    lemma_opt_pos_contains(dg && left && above, ((x - 1) as usize, (y - 1) as usize), b);
    lemma_opt_pos_contains(dg && left && below, ((x - 1) as usize, (y + 1) as usize), b);
    lemma_opt_pos_contains(dg && right && above, ((x + 1) as usize, (y - 1) as usize), b);
    lemma_opt_pos_contains(dg && right && below, ((x + 1) as usize, (y + 1) as usize), b);
    vstd::seq_lib::lemma_seq_concat_contains_all_elements(p1, p2, b);
    vstd::seq_lib::lemma_seq_concat_contains_all_elements(p1 + p2, p3, b);
    vstd::seq_lib::lemma_seq_concat_contains_all_elements(p1 + p2 + p3, p4, b);
    vstd::seq_lib::lemma_seq_concat_contains_all_elements(p1 + p2 + p3 + p4, p5, b);
    vstd::seq_lib::lemma_seq_concat_contains_all_elements(p1 + p2 + p3 + p4 + p5, p6, b);
    vstd::seq_lib::lemma_seq_concat_contains_all_elements(p1 + p2 + p3 + p4 + p5 + p6, p7, b);
    vstd::seq_lib::lemma_seq_concat_contains_all_elements(
        p1 + p2 + p3 + p4 + p5 + p6 + p7,
        p8,
        b,
    );
    assert(neighbours(width, height, a, include_diagonals) == p1 + p2 + p3 + p4 + p5 + p6 + p7 + p8);
}

/// No neighbour is listed twice, and the neighbours without diagonals come
/// first in the list with diagonals, in the same order.
#[verifier::rlimit(80)]
#[verifier::spinoff_prover]
pub proof fn law_neighbours_order(width: int, height: int, a: (usize, usize), include_diagonals: bool)
    requires
        width <= usize::MAX,
        height <= usize::MAX,
        in_grid(width, height, a),
    ensures
        neighbours(width, height, a, include_diagonals).no_duplicates(),
        neighbours(width, height, a, false) == neighbours(width, height, a, true).take(
            neighbours(width, height, a, false).len() as int,
        ),
{
    let t = neighbours(width, height, a, true);
    let f = neighbours(width, height, a, false);
    assert(f =~= t.take(f.len() as int));
    let s = neighbours(width, height, a, include_diagonals);
    assert forall|i: int, j: int| 0 <= i < s.len() && 0 <= j < s.len() && i != j implies s[i] != s[j] by {
        assert(s.contains(s[i]) && s.contains(s[j]));
    }
}

/// An optional single cell holds `b` exactly when it is there and is `b`.
proof fn lemma_opt_pos_contains(cond: bool, p: (usize, usize), b: (usize, usize))
    ensures
        opt_pos(cond, p).contains(b) <==> (cond && p == b),
{
    if cond {
        assert(opt_pos(cond, p)[0] == p);
    }
}

// ---------------------------------------------------------------------------
// The state of the game
// ---------------------------------------------------------------------------

/// A game is over exactly when it is won or lost.
pub proof fn law_over_exactly_when_won_or_lost(d: Data)
    ensures
        spec_over(d) <==> (spec_won(d) || spec_lost(d)),
{
    if spec_lost(d) {
        let p = choose|p: (usize, usize)| d.mines@.contains(p) && d.clicked@.contains(p);
        assert(d.mines@.len() > 0) by {
            vstd::set_lib::lemma_set_empty_equivalency_len(d.mines@);
            assert(d.mines@.contains(p));
        }
    } else {
        assert(d.mines@.disjoint(d.clicked@));
    }
}

/// Covering the uncovered mines again (what `Board::undo_mistake` does to a
/// lost game) leaves a game that is not lost.
pub proof fn law_undo_mistake_clears_loss(d: Data, e: Data)
    requires
        e.mines@ == d.mines@,
        e.clicked@ == d.clicked@.difference(d.mines@),
    ensures
        !spec_lost(e),
{
}

/// Toggling a flag that was just placed takes it away again.
pub proof fn law_flag_toggle_undo(d: Data, e: Data, pos: (usize, usize))
    requires
        !d.flagged@.contains(pos),
        e.flagged@ == spec_toggled_flags(d, pos),
        e.flagged@ != d.flagged@,
    ensures
        spec_toggled_flags(e, pos) == d.flagged@,
{
    assert(e.flagged@.contains(pos));
    assert(e.flagged@.remove(pos) =~= d.flagged@);
}

/// Flags are never placed beyond the number of mines.
pub proof fn law_flags_bounded(d: Data, pos: (usize, usize))
    requires
        d.flagged@.finite(),
        d.flagged@.len() <= d.mines@.len(),
    ensures
        spec_toggled_flags(d, pos).finite(),
        spec_toggled_flags(d, pos).len() <= d.mines@.len(),
{
}

/// The fingerprint of a game depends on its sets of cells, not on the order
/// in which they are held.
pub proof fn law_hash_order_free(d: Data, e: Data)
    requires
        d.flagged.inv(),
        d.clicked.inv(),
        d.mines.inv(),
        e.flagged.inv(),
        e.clicked.inv(),
        e.mines.inv(),
        d.width == e.width,
        d.height == e.height,
        d.number_of_mines == e.number_of_mines,
        d.flagged@ == e.flagged@,
        d.clicked@ == e.clicked@,
        d.mines@ == e.mines@,
    ensures
        spec_hash(d) == spec_hash(e),
{
    lemma_index_sum_order_free(d.mines.elems(), e.mines.elems(), d.width as int, 1);
    lemma_index_sum_order_free(d.clicked.elems(), e.clicked.elems(), d.width as int, 3);
    lemma_index_sum_order_free(d.flagged.elems(), e.flagged.elems(), d.width as int, 5);
}

/// Summing the indices of two lists of the same distinct cells gives the same.
proof fn lemma_index_sum_order_free(a: Seq<(usize, usize)>, b: Seq<(usize, usize)>, width: int, multiplier: int)
    requires
        a.no_duplicates(),
        b.no_duplicates(),
        a.to_set() == b.to_set(),
    ensures
        index_sum(a, width, multiplier) == index_sum(b, width, multiplier),
    decreases a.len(),
{
    if a.len() == 0 {
        b.unique_seq_to_set();
        assert(a.to_set() =~= Set::<(usize, usize)>::empty());
        assert(b.len() == 0);
    } else {
        let x = a.last();
        assert(a.to_set().contains(x)) by {
            assert(a[a.len() - 1] == x);
        }
        assert(b.contains(x));
        let k = choose|k: int| 0 <= k < b.len() && b[k] == x;
        let a1 = a.drop_last();
        let b1 = b.remove(k);
        assert(a1.no_duplicates()) by {
            assert forall|i: int, j: int| 0 <= i < a1.len() && 0 <= j < a1.len() && i != j implies a1[i] != a1[j] by {
                assert(a1[i] == a[i] && a1[j] == a[j]);
            }
        }
        assert(b1.no_duplicates()) by {
            assert forall|i: int, j: int| 0 <= i < b1.len() && 0 <= j < b1.len() && i != j implies b1[i] != b1[j] by {
                let ii = if i < k { i } else { i + 1 };
                let jj = if j < k { j } else { j + 1 };
                assert(b1[i] == b[ii] && b1[j] == b[jj]);
            }
        }
        assert(a1.to_set() =~= b1.to_set()) by {
            assert forall|c: (usize, usize)| a1.to_set().contains(c) implies b1.to_set().contains(c) by {
                let i = choose|i: int| 0 <= i < a1.len() && a1[i] == c;
                assert(a[i] == c);
                assert(c != x);
                assert(a.to_set().contains(c));
                assert(b.contains(c));
                let j = choose|j: int| 0 <= j < b.len() && b[j] == c;
                assert(j != k);
                if j < k {
                    assert(b1[j] == c);
                } else {
                    assert(b1[j - 1] == c);
                }
            }
            assert forall|c: (usize, usize)| b1.to_set().contains(c) implies a1.to_set().contains(c) by {
                let j = choose|j: int| 0 <= j < b1.len() && b1[j] == c;
                let jj = if j < k { j } else { j + 1 };
                assert(b[jj] == c);
                assert(jj != k);
                assert(c != x);
                assert(b.to_set().contains(c));
                assert(a.contains(c));
                let i = choose|i: int| 0 <= i < a.len() && a[i] == c;
                assert(i != a.len() - 1);
                assert(a1[i] == c);
            }
        }
        lemma_index_sum_order_free(a1, b1, width, multiplier);
        lemma_index_sum_remove(b, k, width, multiplier);
    }
}

/// Taking one cell out of a list takes its index out of the sum.
proof fn lemma_index_sum_remove(s: Seq<(usize, usize)>, k: int, width: int, multiplier: int)
    requires
        0 <= k < s.len(),
    ensures
        index_sum(s, width, multiplier) == index_sum(s.remove(k), width, multiplier)
            + spec_coords_to_index(s[k], width) * multiplier,
    decreases s.len(),
{
    if k == s.len() - 1 {
        assert(s.remove(k) =~= s.drop_last());
    } else {
        lemma_index_sum_remove(s.drop_last(), k, width, multiplier);
        let r = s.remove(k);
        assert(r.drop_last() =~= s.drop_last().remove(k));
        assert(r.last() == s.last());
        assert(s.drop_last()[k] == s[k]);
    }
}

/// The hint of cell `(x, y)` of the board is the number of mines among its
/// neighbours (diagonals included), which is at most eight; so is every hint.
pub proof fn law_counts_exact(d: Data, x: usize, y: usize)
    requires
        x < d.width,
        y < d.height,
        d.width * d.height <= usize::MAX,
    ensures
        y * d.width + x < d.width * d.height,
        spec_counts(d)[y * d.width + x] == mine_count(d, (x, y)),
        mine_count(d, (x, y)) <= 8,
        forall|i: int| 0 <= i < d.width * d.height ==> #[trigger] spec_counts(d)[i] <= 8,
{
    let w = d.width as int;
    let k = y * w + x;
    assert(0 <= k < w * d.height) by (nonlinear_arith)
        requires k == y * w + x, x < w, y < d.height, x >= 0, y >= 0;
    vstd::arithmetic::div_mod::lemma_fundamental_div_mod_converse(k, w, y as int, x as int);
    assert(spec_index_to_coords(k, w) == (x, y));
    lemma_mine_count_at_most_eight(d, (x, y));
    assert forall|i: int| 0 <= i < d.width * d.height implies #[trigger] spec_counts(d)[i] <= 8 by {
        lemma_mine_count_at_most_eight(d, spec_index_to_coords(i, w));
    }
}

/// No cell has more than eight neighbours, so no more than eight mines around it.
proof fn lemma_mine_count_at_most_eight(d: Data, c: (usize, usize))
    ensures
        mine_count(d, c) <= 8,
{
    broadcast use vstd::seq_lib::group_filter_ensures;
    let ns = neighbours(d.width as int, d.height as int, c, true);
    assert(ns.len() <= 8);
    assert(ns.filter(|n: (usize, usize)| d.mines@.contains(n)).len() <= ns.len());
}

/// The sum over the cells of `s` of each cell's row-major index times `multiplier`.
pub open spec fn set_index_sum(s: Set<(usize, usize)>, width: int, multiplier: int) -> int {
    index_sum(s.to_seq(), width, multiplier)
}

/// The fingerprint of a game is the board's size times the number of mines,
/// plus the indices of the mines, three times those of the uncovered cells
/// and five times those of the flagged cells, each summed over its set.
pub proof fn law_hash_over_sets(d: Data)
    requires
        d.flagged.inv(),
        d.clicked.inv(),
        d.mines.inv(),
    ensures
        spec_hash(d) == d.height * d.width * d.number_of_mines + set_index_sum(d.mines@, d.width as int, 1)
            + set_index_sum(d.clicked@, d.width as int, 3) + set_index_sum(d.flagged@, d.width as int, 5),
{
    lemma_set_sum_agrees(d.mines.elems(), d.width as int, 1);
    lemma_set_sum_agrees(d.clicked.elems(), d.width as int, 3);
    lemma_set_sum_agrees(d.flagged.elems(), d.width as int, 5);
}

/// Summing over a list of distinct cells is summing over their set.
proof fn lemma_set_sum_agrees(s: Seq<(usize, usize)>, width: int, multiplier: int)
    requires
        s.no_duplicates(),
    ensures
        index_sum(s, width, multiplier) == set_index_sum(s.to_set(), width, multiplier),
{
    let set = s.to_set();
    vstd::seq_lib::seq_to_set_is_finite(s);
    set.lemma_to_seq_to_set_id();
    lemma_to_seq_len(set);
    s.unique_seq_to_set();
    set.to_seq().lemma_no_dup_set_cardinality();
    lemma_index_sum_order_free(s, set.to_seq(), width, multiplier);
}

/// Listing a finite set lists as many cells as it holds.
proof fn lemma_to_seq_len(s: Set<(usize, usize)>)
    requires
        s.finite(),
    ensures
        s.to_seq().len() == s.len(),
    decreases s.len(),
{
    if s.len() > 0 {
        let x = s.choose();
        lemma_to_seq_len(s.remove(x));
    }
}

/// What a cell of the board shows: an uncovered mine is exploded; a covered
/// mine shows as a mine once the game is over; an uncovered cell that is not
/// a mine shows its hint exactly when some other cell of the board at most
/// one step away in each direction (diagonals included) is still covered;
/// every other cell shows as covered.
pub proof fn law_render_cell(d: Data, over: bool, pos: (usize, usize))
    requires
        in_grid(d.width as int, d.height as int, pos),
    ensures
        (d.mines@.contains(pos) && d.clicked@.contains(pos)) ==> element_type(d, over, pos)
            == GridElementType::Exploded,
        (d.mines@.contains(pos) && !d.clicked@.contains(pos) && over) ==> element_type(d, over, pos)
            == GridElementType::Mine,
        (!d.mines@.contains(pos) && d.clicked@.contains(pos)) ==> element_type(d, over, pos)
            == (GridElementType::Discovered {
            should_display_count: exists|n: (usize, usize)|
                in_grid(d.width as int, d.height as int, n) && n != pos && pos.0 - 1 <= n.0 <= pos.0 + 1
                    && pos.1 - 1 <= n.1 <= pos.1 + 1 && !d.clicked@.contains(n),
        }),
        (!d.clicked@.contains(pos) && !(d.mines@.contains(pos) && over)) ==> element_type(d, over, pos)
            == GridElementType::Undiscovered,
{
    let w = d.width as int;
    let h = d.height as int;
    let a = exists|n: (usize, usize)| #[trigger] nbrs(d, pos).contains(n) && !d.clicked@.contains(n);
    let b = exists|n: (usize, usize)|
        in_grid(w, h, n) && n != pos && pos.0 - 1 <= n.0 <= pos.0 + 1 && pos.1 - 1 <= n.1 <= pos.1 + 1
            && !d.clicked@.contains(n);
    if a {
        let n = choose|n: (usize, usize)| #[trigger] nbrs(d, pos).contains(n) && !d.clicked@.contains(n);
        law_neighbours_exact(w, h, pos, true, n);
    }
    if b {
        let n = choose|n: (usize, usize)|
            in_grid(w, h, n) && n != pos && pos.0 - 1 <= n.0 <= pos.0 + 1 && pos.1 - 1 <= n.1 <= pos.1 + 1
                && !d.clicked@.contains(n);
        law_neighbours_exact(w, h, pos, true, n);
        assert(nbrs(d, pos).contains(n));
    }
    assert(a == b);
}

/// In every atlas the hints 1 to 8 lie in two rows of four, in order: hint
/// `n` at column `(n - 1) % 4` of the atlas's first hint row (row 0 for
/// WinMine, row 3 for RTX and row 1 for the dark set) plus `(n - 1) / 4`;
/// an unflagged uncovered cell that shows its hint is drawn with that picture.
pub proof fn law_uv_digits(atlas: SpriteAtlas, n: u8, game_is_over: bool)
    requires
        1 <= n <= 8,
    ensures
        ({
            let e = RenderedGridElement {
                ty: GridElementType::Discovered { should_display_count: true },
                flagged: false,
            };
            let first_row: int = match atlas {
                SpriteAtlas::WinMine => 0,
                SpriteAtlas::RTXOn => 3,
                SpriteAtlas::DarkMode => 1,
            };
            let uv = spec_uv(e, n, game_is_over, atlas);
            &&& uv.x == (n - 1) % 4
            &&& uv.y == first_row + (n - 1) / 4
            &&& uv.columns == 4
            &&& uv.rows == (if atlas == SpriteAtlas::RTXOn { 6int } else { 4int })
        }),
{
}

/// Every picture a cell can show lies inside its atlas.
pub proof fn law_uv_inside_atlas(e: RenderedGridElement, count: u8, game_is_over: bool, atlas: SpriteAtlas)
    ensures
        spec_uv(e, count, game_is_over, atlas).x < spec_uv(e, count, game_is_over, atlas).columns,
        spec_uv(e, count, game_is_over, atlas).y < spec_uv(e, count, game_is_over, atlas).rows,
{
}

// ---------------------------------------------------------------------------
// Uncovering cells
// ---------------------------------------------------------------------------

/// The first cell uncovered is never among the places a mine may go.
pub proof fn law_first_click_safe(width: int, height: int, pos: (usize, usize))
    ensures
        !mine_candidates(width, height, pos).contains(pos),
{
    let s = mine_candidates(width, height, pos);
    if s.contains(pos) {
        board_cells(width, height).lemma_filter_contains_rev(other_than(pos), pos);
        let k = choose|k: int| 0 <= k < s.len() && s[k] == pos;
        broadcast use vstd::seq_lib::group_filter_ensures;
        assert(other_than(pos)(s[k]));
    }
}

/// On a fresh board (no mine placed, nothing uncovered) the first click
/// never uncovers a mine: the mines go elsewhere and the game is not lost.
/// For a click on the board, as many mines are placed as asked for but at
/// most one less than there are cells, all of them on the board, the cell
/// ends up uncovered, and the result says whether the game is won.
pub proof fn law_first_click_never_loses(before: Data, pos: (usize, usize), after: Data, result: bool)
    requires
        before.mines@.len() == 0,
        before.clicked@ == Set::<(usize, usize)>::empty(),
        click_outcome(before, pos, after, result),
    ensures
        !after.mines@.contains(pos),
        !spec_lost(after),
        after.clicked@.contains(pos),
        result == spec_won(after),
        (in_grid(before.width as int, before.height as int, pos) && before.width * before.height
            <= usize::MAX) ==> {
            &&& after.mines@.len() == if before.number_of_mines <= before.width * before.height - 1 {
                before.number_of_mines as int
            } else {
                before.width * before.height - 1
            }
            &&& forall|m: (usize, usize)| #[trigger] after.mines@.contains(m)
                ==> in_grid(before.width as int, before.height as int, m)
        },
{
    let placed = with_mines(before, after.mines);
    if after.mines@.contains(pos) {
        law_first_click_safe(before.width as int, before.height as int, pos);
    }
    law_uncover_monotone(placed, pos, after, result);
    if spec_lost(placed) {
        let p = choose|p: (usize, usize)| placed.mines@.contains(p) && placed.clicked@.contains(p);
        assert(before.clicked@.contains(p));
    }
    if in_grid(before.width as int, before.height as int, pos) && before.width * before.height
        <= usize::MAX {
        lemma_candidates_of_cell(before.width as int, before.height as int, pos);
    }
}

/// Uncovering only ever adds uncovered cells and keeps the mines; the cell
/// itself ends up uncovered; and uncovering a cell that is not a mine
/// uncovers no mine, so it never loses a game that was not lost.
pub proof fn law_uncover_monotone(before: Data, pos: (usize, usize), after: Data, result: bool)
    requires
        uncovered(before, pos, after, result),
    ensures
        before.clicked@.subset_of(after.clicked@),
        after.clicked@.contains(pos),
        after.mines@ == before.mines@,
        !before.mines@.contains(pos) ==> (spec_lost(after) == spec_lost(before)),
{
    if !before.clicked@.contains(pos) && !before.mines@.contains(pos) {
        lemma_reach_start(before, pos);
        assert forall|c: (usize, usize)| #[trigger] flood(before, pos).contains(c) implies !before.mines@.contains(c) by {
            lemma_flood_safe(before, pos, c);
        }
        if spec_lost(after) {
            let p = choose|p: (usize, usize)| after.mines@.contains(p) && after.clicked@.contains(p);
            assert(before.clicked@.contains(p));
        }
    }
}

/// The mines that get a flag when uncovering `pos` in state `before` leads to
/// state `after`: mines next to a newly uncovered cell whose neighbours are
/// now all uncovered.
pub open spec fn newly_flagged(before: Data, pos: (usize, usize), after: Data) -> Set<(usize, usize)> {
    Set::new(
        |m: (usize, usize)|
            {
                &&& before.mines@.contains(m)
                &&& exists|c: (usize, usize)| #[trigger]
                    after.clicked@.difference(before.clicked@).contains(c) && nbrs(before, c).contains(m)
                &&& forall|n: (usize, usize)| #[trigger] nbrs(before, m).contains(n) ==> after.clicked@.contains(n)
            },
    )
}

/// Uncovering a covered cell that is not a mine: the newly uncovered cells
/// hold `pos` and no mine; each other one was not flagged and lies next to a
/// newly uncovered cell with no mine around it; every neighbour of a newly
/// uncovered cell with no mine around it ends up uncovered or flagged; the
/// flags are the old ones (without `pos`) and the mines of `newly_flagged`;
/// and the result says whether the game is won.
pub proof fn law_uncover_region(before: Data, pos: (usize, usize), after: Data, result: bool)
    requires
        uncovered(before, pos, after, result),
        !before.mines@.contains(pos),
        !before.clicked@.contains(pos),
    ensures
        after.clicked@.difference(before.clicked@).contains(pos),
        forall|c: (usize, usize)| #[trigger] after.clicked@.difference(before.clicked@).contains(c)
            ==> !before.mines@.contains(c),
        forall|c: (usize, usize)| #[trigger] after.clicked@.difference(before.clicked@).contains(c) && c != pos
            ==> !before.flagged@.contains(c) && exists|d: (usize, usize)| #[trigger]
            after.clicked@.difference(before.clicked@).contains(d) && nbrs(before, d).contains(c)
                && !has_mine_nearby(before, d),
        forall|c: (usize, usize), n: (usize, usize)|
            #![trigger after.clicked@.difference(before.clicked@).contains(c), nbrs(before, c).contains(n)]
            after.clicked@.difference(before.clicked@).contains(c) && !has_mine_nearby(before, c)
                && nbrs(before, c).contains(n) ==> after.clicked@.contains(n) || after.flagged@.contains(n),
        after.flagged@ == before.flagged@.remove(pos).union(newly_flagged(before, pos, after)),
        result == spec_won(after),
{
    let fl = flood(before, pos);
    let new_cells = after.clicked@.difference(before.clicked@);
    assert forall|c: (usize, usize)| fl.contains(c) implies !before.clicked@.contains(c) by {
        lemma_reach_not_clicked(before, pos, c);
    }
    assert(new_cells =~= fl);
    lemma_reach_start(before, pos);
    assert forall|c: (usize, usize)| #[trigger] new_cells.contains(c) implies !before.mines@.contains(c) by {
        lemma_flood_safe(before, pos, c);
    }
    assert forall|c: (usize, usize)| #[trigger] new_cells.contains(c) && c != pos implies !before.flagged@.contains(c)
        && exists|d: (usize, usize)| #[trigger] new_cells.contains(d) && nbrs(before, d).contains(c)
        && !has_mine_nearby(before, d) by {
        let path = choose|path: Seq<(usize, usize)>| #[trigger]
            is_spread_path(before, pos, path) && path.last() == c;
        assert(path.len() > 1);
        let k = path.len() - 2;
        let d = path[k];
        assert(spreads(before, pos, path[k], path[k + 1]));
        let prefix = path.take(k + 1);
        assert forall|i: int| 0 <= i < prefix.len() - 1 implies spreads(before, pos, #[trigger] prefix[i], prefix[i + 1]) by {
            assert(prefix[i] == path[i] && prefix[i + 1] == path[i + 1]);
            assert(spreads(before, pos, path[i], path[i + 1]));
        }
        assert(is_spread_path(before, pos, prefix));
        assert(prefix.last() == d);
        assert(reachable(before, pos, d));
        assert(fl.contains(d));
        assert(new_cells.contains(d));
    }
    assert forall|c: (usize, usize), n: (usize, usize)|
        new_cells.contains(c) && !has_mine_nearby(before, c) && nbrs(before, c).contains(n)
        implies after.clicked@.contains(n) || after.flagged@.contains(n) by {
        if !before.clicked@.contains(n) && !before.flagged@.remove(pos).contains(n) {
            assert(spreads(before, pos, c, n));
            lemma_reach_extend(before, pos, c, n);
            assert(fl.contains(n));
        }
    }
    assert(after.clicked@ =~= before.clicked@.union(fl));
    assert(auto_flags(before, pos) =~= newly_flagged(before, pos, after)) by {
        assert forall|m: (usize, usize)| auto_flags(before, pos).contains(m) implies newly_flagged(before, pos, after).contains(m) by {
            let s0 = choose|s0: (usize, usize)| #[trigger] fl.contains(s0) && nbrs(before, s0).contains(m);
            assert(new_cells.contains(s0));
        }
        assert forall|m: (usize, usize)| newly_flagged(before, pos, after).contains(m) implies auto_flags(before, pos).contains(m) by {
            let s0 = choose|s0: (usize, usize)| #[trigger] new_cells.contains(s0) && nbrs(before, s0).contains(m);
            assert(fl.contains(s0));
        }
    }
}

/// Being neighbours goes both ways, for two cells of the board.
pub proof fn law_neighbours_symmetric(
    width: int,
    height: int,
    a: (usize, usize),
    b: (usize, usize),
    include_diagonals: bool,
)
    requires
        width <= usize::MAX,
        height <= usize::MAX,
        in_grid(width, height, a),
        in_grid(width, height, b),
    ensures
        neighbours(width, height, a, include_diagonals).contains(b) <==> neighbours(
            width,
            height,
            b,
            include_diagonals,
        ).contains(a),
{
    law_neighbours_exact(width, height, a, include_diagonals, b);
    law_neighbours_exact(width, height, b, include_diagonals, a);
}

/// A cell has no mine around it exactly when its count of neighbouring mines is zero.
pub proof fn law_no_mine_nearby_is_zero_count(d: Data, c: (usize, usize))
    ensures
        !has_mine_nearby(d, c) <==> mine_count(d, c) == 0,
{
    broadcast use vstd::seq_lib::group_filter_ensures;
    let ns = nbrs(d, c);
    let pred = |n: (usize, usize)| d.mines@.contains(n);
    let f = ns.filter(pred);
    assert(f == neighbours(d.width as int, d.height as int, c, true).filter(
        |n: (usize, usize)| d.mines@.contains(n),
    ));
    if has_mine_nearby(d, c) {
        let i = choose|i: int| 0 <= i < ns.len() && d.mines@.contains(#[trigger] ns[i]);
        assert(pred(ns[i]));
        assert(f.contains(ns[i]));
    }
    if f.len() > 0 {
        assert(pred(f[0]));
        assert(f.contains(f[0]));
        lemma_filter_within(ns, pred, f[0]);
        let i = choose|i: int| 0 <= i < ns.len() && ns[i] == f[0];
        assert(d.mines@.contains(ns[i]));
    }
}

/// Every cell that uncovering a cell of the board reaches is on the board.
proof fn lemma_path_in_grid(d: Data, pos: (usize, usize), path: Seq<(usize, usize)>, i: int)
    requires
        in_grid(d.width as int, d.height as int, pos),
        is_spread_path(d, pos, path),
        0 <= i < path.len(),
    ensures
        in_grid(d.width as int, d.height as int, path[i]),
    decreases i,
{
    if i > 0 {
        lemma_path_in_grid(d, pos, path, i - 1);
        assert(spreads(d, pos, path[i - 1], path[i]));
        law_neighbours_exact(d.width as int, d.height as int, path[i - 1], true, path[i]);
    }
}

/// On a board whose clicked cell is on it, each newly uncovered cell other
/// than the clicked one has among its own neighbours a newly uncovered cell
/// with no mine around it.
pub proof fn law_uncover_region_neighbour(before: Data, pos: (usize, usize), after: Data, result: bool)
    requires
        uncovered(before, pos, after, result),
        !before.mines@.contains(pos),
        !before.clicked@.contains(pos),
        in_grid(before.width as int, before.height as int, pos),
    ensures
        forall|c: (usize, usize)| #[trigger] after.clicked@.difference(before.clicked@).contains(c) && c != pos
            ==> exists|d: (usize, usize)| #[trigger]
            after.clicked@.difference(before.clicked@).contains(d) && nbrs(before, c).contains(d)
                && !has_mine_nearby(before, d),
{
    law_uncover_region(before, pos, after, result);
    let new_cells = after.clicked@.difference(before.clicked@);
    let fl = flood(before, pos);
    assert forall|c: (usize, usize)| fl.contains(c) implies !before.clicked@.contains(c) by {
        lemma_reach_not_clicked(before, pos, c);
    }
    assert(new_cells =~= fl);
    assert forall|c: (usize, usize)| #[trigger] new_cells.contains(c) && c != pos implies exists|d: (usize, usize)| #[trigger]
        new_cells.contains(d) && nbrs(before, c).contains(d) && !has_mine_nearby(before, d) by {
        let d = choose|d: (usize, usize)| #[trigger]
            new_cells.contains(d) && nbrs(before, d).contains(c) && !has_mine_nearby(before, d);
        let pc = choose|path: Seq<(usize, usize)>| #[trigger] is_spread_path(before, pos, path) && path.last() == c;
        lemma_path_in_grid(before, pos, pc, pc.len() - 1);
        let pd = choose|path: Seq<(usize, usize)>| #[trigger] is_spread_path(before, pos, path) && path.last() == d;
        lemma_path_in_grid(before, pos, pd, pd.len() - 1);
        law_neighbours_symmetric(before.width as int, before.height as int, c, d, true);
    }
}

/// Every cell reached from a cell that is not a mine is not a mine.
proof fn lemma_flood_safe(d: Data, pos: (usize, usize), c: (usize, usize))
    requires
        !d.mines@.contains(pos),
        reachable(d, pos, c),
    ensures
        !d.mines@.contains(c),
{
    let path = choose|path: Seq<(usize, usize)>| #[trigger]
        is_spread_path(d, pos, path) && path.last() == c;
    if path.len() > 1 {
        let i = path.len() - 2;
        assert(spreads(d, pos, path[i], path[i + 1]));
        lemma_no_mine_nbr(d, path[i], path[i + 1]);
    }
}

} // verus!

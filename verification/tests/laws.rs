use minesweeper::data::Data;
use minesweeper::pos_set::PosSet;
use minesweeper::tile::{Tile, TileInteractionState};

fn set_of(cells: &[(usize, usize)]) -> PosSet {
    let mut s = PosSet::new();
    for c in cells {
        s.insert(*c);
    }
    s
}

fn board_with(width: usize, height: usize, mines: &[(usize, usize)]) -> Data {
    let mut d = Data::new_blank(width, height, mines.len());
    d.mines = set_of(mines);
    d
}

fn cells(s: &PosSet) -> Vec<(usize, usize)> {
    (0..s.len()).map(|i| s.get(i)).collect()
}

#[test]
fn tile_bits_laws() {
    for state in 0..=255u8 {
        let mut t = Tile::from_state(state);
        let mine = t.is_mine();
        t.toggle_flag();
        assert_eq!(t.is_mine(), mine);
        t.toggle_flag();
        assert_eq!(t.get_state(), state);
        t.click();
        let once = t.get_state();
        t.click();
        assert_eq!(t.get_state(), once);
        assert_eq!(t.get_tis(), TileInteractionState::Discovered);
        assert_eq!(t.is_mine(), mine);
    }
    for mine in [true, false] {
        for tis in [
            TileInteractionState::Undiscovered,
            TileInteractionState::Flagged,
            TileInteractionState::Discovered,
        ] {
            let t = Tile::new(mine, tis);
            assert_eq!(t.get_tis(), tis);
            assert_eq!(t.is_mine(), mine);
        }
    }
}

#[test]
fn index_round_trip_law() {
    for width in 1..6usize {
        for y in 0..5usize {
            for x in 0..width {
                let i = Data::coords_to_index((x, y), width);
                assert_eq!(Data::index_to_coords(i, width), (x, y));
            }
        }
    }
}

#[test]
fn neighbours_law() {
    let (w, h) = (4usize, 3usize);
    let d = Data::new_blank(w, h, 1);
    for y in 0..h {
        for x in 0..w {
            let mut got = d.get_neighbours((x, y), true);
            got.sort();
            let mut want = Vec::new();
            for by in 0..h {
                for bx in 0..w {
                    let near = bx + 1 >= x && bx <= x + 1 && by + 1 >= y && by <= y + 1;
                    if near && (bx, by) != (x, y) {
                        want.push((bx, by));
                    }
                }
            }
            want.sort();
            assert_eq!(got, want);
        }
    }
}

#[test]
fn won_or_lost_is_over_law() {
    let mut d = board_with(2, 2, &[(1, 1)]);
    d.clicked = set_of(&[(1, 1)]);
    assert!(d.game_has_been_lost());
    assert!(d.game_is_over());
    let mut d = board_with(2, 2, &[(1, 1)]);
    d.clicked = set_of(&[(0, 0), (0, 1), (1, 0)]);
    assert!(d.game_has_been_won());
    assert!(d.game_is_over());
}

#[test]
fn flag_toggle_undo_law() {
    let mut d = board_with(3, 3, &[(2, 2)]);
    d.toggle_flag((0, 0));
    assert_eq!(cells(&d.flagged), vec![(0, 0)]);
    d.toggle_flag((0, 0));
    assert!(d.flagged.is_empty());
}

#[test]
fn flags_bounded_law() {
    let mut d = board_with(3, 3, &[(2, 2), (1, 2)]);
    for y in 0..3 {
        for x in 0..3 {
            d.toggle_flag((x, y));
            assert!(d.flagged.len() <= d.mines.len());
        }
    }
    assert_eq!(d.flagged.len(), 2);
}

#[test]
fn first_click_safe_law() {
    let d = Data::new_blank(4, 4, 15);
    for y in 0..4 {
        for x in 0..4 {
            let c = d.candidates_for_mines((x, y));
            assert_eq!(c.len(), 15);
            assert!(!c.contains(&(x, y)));
        }
    }
}

#[test]
fn uncover_monotone_law() {
    let mut d = board_with(4, 4, &[(3, 3), (0, 3)]);
    d.clicked = set_of(&[(3, 0)]);
    let before = cells(&d.clicked);
    let lost_before = d.game_has_been_lost();
    d.uncover((0, 0));
    for c in before {
        assert!(d.clicked.contains(c));
    }
    assert!(d.clicked.contains((0, 0)));
    assert_eq!(cells(&d.mines), vec![(3, 3), (0, 3)]);
    assert_eq!(d.game_has_been_lost(), lost_before);
}

#[test]
fn first_click_never_loses_law() {
    for seed in 0..40u64 {
        let mut rng = fastrand::Rng::with_seed(seed);
        let mut d = Data::new_blank(3, 3, 8);
        let pos = ((seed % 3) as usize, (seed / 3 % 3) as usize);
        d.click(pos, &mut rng);
        assert!(!d.mines.contains(pos));
        assert!(!d.game_has_been_lost());
    }
}

#[test]
fn over_only_when_won_or_lost() {
    let mut d = board_with(3, 3, &[(1, 1)]);
    d.clicked = set_of(&[(0, 0)]);
    assert!(!d.game_has_been_won());
    assert!(!d.game_has_been_lost());
    assert!(!d.game_is_over());
}

#[test]
fn undo_mistake_clears_loss_law() {
    let mut d = board_with(3, 3, &[(2, 2), (0, 2)]);
    d.clicked = set_of(&[(2, 2), (0, 0), (0, 2)]);
    assert!(d.game_has_been_lost());
    d.uncover_mines_again();
    assert!(!d.game_has_been_lost());
    assert_eq!(cells(&d.clicked), vec![(0, 0)]);
}

#[test]
fn click_on_placed_mines_needs_no_size() {
    let mut rng = fastrand::Rng::with_seed(1);
    // a mine is uncovered without looking at the board's size
    let mut d = board_with(0, 0, &[(0, 0)]);
    assert!(d.click((0, 0), &mut rng));
    assert!(d.game_has_been_lost());
    // an uncovered cell changes nothing
    let mut d = board_with(0, 0, &[(1, 1)]);
    d.clicked = set_of(&[(0, 0)]);
    assert!(!d.click((0, 0), &mut rng));
    assert_eq!(cells(&d.clicked), vec![(0, 0)]);
}

#[test]
fn first_click_places_all_it_can() {
    for seed in 0..10u64 {
        let mut rng = fastrand::Rng::with_seed(seed);
        let mut d = Data::new_blank(3, 2, 50);
        let won = d.click((1, 1), &mut rng);
        assert_eq!(d.mines.len(), 5);
        assert!(won);
        assert!(d.game_has_been_won());
        for (x, y) in cells(&d.mines) {
            assert!(x < 3 && y < 2);
        }
    }
}

#[test]
fn uncover_region_law() {
    let mut d = board_with(4, 4, &[(3, 3)]);
    d.flagged = set_of(&[(0, 3)]);
    d.uncover((0, 0));
    let mut c = cells(&d.clicked);
    c.sort();
    // everything but the mine and the flagged cell; the cells next to the mine
    // are uncovered but do not spread
    assert_eq!(c.len(), 14);
    assert!(!d.clicked.contains((3, 3)) && !d.clicked.contains((0, 3)));
    // the mine's neighbours are all uncovered, so it gets a flag
    let mut f = cells(&d.flagged);
    f.sort();
    assert_eq!(f, vec![(0, 3), (3, 3)]);
}

#[test]
fn neighbours_without_diagonals_come_first() {
    let d = Data::new_blank(4, 3, 1);
    for y in 0..3 {
        for x in 0..4 {
            let all = d.get_neighbours((x, y), true);
            let straight = d.get_neighbours((x, y), false);
            assert_eq!(&all[..straight.len()], &straight[..]);
            for (bx, by) in &straight {
                assert!(*bx == x || *by == y);
            }
            let mut seen = all.clone();
            seen.sort();
            seen.dedup();
            assert_eq!(seen.len(), all.len());
        }
    }
}

#[test]
fn hash_ignores_order() {
    let mut a = board_with(3, 3, &[(2, 2), (0, 1)]);
    a.clicked = set_of(&[(0, 0), (1, 0)]);
    a.flagged = set_of(&[(1, 1), (2, 0)]);
    let mut b = board_with(3, 3, &[(0, 1), (2, 2)]);
    b.clicked = set_of(&[(1, 0), (0, 0)]);
    b.flagged = set_of(&[(2, 0), (1, 1)]);
    assert_eq!(a.shitty_hash(), b.shitty_hash());
    let mut e = board_with(3, 3, &[(2, 2)]);
    e.flagged = set_of(&[(1, 1)]);
    e.clicked = set_of(&[(0, 0)]);
    assert_eq!(e.shitty_hash(), 37);
}

#[test]
fn counts_law() {
    let all: Vec<(usize, usize)> = (0..3).flat_map(|y| (0..3).map(move |x| (x, y))).collect();
    let mines: Vec<(usize, usize)> = all.iter().copied().filter(|p| *p != (1, 1)).collect();
    let d = board_with(3, 3, &mines);
    let counts = d.generate_counts().unwrap();
    assert_eq!(counts[1 * 3 + 1], 8);
    for (i, c) in counts.iter().enumerate() {
        let (x, y) = (i % 3, i / 3);
        let n = d.get_neighbours((x, y), true).iter().filter(|p| d.mines.contains(**p)).count();
        assert_eq!(*c as usize, n);
        assert!(*c <= 8);
    }
}

#[test]
fn neighbours_symmetric_law() {
    let d = Data::new_blank(4, 3, 1);
    for y in 0..3 {
        for x in 0..4 {
            for b in d.get_neighbours((x, y), true) {
                assert!(d.get_neighbours(b, true).contains(&(x, y)));
            }
        }
    }
}

#[test]
fn removing_a_flag_needs_no_size() {
    let mut d = board_with(0, 0, &[(1, 1)]);
    d.flagged = set_of(&[(1, 1)]);
    assert!(!d.toggle_flag((1, 1)));
    assert!(d.flagged.is_empty());
}

#[test]
fn tile_repeated_moves_law() {
    for s in 0..=255u8 {
        let t = Tile::from_state(s);
        let mut u = t;
        u.toggle_flag();
        u.toggle_flag();
        assert_eq!(u, t);
        let mut c = t;
        c.click();
        let once = c;
        c.click();
        assert_eq!(c, once);
        assert_eq!(Tile::from_state(t.get_state()), t);
    }
}

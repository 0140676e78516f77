use minesweeper::data::Data;
use minesweeper::pos_set::PosSet;

fn set_of(cells: &[(usize, usize)]) -> PosSet {
    let mut s = PosSet::new();
    for c in cells {
        s.insert(*c);
    }
    s
}

fn board_with(width: usize, height: usize, mines: &[(usize, usize)]) -> Data {
    let mut d = Data::new_blank(width, height, mines.len());
    d.mines = set_of(mines);
    d
}

fn sorted(s: &PosSet) -> Vec<(usize, usize)> {
    let mut v: Vec<(usize, usize)> = (0..s.len()).map(|i| s.get(i)).collect();
    v.sort();
    v
}

#[test]
fn new_blank_is_empty() {
    let d = Data::new_blank(4, 3, 2);
    assert_eq!(d.width, 4);
    assert_eq!(d.height, 3);
    assert_eq!(d.number_of_mines, 2);
    assert!(d.flagged.is_empty());
    assert!(d.clicked.is_empty());
    assert!(d.mines.is_empty());
}

#[test]
fn index_and_coords() {
    assert_eq!(Data::index_to_coords(7, 3), (1, 2));
    assert_eq!(Data::coords_to_index((1, 2), 3), 7);
    assert_eq!(Data::index_to_coords(0, 5), (0, 0));
    assert_eq!(Data::coords_to_index((4, 0), 5), 4);
}

#[test]
fn neighbours_in_order() {
    let d = Data::new_blank(3, 3, 1);
    assert_eq!(d.get_neighbours((0, 0), true), vec![(1, 0), (0, 1), (1, 1)]);
    assert_eq!(
        d.get_neighbours((1, 1), true),
        vec![(0, 1), (2, 1), (1, 0), (1, 2), (0, 0), (0, 2), (2, 0), (2, 2)]
    );
    assert_eq!(d.get_neighbours((1, 1), false), vec![(0, 1), (2, 1), (1, 0), (1, 2)]);
    assert_eq!(d.get_neighbours((2, 2), true), vec![(1, 2), (2, 1), (1, 1)]);
}

#[test]
fn total_uninteracted_counts() {
    let mut d = board_with(3, 2, &[(0, 0)]);
    assert_eq!(d.total_uninteracted::<true>(), 6);
    d.clicked = set_of(&[(1, 1), (2, 1)]);
    d.flagged = set_of(&[(0, 0)]);
    assert_eq!(d.total_uninteracted::<true>(), 3);
    assert_eq!(d.total_uninteracted::<false>(), 4);
}

#[test]
fn shitty_hash_value() {
    let mut d = board_with(3, 3, &[(2, 2)]);
    d.clicked = set_of(&[(0, 0), (1, 0)]);
    d.flagged = set_of(&[(0, 1)]);
    // 3 * 3 * 1 + 8 * 1 + (0 + 1) * 3 + 3 * 5
    assert_eq!(d.shitty_hash(), 9 + 8 + 3 + 15);
}

#[test]
fn generate_counts_values() {
    assert_eq!(Data::new_blank(3, 3, 1).generate_counts(), None);
    let d = board_with(3, 3, &[(0, 0)]);
    assert_eq!(d.generate_counts(), Some(vec![0, 1, 0, 1, 1, 0, 0, 0, 0]));
    let d = board_with(3, 2, &[(0, 0), (2, 1)]);
    assert_eq!(d.generate_counts(), Some(vec![0, 2, 1, 1, 2, 0]));
}

#[test]
fn toggle_flag_rules() {
    // no mines yet: flags cannot be placed
    let mut d = Data::new_blank(3, 3, 1);
    assert!(!d.toggle_flag((0, 0)));
    assert!(d.flagged.is_empty());

    let mut d = board_with(3, 3, &[(2, 2), (0, 2)]);
    assert!(!d.toggle_flag((1, 1)));
    assert!(d.flagged.contains((1, 1)));
    // toggling again removes it
    assert!(!d.toggle_flag((1, 1)));
    assert!(!d.flagged.contains((1, 1)));
    // an uncovered cell cannot be flagged
    d.clicked = set_of(&[(0, 0)]);
    assert!(!d.toggle_flag((0, 0)));
    assert!(!d.flagged.contains((0, 0)));
    // no more flags than mines
    d.toggle_flag((1, 0));
    d.toggle_flag((2, 0));
    assert!(!d.toggle_flag((1, 1)));
    assert_eq!(d.flagged.len(), 2);
    assert!(!d.flagged.contains((1, 1)));
}

#[test]
fn toggle_flag_can_win() {
    // every cell but the mine uncovered: flagging reports the game as won
    let mut d = board_with(2, 2, &[(1, 1)]);
    d.clicked = set_of(&[(0, 0), (1, 0), (0, 1)]);
    assert!(d.toggle_flag((1, 1)));
}

#[test]
fn win_and_loss() {
    let mut d = board_with(2, 2, &[(1, 1)]);
    assert!(!d.game_has_been_won());
    assert!(!d.game_has_been_lost());
    assert!(!d.game_is_over());
    d.clicked = set_of(&[(0, 0), (1, 0), (0, 1)]);
    assert!(d.game_has_been_won());
    assert!(d.game_is_over());
    d.clicked.insert((1, 1));
    assert!(d.game_has_been_lost());
    assert!(!d.game_has_been_won());
    assert!(d.game_is_over());
    // a board with no mines is never over
    let d = Data::new_blank(2, 2, 1);
    assert!(!d.game_is_over());
    assert!(!d.game_has_been_won());
}

#[test]
fn uncover_floods_open_area() {
    let mut d = board_with(3, 3, &[(2, 2)]);
    d.flagged = set_of(&[(0, 1)]);
    let over = d.uncover((0, 0));
    // the flagged cell and the cells next to the mine stop the flood
    assert_eq!(sorted(&d.clicked), vec![(0, 0), (1, 0), (1, 1), (2, 0), (2, 1)]);
    assert!(!over);
    assert_eq!(sorted(&d.flagged), vec![(0, 1)]);
}

#[test]
fn uncover_wins_and_autoflags() {
    let mut d = board_with(3, 3, &[(2, 2)]);
    let over = d.uncover((0, 0));
    assert!(over);
    assert_eq!(d.clicked.len(), 8);
    assert!(!d.clicked.contains((2, 2)));
    assert_eq!(sorted(&d.flagged), vec![(2, 2)]);
    assert!(d.game_has_been_won());
}

#[test]
fn uncover_next_to_mine_opens_one() {
    let mut d = board_with(3, 3, &[(2, 2)]);
    assert!(!d.uncover((1, 1)));
    assert_eq!(sorted(&d.clicked), vec![(1, 1)]);
    assert!(d.flagged.is_empty());
    // uncovering it again changes nothing
    assert!(!d.uncover((1, 1)));
    assert_eq!(d.clicked.len(), 1);
}

#[test]
fn uncover_mine_loses() {
    let mut d = board_with(3, 3, &[(2, 2)]);
    d.flagged = set_of(&[(2, 2)]);
    assert!(d.uncover((2, 2)));
    assert!(d.game_has_been_lost());
    assert!(!d.flagged.contains((2, 2)));
}

#[test]
fn click_places_mines_away_from_first_cell() {
    for seed in 0..50u64 {
        let mut rng = fastrand::Rng::with_seed(seed);
        let mut d = Data::new_blank(5, 5, 24);
        d.click((2, 3), &mut rng);
        assert_eq!(d.mines.len(), 24);
        assert!(!d.mines.contains((2, 3)));
        assert!(d.clicked.contains((2, 3)));
        assert!(!d.game_has_been_lost());
        for i in 0..d.mines.len() {
            let (x, y) = d.mines.get(i);
            assert!(x < 5 && y < 5);
        }
    }
}

#[test]
fn click_keeps_existing_mines() {
    let mut rng = fastrand::Rng::with_seed(7);
    let mut d = board_with(3, 3, &[(2, 2)]);
    d.click((0, 0), &mut rng);
    assert_eq!(sorted(&d.mines), vec![(2, 2)]);
    assert_eq!(d.clicked.len(), 8);
}

#[test]
fn candidates_exclude_first_cell() {
    let d = Data::new_blank(2, 2, 1);
    assert_eq!(d.candidates_for_mines((1, 0)), vec![(0, 0), (0, 1), (1, 1)]);
}

#[test]
fn pos_set_operations() {
    let mut s = PosSet::new();
    assert!(s.insert((1, 2)));
    assert!(!s.insert((1, 2)));
    assert!(s.insert((0, 0)));
    assert_eq!(s.len(), 2);
    assert_eq!(s.get(0), (1, 2));
    assert!(s.remove((1, 2)));
    assert!(!s.remove((1, 2)));
    assert_eq!(s.len(), 1);
    assert!(s.contains((0, 0)));
    assert!(!s.is_empty());
}

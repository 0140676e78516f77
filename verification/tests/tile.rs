use minesweeper::tile::{Tile, TileInteractionState};

#[test]
fn check_tis_state_transitions() {
    for is_mine in &[true, false] {
        let mut tile = Tile::new(*is_mine, TileInteractionState::Undiscovered);

        assert_eq!(tile.get_tis(), TileInteractionState::Undiscovered);
        assert_eq!(tile.is_mine(), *is_mine);
        assert!(!tile.is_discovered());
        assert!(!tile.is_flagged());

        tile.toggle_flag();
        assert_eq!(tile.get_tis(), TileInteractionState::Flagged);
        assert_eq!(tile.is_mine(), *is_mine);
        assert!(!tile.is_discovered());
        assert!(tile.is_flagged());

        tile.toggle_flag();
        assert_eq!(tile.get_tis(), TileInteractionState::Undiscovered);
        assert_eq!(tile.is_mine(), *is_mine);
        assert!(!tile.is_discovered());
        assert!(!tile.is_flagged());

        tile.click();
        assert_eq!(tile.get_tis(), TileInteractionState::Discovered);
        assert_eq!(tile.is_mine(), *is_mine);
        assert!(tile.is_discovered());
        assert!(!tile.is_flagged());

        tile = Tile::new(*is_mine, TileInteractionState::Flagged);
        tile.click();
        assert_eq!(tile.get_tis(), TileInteractionState::Discovered);
        assert_eq!(tile.is_mine(), *is_mine);
        assert!(tile.is_discovered());
        assert!(!tile.is_flagged());

        tile.toggle_flag();
        assert_eq!(tile.get_tis(), TileInteractionState::Discovered);
        assert_eq!(tile.is_mine(), *is_mine);
        assert!(tile.is_discovered());
        assert!(!tile.is_flagged());
    }
}

#[test]
fn tile_state_bytes() {
    assert_eq!(Tile::new(false, TileInteractionState::Undiscovered).get_state(), 0);
    assert_eq!(Tile::new(true, TileInteractionState::Undiscovered).get_state(), 1);
    // bit 1 is the flag, bit 2 the uncovered mark
    assert_eq!(Tile::new(false, TileInteractionState::Discovered).get_state(), 4);
    assert_eq!(Tile::new(true, TileInteractionState::Flagged).get_state(), 3);
    assert_eq!(Tile::new(false, TileInteractionState::Flagged).get_tis(), TileInteractionState::Flagged);
    assert_eq!(Tile::new(false, TileInteractionState::Discovered).get_tis(), TileInteractionState::Discovered);
    assert!(Tile::new(true, TileInteractionState::Flagged).is_flagged());
    assert_eq!(Tile::from_state(0b111).get_state(), 0b111);
    assert!(Tile::from_state(0b111).is_mine());
    assert!(!Tile::from_state(0b110).is_flagged());
    assert!(Tile::from_state(0b010).is_flagged());
}

#[test]
fn tile_toggle_twice_restores() {
    for state in 0u8..=255 {
        let mut tile = Tile::from_state(state);
        tile.toggle_flag();
        tile.toggle_flag();
        assert_eq!(tile.get_state(), state);
        let mut clicked = Tile::from_state(state);
        clicked.click();
        let once = clicked.get_state();
        clicked.click();
        assert_eq!(clicked.get_state(), once);
        assert_eq!(clicked.is_mine(), Tile::from_state(state).is_mine());
    }
}

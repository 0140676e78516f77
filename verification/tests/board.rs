use minesweeper::board::{
    atlas_pixels, Board, GridElementType, RenderedGridElement, SpriteAtlas, UvRect,
};
use minesweeper::data::Data;
use minesweeper::pos_set::PosSet;
use minesweeper::ser::InvalidDataError;

fn set_of(cells: &[(usize, usize)]) -> PosSet {
    let mut s = PosSet::new();
    for c in cells {
        s.insert(*c);
    }
    s
}

fn data_with(
    width: usize,
    height: usize,
    mines: &[(usize, usize)],
    clicked: &[(usize, usize)],
    flagged: &[(usize, usize)],
) -> Data {
    let mut d = Data::new_blank(width, height, mines.len());
    d.mines = set_of(mines);
    d.clicked = set_of(clicked);
    d.flagged = set_of(flagged);
    d
}

fn err_of(r: Result<Board, InvalidDataError>) -> InvalidDataError {
    match r {
        Ok(_) => panic!("expected an error"),
        Err(e) => e,
    }
}

#[test]
fn new_board_checks() {
    assert_eq!(err_of(Board::new(1, 5, 1)), InvalidDataError::TooSmallWidth);
    assert_eq!(err_of(Board::new(5, 1, 1)), InvalidDataError::TooSmallHeight);
    assert_eq!(err_of(Board::new(5, 5, 0)), InvalidDataError::ZeroMines);
    // at least one cell stays free of mines
    assert_eq!(err_of(Board::new(3, 3, 9)), InvalidDataError::TooManyMines);
    assert!(Board::new(3, 3, 8).is_ok());
    assert!(Board::new(2, 5, 5).is_ok());
    assert_eq!(err_of(Board::new(5, 2, 10)), InvalidDataError::TooManyMines);
    let b = Board::new(10, 8, 12).unwrap();
    assert_eq!(b.get_width(), 10);
    assert_eq!(b.get_height(), 8);
    assert_eq!(b.total_mines(), 12);
    assert_eq!(b.flags_placed(), 0);
    assert_eq!(b.total_uninteracted(), 80);
    assert!(!b.has_given_up);
    assert!(!b.game_is_over());
    assert_eq!(b.generate_counts(), None);
}

#[test]
fn from_previous_data_checks() {
    let d = data_with(3, 3, &[], &[], &[]);
    assert_eq!(err_of(Board::from_previous_data(d)), InvalidDataError::ZeroMines);
    let d = data_with(3, 3, &[(2, 2)], &[(0, 0)], &[]);
    let b = Board::from_previous_data(d).unwrap();
    assert!(b.get_data().clicked.contains((0, 0)));
    assert_eq!(b.total_mines(), 1);
}

#[test]
fn reset_board() {
    let mut b = Board::from_previous_data(data_with(3, 3, &[(2, 2)], &[(0, 0)], &[])).unwrap();
    b.has_given_up = true;
    b.reset(None);
    assert!(!b.has_given_up);
    assert_eq!(b.get_width(), 3);
    assert_eq!(b.total_mines(), 1);
    assert!(b.get_data().clicked.is_empty());
    assert!(b.get_data().mines.is_empty());
    b.reset(Some((4, 5, 6)));
    assert_eq!(b.get_width(), 4);
    assert_eq!(b.get_height(), 5);
    assert_eq!(b.total_mines(), 6);
}

#[test]
fn flags_on_board() {
    let mut b = Board::from_previous_data(data_with(3, 3, &[(2, 2), (0, 2)], &[], &[])).unwrap();
    assert!(!b.toggle_flag((2, 2)));
    assert!(!b.toggle_flag((1, 1)));
    assert_eq!(b.flags_placed(), 2);
    assert_eq!(b.successfully_flagged(), 1);
    assert_eq!(b.get_data().flagged_mines(), 1);
}

#[test]
fn click_on_board() {
    let mut b = Board::from_previous_data(data_with(3, 3, &[(2, 2)], &[], &[])).unwrap();
    assert!(b.click((0, 0)));
    assert!(b.game_has_been_won());
    assert!(b.game_is_over());
    // once over, moves change nothing and report the game as over
    assert!(b.click((2, 2)));
    assert!(!b.get_data().clicked.contains((2, 2)));
    assert!(b.toggle_flag((2, 2)));
}

#[test]
fn first_click_on_fresh_board() {
    let mut b = Board::new(4, 4, 5).unwrap();
    b.click((1, 1));
    assert_eq!(b.get_data().mines.len(), 5);
    assert!(!b.get_data().mines.contains((1, 1)));
    assert!(!b.game_has_been_lost());
    assert!(b.generate_counts().is_some());
}

#[test]
fn giving_up_ends_the_game() {
    let mut b = Board::from_previous_data(data_with(3, 3, &[(2, 2)], &[], &[])).unwrap();
    b.has_given_up = true;
    assert!(b.game_is_over());
    assert!(b.game_has_been_lost());
    assert!(!b.game_has_been_won());
    assert!(b.click((0, 0)));
    assert!(b.get_data().clicked.is_empty());
}

#[test]
fn undo_mistake_covers_mines_again() {
    let mut b =
        Board::from_previous_data(data_with(3, 3, &[(2, 2)], &[(2, 2), (0, 0)], &[])).unwrap();
    assert!(b.game_has_been_lost());
    b.undo_mistake();
    assert!(!b.game_has_been_lost());
    assert!(b.get_data().clicked.contains((0, 0)));
    assert!(!b.get_data().clicked.contains((2, 2)));

    // nothing happens to a game in progress
    let mut b = Board::from_previous_data(data_with(3, 3, &[(2, 2)], &[(1, 1)], &[])).unwrap();
    b.undo_mistake();
    assert_eq!(b.get_data().clicked.len(), 1);
}

#[test]
fn render_cells() {
    let mut b =
        Board::from_previous_data(data_with(2, 2, &[(1, 1)], &[(0, 0)], &[(1, 0)])).unwrap();
    let r = b.render();
    assert_eq!(
        r,
        vec![
            RenderedGridElement {
                ty: GridElementType::Discovered { should_display_count: true },
                flagged: false
            },
            RenderedGridElement { ty: GridElementType::Undiscovered, flagged: true },
            RenderedGridElement { ty: GridElementType::Undiscovered, flagged: false },
            RenderedGridElement { ty: GridElementType::Undiscovered, flagged: false },
        ]
    );
    b.has_given_up = true;
    let r = b.render();
    assert_eq!(r[3], RenderedGridElement { ty: GridElementType::Mine, flagged: false });

    let b = Board::from_previous_data(data_with(2, 2, &[(1, 1)], &[(1, 1), (0, 0), (1, 0), (0, 1)], &[]))
        .unwrap();
    let r = b.render();
    assert_eq!(r[0].ty, GridElementType::Discovered { should_display_count: false });
    assert_eq!(r[3].ty, GridElementType::Exploded);
}

fn cell(ty: GridElementType, flagged: bool) -> RenderedGridElement {
    RenderedGridElement { ty, flagged }
}

#[test]
fn uv_winmine() {
    let a = SpriteAtlas::WinMine;
    let uv = |x, y| UvRect { x, y, columns: 4, rows: 4 };
    let shown = GridElementType::Discovered { should_display_count: true };
    assert_eq!(cell(shown, false).to_uv(1, false, a), uv(0, 0));
    assert_eq!(cell(shown, false).to_uv(3, false, a), uv(2, 0));
    assert_eq!(cell(shown, false).to_uv(5, false, a), uv(0, 1));
    assert_eq!(cell(shown, false).to_uv(8, false, a), uv(3, 1));
    assert_eq!(cell(shown, false).to_uv(0, false, a), uv(0, 2));
    assert_eq!(cell(shown, false).to_uv(9, false, a), uv(0, 2));
    let blank = GridElementType::Discovered { should_display_count: false };
    assert_eq!(cell(blank, false).to_uv(4, false, a), uv(0, 2));
    assert_eq!(cell(GridElementType::Undiscovered, false).to_uv(0, false, a), uv(1, 2));
    assert_eq!(cell(GridElementType::Exploded, false).to_uv(0, true, a), uv(3, 3));
    assert_eq!(cell(GridElementType::Mine, false).to_uv(0, true, a), uv(2, 3));
    assert_eq!(cell(GridElementType::Undiscovered, true).to_uv(0, false, a), uv(2, 2));
    assert_eq!(cell(GridElementType::Undiscovered, true).to_uv(0, true, a), uv(3, 2));
    assert_eq!(cell(GridElementType::Mine, true).to_uv(0, true, a), uv(2, 2));
}

#[test]
fn uv_rtx() {
    let a = SpriteAtlas::RTXOn;
    let uv = |x, y| UvRect { x, y, columns: 4, rows: 6 };
    let shown = GridElementType::Discovered { should_display_count: true };
    assert_eq!(cell(shown, false).to_uv(1, false, a), uv(0, 3));
    assert_eq!(cell(shown, false).to_uv(4, false, a), uv(3, 3));
    assert_eq!(cell(shown, false).to_uv(6, false, a), uv(1, 4));
    assert_eq!(cell(shown, false).to_uv(0, false, a), uv(3, 0));
    assert_eq!(cell(GridElementType::Undiscovered, false).to_uv(0, false, a), uv(0, 0));
    assert_eq!(cell(GridElementType::Exploded, false).to_uv(0, true, a), uv(2, 2));
    assert_eq!(cell(GridElementType::Mine, false).to_uv(0, true, a), uv(0, 2));
    assert_eq!(cell(GridElementType::Undiscovered, true).to_uv(0, false, a), uv(0, 1));
    assert_eq!(cell(GridElementType::Undiscovered, true).to_uv(0, true, a), uv(1, 2));
}

#[test]
fn uv_dark_mode() {
    let a = SpriteAtlas::DarkMode;
    let uv = |x, y| UvRect { x, y, columns: 4, rows: 4 };
    let shown = GridElementType::Discovered { should_display_count: true };
    assert_eq!(cell(shown, false).to_uv(2, false, a), uv(1, 1));
    assert_eq!(cell(shown, false).to_uv(7, false, a), uv(2, 2));
    assert_eq!(cell(shown, false).to_uv(0, false, a), uv(0, 3));
    assert_eq!(cell(GridElementType::Undiscovered, false).to_uv(0, false, a), uv(2, 3));
    assert_eq!(cell(GridElementType::Exploded, false).to_uv(0, true, a), uv(3, 0));
    assert_eq!(cell(GridElementType::Mine, false).to_uv(0, true, a), uv(0, 0));
    assert_eq!(cell(GridElementType::Undiscovered, true).to_uv(0, false, a), uv(2, 0));
    assert_eq!(cell(GridElementType::Undiscovered, true).to_uv(0, true, a), uv(3, 3));
}

#[test]
fn atlas_names() {
    assert_eq!(SpriteAtlas::WinMine.as_static_str(), "WinMine XP");
    assert_eq!(SpriteAtlas::RTXOn.as_static_str(), "RTX On");
    assert_eq!(SpriteAtlas::DarkMode.as_static_str(), "Dark Mode");
    assert_eq!(SpriteAtlas::default(), SpriteAtlas::WinMine);
    assert_eq!(
        SpriteAtlas::ALL_VARIANTS,
        [SpriteAtlas::WinMine, SpriteAtlas::RTXOn, SpriteAtlas::DarkMode]
    );
    assert_eq!(SpriteAtlas::MAX_TEXTURE_SIDE, 3072);
}

#[test]
fn invalid_data_messages() {
    assert_eq!(InvalidDataError::ZeroMines.message(), "Found data with zero mines");
    assert_eq!(InvalidDataError::TooSmallWidth.message(), "Found data 1 or less width");
    assert_eq!(InvalidDataError::TooSmallHeight.message(), "Found data 1 or less height");
    assert_eq!(
        InvalidDataError::TooManyMines.message(),
        "Found data with more mines than allowed mine spaces"
    );
    assert_eq!(
        InvalidDataError::BadCharacter.message(),
        "Found data with unknown character in serialised form"
    );
}

#[test]
fn atlas_files_and_looks() {
    assert_eq!(SpriteAtlas::WinMine.png_file_name(), "WinmineXP.png");
    assert_eq!(SpriteAtlas::RTXOn.png_file_name(), "RTXOn.png");
    assert_eq!(SpriteAtlas::DarkMode.png_file_name(), "NightMode.png");
    assert!(SpriteAtlas::RTXOn.linear_filtering());
    assert!(!SpriteAtlas::WinMine.linear_filtering());
    assert!(!SpriteAtlas::DarkMode.linear_filtering());
    assert_eq!(SpriteAtlas::DarkMode.background_rgb(), Some((0x2d, 0x17, 0x10)));
    assert_eq!(SpriteAtlas::WinMine.background_rgb(), None);
    assert_eq!(SpriteAtlas::RTXOn.background_rgb(), None);
}

#[test]
fn decode_atlas_pixels() {
    let mut img = image::RgbaImage::new(2, 1);
    img.put_pixel(0, 0, image::Rgba([1, 2, 3, 4]));
    img.put_pixel(1, 0, image::Rgba([5, 6, 7, 8]));
    let mut bytes: Vec<u8> = Vec::new();
    img.write_to(&mut std::io::Cursor::new(&mut bytes), image::ImageFormat::Png)
        .unwrap();
    let p = atlas_pixels(&bytes).unwrap();
    assert_eq!((p.width, p.height), (2, 1));
    assert_eq!(p.pixels, vec![1, 2, 3, 4, 5, 6, 7, 8]);
    assert!(atlas_pixels(b"not a png").is_none());
}

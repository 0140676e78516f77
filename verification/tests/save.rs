use minesweeper::data::Data;
use minesweeper::pos_set::PosSet;
use minesweeper::save::{method_char, method_from_char, DataContainmentMethod, DataReadError};
use minesweeper::ser::InvalidDataError;

fn set_of(cells: &[(usize, usize)]) -> PosSet {
    let mut s = PosSet::new();
    for c in cells {
        s.insert(*c);
    }
    s
}

fn sorted(s: &PosSet) -> Vec<(usize, usize)> {
    let mut v: Vec<(usize, usize)> = (0..s.len()).map(|i| s.get(i)).collect();
    v.sort();
    v
}

fn data_with(
    width: usize,
    height: usize,
    mines: &[(usize, usize)],
    clicked: &[(usize, usize)],
    flagged: &[(usize, usize)],
) -> Data {
    let mut d = Data::new_blank(width, height, mines.len());
    d.mines = set_of(mines);
    d.clicked = set_of(clicked);
    d.flagged = set_of(flagged);
    d
}

fn parse(s: &str) -> Result<Data, DataReadError> {
    assert!(Data::save_str_fits(s));
    Data::from_save_str(s)
}

fn same_game(a: &Data, b: &Data) {
    assert_eq!(a.width, b.width);
    assert_eq!(a.height, b.height);
    assert_eq!(a.number_of_mines, b.number_of_mines);
    assert_eq!(sorted(&a.flagged), sorted(&b.flagged));
    assert_eq!(sorted(&a.clicked), sorted(&b.clicked));
    assert_eq!(sorted(&a.mines), sorted(&b.mines));
}

#[test]
fn method_letters() {
    assert_eq!(method_char(DataContainmentMethod::NoData), 'n');
    assert_eq!(method_char(DataContainmentMethod::Indices), 'y');
    assert_eq!(method_char(DataContainmentMethod::DiscoveredBitflagsElseIndices), 'b');
    assert_eq!(method_from_char('y'), Ok(DataContainmentMethod::Indices));
    assert_eq!(method_from_char('b'), Ok(DataContainmentMethod::DiscoveredBitflagsElseIndices));
    assert_eq!(method_from_char('q'), Err(InvalidDataError::BadCharacter));
}

#[test]
fn save_blank_board() {
    let d = Data::new_blank(5, 4, 3);
    assert!(d.save_fits_check());
    assert_eq!(d.to_save_string(), "n5,4,0,0,3,");
}

#[test]
fn save_with_bitflags() {
    let d = data_with(3, 3, &[(2, 2)], &[(0, 0)], &[]);
    assert_eq!(d.to_save_string(), "b3,3,0,3,1,1,0,0,8,");
    let d = data_with(3, 3, &[(2, 2)], &[(0, 0), (2, 0), (1, 1)], &[(0, 2)]);
    assert_eq!(d.to_save_string(), "b3,3,1,3,1,6,5,2,0,8,");
}

#[test]
fn save_wide_rows_take_two_words() {
    let d = data_with(70, 2, &[(69, 1)], &[(0, 0), (64, 0), (65, 1)], &[]);
    assert_eq!(d.to_save_string(), "b70,2,0,4,1,1,1,0,2,139,");
}

#[test]
fn save_with_indices() {
    let d = data_with(20, 20, &[(0, 0), (3, 1)], &[(5, 5)], &[(1, 0)]);
    assert_eq!(d.to_save_string(), "y20,20,1,1,2,1,105,0,23,");
}

#[test]
fn read_saved_games() {
    let d = parse("n3,3,0,0,2,").unwrap();
    same_game(&d, &Data::new_blank(3, 3, 2));

    let d = parse("b3,3,1,3,1,6,5,2,0,8,").unwrap();
    same_game(&d, &data_with(3, 3, &[(2, 2)], &[(0, 0), (2, 0), (1, 1)], &[(0, 2)]));

    let d = parse("y20,20,1,1,2,1,105,0,23,").unwrap();
    same_game(&d, &data_with(20, 20, &[(0, 0), (3, 1)], &[(5, 5)], &[(1, 0)]));

    // a character that is neither a digit nor a comma is refused
    assert!(matches!(parse("n+3,3,0,0,1,"), Err(DataReadError::InvalidCharacter('+'))));
    assert!(matches!(parse("n5x5,0,0,3,"), Err(DataReadError::InvalidCharacter('x'))));
    assert!(matches!(parse("y3,3,1,0,1,0;8,"), Err(DataReadError::InvalidCharacter(';'))));
    // what follows the numbers that are needed is not read
    assert!(parse("n3,3,0,0,2,zz").is_ok());
}

#[test]
fn round_trips() {
    let games = [
        Data::new_blank(7, 3, 4),
        data_with(3, 3, &[(2, 2)], &[(0, 0), (1, 0)], &[(0, 1)]),
        data_with(70, 2, &[(69, 1), (0, 1)], &[(0, 0), (64, 0), (65, 1)], &[(69, 1)]),
        data_with(20, 20, &[(0, 0), (3, 1), (19, 19)], &[(5, 5), (6, 5)], &[]),
    ];
    for g in &games {
        let text = g.to_save_string();
        let back = parse(&text).unwrap();
        same_game(&back, g);
    }
}

#[test]
fn read_errors() {
    assert!(matches!(parse(""), Err(DataReadError::NotEnoughData)));
    assert!(matches!(
        parse("x1,2,3,4,5,"),
        Err(DataReadError::InvalidDataFound(InvalidDataError::BadCharacter))
    ));
    assert!(matches!(
        parse("n1,2,0,0,1,"),
        Err(DataReadError::InvalidDataFound(InvalidDataError::TooSmallWidth))
    ));
    assert!(matches!(
        parse("n3,3,0,0,9,"),
        Err(DataReadError::InvalidDataFound(InvalidDataError::TooManyMines))
    ));
    match parse("n3,3,") {
        Err(DataReadError::UnableToConvertVec(v)) => assert_eq!(v, vec![3, 3]),
        _ => panic!("expected a short head"),
    }
    // a number without a comma after it is not read
    match parse("n3,3,0,0,2") {
        Err(DataReadError::UnableToConvertVec(v)) => assert_eq!(v, vec![3, 3, 0, 0]),
        _ => panic!("expected a short head"),
    }
    assert!(matches!(parse("n3,,0,0,1,"), Err(DataReadError::UnableToParseInteger(_))));
    assert!(matches!(parse("y3,3,1,0,1,0,"), Err(DataReadError::NotEnoughData)));
}

#[test]
fn read_fits_checks() {
    assert!(!Data::save_str_fits("n99999999999,99999999999,0,0,1,"));
    assert!(Data::save_str_fits("n3,3,0,0,2,"));
    assert!(Data::save_str_fits("garbage"));
    let d = data_with(3, 3, &[(2, 2)], &[(0, usize::MAX)], &[]);
    assert!(!d.save_fits_check());
    let d = data_with(3, 3, &[(2, 2)], &[(usize::MAX, 0)], &[]);
    assert!(d.save_fits_check());
}

#[test]
fn read_error_messages() {
    assert_eq!(
        DataReadError::NotEnoughData.message(),
        "Not enough data present in the string to fully parse"
    );
    assert_eq!(
        DataReadError::UnableToConvertVec(vec![3, 3]).message(),
        "Unable to convert stats vec to array: [3, 3]"
    );
    assert_eq!(
        DataReadError::InvalidCharacter('x').message(),
        "Found non-integer, non-comma character: 'x'"
    );
    assert_eq!(
        DataReadError::InvalidDataFound(InvalidDataError::ZeroMines).message(),
        "Read in data which broke invariants: Found data with zero mines"
    );
    let e = "".parse::<usize>().unwrap_err();
    assert_eq!(
        DataReadError::UnableToParseInteger(e).message(),
        "Error parsing integer: cannot parse integer from empty string"
    );
}

#[test]
fn conversions() {
    assert_eq!(char::from(DataContainmentMethod::Indices), 'y');
    assert_eq!(char::from(DataContainmentMethod::NoData), 'n');
    assert_eq!(
        DataContainmentMethod::try_from('b'),
        Ok(DataContainmentMethod::DiscoveredBitflagsElseIndices)
    );
    assert_eq!(DataContainmentMethod::try_from('z'), Err(InvalidDataError::BadCharacter));
    assert!(matches!(
        DataReadError::from(InvalidDataError::ZeroMines),
        DataReadError::InvalidDataFound(InvalidDataError::ZeroMines)
    ));
    let e = "x".parse::<usize>().unwrap_err();
    assert!(matches!(DataReadError::from(e), DataReadError::UnableToParseInteger(_)));
}

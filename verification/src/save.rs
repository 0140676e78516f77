//! The text form in which a game is saved: a letter saying how the uncovered
//! cells are written, then numbers in base ten, each followed by a comma.
//! The numbers are the width, the height, how many flags, uncovered-cell
//! entries and mines follow, and then the flagged cells, the uncovered cells
//! and the mines. A cell is written as its row-major index; the uncovered
//! cells are written either so or, row by row, as words whose bits stand
//! for the cells of a run of columns.

use vstd::prelude::*;
use crate::data::{Data, spec_index_to_coords, spec_coords_to_index};
use crate::pos_set::PosSet;
use crate::ser::{InvalidDataError, invalid_data_text};
use itertools::Itertools;
use crate::text::{is_digit, all_digits, digits_value, decimal, unsigned_text_value, push_char, push_decimal, str_chars, parse_usize, char_is_digit, parse_error_text, list_debug, list_debug_text, char_debug, char_debug_text};

verus! {

broadcast use vstd::seq_lib::group_seq_properties;

/// How the uncovered cells of a saved game are written.
#[derive(Copy, Clone, Debug, Eq, PartialEq, Structural)]
pub enum DataContainmentMethod {
    NoData,
    Indices,
    DiscoveredBitflagsElseIndices,
}

/// The letter that starts a saved game.
pub open spec fn method_letter(m: DataContainmentMethod) -> char {
    match m {
        DataContainmentMethod::NoData => 'n',
        DataContainmentMethod::Indices => 'y',
        DataContainmentMethod::DiscoveredBitflagsElseIndices => 'b',
    }
}

/// The method that a letter stands for.
pub open spec fn method_of_letter(c: char) -> Option<DataContainmentMethod> {
    if c == 'n' {
        Some(DataContainmentMethod::NoData)
    } else if c == 'y' {
        Some(DataContainmentMethod::Indices)
    } else if c == 'b' {
        Some(DataContainmentMethod::DiscoveredBitflagsElseIndices)
    } else {
        None
    }
}

pub fn method_char(m: DataContainmentMethod) -> (r: char)
    ensures
        r == method_letter(m),
{
    match m {
        DataContainmentMethod::NoData => 'n',
        DataContainmentMethod::Indices => 'y',
        DataContainmentMethod::DiscoveredBitflagsElseIndices => 'b',
    }
}

pub fn method_from_char(c: char) -> (r: Result<DataContainmentMethod, InvalidDataError>)
    ensures
        method_of_letter(c) matches Some(m) ==> r == Ok::<DataContainmentMethod, InvalidDataError>(m),
        method_of_letter(c) is None ==> r == Err::<DataContainmentMethod, InvalidDataError>(
            InvalidDataError::BadCharacter,
        ),
{
    match c {
        'n' => Ok(DataContainmentMethod::NoData),
        'y' => Ok(DataContainmentMethod::Indices),
        'b' => Ok(DataContainmentMethod::DiscoveredBitflagsElseIndices),
        _ => Err(InvalidDataError::BadCharacter),
    }
}

/// Why a saved game could not be read.
#[derive(Debug)]
pub enum DataReadError {
    UnableToParseInteger(std::num::ParseIntError),
    UnableToConvertVec(Vec<usize>),
    NotEnoughData,
    InvalidCharacter(char),
    InvalidDataFound(InvalidDataError),
}

impl From<DataContainmentMethod> for char {
    fn from(value: DataContainmentMethod) -> (r: char) {
        method_char(value)
    }
}

impl vstd::std_specs::convert::FromSpecImpl<DataContainmentMethod> for char {
    open spec fn obeys_from_spec() -> bool {
        true
    }

    open spec fn from_spec(value: DataContainmentMethod) -> char {
        method_letter(value)
    }
}

impl TryFrom<char> for DataContainmentMethod {
    type Error = InvalidDataError;

    fn try_from(value: char) -> (r: Result<Self, InvalidDataError>) {
        method_from_char(value)
    }
}

impl vstd::std_specs::convert::TryFromSpecImpl<char> for DataContainmentMethod {
    open spec fn obeys_try_from_spec() -> bool {
        true
    }

    open spec fn try_from_spec(value: char) -> Result<Self, InvalidDataError> {
        match method_of_letter(value) {
            Some(m) => Ok(m),
            None => Err(InvalidDataError::BadCharacter),
        }
    }
}

impl From<std::num::ParseIntError> for DataReadError {
    fn from(value: std::num::ParseIntError) -> (r: DataReadError) {
        DataReadError::UnableToParseInteger(value)
    }
}

impl vstd::std_specs::convert::FromSpecImpl<std::num::ParseIntError> for DataReadError {
    open spec fn obeys_from_spec() -> bool {
        true
    }

    open spec fn from_spec(value: std::num::ParseIntError) -> DataReadError {
        DataReadError::UnableToParseInteger(value)
    }
}

impl From<InvalidDataError> for DataReadError {
    fn from(value: InvalidDataError) -> (r: DataReadError) {
        DataReadError::InvalidDataFound(value)
    }
}

impl vstd::std_specs::convert::FromSpecImpl<InvalidDataError> for DataReadError {
    open spec fn obeys_from_spec() -> bool {
        true
    }

    open spec fn from_spec(value: InvalidDataError) -> DataReadError {
        DataReadError::InvalidDataFound(value)
    }
}

impl DataReadError {
    /// A sentence that says what is wrong; for a number that could not be
    /// read, the parse error's own text follows the part shown here.
    pub fn message(&self) -> (r: String)
        ensures
            *self matches DataReadError::UnableToParseInteger(_) ==> r@.len() >= "Error parsing integer: "@.len()
                && r@.take("Error parsing integer: "@.len() as int) == "Error parsing integer: "@,
            *self matches DataReadError::NotEnoughData ==> r@ == "Not enough data present in the string to fully parse"@,
            *self matches DataReadError::UnableToConvertVec(v) ==> r@ == "Unable to convert stats vec to array: "@ + list_debug_text(v@),
            *self matches DataReadError::InvalidCharacter(c) ==> r@ == "Found non-integer, non-comma character: "@ + char_debug_text(c),
            *self matches DataReadError::InvalidDataFound(e) ==> r@ == "Read in data which broke invariants: "@ + invalid_data_text(e),
    {
        match self {
            DataReadError::UnableToParseInteger(e) => {
                let mut r = "Error parsing integer: ".to_owned();
                let t = parse_error_text(e);
                r.append(t.as_str());
                r
            },
            DataReadError::NotEnoughData => "Not enough data present in the string to fully parse".to_owned(),
            DataReadError::UnableToConvertVec(v) => {
                let mut r = "Unable to convert stats vec to array: ".to_owned();
                let t = list_debug(v);
                r.append(t.as_str());
                r
            },
            DataReadError::InvalidCharacter(c) => {
                let mut r = "Found non-integer, non-comma character: ".to_owned();
                let t = char_debug(*c);
                r.append(t.as_str());
                r
            },
            DataReadError::InvalidDataFound(e) => {
                let mut r = "Read in data which broke invariants: ".to_owned();
                let t = e.message();
                r.append(t.as_str());
                r
            },
        }
    }
}

// ---------------------------------------------------------------------------
// Reading numbers
// ---------------------------------------------------------------------------

/// The runs that `s` holds, read after the digits `acc`: a comma ends the run
/// of digits before it (which may be empty), a run that no comma ends is
/// dropped, and a character that is neither a digit nor a comma ends the
/// reading with a last run made of the digits before it and that character.
pub open spec fn tokens_from(s: Seq<char>, acc: Seq<char>) -> Seq<Seq<char>>
    decreases s.len(),
{
    if s.len() == 0 {
        Seq::empty()
    } else if is_digit(s[0]) {
        tokens_from(s.drop_first(), acc.push(s[0]))
    } else if s[0] == ',' {
        seq![acc] + tokens_from(s.drop_first(), Seq::empty())
    } else {
        seq![acc.push(s[0])]
    }
}

/// The runs of digits of `s`, as `tokens_from` cuts them.
pub open spec fn tokens(s: Seq<char>) -> Seq<Seq<char>> {
    tokens_from(s, Seq::empty())
}

/// The value of a run, when it is a non-empty run of digits whose number
/// fits in `usize`.
pub open spec fn token_value(t: Seq<char>) -> Option<usize> {
    if t.len() > 0 && all_digits(t) && digits_value(t) <= usize::MAX {
        Some(digits_value(t) as usize)
    } else {
        None
    }
}

/// The first `k` runs all have values.
pub open spec fn tokens_ok(toks: Seq<Seq<char>>, k: int) -> bool {
    forall|j: int| 0 <= j < k ==> (#[trigger] token_value(toks[j])) is Some
}

/// The values of the first `k` runs.
pub open spec fn token_values(toks: Seq<Seq<char>>, k: int) -> Seq<usize> {
    Seq::new(k as nat, |j: int| token_value(toks[j])->Some_0)
}

/// How many runs a request for `n` numbers reads when `available` remain: all
/// of them when `n` is zero, else up to `n`.
pub open spec fn take_count(n: int, available: int) -> int {
    if n == 0 || available < n {
        available
    } else {
        n
    }
}

/// Why reading the run `t` fails: a run that ends in a character that is
/// neither a digit nor a comma fails on that character, any other on its number.
pub open spec fn token_failure(t: Seq<char>) -> DataRead {
    if t.len() > 0 && !is_digit(t.last()) {
        DataRead::BadCharacter(t.last())
    } else {
        DataRead::IntError
    }
}

/// The first of the first `k` runs that has no value.
pub open spec fn first_failing(toks: Seq<Seq<char>>, k: int) -> int {
    choose|j: int| 0 <= j < k && tokens_ok(toks, j) && token_value(toks[j]) is None
}

/// Why reading the first `k` runs fails, when one of them has no value.
pub open spec fn read_failure(toks: Seq<Seq<char>>, k: int) -> DataRead {
    token_failure(toks[first_failing(toks, k)])
}

/// When the runs before `j` have values and run `j` has none, the reading
/// fails at `j`.
proof fn lemma_first_failing(toks: Seq<Seq<char>>, k: int, j: int)
    requires
        0 <= j < k,
        tokens_ok(toks, j),
        token_value(toks[j]) is None,
    ensures
        first_failing(toks, k) == j,
{
    let f = first_failing(toks, k);
    assert(0 <= f < k && tokens_ok(toks, f) && token_value(toks[f]) is None);
    if f < j {
        assert(token_value(toks[f]) is Some);
    } else if f > j {
        assert(token_value(toks[j]) is Some);
    }
}

pub proof fn lemma_tokens_step(s: Seq<char>, i: int, acc: Seq<char>)
    requires
        0 <= i < s.len(),
    ensures
        is_digit(s[i]) ==> tokens_from(s.skip(i), acc) == tokens_from(s.skip(i + 1), acc.push(s[i])),
        s[i] == ',' ==> tokens_from(s.skip(i), acc) == seq![acc] + tokens_from(s.skip(i + 1), Seq::empty()),
        (!is_digit(s[i]) && s[i] != ',') ==> tokens_from(s.skip(i), acc) == seq![acc.push(s[i])],
{
    assert(s.skip(i).drop_first() =~= s.skip(i + 1));
    assert(s.skip(i)[0] == s[i]);
}

/// Reads numbers from `chars`, starting at `*i` after the digits already in
/// `accum`, until `n` are read (all there are when `n` is zero).
fn get_numbers(chars: &Vec<char>, i: &mut usize, accum: &mut String, n: usize) -> (r: Result<
    Vec<usize>,
    DataReadError,
>)
    requires
        *old(i) <= chars@.len(),
        all_digits(old(accum)@),
    ensures
        ({
            let toks = tokens_from(chars@.skip(*old(i) as int), old(accum)@);
            let k = take_count(n as int, toks.len() as int);
            &&& r is Ok <==> tokens_ok(toks, k)
            &&& r matches Err(e) ==> data_read_result(Err(e), read_failure(toks, k))
            &&& r matches Ok(v) ==> v@ == token_values(toks, k)
            &&& (r is Ok && n > 0 && k == n) ==> {
                &&& *final(i) <= chars@.len()
                &&& final(accum)@.len() == 0
                &&& tokens_from(chars@.skip(*final(i) as int), final(accum)@) == toks.skip(k)
            }
        }),
{
    let ghost toks = tokens_from(chars@.skip(*i as int), accum@);
    let mut numbers: Vec<usize> = Vec::new();
    let mut done = false;
    while !done && *i < chars.len()
        invariant
            *i <= chars@.len(),
            all_digits(accum@),
            toks == tokens_from(chars@.skip(*old(i) as int), old(accum)@),
            numbers@.len() <= toks.len(),
            !done ==> tokens_from(chars@.skip(*i as int), accum@) == toks.skip(numbers@.len() as int),
            tokens_ok(toks, numbers@.len() as int),
            numbers@ == token_values(toks, numbers@.len() as int),
            !done ==> (n == 0 || numbers@.len() < n),
            done ==> numbers@.len() == n && n > 0 && accum@.len() == 0
                && tokens_from(chars@.skip(*i as int), accum@) == toks.skip(numbers@.len() as int),
        decreases chars@.len() - *i, if done { 0int } else { 1int },
    {
        let ch = chars[*i];
        proof {
            lemma_tokens_step(chars@, *i as int, accum@);
        }
        *i = *i + 1;
        if char_is_digit(ch) {
            push_char(accum, ch);
            proof {
                assert forall|j: int| 0 <= j < accum@.len() implies is_digit(#[trigger] accum@[j]) by {
                }
            }
        } else if ch != ',' {
            proof {
                let t = accum@.push(ch);
                let j = numbers@.len() as int;
                assert(toks.skip(j)[0] == t);
                assert(toks[j] == t);
                assert(t.last() == ch);
                assert(!all_digits(t)) by {
                    assert(!is_digit(t[t.len() - 1]));
                }
                assert(token_value(t) is None);
                assert(toks.len() == j + 1);
                lemma_first_failing(toks, take_count(n as int, toks.len() as int), j);
            }
            return Err(DataReadError::InvalidCharacter(ch));
        } else {
            let ghost t = accum@;
            proof {
                assert(toks.skip(numbers@.len() as int)[0] == t);
                assert(toks[numbers@.len() as int] == t);
                if t.len() > 0 {
                    assert(t[0] != '+') by {
                        assert(is_digit(t[0]));
                    }
                }
            }
            match parse_usize(accum.as_str()) {
                Ok(v) => {
                    numbers.push(v);
                    proof {
                        assert(numbers@ =~= token_values(toks, numbers@.len() as int));
                        assert(toks.skip(numbers@.len() - 1).drop_first() =~= toks.skip(numbers@.len() as int));
                    }
                },
                Err(e) => {
                    proof {
                        if t.len() > 0 {
                            let body = if t.len() > 0 && t[0] == '+' { t.drop_first() } else { t };
                            assert(body == t);
                        }
                        assert(token_value(toks[numbers@.len() as int]) is None);
                        assert(!tokens_ok(toks, take_count(n as int, toks.len() as int)));
                        lemma_first_failing(toks, take_count(n as int, toks.len() as int), numbers@.len() as int);
                        assert(t.len() > 0 ==> is_digit(t.last()));
                    }
                    return Err(DataReadError::UnableToParseInteger(e));
                },
            }
            *accum = String::new();
            if numbers.len() == n {
                done = true;
            }
        }
    }
    proof {
        if !done {
            assert(chars@.skip(*i as int).len() == 0);
            assert(toks.skip(numbers@.len() as int).len() == 0);
        }
    }
    Ok(numbers)
}

// ---------------------------------------------------------------------------
// Reading cells
// ---------------------------------------------------------------------------

/// The width of a word of uncovered-cell bits.
pub open spec fn word_bits() -> int {
    usize::BITS as int
}

/// How many words a row of `width` cells takes.
pub open spec fn chunk_count(width: int) -> int {
    (width + word_bits() - 1) / word_bits()
}

/// The cells whose row-major indices `nums` holds.
pub open spec fn coords_set(nums: Seq<usize>, width: int) -> Set<(usize, usize)> {
    nums.map_values(|n: usize| spec_index_to_coords(n as int, width)).to_set()
}

/// Bit `i` of `word` is set.
pub open spec fn bit_set(word: usize, i: int) -> bool {
    word & (1usize << (i as usize)) != 0
}

/// The cells of a `width` by `height` board that come before column `x` of
/// row `y` (in row-major order) and whose bits are set in `words`, a row of
/// `chunk_count(width)` words per row of cells.
pub open spec fn bits_upto(words: Seq<usize>, width: int, height: int, y: int, x: int) -> Set<
    (usize, usize),
> {
    Set::new(
        |p: (usize, usize)|
            p.0 < width && p.1 < height && (p.1 < y || (p.1 == y && p.0 < x)) && bit_set(
                words[p.1 * chunk_count(width) + (p.0 as int) / word_bits()],
                (p.0 as int) % word_bits(),
            ),
    )
}

/// The cells whose bits are set in `words`.
pub open spec fn bits_set(words: Seq<usize>, width: int, height: int) -> Set<(usize, usize)> {
    bits_upto(words, width, height, height, 0)
}

/// `(0..width).chunks(size)` of the itertools crate, each chunk collected:
/// as its documentation says, the chunks hold `size` consecutive columns each,
/// in order, the last one fewer when they run out.
#[verifier::external_body]
fn column_chunks(width: usize, size: usize) -> (r: Vec<Vec<usize>>)
    requires
        size > 0,
    ensures
        r@.len() == (width + size - 1) / size as int,
        forall|j: int|
            0 <= j < r@.len() ==> (#[trigger] r@[j])@ == Seq::new(
                (if width - j * size < size {
                    width - j * size
                } else {
                    size as int
                }) as nat,
                |i: int| (j * size + i) as usize,
            ),
{
    (0..width).chunks(size).into_iter().map(|c| c.collect()).collect()
}

/// Takes the next `count` numbers as cells.
fn take_set(numbers: &Vec<usize>, next: &mut usize, count: usize, width: usize) -> (r: Result<
    PosSet,
    DataReadError,
>)
    requires
        *old(next) <= numbers@.len(),
        width > 0,
    ensures
        r is Ok <==> *old(next) + count <= numbers@.len(),
        r matches Err(e) ==> e is NotEnoughData,
        r matches Ok(s) ==> s@ == coords_set(
            numbers@.subrange(*old(next) as int, *old(next) + count),
            width as int,
        ) && *final(next) == *old(next) + count,
{
    if numbers.len() - *next < count {
        return Err(DataReadError::NotEnoughData);
    }
    let start = *next;
    let total = numbers.len();
    let mut set = PosSet::new();
    let mut k: usize = 0;
    while k < count
        invariant
            total == numbers@.len(),
            start + count <= numbers@.len(),
            k <= count,
            *next == start + k,
            width > 0,
            set@ == coords_set(numbers@.subrange(start as int, start + k), width as int),
        decreases count - k,
    {
        let p = Data::index_to_coords(numbers[*next], width);
        set.insert(p);
        proof {
            let f = |n: usize| spec_index_to_coords(n as int, width as int);
            let before = numbers@.subrange(start as int, start + k);
            let after = numbers@.subrange(start as int, start + k + 1);
            assert(after =~= before.push(numbers@[start + k]));
            assert(after.map_values(f) =~= before.map_values(f).push(p));
        }
        *next = *next + 1;
        k = k + 1;
    }
    Ok(set)
}

/// Takes the next words, `chunk_count(width)` of them for each row, as the
/// cells whose bits they set.
fn read_bits(numbers: &Vec<usize>, next: &mut usize, width: usize, height: usize) -> (r: Result<
    PosSet,
    DataReadError,
>)
    requires
        *old(next) <= numbers@.len(),
        width > 0,
        width * height <= usize::MAX,
    ensures
        r is Ok <==> *old(next) + height * chunk_count(width as int) <= numbers@.len(),
        r matches Err(e) ==> e is NotEnoughData,
        r matches Ok(s) ==> s@ == bits_set(numbers@.skip(*old(next) as int), width as int, height as int)
            && *final(next) == *old(next) + height * chunk_count(width as int),
{
    let b = usize::BITS as usize;
    let chunks = column_chunks(width, b);
    let ghost start = *next;
    let ghost ws = numbers@.skip(start as int);
    let ghost cc = chunk_count(width as int);
    let mut clicked = PosSet::new();
    proof {
        assert(clicked@ =~= bits_upto(ws, width as int, height as int, 0, 0));
        assert(chunks@.len() == cc);
    }
    let mut y: usize = 0;
    while y < height
        invariant
            b == word_bits(),
            b > 0,
            width > 0,
            width * height <= usize::MAX,
            chunks@.len() == cc,
            cc == chunk_count(width as int),
            forall|j: int|
                0 <= j < chunks@.len() ==> (#[trigger] chunks@[j])@ == Seq::new(
                    (if width - j * b < b {
                        width - j * b
                    } else {
                        b as int
                    }) as nat,
                    |i: int| (j * b + i) as usize,
                ),
            ws == numbers@.skip(start as int),
            start <= numbers@.len(),
            start == *old(next),
            *next <= numbers@.len(),
            y <= height,
            *next == start + y * cc,
            clicked@ == bits_upto(ws, width as int, height as int, y as int, 0),
        decreases height - y,
    {
        let mut j: usize = 0;
        while j < chunks.len()
            invariant
                b == word_bits(),
                b > 0,
                width > 0,
                width * height <= usize::MAX,
                chunks@.len() == cc,
                cc == chunk_count(width as int),
                forall|j: int|
                    0 <= j < chunks@.len() ==> (#[trigger] chunks@[j])@ == Seq::new(
                        (if width - j * b < b {
                            width - j * b
                        } else {
                            b as int
                        }) as nat,
                        |i: int| (j * b + i) as usize,
                    ),
                ws == numbers@.skip(start as int),
                start <= numbers@.len(),
                start == *old(next),
                *next <= numbers@.len(),
                y < height,
                j <= chunks@.len(),
                *next == start + y * cc + j,
                clicked@ == bits_upto(ws, width as int, height as int, y as int, j * b),
            decreases chunks@.len() - j,
        {
            if *next >= numbers.len() {
                proof {
                    assert(y * cc + j < height * cc) by (nonlinear_arith)
                        requires y < height, j < cc;
                    assert(start + height * chunk_count(width as int) > numbers@.len());
                }
                return Err(DataReadError::NotEnoughData);
            }
            let word = numbers[*next];
            *next = *next + 1;
            let chunk = &chunks[j];
            let ghost len = chunk@.len();
            proof {
                assert(word == ws[y * cc + j]);
            }
            let mut i: usize = 0;
            while i < chunk.len()
                invariant
                    b == word_bits(),
                    b > 0,
                    width > 0,
                    chunk@ == chunks@[j as int]@,
                    len == chunk@.len(),
                    len <= b,
                    forall|k: int| 0 <= k < len ==> #[trigger] chunk@[k] == (j * b + k) as usize,
                    j * b + len <= width,
                    word == ws[y * cc + j],
                    cc == chunk_count(width as int),
                    y < height,
                    i <= len,
                    clicked@ == bits_upto(ws, width as int, height as int, y as int, j * b + i),
                decreases len - i,
            {
                let x = chunk[i];
                let set_here = word & (1usize << i) > 0;
                if set_here {
                    clicked.insert((x, y));
                }
                proof {
                    vstd::arithmetic::div_mod::lemma_fundamental_div_mod_converse(
                        x as int,
                        b as int,
                        j as int,
                        i as int,
                    );
                    assert(set_here == bit_set(word, (x as int) % word_bits()));
                    assert(clicked@ =~= bits_upto(ws, width as int, height as int, y as int, j * b + i + 1));
                }
                i = i + 1;
            }
            proof {
                assert(bits_upto(ws, width as int, height as int, y as int, j * b + len)
                    =~= bits_upto(ws, width as int, height as int, y as int, (j + 1) * b));
            }
            j = j + 1;
        }
        proof {
            assert(cc * b >= width) by (nonlinear_arith)
                requires cc == (width as int + b as int - 1) / (b as int), b > 0;
            assert(bits_upto(ws, width as int, height as int, y as int, cc * b)
                =~= bits_upto(ws, width as int, height as int, y + 1, 0));
            assert(start + y * cc + cc == start + (y + 1) * cc) by (nonlinear_arith);
        }
        y = y + 1;
    }
    Ok(clicked)
}

// ---------------------------------------------------------------------------
// Reading a saved game
// ---------------------------------------------------------------------------

/// What reading a saved game gives.
pub enum DataRead {
    Parsed {
        width: usize,
        height: usize,
        number_of_mines: usize,
        flagged: Set<(usize, usize)>,
        clicked: Set<(usize, usize)>,
        mines: Set<(usize, usize)>,
    },
    NotEnoughData,
    IntError,
    BadCharacter(char),
    ShortHeader(Seq<usize>),
    Invalid(InvalidDataError),
}

/// The five numbers at the head of a saved game: width, height, and how many
/// flags, uncovered-cell entries and mines follow.
pub open spec fn header(s: Seq<char>) -> Seq<usize> {
    token_values(tokens(s.drop_first()), 5)
}

/// Reading `s` gets as far as the five head numbers, with a width above one.
pub open spec fn header_read(s: Seq<char>) -> bool {
    &&& s.len() > 0
    &&& method_of_letter(s[0]) is Some
    &&& tokens(s.drop_first()).len() >= 5
    &&& tokens_ok(tokens(s.drop_first()), 5)
    &&& header(s)[0] > 1
}

/// Reading `s` does none of the arithmetic that overflows: the board's size
/// is at least one and fits, and so does the count of numbers to read.
pub open spec fn read_fits(s: Seq<char>) -> bool {
    header_read(s) ==> {
        let hd = header(s);
        &&& 1 <= hd[0] * hd[1] <= usize::MAX
        &&& (hd[4] <= hd[0] * hd[1] - 1 && method_of_letter(s[0]) != Some(
            DataContainmentMethod::NoData,
        )) ==> hd[2] + hd[3] + hd[4] <= usize::MAX
    }
}

/// The cells, read from the numbers after the head: `nf` flagged ones, the
/// uncovered ones (`nc` indices, or `chunk_count(w)` words per row), and `nm`
/// mines.
pub open spec fn read_sets(
    m: DataContainmentMethod,
    w: usize,
    h: usize,
    nf: usize,
    nc: usize,
    nm: usize,
    nums: Seq<usize>,
) -> DataRead {
    let cl_len = if m == DataContainmentMethod::Indices {
        nc as int
    } else {
        h * chunk_count(w as int)
    };
    if nums.len() < nf + cl_len + nm {
        DataRead::NotEnoughData
    } else {
        DataRead::Parsed {
            width: w,
            height: h,
            number_of_mines: nm,
            flagged: coords_set(nums.subrange(0, nf as int), w as int),
            clicked: if m == DataContainmentMethod::Indices {
                coords_set(nums.subrange(nf as int, nf + nc), w as int)
            } else {
                bits_set(nums.skip(nf as int), w as int, h as int)
            },
            mines: coords_set(nums.subrange(nf + cl_len, nf + cl_len + nm), w as int),
        }
    }
}

/// What reading the saved game `s` gives.
pub open spec fn read_data(s: Seq<char>) -> DataRead {
    if s.len() == 0 {
        DataRead::NotEnoughData
    } else {
        match method_of_letter(s[0]) {
            None => DataRead::Invalid(InvalidDataError::BadCharacter),
            Some(m) => {
                let toks = tokens(s.drop_first());
                if !tokens_ok(toks, take_count(5, toks.len() as int)) {
                    read_failure(toks, take_count(5, toks.len() as int))
                } else if toks.len() < 5 {
                    DataRead::ShortHeader(token_values(toks, toks.len() as int))
                } else {
                    let hd = token_values(toks, 5);
                    let (w, h, nf, nc, nm) = (hd[0], hd[1], hd[2], hd[3], hd[4]);
                    if w <= 1 {
                        DataRead::Invalid(InvalidDataError::TooSmallWidth)
                    } else if nm > w * h - 1 {
                        DataRead::Invalid(InvalidDataError::TooManyMines)
                    } else if m == DataContainmentMethod::NoData {
                        DataRead::Parsed {
                            width: w,
                            height: h,
                            number_of_mines: nm,
                            flagged: Set::empty(),
                            clicked: Set::empty(),
                            mines: Set::empty(),
                        }
                    } else {
                        let body = toks.skip(5);
                        let k = take_count(nf + nc + nm, body.len() as int);
                        if !tokens_ok(body, k) {
                            read_failure(body, k)
                        } else {
                            read_sets(m, w, h, nf, nc, nm, token_values(body, k))
                        }
                    }
                }
            },
        }
    }
}

/// The result of reading a saved game agrees with `read`.
pub open spec fn data_read_result(r: Result<Data, DataReadError>, read: DataRead) -> bool {
    match read {
        DataRead::Parsed { width, height, number_of_mines, flagged, clicked, mines } => r matches Ok(
            d,
        ) && d.width == width && d.height == height && d.number_of_mines == number_of_mines
            && d.flagged@ == flagged && d.clicked@ == clicked && d.mines@ == mines,
        DataRead::NotEnoughData => r matches Err(DataReadError::NotEnoughData),
        DataRead::IntError => r matches Err(DataReadError::UnableToParseInteger(_)),
        DataRead::BadCharacter(c) => r matches Err(DataReadError::InvalidCharacter(c2)) && c2 == c,
        DataRead::ShortHeader(v) => r matches Err(DataReadError::UnableToConvertVec(u)) && u@ == v,
        DataRead::Invalid(e) => r matches Err(DataReadError::InvalidDataFound(e2)) && e2 == e,
    }
}

impl Data {
    /// Whether reading `value` stays clear of the overflow that
    /// `from_save_str` rules out: whether `read_fits` holds.
    pub fn save_str_fits(value: &str) -> (r: bool)
        ensures
            r == read_fits(value@),
    {
        let chars = str_chars(value);
        if chars.len() == 0 {
            return true;
        }
        let m = match method_from_char(chars[0]) {
            Ok(m) => m,
            Err(_) => return true,
        };
        let mut i: usize = 1;
        let mut accum = String::new();
        proof {
            assert(chars@.skip(1) =~= value@.drop_first());
        }
        let head = match get_numbers(&chars, &mut i, &mut accum, 5) {
            Ok(v) => v,
            Err(_) => return true,
        };
        if head.len() != 5 {
            return true;
        }
        if head[0] <= 1 {
            return true;
        }
        let area = match head[0].checked_mul(head[1]) {
            Some(a) => a,
            None => return false,
        };
        if area < 1 {
            return false;
        }
        if head[4] <= area - 1 && m != DataContainmentMethod::NoData {
            match head[2].checked_add(head[3]) {
                Some(t) => t.checked_add(head[4]).is_some(),
                None => false,
            }
        } else {
            true
        }
    }
}

impl Data {
    /// Reads a saved game, as `read_data` says.
    pub fn from_save_str(value: &str) -> (r: Result<Data, DataReadError>)
        requires
            read_fits(value@),
        ensures
            data_read_result(r, read_data(value@)),
    {
        let chars = str_chars(value);
        if chars.len() == 0 {
            return Err(DataReadError::NotEnoughData);
        }
        let data_container = match method_from_char(chars[0]) {
            Ok(m) => m,
            Err(e) => return Err(DataReadError::InvalidDataFound(e)),
        };
        let mut i: usize = 1;
        let mut accum = String::new();
        let ghost toks = tokens(value@.drop_first());
        proof {
            assert(chars@.skip(1) =~= value@.drop_first());
        }
        let head = match get_numbers(&chars, &mut i, &mut accum, 5) {
            Ok(v) => v,
            Err(e) => return Err(e),
        };
        if head.len() != 5 {
            return Err(DataReadError::UnableToConvertVec(head));
        }
        let width = head[0];
        let height = head[1];
        let n_flagged = head[2];
        let n_clicked = head[3];
        let n_mines = head[4];
        if width <= 1 {
            return Err(DataReadError::InvalidDataFound(InvalidDataError::TooSmallWidth));
        } else if n_mines > (width * height - 1) {
            return Err(DataReadError::InvalidDataFound(InvalidDataError::TooManyMines));
        }
        if data_container == DataContainmentMethod::NoData {
            return Ok(Data::new_blank(width, height, n_mines));
        }
        let ghost body = toks.skip(5);
        let numbers = match get_numbers(&chars, &mut i, &mut accum, n_flagged + n_clicked + n_mines) {
            Ok(v) => v,
            Err(e) => return Err(e),
        };
        let mut next: usize = 0;
        let flagged = match take_set(&numbers, &mut next, n_flagged, width) {
            Ok(s) => s,
            Err(e) => return Err(e),
        };
        let clicked = if data_container == DataContainmentMethod::Indices {
            match take_set(&numbers, &mut next, n_clicked, width) {
                Ok(s) => s,
                Err(e) => return Err(e),
            }
        } else {
            match read_bits(&numbers, &mut next, width, height) {
                Ok(s) => s,
                Err(e) => return Err(e),
            }
        };
        let mines = match take_set(&numbers, &mut next, n_mines, width) {
            Ok(s) => s,
            Err(e) => return Err(e),
        };
        Ok(Data { width, height, number_of_mines: n_mines, flagged, clicked, mines })
    }
}

// ---------------------------------------------------------------------------
// Writing a saved game
// ---------------------------------------------------------------------------

/// Numbers in base ten, each followed by a comma.
pub open spec fn encode_numbers(ns: Seq<usize>) -> Seq<char>
    decreases ns.len(),
{
    if ns.len() == 0 {
        Seq::empty()
    } else {
        encode_numbers(ns.drop_last()) + decimal(ns.last() as nat) + seq![',']
    }
}

/// The row-major indices of `cells`.
pub open spec fn indices_of(cells: Seq<(usize, usize)>, width: int) -> Seq<usize> {
    cells.map_values(|p: (usize, usize)| spec_coords_to_index(p, width) as usize)
}

/// The word whose bit `i` (for `i < len`) says whether cell `(start + i, y)`
/// is uncovered.
pub open spec fn word_of(clicked: Set<(usize, usize)>, y: usize, start: int, len: nat) -> usize
    decreases len,
{
    if len == 0 {
        0
    } else {
        word_of(clicked, y, start, (len - 1) as nat) | (if clicked.contains(
            ((start + len - 1) as usize, y),
        ) {
            1usize << ((len - 1) as usize)
        } else {
            0usize
        })
    }
}

/// How many columns chunk `j` of a row of `width` cells covers.
pub open spec fn chunk_len(width: int, j: int) -> int {
    if width - j * word_bits() < word_bits() {
        width - j * word_bits()
    } else {
        word_bits()
    }
}

/// The uncovered cells as words, `chunk_count(width)` per row, row by row.
pub open spec fn clicked_words(clicked: Set<(usize, usize)>, width: int, height: int) -> Seq<usize> {
    let cc = chunk_count(width);
    Seq::new(
        (height * cc) as nat,
        |k: int| word_of(clicked, (k / cc) as usize, (k % cc) * word_bits(), chunk_len(width, k % cc) as nat),
    )
}

/// How the uncovered cells of `d` are written: not at all before the mines
/// are placed, as indices while they are fewer than the board's cells over the
/// word width, and as words otherwise.
pub open spec fn save_method(d: Data) -> DataContainmentMethod {
    if d.mines@.len() == 0 {
        DataContainmentMethod::NoData
    } else if d.clicked@.len() < (d.width * d.height) / word_bits() {
        DataContainmentMethod::Indices
    } else {
        DataContainmentMethod::DiscoveredBitflagsElseIndices
    }
}

/// The numbers written for the uncovered cells of `d`.
pub open spec fn saved_clicked(d: Data) -> Seq<usize> {
    match save_method(d) {
        DataContainmentMethod::NoData => Seq::empty(),
        DataContainmentMethod::Indices => indices_of(d.clicked.elems(), d.width as int),
        DataContainmentMethod::DiscoveredBitflagsElseIndices => clicked_words(
            d.clicked@,
            d.width as int,
            d.height as int,
        ),
    }
}

/// Every number written for `d`: the head (the number of mines is the
/// intended one before they are placed, and how many there are after), then
/// the flagged cells, the uncovered cells and the mines.
pub open spec fn saved_numbers(d: Data) -> Seq<usize> {
    let cl = saved_clicked(d);
    let nm = if d.mines@.len() == 0 {
        d.number_of_mines
    } else {
        d.mines@.len() as usize
    };
    seq![d.width, d.height, d.flagged@.len() as usize, cl.len() as usize, nm] + indices_of(
        d.flagged.elems(),
        d.width as int,
    ) + cl + indices_of(d.mines.elems(), d.width as int)
}

/// The text `d` is saved as.
pub open spec fn save_text(d: Data) -> Seq<char> {
    seq![method_letter(save_method(d))] + encode_numbers(saved_numbers(d))
}

/// Every cell of `s` has a row-major index that fits in `usize`.
pub open spec fn indices_fit(s: Set<(usize, usize)>, width: int) -> bool {
    forall|p: (usize, usize)| #[trigger] s.contains(p) ==> spec_coords_to_index(p, width) <= usize::MAX
}

/// Writing `d` does no arithmetic that overflows.
pub open spec fn save_fits(d: Data) -> bool {
    &&& d.width * d.height <= usize::MAX
    &&& indices_fit(d.flagged@, d.width as int)
    &&& indices_fit(d.clicked@, d.width as int)
    &&& indices_fit(d.mines@, d.width as int)
}

/// Whether every cell of `set` has a row-major index that fits in a `usize`.
fn indices_fit_check(set: &PosSet, width: usize) -> (r: bool)
    ensures
        r == indices_fit(set@, width as int),
{
    proof {
        use_type_invariant(set);
        set.lemma_size();
    }
    let n = set.len();
    let mut i: usize = 0;
    while i < n
        invariant
            n == set.elems().len(),
            i <= n,
            forall|j: int| 0 <= j < i ==> spec_coords_to_index(#[trigger] set.elems()[j], width as int) <= usize::MAX,
        decreases n - i,
    {
        let p = set.get(i);
        let fits = match p.1.checked_mul(width) {
            Some(a) => a.checked_add(p.0).is_some(),
            None => false,
        };
        if !fits {
            proof {
                assert(set.elems()[i as int] == p);
                assert(set.elems().contains(p));
                assert(set@.contains(p));
                assert(spec_coords_to_index(p, width as int) > usize::MAX);
            }
            return false;
        }
        i = i + 1;
    }
    proof {
        assert forall|p: (usize, usize)| #[trigger] set@.contains(p) implies spec_coords_to_index(p, width as int) <= usize::MAX by {
            assert(set.elems().contains(p));
            let j = choose|j: int| 0 <= j < set.elems().len() && set.elems()[j] == p;
        }
    }
    true
}

impl Data {
    /// Whether writing this game stays clear of the overflow that
    /// `to_save_string` rules out: whether `save_fits` holds.
    pub fn save_fits_check(&self) -> (r: bool)
        ensures
            r == save_fits(*self),
    {
        if self.width.checked_mul(self.height).is_none() {
            return false;
        }
        indices_fit_check(&self.flagged, self.width) && indices_fit_check(&self.clicked, self.width)
            && indices_fit_check(&self.mines, self.width)
    }
}

/// The row-major indices of `set`.
fn indices(set: &PosSet, width: usize) -> (r: Vec<usize>)
    requires
        indices_fit(set@, width as int),
    ensures
        r@ == indices_of(set.elems(), width as int),
{
    let n = set.len();
    let mut out: Vec<usize> = Vec::new();
    let mut i: usize = 0;
    while i < n
        invariant
            n == set.elems().len(),
            i <= n,
            indices_fit(set@, width as int),
            out@ == indices_of(set.elems().take(i as int), width as int),
        decreases n - i,
    {
        let p = set.get(i);
        assert(set@.contains(p));
        out.push(Data::coords_to_index(p, width));
        proof {
            assert(set.elems().take(i + 1) =~= set.elems().take(i as int).push(p));
            assert(out@ =~= indices_of(set.elems().take(i + 1), width as int));
        }
        i = i + 1;
    }
    assert(set.elems().take(n as int) =~= set.elems());
    out
}

/// Appends each of `ns` in base ten followed by a comma.
fn write_numbers(out: &mut String, ns: &Vec<usize>)
    ensures
        final(out)@ == old(out)@ + encode_numbers(ns@),
{
    let mut i: usize = 0;
    while i < ns.len()
        invariant
            i <= ns@.len(),
            out@ == old(out)@ + encode_numbers(ns@.take(i as int)),
        decreases ns@.len() - i,
    {
        push_decimal(out, ns[i] as u64);
        push_char(out, ',');
        proof {
            assert(ns@.take(i + 1).drop_last() =~= ns@.take(i as int));
            assert(out@ =~= old(out)@ + encode_numbers(ns@.take(i + 1)));
        }
        i = i + 1;
    }
    assert(ns@.take(i as int) =~= ns@);
}

impl Data {
    /// The uncovered cells as words, row by row.
    fn clicked_bitflags(&self) -> (r: Vec<usize>)
        requires
            self.width * self.height <= usize::MAX,
        ensures
            r@ == clicked_words(self.clicked@, self.width as int, self.height as int),
    {
        let b = usize::BITS as usize;
        let width = self.width;
        let height = self.height;
        let chunks = column_chunks(width, b);
        let ghost cc = chunk_count(width as int);
        let ghost all = clicked_words(self.clicked@, width as int, height as int);
        let mut out: Vec<usize> = Vec::new();
        let mut y: usize = 0;
        while y < height
            invariant
                b == word_bits(),
                b > 0,
                chunks@.len() == cc,
                cc == chunk_count(width as int),
                cc >= 0,
                all == clicked_words(self.clicked@, width as int, height as int),
                forall|j: int|
                    0 <= j < chunks@.len() ==> (#[trigger] chunks@[j])@ == Seq::new(
                        (if width - j * b < b {
                            width - j * b
                        } else {
                            b as int
                        }) as nat,
                        |i: int| (j * b + i) as usize,
                    ),
                y <= height,
                out@ == all.take(y * cc),
            decreases height - y,
        {
            let mut j: usize = 0;
            while j < chunks.len()
                invariant
                    b == word_bits(),
                    b > 0,
                    chunks@.len() == cc,
                    cc == chunk_count(width as int),
                    all == clicked_words(self.clicked@, width as int, height as int),
                    forall|j: int|
                        0 <= j < chunks@.len() ==> (#[trigger] chunks@[j])@ == Seq::new(
                            (if width - j * b < b {
                                width - j * b
                            } else {
                                b as int
                            }) as nat,
                            |i: int| (j * b + i) as usize,
                        ),
                    y < height,
                    j <= cc,
                    out@ == all.take(y * cc + j),
                decreases chunks@.len() - j,
            {
                let chunk = &chunks[j];
                let ghost len = chunk@.len();
                let mut n: usize = 0;
                let mut i: usize = 0;
                while i < chunk.len()
                    invariant
                        b == word_bits(),
                        chunk@ == chunks@[j as int]@,
                        len == chunk@.len(),
                        len <= b,
                        forall|k: int| 0 <= k < len ==> #[trigger] chunk@[k] == (j * b + k) as usize,
                        i <= len,
                        n == word_of(self.clicked@, y, j * b, i as nat),
                    decreases len - i,
                {
                    let x = chunk[i];
                    let ghost before = n;
                    if self.clicked.contains((x, y)) {
                        n = n | (1usize << i);
                    }
                    proof {
                        assert(before | 0usize == before) by (bit_vector);
                        assert(word_of(self.clicked@, y, j * b, (i + 1) as nat) == word_of(self.clicked@, y, j * b, i as nat) | (if self.clicked@.contains(((j * b + i) as usize, y)) {
                            1usize << (i as usize)
                        } else {
                            0usize
                        }));
                    }
                    i = i + 1;
                }
                proof {
                    let k = y * cc + j;
                    assert(y * cc + j < height * cc) by (nonlinear_arith)
                        requires y < height, j < cc;
                    vstd::arithmetic::div_mod::lemma_fundamental_div_mod_converse(
                        k,
                        cc,
                        y as int,
                        j as int,
                    );
                    assert(len == chunk_len(width as int, j as int));
                    assert(all[k] == n);
                    assert(all.take(k + 1) =~= all.take(k).push(n));
                }
                out.push(n);
                j = j + 1;
            }
            proof {
                assert(y * cc + cc == (y + 1) * cc) by (nonlinear_arith);
            }
            y = y + 1;
        }
        proof {
            assert(all.len() == height * cc);
            assert(all.take(height * cc) =~= all);
        }
        out
    }

    /// Writes the state as `save_text` says.
    pub fn to_save_string(&self) -> (r: String)
        requires
            save_fits(*self),
        ensures
            r@ == save_text(*self),
    {
        proof {
            use_type_invariant(&self.flagged);
            use_type_invariant(&self.clicked);
            use_type_invariant(&self.mines);
            self.flagged.lemma_size();
            self.clicked.lemma_size();
            self.mines.lemma_size();
        }
        let b = usize::BITS as usize;
        let (clicked_nums, n_mines, method) = if self.mines.is_empty() {
            (Vec::new(), self.number_of_mines, DataContainmentMethod::NoData)
        } else if self.clicked.len() < (self.width * self.height / b) {
            (indices(&self.clicked, self.width), self.mines.len(), DataContainmentMethod::Indices)
        } else {
            (
                self.clicked_bitflags(),
                self.mines.len(),
                DataContainmentMethod::DiscoveredBitflagsElseIndices,
            )
        };
        assert(clicked_nums@ == saved_clicked(*self));
        let mut output = String::new();
        push_char(&mut output, method_char(method));
        let mut numbers: Vec<usize> = Vec::new();
        numbers.push(self.width);
        numbers.push(self.height);
        numbers.push(self.flagged.len());
        numbers.push(clicked_nums.len());
        numbers.push(n_mines);
        let flagged_idx = indices(&self.flagged, self.width);
        let mines_idx = indices(&self.mines, self.width);
        let mut k: usize = 0;
        while k < flagged_idx.len()
            invariant
                k <= flagged_idx@.len(),
                numbers@ == seq![self.width, self.height, self.flagged@.len() as usize, clicked_nums@.len() as usize, n_mines] + flagged_idx@.take(k as int),
            decreases flagged_idx@.len() - k,
        {
            numbers.push(flagged_idx[k]);
            assert(flagged_idx@.take(k + 1) =~= flagged_idx@.take(k as int).push(flagged_idx@[k as int]));
            k = k + 1;
        }
        assert(flagged_idx@.take(k as int) =~= flagged_idx@);
        let ghost before_clicked = numbers@;
        k = 0;
        while k < clicked_nums.len()
            invariant
                k <= clicked_nums@.len(),
                numbers@ == before_clicked + clicked_nums@.take(k as int),
            decreases clicked_nums@.len() - k,
        {
            numbers.push(clicked_nums[k]);
            assert(clicked_nums@.take(k + 1) =~= clicked_nums@.take(k as int).push(clicked_nums@[k as int]));
            k = k + 1;
        }
        assert(clicked_nums@.take(k as int) =~= clicked_nums@);
        let ghost before_mines = numbers@;
        k = 0;
        while k < mines_idx.len()
            invariant
                k <= mines_idx@.len(),
                numbers@ == before_mines + mines_idx@.take(k as int),
            decreases mines_idx@.len() - k,
        {
            numbers.push(mines_idx[k]);
            assert(mines_idx@.take(k + 1) =~= mines_idx@.take(k as int).push(mines_idx@[k as int]));
            k = k + 1;
        }
        assert(mines_idx@.take(k as int) =~= mines_idx@);
        assert(numbers@ =~= saved_numbers(*self));
        write_numbers(&mut output, &numbers);
        output
    }
}

} // verus!

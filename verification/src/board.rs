use vstd::prelude::*;
use crate::data::{Data, over_fits, flag_fits, spec_index_to_coords, spec_over, spec_won, spec_lost, uninteracted_count, spec_toggled_flags, spec_counts};
use crate::placement::{click_outcome, click_fits};
use crate::ser::InvalidDataError;
use crate::uncover::nbrs;

verus! {

broadcast use vstd::seq_lib::group_seq_properties;

/// A fresh random number generator (fastrand's `Rng::default`, seeded from
/// fastrand's thread-local generator). Nothing is stated of its state.
#[verifier::external_body]
fn new_rng() -> fastrand::Rng {
    fastrand::Rng::default()
}

/// A game in progress: its state, whether the player has given up, and the
/// generator that places the mines.
pub struct Board {
    /// Has the player chosen to give up?
    pub has_given_up: bool,
    /// The current board data
    data: Data,
    /// The RNG used for random number generation
    rng: fastrand::Rng,
}

/// Whether `d` is accepted as the state of a board, and the error when not;
/// at least one cell must stay free of mines.
pub open spec fn data_check(d: Data) -> Option<InvalidDataError> {
    size_check(d.width, d.height, d.number_of_mines)
}

/// The checks of `data_check` on a size and a number of mines.
pub open spec fn size_check(width: usize, height: usize, number_of_mines: usize) -> Option<
    InvalidDataError,
> {
    if width <= 1 {
        Some(InvalidDataError::TooSmallWidth)
    } else if height <= 1 {
        Some(InvalidDataError::TooSmallHeight)
    } else if number_of_mines == 0 {
        Some(InvalidDataError::ZeroMines)
    } else if number_of_mines > width * height - 1 {
        Some(InvalidDataError::TooManyMines)
    } else {
        None
    }
}

/// The checks of `size_check` get as far as the rule on the mines only when
/// the width and height are above one and some mines are asked for; the
/// number of cells must then fit in a `usize`.
pub open spec fn size_fits(width: usize, height: usize, number_of_mines: usize) -> bool {
    (width > 1 && height > 1 && number_of_mines != 0) ==> width * height <= usize::MAX
}

/// The board's own notion of the game being over: given up, or over by the rules.
pub open spec fn board_over(given_up: bool, d: Data) -> bool {
    given_up || spec_over(d)
}

impl Board {
    /// The state of the game.
    pub closed spec fn spec_data(&self) -> Data {
        self.data
    }

    /// Whether the player has given up.
    pub closed spec fn spec_given_up(&self) -> bool {
        self.has_given_up
    }

    fn checked(data: Data) -> (r: Result<Self, InvalidDataError>)
        requires
            size_fits(data.width, data.height, data.number_of_mines),
        ensures
            data_check(data) matches Some(e) ==> r == Err::<Self, InvalidDataError>(e),
            data_check(data) is None ==> (r matches Ok(b) && b.spec_data() == data && !b.spec_given_up()),
    {
        if data.width <= 1 {
            return Err(InvalidDataError::TooSmallWidth);
        } else if data.height <= 1 {
            return Err(InvalidDataError::TooSmallHeight);
        } else if data.number_of_mines == 0 {
            return Err(InvalidDataError::ZeroMines);
        }
        assert(data.width * data.height >= 1) by (nonlinear_arith)
            requires data.width >= 2, data.height >= 2;
        if data.number_of_mines > (data.width * data.height - 1) {
            return Err(InvalidDataError::TooManyMines);
        }
        Ok(Self { has_given_up: false, data, rng: new_rng() })
    }

    /// A fresh game on a `width` by `height` board with `number_of_mines` mines to place.
    pub fn new(width: usize, height: usize, number_of_mines: usize) -> (r: Result<
        Self,
        InvalidDataError,
    >)
        requires
            size_fits(width, height, number_of_mines),
        ensures
            size_check(width, height, number_of_mines) matches Some(e) ==> r == Err::<
                Self,
                InvalidDataError,
            >(e),
            size_check(width, height, number_of_mines) is None ==> r is Ok,
            r matches Ok(b) ==> {
                &&& b.spec_data().width == width
                &&& b.spec_data().height == height
                &&& b.spec_data().number_of_mines == number_of_mines
                &&& b.spec_data().flagged@.len() == 0
                &&& b.spec_data().clicked@.len() == 0
                &&& b.spec_data().mines@.len() == 0
                &&& !b.spec_given_up()
            },
    {
        let data = Data::new_blank(width, height, number_of_mines);
        Self::checked(data)
    }

    /// A game that continues from `data`, when `data` passes `data_check`.
    pub fn from_previous_data(data: Data) -> (r: Result<Self, InvalidDataError>)
        requires
            size_fits(data.width, data.height, data.number_of_mines),
        ensures
            data_check(data) matches Some(e) ==> r == Err::<Self, InvalidDataError>(e),
            data_check(data) is None ==> (r matches Ok(b) && b.spec_data() == data && !b.spec_given_up()),
    {
        Self::checked(data)
    }

    /// Starts a fresh game, of the given size and number of mines or else of
    /// the current ones.
    pub fn reset(&mut self, new_width_height_mines: Option<(usize, usize, usize)>)
        ensures
            !final(self).spec_given_up(),
            ({
                let (w, h, n) = match new_width_height_mines {
                    Some(t) => t,
                    None => (
                        old(self).spec_data().width,
                        old(self).spec_data().height,
                        old(self).spec_data().number_of_mines,
                    ),
                };
                &&& final(self).spec_data().width == w
                &&& final(self).spec_data().height == h
                &&& final(self).spec_data().number_of_mines == n
            }),
            final(self).spec_data().flagged@.len() == 0,
            final(self).spec_data().clicked@.len() == 0,
            final(self).spec_data().mines@.len() == 0,
    {
        self.has_given_up = false;
        let (new_width, new_height, new_mines) = match new_width_height_mines {
            Some(t) => t,
            None => (self.data.width, self.data.height, self.data.number_of_mines),
        };
        self.data = Data::new_blank(new_width, new_height, new_mines);
    }

    pub fn get_width(&self) -> (r: usize)
        ensures
            r == self.spec_data().width,
    {
        self.data.width
    }

    pub fn get_height(&self) -> (r: usize)
        ensures
            r == self.spec_data().height,
    {
        self.data.height
    }

    pub fn total_mines(&self) -> (r: usize)
        ensures
            r == self.spec_data().number_of_mines,
    {
        self.data.number_of_mines
    }

    /// The cells neither uncovered nor flagged.
    pub fn total_uninteracted(&self) -> (r: usize)
        requires
            self.spec_data().width * self.spec_data().height <= usize::MAX,
        ensures
            r == uninteracted_count(self.spec_data(), true),
    {
        self.data.total_uninteracted::<true>()
    }

    pub fn flags_placed(&self) -> (r: usize)
        ensures
            r == self.spec_data().flagged@.len(),
    {
        self.data.flagged.len()
    }

    /// The flags that sit on mines.
    pub fn successfully_flagged(&self) -> (r: usize)
        ensures
            r == self.spec_data().flagged@.intersect(self.spec_data().mines@).len(),
    {
        self.data.flagged_mines()
    }

    pub fn get_data(&self) -> (r: &Data)
        ensures
            *r == self.spec_data(),
    {
        &self.data
    }

    pub fn game_has_been_won(&self) -> (r: bool)
        requires
            self.spec_data().width * self.spec_data().height <= usize::MAX,
        ensures
            r == spec_won(self.spec_data()),
    {
        self.data.game_has_been_won()
    }

    pub fn game_has_been_lost(&self) -> (r: bool)
        ensures
            r == (self.spec_given_up() || spec_lost(self.spec_data())),
    {
        self.has_given_up || self.data.game_has_been_lost()
    }

    pub fn game_is_over(&self) -> (r: bool)
        requires
            !self.spec_given_up() ==> over_fits(self.spec_data()),
        ensures
            r == board_over(self.spec_given_up(), self.spec_data()),
    {
        self.has_given_up || self.data.game_is_over()
    }

    pub fn generate_counts(&self) -> (r: Option<Vec<u8>>)
        requires
            self.spec_data().width * self.spec_data().height <= usize::MAX,
        ensures
            self.spec_data().mines@.len() == 0 ==> r is None,
            self.spec_data().mines@.len() > 0 ==> (r matches Some(v) && v@ == spec_counts(self.spec_data())),
    {
        self.data.generate_counts()
    }

    /// Toggles a flag at `pos` unless the game is over; the result says
    /// whether the game is over.
    pub fn toggle_flag(&mut self, pos: (usize, usize)) -> (r: bool)
        requires
            !old(self).spec_given_up() ==> over_fits(old(self).spec_data()),
            !board_over(old(self).spec_given_up(), old(self).spec_data()) ==> flag_fits(
                old(self).spec_data(),
                pos,
            ),
        ensures
            final(self).spec_given_up() == old(self).spec_given_up(),
            board_over(old(self).spec_given_up(), old(self).spec_data()) ==> r && final(self).spec_data() == old(self).spec_data(),
            !board_over(old(self).spec_given_up(), old(self).spec_data()) ==> {
                let d = old(self).spec_data();
                let e = final(self).spec_data();
                &&& e.flagged@ == spec_toggled_flags(d, pos)
                &&& e.width == d.width && e.height == d.height && e.number_of_mines == d.number_of_mines
                &&& e.clicked == d.clicked && e.mines == d.mines
                &&& r == (!d.flagged@.contains(pos) && spec_toggled_flags(d, pos) != d.flagged@
                    && uninteracted_count(d, false) == d.mines@.len())
            },
    {
        if self.game_is_over() {
            return true;
        }
        self.data.toggle_flag(pos)
    }

    /// Uncovers `pos` unless the game is over (see `Data::click`); the result
    /// says whether the game is over.
    pub fn click(&mut self, pos: (usize, usize)) -> (r: bool)
        requires
            old(self).spec_data().width * old(self).spec_data().height <= usize::MAX,
            click_fits(old(self).spec_data(), pos),
        ensures
            final(self).spec_given_up() == old(self).spec_given_up(),
            board_over(old(self).spec_given_up(), old(self).spec_data()) ==> r && final(self).spec_data() == old(self).spec_data(),
            !board_over(old(self).spec_given_up(), old(self).spec_data()) ==> click_outcome(
                old(self).spec_data(),
                pos,
                final(self).spec_data(),
                r,
            ),
    {
        if self.game_is_over() {
            return true;
        }
        self.data.click(pos, &mut self.rng)
    }

    /// When the game is over without being won (lost, or given up), covers the
/// uncovered mines again; otherwise nothing changes.
    pub fn undo_mistake(&mut self)
        requires
            old(self).spec_data().width * old(self).spec_data().height <= usize::MAX,
        ensures
            final(self).spec_given_up() == old(self).spec_given_up(),
            ({
                let d = old(self).spec_data();
                let e = final(self).spec_data();
                if spec_won(d) || !board_over(old(self).spec_given_up(), d) {
                    e == d
                } else {
                    &&& e.clicked@ == d.clicked@.difference(d.mines@)
                    &&& e.width == d.width && e.height == d.height && e.number_of_mines == d.number_of_mines
                    &&& e.flagged == d.flagged && e.mines == d.mines
                }
            }),
    {
        if self.game_has_been_won() || !self.game_is_over() {
            return;
        }
        self.data.uncover_mines_again();
    }
}

impl Board {
    /// Every cell of the board in row-major order, as the player sees it.
    pub fn render(&self) -> (r: Vec<RenderedGridElement>)
        requires
            self.spec_data().width * self.spec_data().height <= usize::MAX,
        ensures
            r@.len() == self.spec_data().width * self.spec_data().height,
            forall|i: int|
                0 <= i < r@.len() ==> #[trigger] r@[i] == element_at(
                    self.spec_data(),
                    board_over(self.spec_given_up(), self.spec_data()),
                    spec_index_to_coords(i, self.spec_data().width as int),
                ),
    {
        let game_is_over = self.game_is_over();
        let ghost d = self.data;
        let w = self.data.width;
        let h = self.data.height;
        let mut out: Vec<RenderedGridElement> = Vec::new();
        let mut y: usize = 0;
        while y < h
            invariant
                d == self.data,
                w == d.width,
                h == d.height,
                w * h <= usize::MAX,
                y <= h,
                game_is_over == board_over(self.spec_given_up(), d),
                out@.len() == y * w,
                forall|i: int|
                    0 <= i < out@.len() ==> #[trigger] out@[i] == element_at(
                        d,
                        game_is_over,
                        spec_index_to_coords(i, w as int),
                    ),
            decreases h - y,
        {
            proof {
                assert(y * w + w <= w * h) by (nonlinear_arith)
                    requires y < h;
            }
            let mut x: usize = 0;
            while x < w
                invariant
                    d == self.data,
                    w == d.width,
                    h == d.height,
                    y < h,
                    x <= w,
                    y * w + w <= w * h,
                    w * h <= usize::MAX,
                    game_is_over == board_over(self.spec_given_up(), d),
                    out@.len() == y * w + x,
                    forall|i: int|
                        0 <= i < out@.len() ==> #[trigger] out@[i] == element_at(
                            d,
                            game_is_over,
                            spec_index_to_coords(i, w as int),
                        ),
                decreases w - x,
            {
                let pos = (x, y);
                let is_mine = self.data.mines.contains(pos);
                let is_clicked = self.data.clicked.contains(pos);
                let ty = if is_mine && is_clicked {
                    GridElementType::Exploded
                } else if is_mine && game_is_over {
                    GridElementType::Mine
                } else if is_clicked {
                    let around = self.data.get_neighbours(pos, true);
                    let all_uncovered = self.data.all_clicked(&around);
                    proof {
                        if !all_uncovered {
                            let k = choose|k: int| 0 <= k < around@.len() && !d.clicked@.contains(#[trigger] around@[k]);
                            assert(nbrs(d, pos).contains(around@[k]));
                        } else {
                            assert forall|n: (usize, usize)| #[trigger] nbrs(d, pos).contains(n) implies d.clicked@.contains(n) by {
                                let k = choose|k: int| 0 <= k < around@.len() && around@[k] == n;
                            }
                        }
                    }
                    GridElementType::Discovered { should_display_count: !all_uncovered }
                } else {
                    GridElementType::Undiscovered
                };
                let flagged = self.data.flagged.contains(pos);
                proof {
                    let i = y * w + x;
                    vstd::arithmetic::div_mod::lemma_fundamental_div_mod_converse(
                        i,
                        w as int,
                        y as int,
                        x as int,
                    );
                    assert(spec_index_to_coords(i, w as int) == pos);
                }
                out.push(RenderedGridElement { ty, flagged });
                x = x + 1;
            }
            proof {
                assert(y * w + w == (y + 1) * w) by (nonlinear_arith);
            }
            y = y + 1;
        }
        assert(h * w == w * h) by (nonlinear_arith);
        out
    }
}

/// What a cell shows.
#[derive(Copy, Clone, Debug, Eq, PartialEq, Structural)]
pub enum GridElementType {
    Exploded,
    Discovered { should_display_count: bool },
    Undiscovered,
    Mine,
}

/// A cell as the player sees it; `RenderedGridElement::to_uv` says where its
/// picture lies in a sprite atlas.
#[derive(Copy, Clone, Debug, Eq, PartialEq, Structural)]
pub struct RenderedGridElement {
    pub ty: GridElementType,
    pub flagged: bool,
}

/// What the cell at `pos` shows in state `d`, given whether the game is over.
pub open spec fn element_type(d: Data, over: bool, pos: (usize, usize)) -> GridElementType {
    if d.mines@.contains(pos) && d.clicked@.contains(pos) {
        GridElementType::Exploded
    } else if d.mines@.contains(pos) && over {
        GridElementType::Mine
    } else if d.clicked@.contains(pos) {
        GridElementType::Discovered {
            should_display_count: exists|n: (usize, usize)| #[trigger]
                nbrs(d, pos).contains(n) && !d.clicked@.contains(n),
        }
    } else {
        GridElementType::Undiscovered
    }
}

/// The cell at `pos` as the player sees it in state `d`.
pub open spec fn element_at(d: Data, over: bool, pos: (usize, usize)) -> RenderedGridElement {
    RenderedGridElement { ty: element_type(d, over, pos), flagged: d.flagged@.contains(pos) }
}

/// The picture sets a board can be drawn with.
#[derive(Copy, Clone, Debug, Eq, PartialEq, Hash, Default, Structural)]
pub enum SpriteAtlas {
    #[default]
    WinMine,
    RTXOn,
    DarkMode,
}

/// The name shown for each picture set.
pub open spec fn atlas_name(atlas: SpriteAtlas) -> Seq<char> {
    match atlas {
        SpriteAtlas::WinMine => "WinMine XP"@,
        SpriteAtlas::RTXOn => "RTX On"@,
        SpriteAtlas::DarkMode => "Dark Mode"@,
    }
}

impl SpriteAtlas {
    /// The largest texture side any picture set needs.
    pub const MAX_TEXTURE_SIDE: usize = 3072;

    /// Every picture set.
    pub const ALL_VARIANTS: [SpriteAtlas; 3] = [
        SpriteAtlas::WinMine,
        SpriteAtlas::RTXOn,
        SpriteAtlas::DarkMode,
    ];

    pub fn as_static_str(self) -> (r: &'static str)
        ensures
            r@ == atlas_name(self),
    {
        match self {
            SpriteAtlas::WinMine => "WinMine XP",
            SpriteAtlas::RTXOn => "RTX On",
            SpriteAtlas::DarkMode => "Dark Mode",
        }
    }

    /// The file that holds the set's pictures, a PNG image.
    pub fn png_file_name(self) -> (r: &'static str)
        ensures
            r@ == atlas_file(self),
    {
        match self {
            SpriteAtlas::WinMine => "WinmineXP.png",
            SpriteAtlas::RTXOn => "RTXOn.png",
            SpriteAtlas::DarkMode => "NightMode.png",
        }
    }

    /// Whether the set's pictures are scaled smoothly (linear filtering);
    /// the others are scaled by the nearest pixel. Only the RTX set is.
    pub fn linear_filtering(self) -> (r: bool)
        ensures
            r == (self == SpriteAtlas::RTXOn),
    {
        match self {
            SpriteAtlas::RTXOn => true,
            _ => false,
        }
    }

    /// The colour behind the board, as red, green and blue, where the set
    /// asks for one: only the dark set does.
    pub fn background_rgb(self) -> (r: Option<(u8, u8, u8)>)
        ensures
            r == (if self == SpriteAtlas::DarkMode {
                Some((0x2du8, 0x17u8, 0x10u8))
            } else {
                None
            }),
    {
        match self {
            SpriteAtlas::DarkMode => Some((0x2d, 0x17, 0x10)),
            _ => None,
        }
    }
}

/// A picture as rows of 8-bit red, green, blue and alpha values, top row first.
pub struct RgbaPixels {
    pub width: u32,
    pub height: u32,
    pub pixels: Vec<u8>,
}

/// What the image crate reads from PNG bytes: the width, the height and the
/// RGBA values of the picture, or nothing when the bytes are not a PNG it
/// can decode.
pub uninterp spec fn png_rgba(bytes: Seq<u8>) -> Option<(u32, u32, Seq<u8>)>;

/// Decodes PNG bytes with the image crate (`ImageReader::with_format` with
/// `ImageFormat::Png`, `decode`, then `to_rgba8`). Its result is named
/// `png_rgba`: it depends on the bytes alone.
#[verifier::external_body]
fn decode_png(bytes: &[u8]) -> (r: Option<RgbaPixels>)
    ensures
        match png_rgba(bytes@) {
            Some((w, h, p)) => r matches Some(img) && img.width == w && img.height == h && img.pixels@ == p,
            None => r is None,
        },
{
    let reader = image::ImageReader::with_format(std::io::Cursor::new(bytes), image::ImageFormat::Png);
    match reader.decode() {
        Ok(img) => {
            let rgba = img.to_rgba8();
            let (width, height) = rgba.dimensions();
            Some(RgbaPixels { width, height, pixels: rgba.into_raw() })
        },
        Err(_) => None,
    }
}

/// The pixels of a sprite atlas from the bytes of its PNG file, as the
/// image crate decodes them; `None` when they cannot be decoded.
pub fn atlas_pixels(png: &[u8]) -> (r: Option<RgbaPixels>)
    ensures
        match png_rgba(png@) {
            Some((w, h, p)) => r matches Some(img) && img.width == w && img.height == h && img.pixels@ == p,
            None => r is None,
        },
{
    decode_png(png)
}

/// The file that holds each picture set.
pub open spec fn atlas_file(atlas: SpriteAtlas) -> Seq<char> {
    match atlas {
        SpriteAtlas::WinMine => "WinmineXP.png"@,
        SpriteAtlas::RTXOn => "RTXOn.png"@,
        SpriteAtlas::DarkMode => "NightMode.png"@,
    }
}

/// A cell of a sprite atlas cut into `columns` by `rows` equal cells: the
/// picture spans from `(x / columns, y / rows)` to `((x + 1) / columns, (y + 1) / rows)`
/// in texture coordinates.
#[derive(Copy, Clone, Debug, Eq, PartialEq, Structural)]
pub struct UvRect {
    pub x: u32,
    pub y: u32,
    pub columns: u32,
    pub rows: u32,
}

/// The pictures a cell can show.
pub enum Sprite {
    Flag,
    WrongFlag,
    Exploded,
    Undiscovered,
    Blank,
    Digit(u8),
    Mine,
}

/// Which picture a cell shows: a flag (marked wrong once the game is over,
/// unless it sits on a shown mine), or else by what the cell shows, an
/// uncovered cell showing its hint from 1 to 8 when asked to and a blank
/// otherwise.
pub open spec fn sprite_for(e: RenderedGridElement, count: u8, game_is_over: bool) -> Sprite {
    if e.flagged {
        if game_is_over && e.ty != GridElementType::Mine {
            Sprite::WrongFlag
        } else {
            Sprite::Flag
        }
    } else {
        match e.ty {
            GridElementType::Exploded => Sprite::Exploded,
            GridElementType::Undiscovered => Sprite::Undiscovered,
            GridElementType::Discovered { should_display_count } => if should_display_count && 1
                <= count <= 8 {
                Sprite::Digit(count)
            } else {
                Sprite::Blank
            },
            GridElementType::Mine => Sprite::Mine,
        }
    }
}

/// Where each picture lies in each atlas, as (column, row).
pub open spec fn sprite_cell(atlas: SpriteAtlas, sprite: Sprite) -> (u32, u32) {
    match atlas {
        SpriteAtlas::WinMine => match sprite {
            Sprite::Flag => (2, 2),
            Sprite::WrongFlag => (3, 2),
            Sprite::Exploded => (3, 3),
            Sprite::Undiscovered => (1, 2),
            Sprite::Blank => (0, 2),
            Sprite::Digit(n) => if n <= 4 { ((n - 1) as u32, 0) } else { ((n - 5) as u32, 1) },
            Sprite::Mine => (2, 3),
        },
        SpriteAtlas::RTXOn => match sprite {
            Sprite::Flag => (0, 1),
            Sprite::WrongFlag => (1, 2),
            Sprite::Exploded => (2, 2),
            Sprite::Undiscovered => (0, 0),
            Sprite::Blank => (3, 0),
            Sprite::Digit(n) => if n <= 4 { ((n - 1) as u32, 3) } else { ((n - 5) as u32, 4) },
            Sprite::Mine => (0, 2),
        },
        SpriteAtlas::DarkMode => match sprite {
            Sprite::Flag => (2, 0),
            Sprite::WrongFlag => (3, 3),
            Sprite::Exploded => (3, 0),
            Sprite::Undiscovered => (2, 3),
            Sprite::Blank => (0, 3),
            Sprite::Digit(n) => if n <= 4 { ((n - 1) as u32, 1) } else { ((n - 5) as u32, 2) },
            Sprite::Mine => (0, 0),
        },
    }
}

/// How each atlas is cut, as (columns, rows). The RTX atlas is 2048 by 3072
/// pixels of 512-pixel cells, so it has six rows of which five are used.
pub open spec fn atlas_grid(atlas: SpriteAtlas) -> (u32, u32) {
    match atlas {
        SpriteAtlas::WinMine => (4, 4),
        SpriteAtlas::RTXOn => (4, 6),
        SpriteAtlas::DarkMode => (4, 4),
    }
}

/// The texture rectangle of a cell.
pub open spec fn spec_uv(e: RenderedGridElement, count: u8, game_is_over: bool, atlas: SpriteAtlas) -> UvRect {
    let cell = sprite_cell(atlas, sprite_for(e, count, game_is_over));
    let grid = atlas_grid(atlas);
    UvRect { x: cell.0, y: cell.1, columns: grid.0, rows: grid.1 }
}

/// The rectangle of cell `(x, y)` of a `columns` by `rows` atlas.
fn cell_rect(x: u32, y: u32, columns: u32, rows: u32) -> (r: UvRect)
    ensures
        r == (UvRect { x, y, columns, rows }),
{
    UvRect { x, y, columns, rows }
}

impl RenderedGridElement {
    /// Where the picture of this cell lies in `sprite_atlas`, given its hint
    /// `count` and whether the game is over.
    pub fn to_uv(self, count: u8, game_is_over: bool, sprite_atlas: SpriteAtlas) -> (r: UvRect)
        ensures
            r == spec_uv(self, count, game_is_over, sprite_atlas),
    {
        match sprite_atlas {
            SpriteAtlas::WinMine => {
                if self.flagged {
                    return if game_is_over && self.ty != GridElementType::Mine {
                        cell_rect(3, 2, 4, 4)
                    } else {
                        cell_rect(2, 2, 4, 4)
                    };
                }
                match self.ty {
                    GridElementType::Exploded => cell_rect(3, 3, 4, 4),
                    GridElementType::Undiscovered => cell_rect(1, 2, 4, 4),
                    GridElementType::Discovered { should_display_count } => {
                        if should_display_count {
                            match count {
                                1 => cell_rect(0, 0, 4, 4),
                                2 => cell_rect(1, 0, 4, 4),
                                3 => cell_rect(2, 0, 4, 4),
                                4 => cell_rect(3, 0, 4, 4),
                                5 => cell_rect(0, 1, 4, 4),
                                6 => cell_rect(1, 1, 4, 4),
                                7 => cell_rect(2, 1, 4, 4),
                                8 => cell_rect(3, 1, 4, 4),
                                _ => cell_rect(0, 2, 4, 4),
                            }
                        } else {
                            cell_rect(0, 2, 4, 4)
                        }
                    },
                    GridElementType::Mine => cell_rect(2, 3, 4, 4),
                }
            },
            SpriteAtlas::RTXOn => {
                if self.flagged {
                    return if game_is_over && self.ty != GridElementType::Mine {
                        cell_rect(1, 2, 4, 6)
                    } else {
                        cell_rect(0, 1, 4, 6)
                    };
                }
                match self.ty {
                    GridElementType::Exploded => cell_rect(2, 2, 4, 6),
                    GridElementType::Undiscovered => cell_rect(0, 0, 4, 6),
                    GridElementType::Discovered { should_display_count } => {
                        if should_display_count {
                            match count {
                                1 => cell_rect(0, 3, 4, 6),
                                2 => cell_rect(1, 3, 4, 6),
                                3 => cell_rect(2, 3, 4, 6),
                                4 => cell_rect(3, 3, 4, 6),
                                5 => cell_rect(0, 4, 4, 6),
                                6 => cell_rect(1, 4, 4, 6),
                                7 => cell_rect(2, 4, 4, 6),
                                8 => cell_rect(3, 4, 4, 6),
                                _ => cell_rect(3, 0, 4, 6),
                            }
                        } else {
                            cell_rect(3, 0, 4, 6)
                        }
                    },
                    GridElementType::Mine => cell_rect(0, 2, 4, 6),
                }
            },
            SpriteAtlas::DarkMode => {
                if self.flagged {
                    return if game_is_over && self.ty != GridElementType::Mine {
                        cell_rect(3, 3, 4, 4)
                    } else {
                        cell_rect(2, 0, 4, 4)
                    };
                }
                match self.ty {
                    GridElementType::Exploded => cell_rect(3, 0, 4, 4),
                    GridElementType::Undiscovered => cell_rect(2, 3, 4, 4),
                    GridElementType::Discovered { should_display_count } => {
                        if should_display_count {
                            match count {
                                1 => cell_rect(0, 1, 4, 4),
                                2 => cell_rect(1, 1, 4, 4),
                                3 => cell_rect(2, 1, 4, 4),
                                4 => cell_rect(3, 1, 4, 4),
                                5 => cell_rect(0, 2, 4, 4),
                                6 => cell_rect(1, 2, 4, 4),
                                7 => cell_rect(2, 2, 4, 4),
                                8 => cell_rect(3, 2, 4, 4),
                                _ => cell_rect(0, 3, 4, 4),
                            }
                        } else {
                            cell_rect(0, 3, 4, 4)
                        }
                    },
                    GridElementType::Mine => cell_rect(0, 0, 4, 4),
                }
            },
        }
    }
}

impl Data {
    /// How many flags sit on mines.
    pub fn flagged_mines(&self) -> (r: usize)
        ensures
            r == self.flagged@.intersect(self.mines@).len(),
    {
        proof {
            use_type_invariant(&self.flagged);
            self.flagged.lemma_size();
        }
        let n = self.flagged.len();
        let ghost pred = |p: (usize, usize)| self.mines@.contains(p);
        let mut count: usize = 0;
        let mut i: usize = 0;
        while i < n
            invariant
                n == self.flagged.elems().len(),
                i <= n,
                pred == (|p: (usize, usize)| self.mines@.contains(p)),
                count == self.flagged.elems().take(i as int).filter(pred).len(),
                count <= i,
            decreases n - i,
        {
            let p = self.flagged.get(i);
            proof {
                assert(self.flagged.elems().take(i + 1) =~= self.flagged.elems().take(i as int).push(p));
                self.flagged.elems().take(i as int).lemma_filter_push(p, pred);
            }
            if self.mines.contains(p) {
                count = count + 1;
            }
            i = i + 1;
        }
        proof {
            let s = self.flagged.elems();
            assert(s.take(n as int) =~= s);
            crate::placement::lemma_filter_no_dups(s, pred);
            s.filter(pred).unique_seq_to_set();
            assert forall|p: (usize, usize)| #[trigger] s.filter(pred).to_set().contains(p) <==> self.flagged@.intersect(self.mines@).contains(p) by {
                if s.filter(pred).contains(p) {
                    s.lemma_filter_contains_rev(pred, p);
                    let k = choose|k: int| 0 <= k < s.filter(pred).len() && s.filter(pred)[k] == p;
                    broadcast use vstd::seq_lib::group_filter_ensures;
                    assert(pred(s.filter(pred)[k]));
                }
                if self.flagged@.contains(p) && self.mines@.contains(p) {
                    assert(s.contains(p));
                    let k = choose|k: int| 0 <= k < s.len() && s[k] == p;
                    s.lemma_filter_contains(pred, k);
                }
            }
            assert(s.filter(pred).to_set() =~= self.flagged@.intersect(self.mines@));
        }
        count
    }

    /// Covers every uncovered mine again.
    pub fn uncover_mines_again(&mut self)
        ensures
            final(self).clicked@ == old(self).clicked@.difference(old(self).mines@),
            final(self).width == old(self).width,
            final(self).height == old(self).height,
            final(self).number_of_mines == old(self).number_of_mines,
            final(self).flagged == old(self).flagged,
            final(self).mines == old(self).mines,
    {
        proof {
            use_type_invariant(&self.mines);
            self.mines.lemma_size();
        }
        let n = self.mines.len();
        let mut i: usize = 0;
        while i < n
            invariant
                n == self.mines.elems().len(),
                i <= n,
                self.width == old(self).width,
                self.height == old(self).height,
                self.number_of_mines == old(self).number_of_mines,
                self.flagged == old(self).flagged,
                self.mines == old(self).mines,
                self.clicked@ == old(self).clicked@.difference(self.mines.elems().take(i as int).to_set()),
            decreases n - i,
        {
            let m = self.mines.get(i);
            self.clicked.remove(m);
            proof {
                assert(self.mines.elems().take(i + 1) =~= self.mines.elems().take(i as int).push(m));
                assert(self.clicked@ =~= old(self).clicked@.difference(self.mines.elems().take(i + 1).to_set()));
            }
            i = i + 1;
        }
        assert(self.mines.elems().take(n as int) =~= self.mines.elems());
    }
}

} // verus!

use vstd::prelude::*;

verus! {

/// One cell of a board packed into a byte: bit 0 says it is a mine, bit 1 that
/// it carries a flag, bit 2 that it has been uncovered.
#[derive(Copy, Clone, Debug, Eq, PartialEq, Structural)]
pub struct Tile {
    state: u8,
}

/// What the player has done to a tile so far.
#[derive(Copy, Clone, Debug, Eq, PartialEq, Structural)]
pub enum TileInteractionState {
    Undiscovered,
    Flagged,
    Discovered,
}

/// Bit 0 of a tile's byte.
pub open spec fn mine_bit(state: u8) -> bool {
    state & 1u8 != 0
}

/// Bit 1 of a tile's byte.
pub open spec fn flag_bit(state: u8) -> bool {
    state & 2u8 != 0
}

/// Bit 2 of a tile's byte.
pub open spec fn discovered_bit(state: u8) -> bool {
    state & 4u8 != 0
}

/// The interaction state that a byte stands for: bit 2 wins over bit 1.
pub open spec fn tis_of(state: u8) -> TileInteractionState {
    if discovered_bit(state) {
        TileInteractionState::Discovered
    } else if flag_bit(state) {
        TileInteractionState::Flagged
    } else {
        TileInteractionState::Undiscovered
    }
}

/// The byte that `Tile::new` builds: the mine in bit 0, and a flagged tile
/// with bit 1 set, an uncovered one with bit 2 set.
pub open spec fn new_state(is_mine: bool, tis: TileInteractionState) -> u8 {
    let first: u8 = if is_mine { 1u8 } else { 0u8 };
    match tis {
        TileInteractionState::Discovered => first | 4u8,
        TileInteractionState::Flagged => first | 2u8,
        TileInteractionState::Undiscovered => first,
    }
}

impl Tile {
    /// The byte behind this tile.
    pub closed spec fn spec_state(self) -> u8 {
        self.state
    }

    /// A tile is its byte: tiles with the same byte are the same tile. So
    /// toggling the flag twice gives the tile back, uncovering twice is
    /// uncovering once, and `from_state(t.get_state())` is `t`.
    pub proof fn law_tile_is_its_state(a: Tile, b: Tile)
        requires
            a.spec_state() == b.spec_state(),
        ensures
            a == b,
    {
    }

    /// A tile that is a mine or not, in the given interaction state; it reads
    /// back as that state and that mine.
    pub fn new(is_mine: bool, tis: TileInteractionState) -> (r: Self)
        ensures
            r.spec_state() == new_state(is_mine, tis),
            tis_of(r.spec_state()) == tis,
            mine_bit(r.spec_state()) == is_mine,
    {
        let first_part: u8 = if is_mine { 1 } else { 0 };
        let second_part: u8 = match tis {
            TileInteractionState::Discovered => 0b100,
            TileInteractionState::Flagged => 0b010,
            TileInteractionState::Undiscovered => 0b000,
        };
        let state = first_part | second_part;
        assert(first_part <= 1u8 ==> (first_part | 4u8) & 4u8 != 0 && (first_part | 4u8) & 1u8 == first_part) by (bit_vector);
        assert(first_part <= 1u8 ==> (first_part | 2u8) & 4u8 == 0 && (first_part | 2u8) & 2u8 != 0 && (first_part | 2u8) & 1u8 == first_part) by (bit_vector);
        assert(first_part <= 1u8 ==> (first_part | 0u8) == first_part && first_part & 4u8 == 0 && first_part & 2u8 == 0 && first_part & 1u8 == first_part) by (bit_vector);
        Self { state }
    }

    pub fn get_state(&self) -> (r: u8)
        ensures
            r == self.spec_state(),
    {
        self.state
    }

    pub fn from_state(state: u8) -> (r: Self)
        ensures
            r.spec_state() == state,
    {
        Self { state }
    }

    pub fn is_mine(&self) -> (r: bool)
        ensures
            r == mine_bit(self.spec_state()),
    {
        (self.state & 0b1) > 0
    }

    pub fn is_flagged(&self) -> (r: bool)
        ensures
            r == (flag_bit(self.spec_state()) && !discovered_bit(self.spec_state())),
    {
        let s = self.state;
        assert((s & (1u8 << 1u8) > 0) == (s & 2u8 != 0)) by (bit_vector);
        assert((s & (1u8 << 2u8) == 0) == !(s & 4u8 != 0)) by (bit_vector);
        (self.state & (0b1 << 1)) > 0 && (self.state & (0b1 << 2)) == 0
    }

    pub fn is_discovered(&self) -> (r: bool)
        ensures
            r == discovered_bit(self.spec_state()),
    {
        let s = self.state;
        assert((s & (1u8 << 2u8) > 0) == (s & 4u8 != 0)) by (bit_vector);
        (self.state & (0b1 << 2)) > 0
    }

    pub fn get_tis(&self) -> (r: TileInteractionState)
        ensures
            r == tis_of(self.spec_state()),
    {
        let s = self.state;
        assert((s & (1u8 << 2u8) > 0) == (s & 4u8 != 0)) by (bit_vector);
        assert((s & (1u8 << 1u8) > 0) == (s & 2u8 != 0)) by (bit_vector);
        if self.state & (0b1 << 2) > 0 {
            TileInteractionState::Discovered
        } else if self.state & (0b1 << 1) > 0 {
            TileInteractionState::Flagged
        } else {
            TileInteractionState::Undiscovered
        }
    }

    pub fn toggle_flag(&mut self)
        ensures
            final(self).spec_state() == old(self).spec_state() ^ 2u8,
    {
        assert(1u8 << 1u8 == 2u8) by (bit_vector);
        self.state = self.state ^ (0b1 << 1);
    }

    pub fn click(&mut self)
        ensures
            final(self).spec_state() == old(self).spec_state() | 4u8,
    {
        assert(1u8 << 2u8 == 4u8) by (bit_vector);
        self.state = self.state | (0b1 << 2);
    }
}

} // verus!

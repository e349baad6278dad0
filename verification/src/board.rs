//! The mailbox board: a flat array of 120 tiles laid out as a grid of 10
//! files by 12 ranks, whose border is made of sentinel tiles: one file on
//! each side, two ranks below and two above. Move offsets added to a
//! playable index always land inside the array, at worst on a sentinel.

use vstd::prelude::*;
use vstd::string::*;

verus! {

/// Represents both piece colors (see [`Tile`]) and player colors.
#[derive(Copy, Clone, PartialEq, Eq, Structural, Debug)]
pub enum Color {
    White,
    Black,
}

/// Represents tiles on the board.
///
/// Sentinel tiles form the border of the board and are only used internally.
/// All pieces have a [`Color`].
#[derive(Copy, Clone, PartialEq, Eq, Structural, Debug)]
pub enum Tile {
    Pawn(Color),
    Bishop(Color),
    Knight(Color),
    Rook(Color),
    Queen(Color),
    King(Color),
    Empty,
    Sentinel,
}

/// Represents zero-indexed positions on the board.
///
/// Positions are used when interfacing with the user; `rank` and `file` both
/// range over `0..=7` on the playable squares.
#[derive(Debug, Clone, Copy, PartialEq, Eq, Structural)]
pub struct Pos {
    pub rank: i32,
    pub file: i32,
}

/// Represents an error occuring in the back-end board representation.
#[derive(Debug, Clone, Copy, PartialEq, Eq, Structural)]
pub enum BoardError {
    /// The index lies outside the array or names a tile that cannot be written.
    OutOfBounds(Pos, usize),
}

/// Represents the chessboard as a one dimensional array.
#[derive(Debug, Clone, Copy)]
pub struct Board {
    tiles: [Tile; 120],
}

/// The color that moves after `color`.
pub open spec fn opposite(color: Color) -> Color {
    match color {
        Color::White => Color::Black,
        Color::Black => Color::White,
    }
}

/// The color of the piece on a tile, if the tile holds a piece.
pub open spec fn tile_color(tile: Tile) -> Option<Color> {
    match tile {
        Tile::Pawn(c) => Some(c),
        Tile::Bishop(c) => Some(c),
        Tile::Knight(c) => Some(c),
        Tile::Rook(c) => Some(c),
        Tile::Queen(c) => Some(c),
        Tile::King(c) => Some(c),
        Tile::Empty => None,
        Tile::Sentinel => None,
    }
}

/// The character a tile is drawn with.
pub open spec fn tile_glyph(tile: Tile) -> char {
    match tile {
        Tile::Pawn(Color::White) => 'P',
        Tile::Knight(Color::White) => 'N',
        Tile::Bishop(Color::White) => 'B',
        Tile::Rook(Color::White) => 'R',
        Tile::Queen(Color::White) => 'Q',
        Tile::King(Color::White) => 'K',
        Tile::Pawn(Color::Black) => 'p',
        Tile::Knight(Color::Black) => 'n',
        Tile::Bishop(Color::Black) => 'b',
        Tile::Rook(Color::Black) => 'r',
        Tile::Queen(Color::Black) => 'q',
        Tile::King(Color::Black) => 'k',
        Tile::Empty => '.',
        Tile::Sentinel => '_',
    }
}

/// Whether `index` names one of the 64 squares pieces can stand on.
pub open spec fn is_playable_index(index: int) -> bool {
    21 <= index <= 98 && 1 <= index % 10 <= 8
}

/// The index of the square at `pos`: `21 + file + rank * 10`.
pub open spec fn index_of(pos: Pos) -> int {
    21 + pos.file + pos.rank * 10
}

/// The position that the grid's addressing gives to `index`: the inverse of
/// [`index_of`] with files counted `0..=9`. An index outside the array has
/// no position and is given `Pos { rank: -1, file: -1 }`.
pub open spec fn pos_of(index: int) -> Pos {
    if 0 <= index < 120 {
        Pos { rank: ((index - 21) / 10) as i32, file: ((index - 21) % 10) as i32 }
    } else {
        Pos { rank: -1i32, file: -1i32 }
    }
}

/// What a fresh board holds: sentinels on the border, empty squares inside.
pub open spec fn empty_tiles() -> Seq<Tile> {
    Seq::new(
        120,
        |i: int|
            if is_playable_index(i) {
                Tile::Empty
            } else {
                Tile::Sentinel
            },
    )
}

/// The invariant of every board: 120 tiles, of which exactly the border
/// ones are sentinels.
pub open spec fn well_formed(tiles: Seq<Tile>) -> bool {
    &&& tiles.len() == 120
    &&& forall|i: int|
        0 <= i < 120 ==> ((#[trigger] tiles[i]) is Sentinel <==> !is_playable_index(i))
}

/// The file letter of algebraic notation for a column of the grid, or a
/// space for a border column.
pub open spec fn file_letter(column: int) -> char {
    if column == 1 {
        'A'
    } else if column == 2 {
        'B'
    } else if column == 3 {
        'C'
    } else if column == 4 {
        'D'
    } else if column == 5 {
        'E'
    } else if column == 6 {
        'F'
    } else if column == 7 {
        'G'
    } else if column == 8 {
        'H'
    } else {
        ' '
    }
}

/// The rank digit of algebraic notation for a row of the grid, or a space
/// for a border row.
pub open spec fn rank_digit(row: int) -> char {
    if row == 2 {
        '1'
    } else if row == 3 {
        '2'
    } else if row == 4 {
        '3'
    } else if row == 5 {
        '4'
    } else if row == 6 {
        '5'
    } else if row == 7 {
        '6'
    } else if row == 8 {
        '7'
    } else if row == 9 {
        '8'
    } else {
        ' '
    }
}

/// Algebraic notation of an index, in capital letters: file letter, then
/// rank digit, each replaced by a space where the index is off the board in
/// that direction.
pub open spec fn algebraic(index: int) -> Seq<char> {
    seq![file_letter(index % 10), rank_digit(index / 10)]
}

/// Converting a playable position to its index and back gives the position.
pub proof fn lemma_pos_index_round_trip(pos: Pos)
    requires
        pos.is_playable(),
    ensures
        is_playable_index(index_of(pos)),
        pos_of(index_of(pos)) == pos,
{
}

/// Converting a playable index to its position and back gives the index.
pub proof fn lemma_index_pos_round_trip(index: int)
    requires
        is_playable_index(index),
    ensures
        pos_of(index).is_playable(),
        index_of(pos_of(index)) == index,
{
}

/// Inside the array, the playable indices are exactly those whose position
/// has rank and file in `0..=7`.
pub proof fn lemma_playable_index_iff_playable_pos(index: int)
    requires
        0 <= index < 120,
    ensures
        is_playable_index(index) <==> pos_of(index).is_playable(),
{
}

impl Color {
    /// The other color.
    pub fn flip(self) -> (other: Color)
        ensures
            other == opposite(self),
    {
        match self {
            Color::White => Color::Black,
            Color::Black => Color::White,
        }
    }

    /// The color's name, `White` or `Black`.
    pub fn to_string(&self) -> (name: String)
        ensures
            name@ == (match *self {
                Color::White => "White"@,
                Color::Black => "Black"@,
            }),
    {
        match self {
            Color::White => String::from_str("White"),
            Color::Black => String::from_str("Black"),
        }
    }
}

impl Tile {
    /// The color of the piece on this tile, or `None` for an empty or
    /// sentinel tile.
    pub fn color(&self) -> (color: Option<Color>)
        ensures
            color == tile_color(*self),
    {
        match self {
            Tile::Pawn(c) => Some(*c),
            Tile::Bishop(c) => Some(*c),
            Tile::Knight(c) => Some(*c),
            Tile::Rook(c) => Some(*c),
            Tile::Queen(c) => Some(*c),
            Tile::King(c) => Some(*c),
            Tile::Empty => None,
            Tile::Sentinel => None,
        }
    }

    /// The character this tile is drawn with: the piece's letter, upper case
    /// for White and lower case for Black, `.` for an empty tile and `_` for
    /// a sentinel.
    pub fn to_char(&self) -> (glyph: char)
        ensures
            glyph == tile_glyph(*self),
    {
        match self {
            Tile::Pawn(Color::White) => 'P',
            Tile::Knight(Color::White) => 'N',
            Tile::Bishop(Color::White) => 'B',
            Tile::Rook(Color::White) => 'R',
            Tile::Queen(Color::White) => 'Q',
            Tile::King(Color::White) => 'K',
            Tile::Pawn(Color::Black) => 'p',
            Tile::Knight(Color::Black) => 'n',
            Tile::Bishop(Color::Black) => 'b',
            Tile::Rook(Color::Black) => 'r',
            Tile::Queen(Color::Black) => 'q',
            Tile::King(Color::Black) => 'k',
            Tile::Empty => '.',
            Tile::Sentinel => '_',
        }
    }

    /// The tile's character as a one-character string.
    pub fn to_string(&self) -> (text: String)
        ensures
            text@ == seq![tile_glyph(*self)],
    {
        proof {
            reveal_strlit("P");
            reveal_strlit("N");
            reveal_strlit("B");
            reveal_strlit("R");
            reveal_strlit("Q");
            reveal_strlit("K");
            reveal_strlit("p");
            reveal_strlit("n");
            reveal_strlit("b");
            reveal_strlit("r");
            reveal_strlit("q");
            reveal_strlit("k");
            reveal_strlit(".");
            reveal_strlit("_");
        }
        let text = match self {
            Tile::Pawn(Color::White) => String::from_str("P"),
            Tile::Knight(Color::White) => String::from_str("N"),
            Tile::Bishop(Color::White) => String::from_str("B"),
            Tile::Rook(Color::White) => String::from_str("R"),
            Tile::Queen(Color::White) => String::from_str("Q"),
            Tile::King(Color::White) => String::from_str("K"),
            Tile::Pawn(Color::Black) => String::from_str("p"),
            Tile::Knight(Color::Black) => String::from_str("n"),
            Tile::Bishop(Color::Black) => String::from_str("b"),
            Tile::Rook(Color::Black) => String::from_str("r"),
            Tile::Queen(Color::Black) => String::from_str("q"),
            Tile::King(Color::Black) => String::from_str("k"),
            Tile::Empty => String::from_str("."),
            Tile::Sentinel => String::from_str("_"),
        };
        assert(text@ =~= seq![tile_glyph(*self)]);
        text
    }
}

impl Pos {
    /// Whether the position names one of the 64 squares of the board.
    pub open spec fn is_playable(self) -> bool {
        0 <= self.rank <= 7 && 0 <= self.file <= 7
    }

    /// Whether the position names one of the 64 squares of the board.
    pub fn on_board(&self) -> (playable: bool)
        ensures
            playable == self.is_playable(),
    {
        0 <= self.rank && self.rank <= 7 && 0 <= self.file && self.file <= 7
    }
}

impl BoardError {
    /// The message shown for a board error.
    pub fn to_string(&self) -> (message: String)
        ensures
            message@ == "invalid board operation"@,
    {
        String::from_str("invalid board operation")
    }
}

impl View for Board {
    type V = Seq<Tile>;

    closed spec fn view(&self) -> Seq<Tile> {
        self.tiles@
    }
}

impl Board {
    #[verifier::type_invariant]
    pub(crate) open spec fn inv(self) -> bool {
        well_formed(self@)
    }

    /// Returns the tile at a given index, or `None` if the index lies
    /// outside the array. The tile may be a sentinel.
    pub fn get_tile(&self, index: usize) -> (tile: Option<&Tile>)
        ensures
            well_formed(self@),
            tile == (if index < 120 {
                Some(&self@[index as int])
            } else {
                None
            }),
    {
        proof {
            use_type_invariant(self);
        }
        if index < 120 {
            Some(&self.tiles[index])
        } else {
            None
        }
    }

    /// Sets a tile value at a given index.
    ///
    /// Fails, leaving the board as it was, if the index is outside the
    /// array, if the tile there is a sentinel, or if `piece` is a sentinel.
    pub fn set_tile(&mut self, index: usize, piece: Tile) -> (result: Result<(), BoardError>)
        ensures
            well_formed(old(self)@),
            well_formed(final(self)@),
            result is Ok <==> is_playable_index(index as int) && piece != Tile::Sentinel,
            result is Ok ==> final(self)@ == old(self)@.update(index as int, piece),
            result matches Err(e) ==> final(self)@ == old(self)@ && e == BoardError::OutOfBounds(
                pos_of(index as int),
                index,
            ),
    {
        proof {
            use_type_invariant(&*self);
        }
        if index >= 120 {
            return Err(BoardError::OutOfBounds(Board::get_pos(index), index));
        }
        match piece {
            Tile::Sentinel => Err(BoardError::OutOfBounds(Board::get_pos(index), index)),
            _ => match self.tiles[index] {
                Tile::Sentinel => Err(BoardError::OutOfBounds(Board::get_pos(index), index)),
                _ => {
                    self.tiles[index] = piece;
                    Ok(())
                },
            },
        }
    }

    /// Sets a tile to empty and returns the removed tile.
    ///
    /// Fails, leaving the board as it was, if the index is outside the
    /// array or the tile there is a sentinel. Removing an empty tile is
    /// allowed and returns [`Tile::Empty`].
    pub fn rem_tile(&mut self, index: usize) -> (result: Result<Tile, BoardError>)
        ensures
            well_formed(old(self)@),
            well_formed(final(self)@),
            result is Ok <==> is_playable_index(index as int),
            result matches Ok(tile) ==> tile == old(self)@[index as int] && final(self)@
                == old(self)@.update(index as int, Tile::Empty),
            result matches Err(e) ==> final(self)@ == old(self)@ && e == BoardError::OutOfBounds(
                pos_of(index as int),
                index,
            ),
    {
        proof {
            use_type_invariant(&*self);
        }
        if index >= 120 {
            return Err(BoardError::OutOfBounds(Board::get_pos(index), index));
        }
        match self.tiles[index] {
            Tile::Sentinel => Err(BoardError::OutOfBounds(Board::get_pos(index), index)),
            tile => {
                self.tiles[index] = Tile::Empty;
                Ok(tile)
            },
        }
    }

    /// Returns all tiles.
    pub fn get_tiles(&self) -> (tiles: &[Tile; 120])
        ensures
            tiles@ == self@,
            well_formed(self@),
    {
        proof {
            use_type_invariant(self);
        }
        &self.tiles
    }

    /// Creates an empty board surrounded by sentinel tiles.
    pub fn new() -> (board: Self)
        ensures
            board@ == empty_tiles(),
            well_formed(board@),
            forall|i: int|
                0 <= i < 120 ==> #[trigger] board@[i] == (if pos_of(i).is_playable() {
                    Tile::Empty
                } else {
                    Tile::Sentinel
                }),
    {
        let mut tiles = [Tile::Empty;120];
        let mut index: usize = 0;
        while index < 120
            invariant
                index <= 120,
                forall|i: int| 0 <= i < index ==> (#[trigger] tiles@[i]) == empty_tiles()[i],
                forall|i: int| index <= i < 120 ==> (#[trigger] tiles@[i]) == Tile::Empty,
            decreases 120 - index,
        {
            if index < 20 || index >= 100 || index % 10 == 0 || index % 10 == 9 {
                tiles[index] = Tile::Sentinel;
            }
            index += 1;
        }
        assert(tiles@ =~= empty_tiles());
        Board { tiles }
    }

    /// Clears the board of any lingering pieces.
    pub fn empty(&mut self)
        ensures
            final(self)@ == empty_tiles(),
    {
        *self = Board::new();
    }

    /// Returns the tile index for a given position of the board.
    pub fn get_index(pos: Pos) -> (index: usize)
        requires
            pos.is_playable(),
        ensures
            index == index_of(pos),
            is_playable_index(index as int),
            pos_of(index as int) == pos,
    {
        (21 + pos.file + pos.rank * 10) as usize
    }

    /// Returns the tile position for a given index.
    ///
    /// On the playable squares this is the inverse of [`Board::get_index`].
    /// An index outside the array gives `Pos { rank: -1, file: -1 }`.
    pub fn get_pos(index: usize) -> (pos: Pos)
        ensures
            pos == pos_of(index as int),
            is_playable_index(index as int) <==> pos.is_playable(),
            is_playable_index(index as int) ==> index_of(pos) == index,
    {
        if index < 120 {
            let shifted: i32 = (index + 9) as i32;
            Pos { rank: shifted / 10 - 3, file: shifted % 10 }
        } else {
            Pos { rank: -1, file: -1 }
        }
    }

    /// Returns the algebraic notation, in capital letters, for a given index.
    ///
    /// A file or rank off the board is written as a space.
    pub fn index_to_string(index: usize) -> (text: String)
        ensures
            text@ == algebraic(index as int),
    {
        proof {
            reveal_strlit("A");
            reveal_strlit("B");
            reveal_strlit("C");
            reveal_strlit("D");
            reveal_strlit("E");
            reveal_strlit("F");
            reveal_strlit("G");
            reveal_strlit("H");
            reveal_strlit("1");
            reveal_strlit("2");
            reveal_strlit("3");
            reveal_strlit("4");
            reveal_strlit("5");
            reveal_strlit("6");
            reveal_strlit("7");
            reveal_strlit("8");
            reveal_strlit(" ");
        }
        let rank = match index / 10 {
            2 => "1",
            3 => "2",
            4 => "3",
            5 => "4",
            6 => "5",
            7 => "6",
            8 => "7",
            9 => "8",
            _ => " ",
        };
        let file = match index % 10 {
            1 => "A",
            2 => "B",
            3 => "C",
            4 => "D",
            5 => "E",
            6 => "F",
            7 => "G",
            8 => "H",
            _ => " ",
        };
        let mut text = String::new();
        text.append(file);
        text.append(rank);
        assert(text@ =~= algebraic(index as int));
        text
    }
}

} // verus!

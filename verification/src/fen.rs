//! Import of positions from FEN text: six fields separated by white space,
//! of which the piece placement and the active color are read and the other
//! four only have to be present.

use vstd::prelude::*;

use crate::board::{empty_tiles, well_formed, Board, Color, Pos, Tile};
use crate::game::Game;
use crate::notation::{chars_of, is_space, is_whitespace};

verus! {

/// Represents an error when reading FEN text.
#[derive(Debug, Clone, Copy, PartialEq, Eq, Structural)]
pub enum FenParseError {
    /// One of the six fields is missing.
    CouldNotRead,
    /// The placement holds a character that names no piece.
    InvalidPiece(char),
    /// The active color starts with a character other than `w` and `b`.
    InvalidColor(char),
    /// A fault in the castling rights. The field is not looked at yet, so
    /// reading never fails with this.
    InvalidCastling(char),
    /// A fault in the en-passant square. The field is not looked at yet, so
    /// reading never fails with this.
    InvalidEnPassant(char),
    /// A fault in the halfmove clock. The field is not looked at yet, so
    /// reading never fails with this.
    InvalidPlyClock(char),
    /// A fault in the fullmove number. The field is not looked at yet, so
    /// reading never fails with this.
    InvalidMoveClock(char),
    /// The placement holds more than eight ranks.
    RankOverflow,
    /// A rank of the placement holds more than eight files.
    FileOverflow,
    /// The board refused a piece of the placement. Reading never fails
    /// with this: a piece is only placed on a square of the board.
    Unknown,
}

/// How far the placement has been read: the tiles placed so far and the
/// square that the next character speaks of.
pub struct Placement {
    pub tiles: Seq<Tile>,
    pub rank: int,
    pub file: int,
}

/// The index of the first character at or after `from` that is not white
/// space, or the length of the text if there is none.
pub open spec fn skip_spaces(text: Seq<char>, from: int) -> int
    decreases text.len() - from,
{
    if 0 <= from < text.len() && is_space(text[from]) {
        skip_spaces(text, from + 1)
    } else {
        from
    }
}

/// The index of the first character at or after `from` that is white
/// space, or the length of the text if there is none.
pub open spec fn skip_word(text: Seq<char>, from: int) -> int
    decreases text.len() - from,
{
    if 0 <= from < text.len() && !is_space(text[from]) {
        skip_word(text, from + 1)
    } else {
        from
    }
}

/// The index at which the field of number `n` starts, counting from 0, or
/// the length of the text if there are not that many fields.
pub open spec fn field_start(text: Seq<char>, n: nat) -> int
    decreases n,
{
    if n == 0 {
        skip_spaces(text, 0)
    } else {
        skip_spaces(text, skip_word(text, field_start(text, (n - 1) as nat)))
    }
}

/// The field of number `n`, counting from 0: the `n`-th run of characters
/// that are not white space.
pub open spec fn field(text: Seq<char>, n: nat) -> Option<Seq<char>> {
    let start = field_start(text, n);
    if start >= text.len() {
        None
    } else {
        Some(text.subrange(start, skip_word(text, start)))
    }
}

/// The number that a decimal digit stands for.
pub open spec fn digit_of(c: char) -> Option<int> {
    if '0' <= c <= '9' {
        Some(c as int - '0' as int)
    } else {
        None
    }
}

/// The piece that a letter names: upper case for White, lower case for
/// Black.
pub open spec fn piece_of(c: char) -> Option<Tile> {
    if c == 'P' {
        Some(Tile::Pawn(Color::White))
    } else if c == 'B' {
        Some(Tile::Bishop(Color::White))
    } else if c == 'N' {
        Some(Tile::Knight(Color::White))
    } else if c == 'R' {
        Some(Tile::Rook(Color::White))
    } else if c == 'Q' {
        Some(Tile::Queen(Color::White))
    } else if c == 'K' {
        Some(Tile::King(Color::White))
    } else if c == 'p' {
        Some(Tile::Pawn(Color::Black))
    } else if c == 'b' {
        Some(Tile::Bishop(Color::Black))
    } else if c == 'n' {
        Some(Tile::Knight(Color::Black))
    } else if c == 'r' {
        Some(Tile::Rook(Color::Black))
    } else if c == 'q' {
        Some(Tile::Queen(Color::Black))
    } else if c == 'k' {
        Some(Tile::King(Color::Black))
    } else {
        None
    }
}

/// The color that the first character of the active-color field names.
pub open spec fn color_of(c: char) -> Option<Color> {
    if c == 'w' {
        Some(Color::White)
    } else if c == 'b' {
        Some(Color::Black)
    } else {
        None
    }
}

/// Where reading starts: an empty board, at the first file of the eighth
/// rank.
pub open spec fn placement_start() -> Placement {
    Placement { tiles: empty_tiles(), rank: 7, file: 0 }
}

/// What one character of the placement does. A digit skips that many
/// files, and fails with `FileOverflow` if that leaves the rank. A `/`
/// goes to the first file of the rank below, and fails with `RankOverflow`
/// below the first rank. A piece letter places its piece and goes on to
/// the next file, and fails with `FileOverflow` if the rank is full. Any
/// other character fails with `InvalidPiece`.
pub open spec fn place_char(at: Placement, c: char) -> Result<Placement, FenParseError> {
    if digit_of(c) is Some {
        if at.file + digit_of(c)->0 > 8 {
            Err(FenParseError::FileOverflow)
        } else {
            Ok(Placement { tiles: at.tiles, rank: at.rank, file: at.file + digit_of(c)->0 })
        }
    } else if c == '/' {
        if at.rank - 1 < 0 {
            Err(FenParseError::RankOverflow)
        } else {
            Ok(Placement { tiles: at.tiles, rank: at.rank - 1, file: 0 })
        }
    } else if piece_of(c) is Some {
        if at.file >= 8 {
            Err(FenParseError::FileOverflow)
        } else {
            Ok(
                Placement {
                    tiles: at.tiles.update(21 + at.file + at.rank * 10, piece_of(c)->0),
                    rank: at.rank,
                    file: at.file + 1,
                },
            )
        }
    } else {
        Err(FenParseError::InvalidPiece(c))
    }
}

/// What the characters of the placement do, one after the other from
/// [`placement_start`]. The first character that fails decides the error.
pub open spec fn place_all(chars: Seq<char>) -> Result<Placement, FenParseError>
    decreases chars.len(),
{
    if chars.len() == 0 {
        Ok(placement_start())
    } else {
        match place_all(chars.drop_last()) {
            Ok(at) => place_char(at, chars.last()),
            Err(e) => Err(e),
        }
    }
}

/// The position that FEN text describes, or the error that it fails with.
///
/// The first field is the piece placement and the second the active color,
/// of which only the first character is looked at. The castling rights,
/// the en-passant square and the two clocks must be present and are not
/// looked at. What follows the sixth field is not looked at either.
pub open spec fn parse_fen(text: Seq<char>) -> Result<(Seq<Tile>, Color), FenParseError> {
    match field(text, 0) {
        None => Err(FenParseError::CouldNotRead),
        Some(placement) => match place_all(placement) {
            Err(e) => Err(e),
            Ok(placed) => match field(text, 1) {
                None => Err(FenParseError::CouldNotRead),
                Some(active) => match color_of(active[0]) {
                    None => Err(FenParseError::InvalidColor(active[0])),
                    Some(player) => if field(text, 5) is None {
                        Err(FenParseError::CouldNotRead)
                    } else {
                        Ok((placed.tiles, player))
                    },
                },
            },
        },
    }
}

/// Skipping white space or a word stays inside the text and never goes
/// back.
pub proof fn lemma_skip_bounds(text: Seq<char>, from: int)
    requires
        0 <= from <= text.len(),
    ensures
        from <= skip_spaces(text, from) <= text.len(),
        from <= skip_word(text, from) <= text.len(),
        skip_spaces(text, from) < text.len() ==> !is_space(text[skip_spaces(text, from)]),
        skip_word(text, from) < text.len() ==> is_space(text[skip_word(text, from)]),
    decreases text.len() - from,
{
    if from < text.len() {
        lemma_skip_bounds(text, from + 1);
    }
}

/// Once the placement has failed on some of its first characters, it fails
/// with the same error whatever follows.
pub proof fn lemma_place_all_fails_early(chars: Seq<char>, n: int)
    requires
        0 <= n <= chars.len(),
        place_all(chars.take(n)) is Err,
    ensures
        place_all(chars) == place_all(chars.take(n)),
    decreases chars.len() - n,
{
    if n < chars.len() {
        assert(chars.take(n + 1).drop_last() =~= chars.take(n));
        lemma_place_all_fails_early(chars, n + 1);
    } else {
        assert(chars.take(n) =~= chars);
    }
}

impl vstd::std_specs::convert::FromSpecImpl<char> for FenParseError {
    open spec fn obeys_from_spec() -> bool {
        true
    }

    open spec fn from_spec(error: char) -> Self {
        FenParseError::InvalidPiece(error)
    }
}

impl From<char> for FenParseError {
    /// A character that names no piece, as an error.
    fn from(error: char) -> (result: Self) {
        FenParseError::InvalidPiece(error)
    }
}

impl FenParseError {
    /// The message shown for a FEN error.
    pub fn to_string(&self) -> (message: String)
        ensures
            message@ == "fen parsing error"@,
    {
        String::from_str("fen parsing error")
    }
}

/// Finds the first character at or after `from` that is not white space.
fn after_spaces(text: &Vec<char>, from: usize) -> (at: usize)
    requires
        from <= text.len(),
    ensures
        at == skip_spaces(text@, from as int),
        from <= at <= text.len(),
{
    let mut at = from;
    while at < text.len() && is_whitespace(text[at])
        invariant
            from <= at <= text.len(),
            skip_spaces(text@, at as int) == skip_spaces(text@, from as int),
        decreases text.len() - at,
    {
        at += 1;
    }
    at
}

/// Finds the first character at or after `from` that is white space.
fn after_word(text: &Vec<char>, from: usize) -> (at: usize)
    requires
        from <= text.len(),
    ensures
        at == skip_word(text@, from as int),
        from <= at <= text.len(),
{
    let mut at = from;
    while at < text.len() && !is_whitespace(text[at])
        invariant
            from <= at <= text.len(),
            skip_word(text@, at as int) == skip_word(text@, from as int),
        decreases text.len() - at,
    {
        at += 1;
    }
    at
}

/// Reads a decimal digit.
fn read_digit(c: char) -> (digit: Option<i32>)
    ensures
        digit matches Some(d) ==> digit_of(c) == Some(d as int),
        digit is None ==> digit_of(c) is None,
{
    match c {
        '0' => Some(0),
        '1' => Some(1),
        '2' => Some(2),
        '3' => Some(3),
        '4' => Some(4),
        '5' => Some(5),
        '6' => Some(6),
        '7' => Some(7),
        '8' => Some(8),
        '9' => Some(9),
        _ => None,
    }
}

/// Reads a piece letter.
fn read_piece(c: char) -> (piece: Option<Tile>)
    ensures
        piece == piece_of(c),
{
    match c {
        'P' => Some(Tile::Pawn(Color::White)),
        'B' => Some(Tile::Bishop(Color::White)),
        'N' => Some(Tile::Knight(Color::White)),
        'R' => Some(Tile::Rook(Color::White)),
        'Q' => Some(Tile::Queen(Color::White)),
        'K' => Some(Tile::King(Color::White)),
        'p' => Some(Tile::Pawn(Color::Black)),
        'b' => Some(Tile::Bishop(Color::Black)),
        'n' => Some(Tile::Knight(Color::Black)),
        'r' => Some(Tile::Rook(Color::Black)),
        'q' => Some(Tile::Queen(Color::Black)),
        'k' => Some(Tile::King(Color::Black)),
        _ => None,
    }
}

/// Reads the piece placement that stands in `text` from `start` up to
/// `end`.
fn read_placement(text: &Vec<char>, start: usize, end: usize) -> (result: Result<
    Board,
    FenParseError,
>)
    requires
        start <= end <= text.len(),
    ensures
        match place_all(text@.subrange(start as int, end as int)) {
            Ok(placed) => result matches Ok(board) && board@ == placed.tiles,
            Err(e) => result == Err::<Board, FenParseError>(e),
        },
{
    let ghost chars = text@.subrange(start as int, end as int);
    let mut board = Board::new();
    let mut pos = Pos { rank: 7, file: 0 };
    let mut i: usize = start;
    assert(chars.take(0) =~= Seq::<char>::empty());
    while i < end
        invariant
            start <= i <= end <= text.len(),
            chars == text@.subrange(start as int, end as int),
            0 <= pos.rank <= 7,
            0 <= pos.file <= 8,
            well_formed(board@),
            place_all(chars.take(i - start)) == Ok::<Placement, FenParseError>(
                Placement { tiles: board@, rank: pos.rank as int, file: pos.file as int },
            ),
        decreases end - i,
    {
        let c = text[i];
        let ghost at = Placement { tiles: board@, rank: pos.rank as int, file: pos.file as int };
        proof {
            assert(chars.take(i - start + 1).drop_last() =~= chars.take(i - start));
            assert(chars.take(i - start + 1).last() == c);
            assert(place_all(chars.take(i - start + 1)) == place_char(at, c));
            if place_char(at, c) is Err {
                lemma_place_all_fails_early(chars, i - start + 1);
            }
        }
        if let Some(empty_count) = read_digit(c) {
            if pos.file + empty_count > 8 {
                return Err(FenParseError::FileOverflow);
            }
            pos.file += empty_count;
        } else if c == '/' {
            if pos.rank - 1 < 0 {
                return Err(FenParseError::RankOverflow);
            }
            pos.rank -= 1;
            pos.file = 0;
        } else {
            let tile = match read_piece(c) {
                Some(tile) => tile,
                None => {
                    return Err(FenParseError::InvalidPiece(c));
                },
            };
            if pos.file >= 8 {
                return Err(FenParseError::FileOverflow);
            }
            match board.set_tile(Board::get_index(pos), tile) {
                Ok(_) => {},
                Err(_) => {
                    return Err(FenParseError::Unknown);
                },
            }
            pos.file += 1;
        }
        i += 1;
    }
    assert(chars.take(end - start) =~= chars);
    Ok(board)
}

/// Reads the position that FEN text describes.
fn read_position(text: &Vec<char>) -> (result: Result<(Board, Color), FenParseError>)
    ensures
        match parse_fen(text@) {
            Ok(position) => result matches Ok(read) && read.0@ == position.0 && read.1
                == position.1,
            Err(e) => result == Err::<(Board, Color), FenParseError>(e),
        },
{
    proof {
        reveal_with_fuel(field_start, 6);
    }
    // 1. Piece placement data.
    let placement_start = after_spaces(text, 0);
    if placement_start >= text.len() {
        return Err(FenParseError::CouldNotRead);
    }
    let placement_end = after_word(text, placement_start);
    let board = match read_placement(text, placement_start, placement_end) {
        Ok(board) => board,
        Err(e) => {
            return Err(e);
        },
    };
    // 2. Active color.
    let color_start = after_spaces(text, placement_end);
    if color_start >= text.len() {
        return Err(FenParseError::CouldNotRead);
    }
    let color_end = after_word(text, color_start);
    proof {
        lemma_skip_bounds(text@, placement_end as int);
        lemma_skip_bounds(text@, color_start + 1);
        assert(color_end > color_start);
        let active = text@.subrange(color_start as int, color_end as int);
        assert(active[0] == text@[color_start as int]);
    }
    let player = match text[color_start] {
        'w' => Color::White,
        'b' => Color::Black,
        x => {
            return Err(FenParseError::InvalidColor(x));
        },
    };
    // 3. Castling rights.
    let castling_start = after_spaces(text, color_end);
    if castling_start >= text.len() {
        return Err(FenParseError::CouldNotRead);
    }
    let castling_end = after_word(text, castling_start);
    // 4. En passant square.
    let en_passant_start = after_spaces(text, castling_end);
    if en_passant_start >= text.len() {
        return Err(FenParseError::CouldNotRead);
    }
    let en_passant_end = after_word(text, en_passant_start);
    // 5. Ply clock.
    let ply_clock_start = after_spaces(text, en_passant_end);
    if ply_clock_start >= text.len() {
        return Err(FenParseError::CouldNotRead);
    }
    let ply_clock_end = after_word(text, ply_clock_start);
    // 6. Move clock.
    let move_clock_start = after_spaces(text, ply_clock_end);
    if move_clock_start >= text.len() {
        return Err(FenParseError::CouldNotRead);
    }
    Ok((board, player))
}

impl Game {
    /// Returns the game that FEN text describes, with its legal plys
    /// generated, or the error that the text fails with.
    pub fn from_fen(fen: &str) -> (result: Result<Self, FenParseError>)
        ensures
            match parse_fen(fen@) {
                Ok(position) => result matches Ok(game) && game@.tiles == position.0
                    && game@.player == position.1 && game@.is_current(),
                Err(e) => result matches Err(error) && error == e,
            },
    {
        let mut game = Game::new();
        match game.read_fen(fen) {
            Ok(_) => Ok(game),
            Err(e) => Err(e),
        }
    }

    /// Replaces the game by the one that FEN text describes, with its
    /// legal plys generated. If the text fails, the game stays as it was.
    pub fn read_fen(&mut self, fen: &str) -> (result: Result<(), FenParseError>)
        ensures
            old(self)@.is_current(),
            final(self)@.is_current(),
            match parse_fen(fen@) {
                Ok(position) => result is Ok && final(self)@.tiles == position.0
                    && final(self)@.player == position.1,
                Err(e) => result == Err::<(), FenParseError>(e) && final(self)@ == old(self)@,
            },
    {
        proof {
            use_type_invariant(&*self);
        }
        let chars = chars_of(fen);
        match read_position(&chars) {
            Ok((board, player)) => {
                *self = Game::at(board, player);
                Ok(())
            },
            Err(e) => Err(e),
        }
    }
}

} // verus!

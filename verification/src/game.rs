//! The game: a board, the side to move and the legal plys of that side,
//! which are generated anew whenever the position changes.

use vstd::prelude::*;
use vstd::string::*;

use crate::board::{
    empty_tiles, index_of, opposite, pos_of, tile_glyph, well_formed, Board, Color, Pos, Tile,
};
use crate::notation::{chars_of, first_ink, read_square, squares_of, without_spaces};
use crate::ply_gen::{after_ply, legal_plys, ply_of, ply_text, Ply, PlyError};
use crate::ply_lemmas::{lemma_legal_plys_contains, lemma_no_pieces_no_plys};

verus! {

/// Represents a game of chess.
///
/// All user interaction should be handled through Game objects.
pub struct Game {
    board: Board,
    player: Color,
    plys: Vec<Ply>,
    en_passant: Option<usize>,
}

/// What a game holds: the tiles of its board, the side to move, the cached
/// plys and the en-passant target.
pub struct Position {
    pub tiles: Seq<Tile>,
    pub player: Color,
    pub plys: Seq<Ply>,
    pub en_passant: Option<usize>,
}

impl Position {
    /// What holds of every game: the board is well formed, the cache holds
    /// exactly the legal plys of the side to move on that board, and no
    /// en-passant target is set.
    pub open spec fn is_current(self) -> bool {
        &&& well_formed(self.tiles)
        &&& self.plys == legal_plys(self.tiles, self.player)
        &&& self.en_passant is None
    }
}

/// Whether the cache of `position` holds the ply between the two squares.
/// A position off the board names no ply.
pub open spec fn accepts(position: Position, origin: Pos, destination: Pos) -> bool {
    &&& origin.is_playable()
    &&& destination.is_playable()
    &&& position.plys.contains(ply_of(index_of(origin), index_of(destination)))
}

/// The position after `ply` has been made: the piece has moved, the turn
/// has gone to the other side, and the cache holds that side's legal plys.
pub open spec fn played(position: Position, ply: Ply) -> Position {
    Position {
        tiles: after_ply(position.tiles, ply),
        player: opposite(position.player),
        plys: legal_plys(after_ply(position.tiles, ply), opposite(position.player)),
        en_passant: position.en_passant,
    }
}

/// What making the ply between two squares does to a game. If the cache
/// holds the ply, it is made. If not, it is refused as invalid and the game
/// stays as it was. No other error comes out.
pub open spec fn ply_outcome(
    before: Position,
    origin: Pos,
    destination: Pos,
    result: Result<(), PlyError>,
    after: Position,
) -> bool {
    if accepts(before, origin, destination) {
        result is Ok && after == played(before, ply_of(index_of(origin), index_of(destination)))
    } else {
        result == Err::<(), PlyError>(PlyError::InvalidPly) && after == before
    }
}

/// The test that keeps the plys that leave the square at `pos`.
pub open spec fn leaves(pos: Pos) -> spec_fn(Ply) -> bool {
    |ply: Ply| pos_of(ply.origin as int) == pos
}

/// The plys that a sequence of references points to.
pub open spec fn pointees(plys: Seq<&Ply>) -> Seq<Ply> {
    Seq::new(plys.len(), |i: int| *plys[i])
}

/// The first `files` cells of a rank as text: each tile's character
/// followed by a space.
pub open spec fn cells_text(tiles: Seq<Tile>, rank: int, files: int) -> Seq<char> {
    Seq::new(
        (2 * files) as nat,
        |i: int|
            if i % 2 == 0 {
                tile_glyph(tiles[21 + rank * 10 + i / 2])
            } else {
                ' '
            },
    )
}

/// One rank as a line of text: `| `, the eight cells, `|` and a line feed.
pub open spec fn row_text(tiles: Seq<Tile>, rank: int) -> Seq<char> {
    seq!['|', ' '] + cells_text(tiles, rank, 8) + seq!['|', '\n']
}

/// The ranks from the eighth down to `rank` as lines of text, the eighth
/// rank first.
pub open spec fn rows_text(tiles: Seq<Tile>, rank: int) -> Seq<char>
    decreases 8 - rank,
{
    if rank >= 8 {
        Seq::empty()
    } else {
        rows_text(tiles, rank + 1) + row_text(tiles, rank)
    }
}

/// One ply as a line of text.
pub open spec fn ply_line() -> spec_fn(Ply) -> Seq<char> {
    |ply: Ply| ply_text(ply) + seq!['\n']
}

/// The plys as lines of text, in their order.
pub open spec fn plys_text(plys: Seq<Ply>) -> Seq<char> {
    plys.map_values(ply_line()).flatten()
}

/// The diagnostic text of a game: the board, the eighth rank first, and
/// then the cached plys, one per line.
pub open spec fn game_text(position: Position) -> Seq<char> {
    rows_text(position.tiles, 0) + plys_text(position.plys)
}

impl View for Game {
    type V = Position;

    closed spec fn view(&self) -> Position {
        Position {
            tiles: self.board@,
            player: self.player,
            plys: self.plys@,
            en_passant: self.en_passant,
        }
    }
}

impl Clone for Game {
    /// A game of its own with the same board, side to move and plys.
    fn clone(&self) -> (copy: Self)
        ensures
            copy@ == self@,
    {
        proof {
            use_type_invariant(self);
        }
        let plys = self.plys.clone();
        assert(plys@ =~= self.plys@);
        Game { board: self.board, player: self.player, plys, en_passant: self.en_passant }
    }
}

impl Game {
    #[verifier::type_invariant]
    pub(crate) open spec fn inv(self) -> bool {
        self@.is_current()
    }

    /// The game on `board` with `player` to move.
    pub(crate) fn at(board: Board, player: Color) -> (game: Self)
        ensures
            game@.tiles == board@,
            game@.player == player,
            game@.is_current(),
    {
        proof {
            use_type_invariant(&board);
        }
        let plys = Game::gen_plys(&board, player);
        Game { board, player, plys, en_passant: None }
    }

    /// Constructs a new Game object: an empty board with White to move.
    pub fn new() -> (game: Self)
        ensures
            game@.tiles == empty_tiles(),
            game@.player == Color::White,
            game@.plys == Seq::<Ply>::empty(),
            game@.is_current(),
    {
        proof {
            lemma_no_pieces_no_plys(empty_tiles(), Color::White);
        }
        Game::at(Board::new(), Color::White)
    }

    /// Resets the game to the default state: empty board.
    pub fn renew(&mut self)
        ensures
            final(self)@.tiles == empty_tiles(),
            final(self)@.player == Color::White,
            final(self)@.plys == Seq::<Ply>::empty(),
            final(self)@.is_current(),
    {
        *self = Game::new();
    }

    /// Whether `ply` is one of `plys`.
    fn holds(plys: &Vec<Ply>, ply: Ply) -> (found: bool)
        ensures
            found == plys@.contains(ply),
    {
        let mut i: usize = 0;
        while i < plys.len()
            invariant
                i <= plys.len(),
                forall|j: int| 0 <= j < i ==> plys@[j] != ply,
            decreases plys.len() - i,
        {
            if plys[i] == ply {
                return true;
            }
            i += 1;
        }
        false
    }

    /// Used each turn to make plys with positions (see [`Pos`]) as arguments.
    ///
    /// If the ply from `origin` to `destination` is among the legal plys,
    /// the method moves the piece, hands the turn to the other side and
    /// generates that side's legal plys. Otherwise it fails with
    /// [`PlyError::InvalidPly`] and leaves the game as it was.
    pub fn ply(&mut self, origin: Pos, destination: Pos) -> (result: Result<(), PlyError>)
        ensures
            old(self)@.is_current(),
            final(self)@.is_current(),
            ply_outcome(old(self)@, origin, destination, result, final(self)@),
    {
        proof {
            use_type_invariant(&*self);
        }
        if !origin.on_board() || !destination.on_board() {
            return Err(PlyError::InvalidPly);
        }
        let ply = Ply {
            origin: Board::get_index(origin),
            destination: Board::get_index(destination),
        };
        if !Game::holds(&self.plys, ply) {
            return Err(PlyError::InvalidPly);
        }
        proof {
            lemma_legal_plys_contains(self.board@, self.player, ply);
        }
        // A ply of the cache moves between playable squares, so the board
        // does not refuse it.
        let mut board = self.board;
        match Game::test_ply(&mut board, ply) {
            Ok(_) => {},
            Err(_) => {
                return Err(PlyError::Unknown);
            },
        }
        *self = Game::at(board, self.player.flip());
        Ok(())
    }

    /// Used each turn to make plys using text.
    ///
    /// Valid arguments resemble algebraic notation (`a2a4`, `a2 a4`): two
    /// squares, in either case, with white space anywhere. Text that names
    /// no two squares fails with [`PlyError::InvalidPly`]; otherwise the
    /// ply is made as by [`Game::ply`].
    pub fn ply_str(&mut self, str: &str) -> (result: Result<(), PlyError>)
        ensures
            old(self)@.is_current(),
            final(self)@.is_current(),
            match squares_of(str@) {
                Some(squares) => ply_outcome(
                    old(self)@,
                    squares.0,
                    squares.1,
                    result,
                    final(self)@,
                ),
                None => result == Err::<(), PlyError>(PlyError::InvalidPly) && final(self)@
                    == old(self)@,
            },
    {
        proof {
            use_type_invariant(&*self);
        }
        match Game::get_pos_from_str(str) {
            Some((Some(origin), Some(destination))) => self.ply(origin, destination),
            _ => Err(PlyError::InvalidPly),
        }
    }

    /// Returns all valid plys available to the current player.
    pub fn get_plys(&self) -> (plys: &Vec<Ply>)
        ensures
            plys@ == self@.plys,
            self@.is_current(),
    {
        proof {
            use_type_invariant(self);
        }
        &self.plys
    }

    /// Returns all valid plys available from the chosen tile position (see
    /// [`Pos`]), in the order of [`Game::get_plys`].
    ///
    /// Returns an empty vector if no valid plys are available from the
    /// chosen spot, or if the piece there is not the current player's.
    pub fn get_plys_from_pos(&self, pos: Pos) -> (plys: Vec<&Ply>)
        ensures
            pointees(plys@) == self@.plys.filter(leaves(pos)),
            self@.is_current(),
    {
        proof {
            use_type_invariant(self);
            reveal(Seq::filter);
            assert(self.plys@.take(0) =~= Seq::<Ply>::empty());
        }
        let ghost test = leaves(pos);
        let mut plys: Vec<&Ply> = Vec::new();
        let mut i: usize = 0;
        assert(pointees(plys@) =~= self.plys@.take(0).filter(test));
        while i < self.plys.len()
            invariant
                i <= self.plys.len(),
                test == leaves(pos),
                pointees(plys@) == self.plys@.take(i as int).filter(test),
            decreases self.plys.len() - i,
        {
            let ply = &self.plys[i];
            let ghost before = plys@;
            proof {
                assert(self.plys@.take(i + 1) =~= self.plys@.take(i as int).push(*ply));
                self.plys@.take(i as int).lemma_filter_push(*ply, test);
            }
            if Board::get_pos(ply.origin) == pos {
                plys.push(ply);
                assert(pointees(plys@) =~= pointees(before).push(*ply));
            }
            i += 1;
        }
        assert(self.plys@.take(self.plys.len() as int) =~= self.plys@);
        plys
    }

    /// Returns all valid plys available from the first square that `str`
    /// names. The text must name two squares, as for [`Game::ply_str`];
    /// text that does not gives no plys.
    pub fn get_plys_from_str(&self, str: &str) -> (plys: Vec<&Ply>)
        ensures
            pointees(plys@) == (match squares_of(str@) {
                Some(squares) => self@.plys.filter(leaves(squares.0)),
                None => Seq::empty(),
            }),
            self@.is_current(),
    {
        proof {
            use_type_invariant(self);
        }
        match Game::get_pos_from_str(str) {
            Some((Some(pos), _)) => self.get_plys_from_pos(pos),
            _ => {
                let plys: Vec<&Ply> = Vec::new();
                assert(pointees(plys@) =~= Seq::<Ply>::empty());
                plys
            },
        }
    }

    /// Returns the current player's color (see [`Color`]).
    pub fn get_player(&self) -> (player: &Color)
        ensures
            *player == self@.player,
    {
        &self.player
    }

    /// Whether the current player has no legal ply. This does not tell
    /// checkmate from stalemate.
    pub fn is_checkmate(&self) -> (terminal: bool)
        ensures
            terminal == (self@.plys.len() == 0),
            self@.is_current(),
    {
        proof {
            use_type_invariant(self);
        }
        self.plys.len() == 0
    }

    /// Returns the tile at the specified position (see [`Pos`]), or `None`
    /// for a position off the board. A sentinel tile is never returned.
    pub fn get_tile_from_pos(&self, pos: Pos) -> (tile: Option<&Tile>)
        ensures
            tile == (if pos.is_playable() {
                Some(&self@.tiles[index_of(pos)])
            } else {
                None
            }),
            tile matches Some(t) ==> *t != Tile::Sentinel,
            self@.is_current(),
    {
        proof {
            use_type_invariant(self);
        }
        if !pos.on_board() {
            return None;
        }
        match self.board.get_tile(Board::get_index(pos)) {
            Some(Tile::Sentinel) => None,
            tile => tile,
        }
    }

    /// Returns the tile at the first square that `str` names. The text must
    /// name two squares, as for [`Game::ply_str`]; text that does not gives
    /// `None`.
    pub fn get_tile_from_str(&self, str: &str) -> (tile: Option<&Tile>)
        ensures
            tile == (match squares_of(str@) {
                Some(squares) => Some(&self@.tiles[index_of(squares.0)]),
                None => None,
            }),
            tile matches Some(t) ==> *t != Tile::Sentinel,
            self@.is_current(),
    {
        proof {
            use_type_invariant(self);
        }
        match Game::get_pos_from_str(str) {
            Some((Some(pos), _)) => self.get_tile_from_pos(pos),
            _ => None,
        }
    }

    /// Returns all the tiles on the board as a one-dimensional array, rank
    /// by rank from the first: the tile of rank `r` and file `f` stands at
    /// `r * 8 + f`.
    pub fn get_board_1d(&self) -> (board: [&Tile; 64])
        ensures
            forall|rank: int, file: int|
                0 <= rank < 8 && 0 <= file < 8 ==> *#[trigger] board@[rank * 8 + file]
                    == self@.tiles[21 + file + rank * 10],
            forall|i: int| 0 <= i < 64 ==> *#[trigger] board@[i] != Tile::Sentinel,
            self@.is_current(),
    {
        proof {
            use_type_invariant(self);
        }
        let tiles = self.board.get_tiles();
        let mut board: [&Tile; 64] = [&tiles[21];64];
        let mut i: usize = 0;
        while i < 64
            invariant
                i <= 64,
                tiles@ == self.board@,
                well_formed(self.board@),
                forall|j: int|
                    0 <= j < i ==> *#[trigger] board@[j] == tiles@[21 + j % 8 + (j / 8) * 10],
            decreases 64 - i,
        {
            board[i] = &tiles[21 + i % 8 + (i / 8) * 10];
            i += 1;
        }
        assert forall|rank: int, file: int|
            0 <= rank < 8 && 0 <= file < 8 implies *#[trigger] board@[rank * 8 + file]
            == self@.tiles[21 + file + rank * 10] by {
            let j = rank * 8 + file;
            assert(j % 8 == file && j / 8 == rank);
        }
        board
    }

    /// Returns all the tiles on the board as a two-dimensional array,
    /// indexed by rank and then by file.
    pub fn get_board_2d(&self) -> (board: [[&Tile; 8]; 8])
        ensures
            forall|rank: int, file: int|
                0 <= rank < 8 && 0 <= file < 8 ==> *#[trigger] board@[rank]@[file]
                    == self@.tiles[21 + file + rank * 10],
            forall|rank: int, file: int|
                0 <= rank < 8 && 0 <= file < 8 ==> *#[trigger] board@[rank]@[file]
                    != Tile::Sentinel,
            self@.is_current(),
    {
        proof {
            use_type_invariant(self);
        }
        let tiles = self.board.get_tiles();
        let mut board: [[&Tile; 8]; 8] = [[&tiles[21];8];8];
        let mut rank: usize = 0;
        while rank < 8
            invariant
                rank <= 8,
                tiles@ == self.board@,
                well_formed(self.board@),
                forall|r: int, f: int|
                    0 <= r < rank && 0 <= f < 8 ==> *#[trigger] board@[r]@[f] == tiles@[21 + f + r
                        * 10],
            decreases 8 - rank,
        {
            let mut row: [&Tile; 8] = [&tiles[21];8];
            let mut file: usize = 0;
            while file < 8
                invariant
                    file <= 8,
                    rank < 8,
                    tiles@ == self.board@,
                    forall|f: int|
                        0 <= f < file ==> *#[trigger] row@[f] == tiles@[21 + f + rank * 10],
                decreases 8 - file,
            {
                row[file] = &tiles[21 + file + rank * 10];
                file += 1;
            }
            board[rank] = row;
            rank += 1;
        }
        board
    }

    /// Reads the two squares that a ply text names (see
    /// [`squares_of`](crate::notation::squares_of)). Either both squares
    /// are read or none is.
    pub fn get_pos_from_str(str: &str) -> (pair: Option<(Option<Pos>, Option<Pos>)>)
        ensures
            pair == (match squares_of(str@) {
                Some(squares) => Some((Some(squares.0), Some(squares.1))),
                None => None,
            }),
            squares_of(str@) matches Some(squares) ==> squares.0.is_playable()
                && squares.1.is_playable(),
    {
        let chars = chars_of(str);
        let ink = first_ink(&chars, 4);
        if ink.len() < 4 {
            return None;
        }
        assert(ink@[0] == without_spaces(str@)[0]);
        assert(ink@[1] == without_spaces(str@)[1]);
        assert(ink@[2] == without_spaces(str@)[2]);
        assert(ink@[3] == without_spaces(str@)[3]);
        let origin = match read_square(ink[0], ink[1]) {
            Some(pos) => pos,
            None => {
                return None;
            },
        };
        let destination = match read_square(ink[2], ink[3]) {
            Some(pos) => pos,
            None => {
                return None;
            },
        };
        Some((Some(origin), Some(destination)))
    }

    /// Renders the game as text for diagnostics: the board, eighth rank
    /// first, each rank between bars, and then the legal plys, one per
    /// line.
    pub fn to_string(&self) -> (text: String)
        ensures
            text@ == game_text(self@),
    {
        proof {
            use_type_invariant(self);
            reveal_strlit("| ");
            reveal_strlit(" ");
            reveal_strlit("|\n");
            reveal_strlit("\n");
        }
        let tiles = self.board.get_tiles();
        let mut text = String::new();
        let mut rank: usize = 8;
        while rank > 0
            invariant
                rank <= 8,
                tiles@ == self.board@,
                well_formed(self.board@),
                text@ == rows_text(self.board@, rank as int),
                "| "@ == seq!['|', ' '],
                " "@ == seq![' '],
                "|\n"@ == seq!['|', '\n'],
            decreases rank,
        {
            rank -= 1;
            let ghost above = text@;
            text.append("| ");
            let mut file: usize = 0;
            while file < 8
                invariant
                    file <= 8,
                    rank < 8,
                    tiles@ == self.board@,
                    text@ == above + seq!['|', ' '] + cells_text(
                        self.board@,
                        rank as int,
                        file as int,
                    ),
                    " "@ == seq![' '],
                decreases 8 - file,
            {
                let glyph = tiles[21 + rank * 10 + file].to_string();
                text.append(glyph.as_str());
                text.append(" ");
                file += 1;
                assert(text@ =~= above + seq!['|', ' '] + cells_text(
                    self.board@,
                    rank as int,
                    file as int,
                ));
            }
            text.append("|\n");
            assert(text@ =~= above + row_text(self.board@, rank as int));
        }
        let ghost rows = text@;
        let ghost line = ply_line();
        let mut i: usize = 0;
        assert(self.plys@.take(0).map_values(line) =~= Seq::<Seq<char>>::empty());
        assert(text@ =~= rows + self.plys@.take(0).map_values(line).flatten());
        while i < self.plys.len()
            invariant
                i <= self.plys.len(),
                line == ply_line(),
                text@ == rows + self.plys@.take(i as int).map_values(line).flatten(),
                "\n"@ == seq!['\n'],
            decreases self.plys.len() - i,
        {
            let ply_string = self.plys[i].to_string();
            proof {
                assert(self.plys@.take(i + 1).map_values(line) =~= self.plys@.take(
                    i as int,
                ).map_values(line).push(line(self.plys@[i as int])));
                self.plys@.take(i as int).map_values(line).lemma_flatten_push(
                    line(self.plys@[i as int]),
                );
            }
            text.append(ply_string.as_str());
            text.append("\n");
            i += 1;
            assert(text@ =~= rows + self.plys@.take(i as int).map_values(line).flatten());
        }
        assert(self.plys@.take(self.plys.len() as int) =~= self.plys@);
        text
    }
}

} // verus!

//! Pseudo-legal move generation: for every piece kind, the plys that obey
//! the piece's movement rule, before king safety is looked at.

use vstd::prelude::*;
use vstd::string::*;

use crate::board::{
    algebraic, is_playable_index, opposite, pos_of, tile_color, well_formed, Board, Color, Tile,
};
use crate::game::Game;

verus! {

/// Represents an error when making a ply.
#[derive(Debug, Clone, Copy, PartialEq, Eq, Structural)]
pub enum PlyError {
    /// The ply is not among the legal plys, or its text could not be read.
    InvalidPly,
    /// The board refused a ply that was among the legal plys.
    Unknown,
}

/// A single move by one side: the index a piece leaves and the index it
/// arrives at.
#[derive(Debug, Clone, Copy, PartialEq, Eq, Structural)]
pub struct Ply {
    pub origin: usize,
    pub destination: usize,
}

/// The ply from `origin` to `destination`.
pub open spec fn ply_of(origin: int, destination: int) -> Ply {
    Ply { origin: origin as usize, destination: destination as usize }
}

/// The text of a ply: origin and destination in algebraic notation, with a
/// space between them.
pub open spec fn ply_text(ply: Ply) -> Seq<char> {
    algebraic(ply.origin as int) + seq![' '] + algebraic(ply.destination as int)
}

/// Whether the tile holds a piece of the player's opponent.
pub open spec fn is_enemy(tile: Tile, player: Color) -> bool {
    tile_color(tile) == Some(opposite(player))
}

/// Whether a piece of `player` may arrive on the tile: it is empty or holds
/// an opposing piece.
pub open spec fn can_land(tile: Tile, player: Color) -> bool {
    tile is Empty || is_enemy(tile, player)
}

/// The offsets of a knight's eight jumps.
pub open spec fn knight_deltas() -> Seq<int> {
    seq![-21, -19, -12, -8, 8, 12, 19, 21]
}

/// The offsets of a king's eight steps.
pub open spec fn king_deltas() -> Seq<int> {
    seq![-11, -10, -9, -1, 1, 9, 10, 11]
}

/// Whether `dir` is the offset between a square and one of its eight
/// neighbours.
pub open spec fn is_direction(dir: int) -> bool {
    dir == -11 || dir == -10 || dir == -9 || dir == -1 || dir == 1 || dir == 9 || dir == 10 || dir
        == 11
}

/// The offsets of an executable table, as mathematical integers.
pub open spec fn offsets(table: Seq<i32>) -> Seq<int> {
    Seq::new(table.len(), |i: int| table[i] as int)
}

/// What one offset of a stepping piece contributes: the ply onto the square
/// at that offset, if a piece of `player` may land there.
pub open spec fn landing(tiles: Seq<Tile>, player: Color, origin: int) -> spec_fn(int) -> Option<
    Ply,
> {
    |delta: int|
        if can_land(tiles[origin + delta], player) {
            Some(ply_of(origin, origin + delta))
        } else {
            None
        }
}

/// The plys of a stepping piece (knight, king) of `player` on `origin`: one
/// for each offset, in the table's order, whose square is empty or holds an
/// opposing piece.
pub open spec fn step_plys(tiles: Seq<Tile>, player: Color, origin: int, deltas: Seq<int>) -> Seq<
    Ply,
> {
    deltas.filter_map(landing(tiles, player, origin))
}

/// The plys of a slide of `player` from `origin` in direction `dir` that
/// has come as far as `from`: every further empty square, nearest first,
/// and then the first occupied square if an opposing piece stands on it.
/// `reach` bounds the squares looked at; no ray of the board holds more
/// than seven squares beyond its origin.
pub open spec fn slide_plys(
    tiles: Seq<Tile>,
    player: Color,
    origin: int,
    dir: int,
    from: int,
    reach: nat,
) -> Seq<Ply>
    decreases reach,
{
    let destination = from + dir;
    if reach == 0 {
        Seq::empty()
    } else if tiles[destination] is Empty {
        seq![ply_of(origin, destination)] + slide_plys(
            tiles,
            player,
            origin,
            dir,
            destination,
            (reach - 1) as nat,
        )
    } else if is_enemy(tiles[destination], player) {
        seq![ply_of(origin, destination)]
    } else {
        Seq::empty()
    }
}

/// The plys of a whole ray from `origin` in direction `dir`.
pub open spec fn ray_plys(tiles: Seq<Tile>, player: Color, origin: int, dir: int) -> Seq<Ply> {
    slide_plys(tiles, player, origin, dir, origin, 7)
}

/// The offset of one square ahead for a pawn of `player`.
pub open spec fn pawn_forward(player: Color) -> int {
    match player {
        Color::White => 10,
        Color::Black => -10,
    }
}

/// Whether `origin` lies on the rank that pawns of `player` start from.
pub open spec fn on_start_rank(player: Color, origin: int) -> bool {
    match player {
        Color::White => pos_of(origin).rank == 1,
        Color::Black => pos_of(origin).rank == 6,
    }
}

/// The single ply `origin -> destination` if `included`, else nothing.
pub open spec fn ply_if(included: bool, origin: int, destination: int) -> Seq<Ply> {
    if included {
        seq![ply_of(origin, destination)]
    } else {
        Seq::empty()
    }
}

/// The plys of a pawn of `player` on `origin`, in this order: the single
/// push onto the empty square ahead; the double push from the start rank
/// over an empty square onto an empty square; the capture of an opposing
/// piece diagonally ahead on the lower file, then on the higher file.
pub open spec fn pawn_plys(tiles: Seq<Tile>, player: Color, origin: int) -> Seq<Ply> {
    let ahead = origin + pawn_forward(player);
    let far = ahead + pawn_forward(player);
    let push = tiles[ahead] is Empty;
    ply_if(push, origin, ahead) + ply_if(
        push && on_start_rank(player, origin) && tiles[far] is Empty,
        origin,
        far,
    ) + ply_if(is_enemy(tiles[ahead - 1], player), origin, ahead - 1) + ply_if(
        is_enemy(tiles[ahead + 1], player),
        origin,
        ahead + 1,
    )
}

/// The plys of a bishop of `player` on `origin`: its four diagonal rays.
pub open spec fn bishop_plys(tiles: Seq<Tile>, player: Color, origin: int) -> Seq<Ply> {
    ray_plys(tiles, player, origin, -11) + ray_plys(tiles, player, origin, -9) + ray_plys(
        tiles,
        player,
        origin,
        9,
    ) + ray_plys(tiles, player, origin, 11)
}

/// The plys of a rook of `player` on `origin`: its four straight rays.
pub open spec fn rook_plys(tiles: Seq<Tile>, player: Color, origin: int) -> Seq<Ply> {
    ray_plys(tiles, player, origin, -10) + ray_plys(tiles, player, origin, -1) + ray_plys(
        tiles,
        player,
        origin,
        1,
    ) + ray_plys(tiles, player, origin, 10)
}

/// The plys of a queen of `player` on `origin`: those of a bishop, then
/// those of a rook.
pub open spec fn queen_plys(tiles: Seq<Tile>, player: Color, origin: int) -> Seq<Ply> {
    bishop_plys(tiles, player, origin) + rook_plys(tiles, player, origin)
}

/// The plys of a knight of `player` on `origin`.
pub open spec fn knight_plys(tiles: Seq<Tile>, player: Color, origin: int) -> Seq<Ply> {
    step_plys(tiles, player, origin, knight_deltas())
}

/// The plys of a king of `player` on `origin`.
pub open spec fn king_plys(tiles: Seq<Tile>, player: Color, origin: int) -> Seq<Ply> {
    step_plys(tiles, player, origin, king_deltas())
}

/// The plys of whatever stands on `index`: those of its kind if it is a
/// piece of `player`, none otherwise.
pub open spec fn piece_plys(tiles: Seq<Tile>, player: Color, index: int) -> Seq<Ply> {
    if tile_color(tiles[index]) != Some(player) {
        Seq::empty()
    } else {
        match tiles[index] {
            Tile::Pawn(_) => pawn_plys(tiles, player, index),
            Tile::Knight(_) => knight_plys(tiles, player, index),
            Tile::Bishop(_) => bishop_plys(tiles, player, index),
            Tile::Rook(_) => rook_plys(tiles, player, index),
            Tile::Queen(_) => queen_plys(tiles, player, index),
            Tile::King(_) => king_plys(tiles, player, index),
            _ => Seq::empty(),
        }
    }
}

/// The plys of each index of the board, in index order.
pub open spec fn plys_by_index(tiles: Seq<Tile>, player: Color) -> Seq<Seq<Ply>> {
    Seq::new(120, |index: int| piece_plys(tiles, player, index))
}

/// All pseudo-legal plys of `player`: the plys of each of the player's
/// pieces, the pieces taken in index order.
pub open spec fn pseudo_legal_plys(tiles: Seq<Tile>, player: Color) -> Seq<Ply> {
    plys_by_index(tiles, player).flatten()
}

/// Whether `ply` moves a piece of `player` from a playable square to a
/// playable square that is empty or holds an opposing piece.
pub open spec fn is_move(tiles: Seq<Tile>, player: Color, ply: Ply) -> bool {
    &&& is_playable_index(ply.origin as int)
    &&& tile_color(tiles[ply.origin as int]) == Some(player)
    &&& is_playable_index(ply.destination as int)
    &&& ply.destination != ply.origin
    &&& can_land(tiles[ply.destination as int], player)
}

/// The board after the piece on the ply's origin has been moved to its
/// destination, taking whatever stood there.
pub open spec fn after_ply(tiles: Seq<Tile>, ply: Ply) -> Seq<Tile> {
    tiles.update(ply.origin as int, Tile::Empty).update(
        ply.destination as int,
        tiles[ply.origin as int],
    )
}

/// Whether `square` holds the king of `color` that a scan of the board in
/// index order meets first.
pub open spec fn is_first_king(tiles: Seq<Tile>, color: Color, square: int) -> bool {
    &&& 0 <= square < tiles.len()
    &&& tiles[square] == Tile::King(color)
    &&& forall|other: int| 0 <= other < square ==> tiles[other] != Tile::King(color)
}

/// Whether one of the plys arrives on `square`.
pub open spec fn targets(plys: Seq<Ply>, square: int) -> bool {
    exists|i: int| 0 <= i < plys.len() && (#[trigger] plys[i]).destination == square
}

/// Whether the king of `color` is not attacked with the opponent to move:
/// no pseudo-legal ply of the opponent arrives on the square of the first
/// king of `color`. A side without a king is never attacked.
pub open spec fn king_safe(tiles: Seq<Tile>, color: Color) -> bool {
    forall|square: int| #[trigger]
        is_first_king(tiles, color, square) ==> !targets(
            pseudo_legal_plys(tiles, opposite(color)),
            square,
        )
}

/// Whether `ply` is legal for `player`: it is a move of the player after
/// which the player's king is not attacked.
pub open spec fn is_legal(tiles: Seq<Tile>, player: Color, ply: Ply) -> bool {
    is_move(tiles, player, ply) && king_safe(after_ply(tiles, ply), player)
}

/// The test that the legality filter applies to each ply.
pub open spec fn legality(tiles: Seq<Tile>, player: Color) -> spec_fn(Ply) -> bool {
    |ply: Ply| is_legal(tiles, player, ply)
}

/// The legal plys of `player`: the pseudo-legal plys that are legal, in
/// the order in which they are generated.
pub open spec fn legal_plys(tiles: Seq<Tile>, player: Color) -> Seq<Ply> {
    pseudo_legal_plys(tiles, player).filter(legality(tiles, player))
}

/// How many further squares a slide in direction `dir` can at most visit
/// beyond `square` before it leaves the board.
pub open spec fn room(dir: int, square: int) -> int {
    if dir == 1 || dir == 11 || dir == -9 {
        8 - square % 10
    } else if dir == -1 || dir == -11 || dir == 9 {
        square % 10 - 1
    } else if dir == 10 {
        9 - square / 10
    } else {
        square / 10 - 2
    }
}

impl PlyError {
    /// The message shown for a ply error.
    pub fn to_string(&self) -> (message: String)
        ensures
            message@ == "invalid ply"@,
    {
        String::from_str("invalid ply")
    }
}

impl Ply {
    /// The ply as text: origin and destination in algebraic notation, with
    /// a space between them.
    pub fn to_string(&self) -> (text: String)
        ensures
            text@ == ply_text(*self),
    {
        let mut text = Board::index_to_string(self.origin);
        let destination = Board::index_to_string(self.destination);
        proof {
            reveal_strlit(" ");
        }
        text.append(" ");
        text.append(destination.as_str());
        assert(text@ =~= ply_text(*self));
        text
    }
}

/// Whether a piece of `player` may arrive on `tile`.
fn may_land(tile: Tile, player: Color) -> (ok: bool)
    ensures
        ok == can_land(tile, player),
{
    match tile.color() {
        Some(color) => color != player,
        None => tile == Tile::Empty,
    }
}

/// Whether `tile` holds a piece of the opponent of `player`.
fn holds_enemy(tile: Tile, player: Color) -> (enemy: bool)
    ensures
        enemy == is_enemy(tile, player),
{
    match tile.color() {
        Some(color) => color != player,
        None => false,
    }
}

/// Generates the plys of a stepping piece of `player` on `origin` whose
/// steps are the eight offsets of `deltas`.
fn gen_step_plys(board: &Board, player: Color, origin: usize, deltas: &[i32; 8]) -> (plys: Vec<Ply>)
    requires
        is_playable_index(origin as int),
        forall|i: int| 0 <= i < 8 ==> -21 <= #[trigger] deltas@[i] <= 21,
    ensures
        plys@ == step_plys(board@, player, origin as int, offsets(deltas@)),
{
    let tiles = board.get_tiles();
    let ghost table = offsets(deltas@);
    let ghost land = landing(board@, player, origin as int);
    let mut plys: Vec<Ply> = Vec::new();
    let mut i: usize = 0;
    assert(table.take(0).filter_map(land) =~= Seq::<Ply>::empty());
    while i < 8
        invariant
            i <= 8,
            tiles@ == board@,
            well_formed(board@),
            is_playable_index(origin as int),
            forall|i: int| 0 <= i < 8 ==> -21 <= #[trigger] deltas@[i] <= 21,
            table == offsets(deltas@),
            land == landing(board@, player, origin as int),
            plys@ == table.take(i as int).filter_map(land),
        decreases 8 - i,
    {
        let delta = deltas[i];
        let destination = (origin as i32 + delta) as usize;
        let tile = tiles[destination];
        proof {
            table.lemma_filter_map_take_succ(land, i as int);
            assert(table[i as int] == delta as int);
        }
        if may_land(tile, player) {
            plys.push(Ply { origin, destination });
        }
        i += 1;
    }
    assert(table.take(8) =~= table);
    plys
}

/// Appends to `plys` the plys of the ray that leaves `origin` in direction
/// `dir`.
fn gen_ray_plys(board: &Board, player: Color, origin: usize, dir: i32, plys: &mut Vec<Ply>)
    requires
        is_playable_index(origin as int),
        is_direction(dir as int),
    ensures
        final(plys)@ == old(plys)@ + ray_plys(board@, player, origin as int, dir as int),
{
    let tiles = board.get_tiles();
    let ghost target = old(plys)@ + ray_plys(board@, player, origin as int, dir as int);
    let ghost mut reach: nat = 7;
    let mut from: usize = origin;
    let mut blocked = false;
    while !blocked
        invariant
            tiles@ == board@,
            well_formed(board@),
            is_direction(dir as int),
            is_playable_index(origin as int),
            is_playable_index(from as int),
            0 <= room(dir as int, from as int) <= reach <= 7,
            target == plys@ + (if blocked {
                Seq::<Ply>::empty()
            } else {
                slide_plys(board@, player, origin as int, dir as int, from as int, reach)
            }),
        decreases (if blocked { 0 } else { 1 + room(dir as int, from as int) }),
    {
        let destination = (from as i32 + dir) as usize;
        let tile = tiles[destination];
        proof {
            if is_playable_index(destination as int) {
                assert(room(dir as int, destination as int) == room(dir as int, from as int) - 1);
            }
        }
        if tile == Tile::Empty {
            plys.push(Ply { origin, destination });
            from = destination;
            proof {
                reach = (reach - 1) as nat;
            }
        } else {
            if holds_enemy(tile, player) {
                plys.push(Ply { origin, destination });
            }
            blocked = true;
        }
    }
}

impl Game {
    /// Generates the plys of a pawn of `player` standing on `origin`.
    pub fn gen_pawn_plys(board: &Board, player: Color, origin: usize) -> (plys: Vec<Ply>)
        requires
            is_playable_index(origin as int),
        ensures
            plys@ == pawn_plys(board@, player, origin as int),
    {
        let tiles = board.get_tiles();
        let mut plys: Vec<Ply> = Vec::new();
        let rank = Board::get_pos(origin).rank;
        let (ahead, can_double_push) = match player {
            Color::White => (origin + 10, rank == 1),
            Color::Black => (origin - 10, rank == 6),
        };
        if tiles[ahead] == Tile::Empty {
            plys.push(Ply { origin, destination: ahead });
            if can_double_push {
                let far = match player {
                    Color::White => ahead + 10,
                    Color::Black => ahead - 10,
                };
                if tiles[far] == Tile::Empty {
                    plys.push(Ply { origin, destination: far });
                }
            }
        }
        if holds_enemy(tiles[ahead - 1], player) {
            plys.push(Ply { origin, destination: ahead - 1 });
        }
        if holds_enemy(tiles[ahead + 1], player) {
            plys.push(Ply { origin, destination: ahead + 1 });
        }
        assert(plys@ =~= pawn_plys(board@, player, origin as int));
        plys
    }

    /// Generates the plys of a bishop of `player` standing on `origin`.
    pub fn gen_bishop_plys(board: &Board, player: Color, origin: usize) -> (plys: Vec<Ply>)
        requires
            is_playable_index(origin as int),
        ensures
            plys@ == bishop_plys(board@, player, origin as int),
    {
        let mut plys: Vec<Ply> = Vec::new();
        gen_ray_plys(board, player, origin, -11, &mut plys);
        gen_ray_plys(board, player, origin, -9, &mut plys);
        gen_ray_plys(board, player, origin, 9, &mut plys);
        gen_ray_plys(board, player, origin, 11, &mut plys);
        assert(plys@ =~= bishop_plys(board@, player, origin as int));
        plys
    }

    /// Generates the plys of a knight of `player` standing on `origin`.
    pub fn gen_knight_plys(board: &Board, player: Color, origin: usize) -> (plys: Vec<Ply>)
        requires
            is_playable_index(origin as int),
        ensures
            plys@ == knight_plys(board@, player, origin as int),
    {
        let knight_delta: [i32; 8] = [-21, -19, -12, -8, 8, 12, 19, 21];
        assert(offsets(knight_delta@) =~= knight_deltas());
        gen_step_plys(board, player, origin, &knight_delta)
    }

    /// Generates the plys of a rook of `player` standing on `origin`.
    pub fn gen_rook_plys(board: &Board, player: Color, origin: usize) -> (plys: Vec<Ply>)
        requires
            is_playable_index(origin as int),
        ensures
            plys@ == rook_plys(board@, player, origin as int),
    {
        let mut plys: Vec<Ply> = Vec::new();
        gen_ray_plys(board, player, origin, -10, &mut plys);
        gen_ray_plys(board, player, origin, -1, &mut plys);
        gen_ray_plys(board, player, origin, 1, &mut plys);
        gen_ray_plys(board, player, origin, 10, &mut plys);
        assert(plys@ =~= rook_plys(board@, player, origin as int));
        plys
    }

    /// Generates the plys of a queen of `player` standing on `origin`.
    pub fn gen_queen_plys(board: &Board, player: Color, origin: usize) -> (plys: Vec<Ply>)
        requires
            is_playable_index(origin as int),
        ensures
            plys@ == queen_plys(board@, player, origin as int),
    {
        let mut plys = Game::gen_bishop_plys(board, player, origin);
        let mut straight = Game::gen_rook_plys(board, player, origin);
        plys.append(&mut straight);
        plys
    }

    /// Generates the plys of a king of `player` standing on `origin`.
    pub fn gen_king_plys(board: &Board, player: Color, origin: usize) -> (plys: Vec<Ply>)
        requires
            is_playable_index(origin as int),
        ensures
            plys@ == king_plys(board@, player, origin as int),
    {
        let king_delta: [i32; 8] = [-11, -10, -9, -1, 1, 9, 10, 11];
        assert(offsets(king_delta@) =~= king_deltas());
        gen_step_plys(board, player, origin, &king_delta)
    }
    /// Generates all pseudo-legal plys of `player`, piece by piece in index
    /// order.
    pub fn gen_pseudo_legal_plys(board: &Board, player: Color) -> (plys: Vec<Ply>)
        ensures
            plys@ == pseudo_legal_plys(board@, player),
    {
        let tiles = board.get_tiles();
        let ghost by_index = plys_by_index(board@, player);
        let mut plys: Vec<Ply> = Vec::new();
        let mut index: usize = 0;
        assert(by_index.take(0) =~= Seq::<Seq<Ply>>::empty());
        while index < 120
            invariant
                index <= 120,
                tiles@ == board@,
                well_formed(board@),
                by_index == plys_by_index(board@, player),
                plys@ == by_index.take(index as int).flatten(),
            decreases 120 - index,
        {
            let tile = tiles[index];
            let owned = match tile.color() {
                Some(color) => color == player,
                None => false,
            };
            proof {
                assert(by_index.take(index + 1) =~= by_index.take(index as int).push(
                    piece_plys(board@, player, index as int),
                ));
                by_index.take(index as int).lemma_flatten_push(
                    piece_plys(board@, player, index as int),
                );
            }
            if owned {
                let mut more = match tile {
                    Tile::Pawn(_) => Game::gen_pawn_plys(board, player, index),
                    Tile::Knight(_) => Game::gen_knight_plys(board, player, index),
                    Tile::Bishop(_) => Game::gen_bishop_plys(board, player, index),
                    Tile::Rook(_) => Game::gen_rook_plys(board, player, index),
                    Tile::Queen(_) => Game::gen_queen_plys(board, player, index),
                    Tile::King(_) => Game::gen_king_plys(board, player, index),
                    _ => Vec::new(),
                };
                plys.append(&mut more);
            } else {
                assert(plys@ + Seq::<Ply>::empty() =~= plys@);
            }
            index += 1;
        }
        assert(by_index.take(120) =~= by_index);
        plys
    }

    /// Moves the piece on the ply's origin to its destination, without
    /// asking whether the ply is legal.
    ///
    /// Fails with [`PlyError::Unknown`], leaving the board as it was, if
    /// the origin or the destination is not a playable square.
    pub fn test_ply(board: &mut Board, ply: Ply) -> (result: Result<(), PlyError>)
        ensures
            well_formed(old(board)@),
            well_formed(final(board)@),
            result is Ok <==> is_playable_index(ply.origin as int) && is_playable_index(
                ply.destination as int,
            ),
            result is Ok ==> final(board)@ == after_ply(old(board)@, ply),
            result matches Err(e) ==> e == PlyError::Unknown && final(board)@ == old(board)@,
    {
        let mut next = *board;
        let tile = match next.rem_tile(ply.origin) {
            Ok(tile) => tile,
            Err(_) => {
                return Err(PlyError::Unknown);
            },
        };
        match next.set_tile(ply.destination, tile) {
            Ok(_) => {},
            Err(_) => {
                return Err(PlyError::Unknown);
            },
        }
        *board = next;
        Ok(())
    }

    /// Finds the king of `color` that a scan in index order meets first.
    pub fn find_king(board: &Board, color: Color) -> (king: Option<usize>)
        ensures
            match king {
                Some(square) => is_first_king(board@, color, square as int),
                None => forall|square: int| !is_first_king(board@, color, square),
            },
    {
        let tiles = board.get_tiles();
        let mut index: usize = 0;
        while index < 120
            invariant
                index <= 120,
                tiles@ == board@,
                well_formed(board@),
                forall|other: int| 0 <= other < index ==> board@[other] != Tile::King(color),
            decreases 120 - index,
        {
            if tiles[index] == Tile::King(color) {
                return Some(index);
            }
            index += 1;
        }
        None
    }

    /// Whether one of `plys` arrives on `square`.
    pub fn is_target(plys: &Vec<Ply>, square: usize) -> (hit: bool)
        ensures
            hit == targets(plys@, square as int),
    {
        let mut i: usize = 0;
        while i < plys.len()
            invariant
                i <= plys.len(),
                forall|j: int| 0 <= j < i ==> (#[trigger] plys@[j]).destination != square,
            decreases plys.len() - i,
        {
            if plys[i].destination == square {
                return true;
            }
            i += 1;
        }
        false
    }

    /// Whether `ply` is legal for `player`: a move of the player's own
    /// piece after which no reply of the opponent arrives on the square of
    /// the player's king. A player without a king cannot be attacked.
    pub fn is_legal_ply(board: &Board, player: Color, ply: Ply) -> (legal: bool)
        ensures
            legal == is_legal(board@, player, ply),
    {
        let tiles = board.get_tiles();
        if ply.origin >= 120 || ply.destination >= 120 || ply.origin == ply.destination {
            return false;
        }
        let owned = match tiles[ply.origin].color() {
            Some(color) => color == player,
            None => false,
        };
        if !owned || !may_land(tiles[ply.destination], player) {
            return false;
        }
        let mut next = *board;
        match Game::test_ply(&mut next, ply) {
            Ok(_) => {},
            Err(_) => {
                return false;
            },
        }
        let replies = Game::gen_pseudo_legal_plys(&next, player.flip());
        match Game::find_king(&next, player) {
            Some(square) => {
                let hit = Game::is_target(&replies, square);
                proof {
                    if !hit {
                        assert forall|other: int| #[trigger]
                            is_first_king(next@, player, other) implies !targets(
                            replies@,
                            other,
                        ) by {
                            assert(other == square);
                        }
                    }
                }
                !hit
            },
            None => true,
        }
    }

    /// Keeps the legal plys among `pseudo_legal_plys`, in their order.
    pub fn gen_legal_plys(board: &Board, player: Color, pseudo_legal_plys: Vec<Ply>) -> (plys: Vec<
        Ply,
    >)
        ensures
            plys@ == pseudo_legal_plys@.filter(legality(board@, player)),
    {
        let ghost test = legality(board@, player);
        let mut plys: Vec<Ply> = Vec::new();
        let mut i: usize = 0;
        proof {
            reveal(Seq::filter);
            assert(pseudo_legal_plys@.take(0) =~= Seq::<Ply>::empty());
        }
        while i < pseudo_legal_plys.len()
            invariant
                i <= pseudo_legal_plys.len(),
                test == legality(board@, player),
                plys@ == pseudo_legal_plys@.take(i as int).filter(test),
            decreases pseudo_legal_plys.len() - i,
        {
            let ply = pseudo_legal_plys[i];
            proof {
                assert(pseudo_legal_plys@.take(i + 1) =~= pseudo_legal_plys@.take(i as int).push(
                    ply,
                ));
                pseudo_legal_plys@.take(i as int).lemma_filter_push(ply, test);
            }
            if Game::is_legal_ply(board, player, ply) {
                plys.push(ply);
            }
            i += 1;
        }
        assert(pseudo_legal_plys@.take(pseudo_legal_plys.len() as int) =~= pseudo_legal_plys@);
        plys
    }

    /// Generates the legal plys of `player`.
    pub fn gen_plys(board: &Board, player: Color) -> (plys: Vec<Ply>)
        ensures
            plys@ == legal_plys(board@, player),
    {
        let pseudo_legal_plys = Game::gen_pseudo_legal_plys(board, player);
        Game::gen_legal_plys(board, player, pseudo_legal_plys)
    }
}

} // verus!

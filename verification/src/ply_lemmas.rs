//! What the generated plys are, stated by membership: which plys a slide, a
//! step, the whole board and the legality filter give, and that each of them
//! is a move on the board.

use vstd::prelude::*;
use vstd::seq_lib::lemma_seq_concat_contains_all_elements;

use crate::board::{is_playable_index, tile_color, well_formed, Color, Tile};
use crate::ply_gen::{
    after_ply, bishop_plys, can_land, is_direction, is_legal, is_move, king_deltas,
    knight_deltas, landing, legal_plys, legality, pawn_plys, piece_plys, ply_of, plys_by_index,
    pseudo_legal_plys, queen_plys, ray_plys, rook_plys, room, slide_plys, step_plys, Ply,
};

verus! {

/// The square `count` steps beyond `from` in direction `dir`.
pub open spec fn ray_square(from: int, dir: int, count: int) -> int {
    from + count * dir
}

/// Whether a slide of `player` that has come as far as `from` goes on to
/// the square `count` steps further: the squares before that one are empty,
/// and that one is empty or holds an opposing piece.
pub open spec fn slide_reaches(
    tiles: Seq<Tile>,
    player: Color,
    from: int,
    dir: int,
    count: int,
) -> bool {
    &&& forall|j: int| 1 <= j < count ==> (#[trigger] tiles[ray_square(from, dir, j)]) is Empty
    &&& can_land(tiles[ray_square(from, dir, count)], player)
}

/// One step further along a ray is the same square as one step less from
/// the next square.
proof fn lemma_ray_square_next(from: int, dir: int, count: int)
    ensures
        ray_square(from, dir, count + 1) == ray_square(from + dir, dir, count),
        ray_square(from, dir, 1) == from + dir,
{
    assert((count + 1) * dir == count * dir + dir) by (nonlinear_arith);
}

/// A slide gives exactly the plys onto the squares that it reaches within
/// its reach.
pub proof fn lemma_slide_plys_contains(
    tiles: Seq<Tile>,
    player: Color,
    origin: int,
    dir: int,
    from: int,
    reach: nat,
    ply: Ply,
)
    ensures
        slide_plys(tiles, player, origin, dir, from, reach).contains(ply) <==> exists|count: int|
            1 <= count <= reach && #[trigger] slide_reaches(tiles, player, from, dir, count) && ply
                == ply_of(origin, ray_square(from, dir, count)),
    decreases reach,
{
    let plys = slide_plys(tiles, player, origin, dir, from, reach);
    let next = from + dir;
    lemma_ray_square_next(from, dir, 0);
    if reach == 0 {
    } else if tiles[next] is Empty {
        let rest = slide_plys(tiles, player, origin, dir, next, (reach - 1) as nat);
        lemma_slide_plys_contains(tiles, player, origin, dir, next, (reach - 1) as nat, ply);
        lemma_seq_concat_contains_all_elements(seq![ply_of(origin, next)], rest, ply);
        assert(seq![ply_of(origin, next)].contains(ply) <==> ply == ply_of(origin, next)) by {
            assert(seq![ply_of(origin, next)][0] == ply_of(origin, next));
        }
        if plys.contains(ply) {
            if ply == ply_of(origin, next) {
                assert(slide_reaches(tiles, player, from, dir, 1));
            } else {
                let count = choose|count: int|
                    1 <= count <= reach - 1 && #[trigger] slide_reaches(
                        tiles,
                        player,
                        next,
                        dir,
                        count,
                    ) && ply == ply_of(origin, ray_square(next, dir, count));
                lemma_ray_square_next(from, dir, count);
                assert forall|j: int| 1 <= j < count + 1 implies (#[trigger] tiles[ray_square(
                    from,
                    dir,
                    j,
                )]) is Empty by {
                    lemma_ray_square_next(from, dir, j - 1);
                    if j > 1 {
                        assert(tiles[ray_square(next, dir, j - 1)] is Empty);
                    }
                }
                assert(slide_reaches(tiles, player, from, dir, count + 1));
            }
        }
        if exists|count: int|
            1 <= count <= reach && #[trigger] slide_reaches(tiles, player, from, dir, count) && ply
                == ply_of(origin, ray_square(from, dir, count)) {
            let count = choose|count: int|
                1 <= count <= reach && #[trigger] slide_reaches(tiles, player, from, dir, count)
                    && ply == ply_of(origin, ray_square(from, dir, count));
            if count > 1 {
                lemma_ray_square_next(from, dir, count - 1);
                assert forall|j: int| 1 <= j < count - 1 implies (#[trigger] tiles[ray_square(
                    next,
                    dir,
                    j,
                )]) is Empty by {
                    lemma_ray_square_next(from, dir, j);
                    assert(tiles[ray_square(from, dir, j + 1)] is Empty);
                }
                assert(slide_reaches(tiles, player, next, dir, count - 1));
            }
        }
    } else {
        assert(plys.contains(ply) ==> ply == ply_of(origin, next));
        if plys.contains(ply) {
            assert(slide_reaches(tiles, player, from, dir, 1));
        }
        if exists|count: int|
            1 <= count <= reach && #[trigger] slide_reaches(tiles, player, from, dir, count) && ply
                == ply_of(origin, ray_square(from, dir, count)) {
            let count = choose|count: int|
                1 <= count <= reach && #[trigger] slide_reaches(tiles, player, from, dir, count)
                    && ply == ply_of(origin, ray_square(from, dir, count));
            if count > 1 {
                assert(tiles[ray_square(from, dir, 1)] is Empty);
            }
            assert(plys[0] == ply);
        }
    }
}

/// A ray gives exactly the plys onto the squares that the slide from its
/// origin reaches.
pub proof fn lemma_ray_plys_contains(
    tiles: Seq<Tile>,
    player: Color,
    origin: int,
    dir: int,
    ply: Ply,
)
    ensures
        ray_plys(tiles, player, origin, dir).contains(ply) <==> exists|count: int|
            1 <= count <= 7 && #[trigger] slide_reaches(tiles, player, origin, dir, count) && ply
                == ply_of(origin, ray_square(origin, dir, count)),
{
    lemma_slide_plys_contains(tiles, player, origin, dir, origin, 7, ply);
}

/// A stepping piece gives exactly the plys onto the squares of its offsets
/// that are empty or hold an opposing piece.
pub proof fn lemma_step_plys_contains(
    tiles: Seq<Tile>,
    player: Color,
    origin: int,
    deltas: Seq<int>,
    ply: Ply,
)
    ensures
        step_plys(tiles, player, origin, deltas).contains(ply) <==> exists|i: int|
            0 <= i < deltas.len() && can_land(tiles[origin + #[trigger] deltas[i]], player) && ply
                == ply_of(origin, origin + deltas[i]),
    decreases deltas.len(),
{
    let land = landing(tiles, player, origin);
    if deltas.len() > 0 {
        let rest = deltas.drop_last();
        let last = deltas.last();
        lemma_step_plys_contains(tiles, player, origin, rest, ply);
        lemma_seq_concat_contains_all_elements(rest.filter_map(land), seq![land(last)->0], ply);
        assert(seq![land(last)->0].contains(ply) <==> ply == land(last)->0) by {
            assert(seq![land(last)->0][0] == land(last)->0);
        }
        if step_plys(tiles, player, origin, deltas).contains(ply) {
            if land(last) == Some(ply) {
                assert(deltas[deltas.len() - 1] == last);
            } else {
                let i = choose|i: int|
                    0 <= i < rest.len() && can_land(tiles[origin + #[trigger] rest[i]], player)
                        && ply == ply_of(origin, origin + rest[i]);
                assert(rest[i] == deltas[i]);
            }
        }
        if exists|i: int|
            0 <= i < deltas.len() && can_land(tiles[origin + #[trigger] deltas[i]], player) && ply
                == ply_of(origin, origin + deltas[i]) {
            let i = choose|i: int|
                0 <= i < deltas.len() && can_land(tiles[origin + #[trigger] deltas[i]], player)
                    && ply == ply_of(origin, origin + deltas[i]);
            if i < deltas.len() - 1 {
                assert(rest[i] == deltas[i]);
            }
        }
    }
}

/// On a well-formed board a slide ends before its reach does: from a
/// playable square, once `reach` covers the room that the board leaves in
/// the slide's direction, a longer reach gives the same plys.
pub proof fn lemma_slide_ends_on_board(
    tiles: Seq<Tile>,
    player: Color,
    origin: int,
    dir: int,
    from: int,
    reach: nat,
    more: nat,
)
    requires
        well_formed(tiles),
        is_direction(dir),
        is_playable_index(from),
        room(dir, from) <= reach <= more,
    ensures
        slide_plys(tiles, player, origin, dir, from, reach) == slide_plys(
            tiles,
            player,
            origin,
            dir,
            from,
            more,
        ),
    decreases reach,
{
    let destination = from + dir;
    assert(0 <= destination < 120);
    if is_playable_index(destination) {
        assert(room(dir, destination) == room(dir, from) - 1);
        if tiles[destination] is Empty {
            lemma_slide_ends_on_board(
                tiles,
                player,
                origin,
                dir,
                destination,
                (reach - 1) as nat,
                (more - 1) as nat,
            );
        }
    } else {
        assert(tiles[destination] is Sentinel);
    }
}

/// A ray of a well-formed board is the whole slide: no reach beyond seven
/// squares finds more plys.
pub proof fn lemma_ray_is_whole_slide(
    tiles: Seq<Tile>,
    player: Color,
    origin: int,
    dir: int,
    reach: nat,
)
    requires
        well_formed(tiles),
        is_direction(dir),
        is_playable_index(origin),
        reach >= 7,
    ensures
        ray_plys(tiles, player, origin, dir) == slide_plys(
            tiles,
            player,
            origin,
            dir,
            origin,
            reach,
        ),
{
    lemma_slide_ends_on_board(tiles, player, origin, dir, origin, 7, reach);
}

/// Flattening sequences that are all empty gives the empty sequence.
proof fn lemma_flatten_empties(parts: Seq<Seq<Ply>>)
    requires
        forall|i: int| 0 <= i < parts.len() ==> (#[trigger] parts[i]).len() == 0,
    ensures
        parts.flatten() == Seq::<Ply>::empty(),
    decreases parts.len(),
{
    if parts.len() > 0 {
        lemma_flatten_empties(parts.drop_first());
        assert(parts.flatten() =~= parts.first() + parts.drop_first().flatten());
        assert(parts.first() =~= Seq::<Ply>::empty());
    }
}

/// A side without pieces has no plys.
pub proof fn lemma_no_pieces_no_plys(tiles: Seq<Tile>, player: Color)
    requires
        forall|i: int| 0 <= i < 120 ==> tile_color(#[trigger] tiles[i]) != Some(player),
    ensures
        pseudo_legal_plys(tiles, player) == Seq::<Ply>::empty(),
        legal_plys(tiles, player) == Seq::<Ply>::empty(),
{
    lemma_flatten_empties(plys_by_index(tiles, player));
    reveal(Seq::filter);
}

/// Making a move keeps the board well formed: sentinels stay where they
/// are and nowhere else.
pub proof fn lemma_after_ply_well_formed(tiles: Seq<Tile>, player: Color, ply: Ply)
    requires
        well_formed(tiles),
        is_move(tiles, player, ply),
    ensures
        well_formed(after_ply(tiles, ply)),
{
}

/// A ply is among the flattened parts exactly if it is in one of them.
proof fn lemma_flatten_contains(parts: Seq<Seq<Ply>>, ply: Ply)
    ensures
        parts.flatten().contains(ply) <==> exists|i: int|
            0 <= i < parts.len() && (#[trigger] parts[i]).contains(ply),
    decreases parts.len(),
{
    if parts.len() > 0 {
        let rest = parts.drop_last();
        lemma_flatten_contains(rest, ply);
        assert(rest.push(parts.last()) =~= parts);
        rest.lemma_flatten_push(parts.last());
        lemma_seq_concat_contains_all_elements(rest.flatten(), parts.last(), ply);
        if parts.flatten().contains(ply) {
            if parts.last().contains(ply) {
                assert(parts[parts.len() - 1].contains(ply));
            } else {
                let i = choose|i: int| 0 <= i < rest.len() && (#[trigger] rest[i]).contains(ply);
                assert(parts[i].contains(ply));
            }
        }
        if exists|i: int| 0 <= i < parts.len() && (#[trigger] parts[i]).contains(ply) {
            let i = choose|i: int| 0 <= i < parts.len() && (#[trigger] parts[i]).contains(ply);
            if i < parts.len() - 1 {
                assert(rest[i].contains(ply));
            }
        }
    }
}

/// A ply is pseudo-legal exactly if it is one of the plys of the piece on
/// some index of the board.
pub proof fn lemma_pseudo_legal_plys_contains(tiles: Seq<Tile>, player: Color, ply: Ply)
    ensures
        pseudo_legal_plys(tiles, player).contains(ply) <==> exists|index: int|
            0 <= index < 120 && #[trigger] piece_plys(tiles, player, index).contains(ply),
{
    let parts = plys_by_index(tiles, player);
    lemma_flatten_contains(parts, ply);
    if pseudo_legal_plys(tiles, player).contains(ply) {
        let i = choose|i: int| 0 <= i < parts.len() && (#[trigger] parts[i]).contains(ply);
        assert(piece_plys(tiles, player, i).contains(ply));
    }
    if exists|index: int|
        0 <= index < 120 && #[trigger] piece_plys(tiles, player, index).contains(ply) {
        let index = choose|index: int|
            0 <= index < 120 && #[trigger] piece_plys(tiles, player, index).contains(ply);
        assert(parts[index].contains(ply));
    }
}

/// A ply is legal exactly if it is pseudo-legal and passes the legality
/// filter.
pub proof fn lemma_legal_plys_contains(tiles: Seq<Tile>, player: Color, ply: Ply)
    ensures
        legal_plys(tiles, player).contains(ply) <==> pseudo_legal_plys(tiles, player).contains(ply)
            && is_legal(tiles, player, ply),
{
    let pseudo = pseudo_legal_plys(tiles, player);
    let test = legality(tiles, player);
    if legal_plys(tiles, player).contains(ply) {
        let i = choose|i: int| 0 <= i < pseudo.filter(test).len() && pseudo.filter(test)[i] == ply;
        pseudo.lemma_filter_pred(test, i);
        pseudo.lemma_filter_contains_rev(test, ply);
    }
    if pseudo.contains(ply) && is_legal(tiles, player, ply) {
        let i = choose|i: int| 0 <= i < pseudo.len() && pseudo[i] == ply;
        pseudo.lemma_filter_contains(test, i);
    }
}

/// Whether `ply` leaves `origin` for a square inside the array on which a
/// piece of `player` may land.
spec fn lands(tiles: Seq<Tile>, player: Color, origin: int, ply: Ply) -> bool {
    &&& ply.origin == origin
    &&& ply.destination < 120
    &&& ply.destination != origin
    &&& can_land(tiles[ply.destination as int], player)
}

/// Whether every ply of `plys` leaves `origin` and lands.
spec fn all_land(tiles: Seq<Tile>, player: Color, origin: int, plys: Seq<Ply>) -> bool {
    forall|i: int| 0 <= i < plys.len() ==> lands(tiles, player, origin, #[trigger] plys[i])
}

/// Whether every ply of `plys` is a move of `player`.
spec fn all_moves(tiles: Seq<Tile>, player: Color, plys: Seq<Ply>) -> bool {
    forall|i: int| 0 <= i < plys.len() ==> is_move(tiles, player, #[trigger] plys[i])
}

/// On a well-formed board every ply of a slide that started on a playable
/// square lands inside the board.
proof fn lemma_slide_plys_land(
    tiles: Seq<Tile>,
    player: Color,
    origin: int,
    dir: int,
    from: int,
    reach: nat,
)
    requires
        well_formed(tiles),
        is_direction(dir),
        is_playable_index(origin),
        is_playable_index(from),
        dir > 0 ==> from >= origin,
        dir < 0 ==> from <= origin,
    ensures
        all_land(tiles, player, origin, slide_plys(tiles, player, origin, dir, from, reach)),
    decreases reach,
{
    let next = from + dir;
    if reach > 0 && tiles[next] is Empty {
        lemma_slide_plys_land(tiles, player, origin, dir, next, (reach - 1) as nat);
    }
}

/// On a well-formed board every ply of a stepping piece on a playable
/// square lands inside the board.
proof fn lemma_step_plys_land(tiles: Seq<Tile>, player: Color, origin: int, deltas: Seq<int>)
    requires
        well_formed(tiles),
        is_playable_index(origin),
        forall|i: int|
            0 <= i < deltas.len() ==> -21 <= #[trigger] deltas[i] <= 21 && deltas[i] != 0,
    ensures
        all_land(tiles, player, origin, step_plys(tiles, player, origin, deltas)),
{
    let plys = step_plys(tiles, player, origin, deltas);
    assert forall|i: int| 0 <= i < plys.len() implies lands(
        tiles,
        player,
        origin,
        #[trigger] plys[i],
    ) by {
        assert(plys.contains(plys[i]));
        lemma_step_plys_contains(tiles, player, origin, deltas, plys[i]);
    }
}

/// On a well-formed board the plys of the piece on an index are moves of
/// that piece.
proof fn lemma_piece_plys_are_moves(tiles: Seq<Tile>, player: Color, index: int)
    requires
        well_formed(tiles),
        0 <= index < 120,
    ensures
        all_moves(tiles, player, piece_plys(tiles, player, index)),
{
    let plys = piece_plys(tiles, player, index);
    if tile_color(tiles[index]) == Some(player) {
        assert(is_playable_index(index));
        lemma_slide_plys_land(tiles, player, index, -11, index, 7);
        lemma_slide_plys_land(tiles, player, index, -10, index, 7);
        lemma_slide_plys_land(tiles, player, index, -9, index, 7);
        lemma_slide_plys_land(tiles, player, index, -1, index, 7);
        lemma_slide_plys_land(tiles, player, index, 1, index, 7);
        lemma_slide_plys_land(tiles, player, index, 9, index, 7);
        lemma_slide_plys_land(tiles, player, index, 10, index, 7);
        lemma_slide_plys_land(tiles, player, index, 11, index, 7);
        lemma_step_plys_land(tiles, player, index, knight_deltas());
        lemma_step_plys_land(tiles, player, index, king_deltas());
        assert(all_land(tiles, player, index, pawn_plys(tiles, player, index)));
        assert(all_land(tiles, player, index, bishop_plys(tiles, player, index)));
        assert(all_land(tiles, player, index, rook_plys(tiles, player, index)));
        assert(all_land(tiles, player, index, queen_plys(tiles, player, index)));
        assert(all_land(tiles, player, index, plys));
        assert forall|i: int| 0 <= i < plys.len() implies is_move(
            tiles,
            player,
            #[trigger] plys[i],
        ) by {
            assert(lands(tiles, player, index, plys[i]));
        }
    }
}

/// On a well-formed board every pseudo-legal ply moves a piece of the
/// player from a playable square to another playable square that is empty
/// or holds an opposing piece.
pub proof fn lemma_pseudo_legal_plys_are_moves(tiles: Seq<Tile>, player: Color, ply: Ply)
    requires
        well_formed(tiles),
        pseudo_legal_plys(tiles, player).contains(ply),
    ensures
        is_move(tiles, player, ply),
{
    lemma_pseudo_legal_plys_contains(tiles, player, ply);
    let index = choose|index: int|
        0 <= index < 120 && #[trigger] piece_plys(tiles, player, index).contains(ply);
    lemma_piece_plys_are_moves(tiles, player, index);
}

} // verus!

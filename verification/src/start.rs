//! The position from which a game of chess starts.

use vstd::prelude::*;

use crate::board::{is_playable_index, Color, Tile};
use crate::fen::{
    field_start, parse_fen, place_all, place_char, placement_start, skip_spaces, skip_word,
    FenParseError, Placement,
};

verus! {

/// The pieces of `color` on its first rank, from the a-file to the h-file.
pub open spec fn back_rank(color: Color) -> Seq<Tile> {
    seq![
        Tile::Rook(color),
        Tile::Knight(color),
        Tile::Bishop(color),
        Tile::Queen(color),
        Tile::King(color),
        Tile::Bishop(color),
        Tile::Knight(color),
        Tile::Rook(color),
    ]
}

/// The tile on the square of `rank` and `file` when a game starts.
pub open spec fn start_tile(rank: int, file: int) -> Tile {
    if rank == 0 {
        back_rank(Color::White)[file]
    } else if rank == 1 {
        Tile::Pawn(Color::White)
    } else if rank == 6 {
        Tile::Pawn(Color::Black)
    } else if rank == 7 {
        back_rank(Color::Black)[file]
    } else {
        Tile::Empty
    }
}

/// The tiles of the board when a game starts.
pub open spec fn start_tiles() -> Seq<Tile> {
    Seq::new(
        120,
        |i: int|
            if is_playable_index(i) {
                start_tile(i / 10 - 2, i % 10 - 1)
            } else {
                Tile::Sentinel
            },
    )
}

/// What the first `n` characters of `run` do from `at`.
spec fn place_run(at: Placement, run: Seq<char>, n: int) -> Result<Placement, FenParseError>
    decreases n,
{
    if n <= 0 {
        Ok(at)
    } else {
        match place_run(at, run, n - 1) {
            Ok(next) => place_char(next, run[n - 1]),
            Err(e) => Err(e),
        }
    }
}

/// Reading one more character of a placement is one more step.
proof fn lemma_place_next(chars: Seq<char>, at: Placement, c: char)
    requires
        place_all(chars) == Ok::<Placement, FenParseError>(at),
    ensures
        place_all(chars.push(c)) == place_char(at, c),
{
    assert(chars.push(c).drop_last() =~= chars);
}

/// Reading on from `at` for `n` characters of `run`, one step at a time,
/// is what reading the placement as a whole does.
proof fn lemma_place_run(chars: Seq<char>, at: Placement, run: Seq<char>, n: int)
    requires
        place_all(chars) == Ok::<Placement, FenParseError>(at),
        0 <= n <= run.len(),
    ensures
        place_all(chars + run.take(n)) == place_run(at, run, n),
    decreases n,
{
    if n == 0 {
        assert(chars + run.take(0) =~= chars);
    } else {
        lemma_place_run(chars, at, run, n - 1);
        assert(chars + run.take(n) =~= (chars + run.take(n - 1)).push(run[n - 1]));
        if place_run(at, run, n - 1) is Ok {
            lemma_place_next(chars + run.take(n - 1), place_run(at, run, n - 1)->Ok_0, run[n - 1]);
        } else {
            assert((chars + run.take(n)).drop_last() =~= chars + run.take(n - 1));
        }
    }
}

/// The FEN text of the starting position describes the starting position,
/// with White to move.
pub proof fn lemma_start_fen()
    ensures
        parse_fen("rnbqkbnr/pppppppp/8/8/8/8/PPPPPPPP/RNBQKBNR w KQkq - 0 1"@) == Ok::<
            (Seq<Tile>, Color),
            FenParseError,
        >((start_tiles(), Color::White)),
{
    reveal_strlit("rnbqkbnr/pppppppp/8/8/8/8/PPPPPPPP/RNBQKBNR w KQkq - 0 1");
    let text = "rnbqkbnr/pppppppp/8/8/8/8/PPPPPPPP/RNBQKBNR w KQkq - 0 1"@;
    assert(text.len() == 56);
    assert(skip_spaces(text, 0) == 0);
    assert(skip_word(text, 0) == 43) by {
        reveal_with_fuel(skip_word, 45);
    }
    let placement = text.subrange(0, 43);
    assert(place_all(Seq::<char>::empty()) == Ok::<Placement, FenParseError>(placement_start()));
    lemma_place_run(Seq::empty(), placement_start(), placement, 43);
    assert(Seq::<char>::empty() + placement.take(43) =~= placement);
    let done = Placement { tiles: start_tiles(), rank: 0, file: 8 };
    assert(place_run(placement_start(), placement, 43) == Ok::<Placement, FenParseError>(done)) by {
        reveal_with_fuel(place_run, 45);
        let end = place_run(placement_start(), placement, 43);
        assert(end is Ok);
        assert(end->Ok_0.rank == 0);
        assert(end->Ok_0.file == 8);
        assert(end->Ok_0.tiles =~= start_tiles());
    }
    assert(field_start(text, 1) == 44) by {
        reveal_with_fuel(field_start, 2);
        reveal_with_fuel(skip_spaces, 2);
    }
    assert(skip_word(text, 44) == 45) by {
        reveal_with_fuel(skip_word, 2);
    }
    assert(text.subrange(44, 45)[0] == 'w');
    assert(field_start(text, 5) == 55) by {
        reveal_with_fuel(field_start, 6);
        reveal_with_fuel(skip_spaces, 2);
        reveal_with_fuel(skip_word, 5);
    }
}

} // verus!

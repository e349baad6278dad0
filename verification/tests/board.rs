use api::{Board, BoardError, Color, Pos, Tile};

const S: Tile = Tile::Sentinel;
const E: Tile = Tile::Empty;

#[test]
fn board_board() {
    let default_tiles = [
        S, S, S, S, S, S, S, S, S, S,
        S, S, S, S, S, S, S, S, S, S,
        S, E, E, E, E, E, E, E, E, S,
        S, E, E, E, E, E, E, E, E, S,
        S, E, E, E, E, E, E, E, E, S,
        S, E, E, E, E, E, E, E, E, S,
        S, E, E, E, E, E, E, E, E, S,
        S, E, E, E, E, E, E, E, E, S,
        S, E, E, E, E, E, E, E, E, S,
        S, E, E, E, E, E, E, E, E, S,
        S, S, S, S, S, S, S, S, S, S,
        S, S, S, S, S, S, S, S, S, S,
    ];

    let board = Board::new();

    assert_eq!(*board.get_tiles(), default_tiles);

    assert_eq!(*board.get_tiles(), default_tiles);
}

#[test]
fn new_board_has_sentinels_exactly_off_the_playable_squares() {
    let board = Board::new();
    for index in 0..120usize {
        let pos = Board::get_pos(index);
        let playable = (0..=7).contains(&pos.rank) && (0..=7).contains(&pos.file);
        let expected = if playable { Tile::Empty } else { Tile::Sentinel };
        assert_eq!(board.get_tile(index), Some(&expected), "index {}", index);
    }
    assert_eq!(board.get_tile(120), None);
    assert_eq!(board.get_tile(usize::MAX), None);
}

#[test]
fn position_and_index_convert_both_ways() {
    for rank in 0..8 {
        for file in 0..8 {
            let pos = Pos { rank, file };
            let index = Board::get_index(pos);
            assert_eq!(index, (21 + file + rank * 10) as usize);
            assert_eq!(Board::get_pos(index), pos);
        }
    }
    assert_eq!(Board::get_index(Pos { rank: 0, file: 0 }), 21);
    assert_eq!(Board::get_index(Pos { rank: 7, file: 7 }), 98);
    assert_eq!(Board::get_index(Pos { rank: 3, file: 3 }), 54);
}

#[test]
fn positions_of_border_indices() {
    assert_eq!(Board::get_pos(29), Pos { rank: 0, file: 8 });
    assert_eq!(Board::get_pos(30), Pos { rank: 0, file: 9 });
    assert_eq!(Board::get_pos(119), Pos { rank: 9, file: 8 });
    assert_eq!(Board::get_pos(20), Pos { rank: -1, file: 9 });
    assert_eq!(Board::get_pos(0), Pos { rank: -3, file: 9 });
    assert_eq!(Board::get_pos(120), Pos { rank: -1, file: -1 });
    assert_eq!(Board::get_pos(usize::MAX), Pos { rank: -1, file: -1 });
}

#[test]
fn set_tile_writes_a_playable_square() {
    let mut board = Board::new();
    assert_eq!(board.set_tile(54, Tile::Rook(Color::White)), Ok(()));
    assert_eq!(board.get_tile(54), Some(&Tile::Rook(Color::White)));
    assert_eq!(board.set_tile(54, Tile::Empty), Ok(()));
    assert_eq!(board.get_tile(54), Some(&Tile::Empty));
}

#[test]
fn set_tile_refuses_sentinels_and_indices_off_the_board() {
    let mut board = Board::new();
    board.set_tile(21, Tile::King(Color::Black)).unwrap();
    let before = *board.get_tiles();
    for index in (0..130usize).chain([usize::MAX]) {
        let pos = Board::get_pos(index);
        let playable = (0..=7).contains(&pos.rank) && (0..=7).contains(&pos.file);
        if !playable {
            assert_eq!(
                board.set_tile(index, Tile::Pawn(Color::White)),
                Err(BoardError::OutOfBounds(pos, index))
            );
            assert_eq!(board.rem_tile(index), Err(BoardError::OutOfBounds(pos, index)));
        }
        assert_eq!(*board.get_tiles(), before);
    }
    assert_eq!(
        board.set_tile(54, Tile::Sentinel),
        Err(BoardError::OutOfBounds(Pos { rank: 3, file: 3 }, 54))
    );
    assert_eq!(*board.get_tiles(), before);
}

#[test]
fn rem_tile_returns_the_tile_and_leaves_the_square_empty() {
    let mut board = Board::new();
    board.set_tile(98, Tile::Queen(Color::Black)).unwrap();
    assert_eq!(board.rem_tile(98), Ok(Tile::Queen(Color::Black)));
    assert_eq!(board.get_tile(98), Some(&Tile::Empty));
    assert_eq!(board.rem_tile(98), Ok(Tile::Empty));
    assert_eq!(board.get_tile(98), Some(&Tile::Empty));
}

#[test]
fn empty_clears_the_board() {
    let mut board = Board::new();
    board.set_tile(33, Tile::Knight(Color::White)).unwrap();
    board.empty();
    assert_eq!(*board.get_tiles(), *Board::new().get_tiles());
}

#[test]
fn index_to_string_gives_algebraic_notation() {
    assert_eq!(Board::index_to_string(21), "A1");
    assert_eq!(Board::index_to_string(54), "D4");
    assert_eq!(Board::index_to_string(98), "H8");
    assert_eq!(Board::index_to_string(28), "H1");
    assert_eq!(Board::index_to_string(91), "A8");
    assert_eq!(Board::index_to_string(20), " 1");
    assert_eq!(Board::index_to_string(29), " 1");
    assert_eq!(Board::index_to_string(11), "A ");
    assert_eq!(Board::index_to_string(0), "  ");
    assert_eq!(Board::index_to_string(105), "E ");
    assert_eq!(Board::index_to_string(1234), "D ");
}

#[test]
fn tiles_and_colors_as_text() {
    assert_eq!(Color::White.to_string(), "White");
    assert_eq!(Color::Black.to_string(), "Black");
    assert_eq!(Color::White.flip(), Color::Black);
    assert_eq!(Color::Black.flip(), Color::White);
    let glyphs = [
        (Tile::Pawn(Color::White), 'P'),
        (Tile::Knight(Color::White), 'N'),
        (Tile::Bishop(Color::White), 'B'),
        (Tile::Rook(Color::White), 'R'),
        (Tile::Queen(Color::White), 'Q'),
        (Tile::King(Color::White), 'K'),
        (Tile::Pawn(Color::Black), 'p'),
        (Tile::Knight(Color::Black), 'n'),
        (Tile::Bishop(Color::Black), 'b'),
        (Tile::Rook(Color::Black), 'r'),
        (Tile::Queen(Color::Black), 'q'),
        (Tile::King(Color::Black), 'k'),
        (Tile::Empty, '.'),
        (Tile::Sentinel, '_'),
    ];
    for (tile, glyph) in glyphs {
        assert_eq!(tile.to_char(), glyph);
        assert_eq!(tile.to_string(), glyph.to_string());
    }
    assert_eq!(Tile::Rook(Color::Black).color(), Some(Color::Black));
    assert_eq!(Tile::Empty.color(), None);
    assert_eq!(Tile::Sentinel.color(), None);
    assert_eq!(
        BoardError::OutOfBounds(Pos { rank: 0, file: 8 }, 29).to_string(),
        "invalid board operation"
    );
    assert!(Pos { rank: 7, file: 0 }.on_board());
    assert!(!Pos { rank: 8, file: 0 }.on_board());
    assert!(!Pos { rank: 0, file: -1 }.on_board());
}

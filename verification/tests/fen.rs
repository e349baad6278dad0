use api::{fen_game, Color, FenParseError, Game, Pos, Tile};

fn tile(game: &Game, square: &str) -> Tile {
    let bytes = square.as_bytes();
    let pos = Pos { rank: (bytes[1] - b'1') as i32, file: (bytes[0] - b'a') as i32 };
    *game.get_tile_from_pos(pos).unwrap()
}

fn error(fen: &str) -> FenParseError {
    match Game::from_fen(fen) {
        Ok(_) => panic!("{:?} was read", fen),
        Err(e) => e,
    }
}

#[test]
fn placement_is_read_from_the_eighth_rank_down() {
    let game = Game::from_fen("k7/1q6/2r5/3b4/4N3/5P2/6K1/7R b - - 0 1").unwrap();
    assert_eq!(*game.get_player(), Color::Black);
    assert_eq!(tile(&game, "a8"), Tile::King(Color::Black));
    assert_eq!(tile(&game, "b7"), Tile::Queen(Color::Black));
    assert_eq!(tile(&game, "c6"), Tile::Rook(Color::Black));
    assert_eq!(tile(&game, "d5"), Tile::Bishop(Color::Black));
    assert_eq!(tile(&game, "e4"), Tile::Knight(Color::White));
    assert_eq!(tile(&game, "f3"), Tile::Pawn(Color::White));
    assert_eq!(tile(&game, "g2"), Tile::King(Color::White));
    assert_eq!(tile(&game, "h1"), Tile::Rook(Color::White));
    let pieces = game.get_board_1d().iter().filter(|t| ***t != Tile::Empty).count();
    assert_eq!(pieces, 8);
}

#[test]
fn every_piece_letter_is_read() {
    let game = Game::from_fen("pnbrqk2/PNBRQK2/8/8/8/8/8/8 w - - 0 1").unwrap();
    let expected = [
        ("a8", Tile::Pawn(Color::Black)),
        ("b8", Tile::Knight(Color::Black)),
        ("c8", Tile::Bishop(Color::Black)),
        ("d8", Tile::Rook(Color::Black)),
        ("e8", Tile::Queen(Color::Black)),
        ("f8", Tile::King(Color::Black)),
        ("g8", Tile::Empty),
        ("a7", Tile::Pawn(Color::White)),
        ("b7", Tile::Knight(Color::White)),
        ("c7", Tile::Bishop(Color::White)),
        ("d7", Tile::Rook(Color::White)),
        ("e7", Tile::Queen(Color::White)),
        ("f7", Tile::King(Color::White)),
    ];
    for (square, piece) in expected {
        assert_eq!(tile(&game, square), piece, "{}", square);
    }
}

#[test]
fn empty_board_is_read() {
    let game = fen_game("8/8/8/8/8/8/8/8 w - - 0 1").unwrap();
    assert!(game.get_board_1d().iter().all(|t| **t == Tile::Empty));
    assert!(game.get_plys().is_empty());
    assert_eq!(*game.get_player(), Color::White);
}

#[test]
fn short_placements_and_zero_are_accepted() {
    let game = Game::from_fen("k w - - 0 1").unwrap();
    assert_eq!(tile(&game, "a8"), Tile::King(Color::Black));
    let game = Game::from_fen("0k0/3 w - - 0 1").unwrap();
    assert_eq!(tile(&game, "a8"), Tile::King(Color::Black));
    let game = Game::from_fen("4/4K b - - 0 1").unwrap();
    assert_eq!(tile(&game, "e7"), Tile::King(Color::White));
    assert_eq!(*game.get_player(), Color::Black);
}

#[test]
fn fields_may_be_separated_by_any_white_space() {
    let game = Game::from_fen("  8/8/8/8/3R4/8/8/8\t\tb \n KQkq\u{a0}-   0\u{2003}1  trailing").unwrap();
    assert_eq!(tile(&game, "d4"), Tile::Rook(Color::White));
    assert_eq!(*game.get_player(), Color::Black);
}

#[test]
fn only_the_first_character_of_the_color_counts() {
    assert_eq!(*Game::from_fen("8/8/8/8/8/8/8/8 white - - 0 1").unwrap().get_player(), Color::White);
    assert_eq!(*Game::from_fen("8/8/8/8/8/8/8/8 bw - - 0 1").unwrap().get_player(), Color::Black);
}

#[test]
fn castling_en_passant_and_clocks_are_not_looked_at() {
    let game = Game::from_fen("8/8/8/8/8/8/8/8 w ???? zz -7 x").unwrap();
    assert_eq!(*game.get_player(), Color::White);
}

#[test]
fn missing_fields_could_not_be_read() {
    for fen in [
        "",
        "   ",
        "8/8/8/8/8/8/8/8",
        "8/8/8/8/8/8/8/8 w",
        "8/8/8/8/8/8/8/8 w -",
        "8/8/8/8/8/8/8/8 w - -",
        "8/8/8/8/8/8/8/8 w - - 0",
        "8/8/8/8/8/8/8/8 w - - 0 ",
    ] {
        assert_eq!(error(fen), FenParseError::CouldNotRead, "{:?}", fen);
    }
}

#[test]
fn unknown_letters_are_invalid_pieces() {
    assert_eq!(error("rnbqkbnr/ppppxppp/8/8/8/8/8/8 w - - 0 1"), FenParseError::InvalidPiece('x'));
    assert_eq!(error("8/8/8/8/8/8/8/7- w - - 0 1"), FenParseError::InvalidPiece('-'));
    assert_eq!(error("\u{663}/8 w - - 0 1"), FenParseError::InvalidPiece('\u{663}'));
    assert_eq!(error("ppppppppx w - - 0 1"), FenParseError::InvalidPiece('x'));
    assert_eq!(error("x"), FenParseError::InvalidPiece('x'));
}

#[test]
fn other_colors_are_invalid() {
    assert_eq!(error("8/8/8/8/8/8/8/8 x - - 0 1"), FenParseError::InvalidColor('x'));
    assert_eq!(error("8/8/8/8/8/8/8/8 W - - 0 1"), FenParseError::InvalidColor('W'));
    assert_eq!(error("8/8/8/8/8/8/8/8 - w - 0 1"), FenParseError::InvalidColor('-'));
    assert_eq!(error("8/8/8/8/8/8/8/8 x"), FenParseError::InvalidColor('x'));
}

#[test]
fn more_than_eight_ranks_overflow() {
    assert_eq!(error("8/8/8/8/8/8/8/8/8 w - - 0 1"), FenParseError::RankOverflow);
    assert_eq!(error("8/8/8/8/8/8/8/8/ w - - 0 1"), FenParseError::RankOverflow);
    assert_eq!(error("////////"), FenParseError::RankOverflow);
    assert!(Game::from_fen("/////// w - - 0 1").is_ok());
}

#[test]
fn more_than_eight_files_overflow() {
    assert_eq!(error("9/8/8/8/8/8/8/8 w - - 0 1"), FenParseError::FileOverflow);
    assert_eq!(error("8/8/8/44p/8/8/8/8 w - - 0 1"), FenParseError::FileOverflow);
    assert_eq!(error("8/8/8/p8/8/8/8/8 w - - 0 1"), FenParseError::FileOverflow);
    assert_eq!(error("8/8/8/7p1p/8/8/8/8 w - - 0 1"), FenParseError::FileOverflow);
    assert_eq!(error("ppppppppp/8/8/8/8/8/8/8 w - - 0 1"), FenParseError::FileOverflow);
    assert_eq!(error("81"), FenParseError::FileOverflow);
    assert!(Game::from_fen("80/7p/pppppppp/8/8/8/8/8 w - - 0 1").is_ok());
}

#[test]
fn the_first_fault_decides_the_error() {
    assert_eq!(error("9x w"), FenParseError::FileOverflow);
    assert_eq!(error("x9 w"), FenParseError::InvalidPiece('x'));
    assert_eq!(error("8/8/8/8/8/8/8/8/x y"), FenParseError::RankOverflow);
    assert_eq!(error("8x/ y"), FenParseError::InvalidPiece('x'));
    assert_eq!(error("8 y"), FenParseError::InvalidColor('y'));
}

#[test]
fn read_fen_replaces_the_game_only_on_success() {
    let mut game = api::default_game();
    let plys = game.get_plys().clone();
    for fen in ["", "8/8 w", "9 w - - 0 1", "8 x - - 0 1", "8/q/z w - - 0 1"] {
        assert!(game.read_fen(fen).is_err());
        assert_eq!(*game.get_plys(), plys);
        assert_eq!(tile(&game, "e1"), Tile::King(Color::White));
        assert_eq!(*game.get_player(), Color::White);
    }
    assert_eq!(game.read_fen("8/8/8/8/8/8/8/4k3 b - - 0 1"), Ok(()));
    assert_eq!(tile(&game, "e1"), Tile::King(Color::Black));
    assert_eq!(tile(&game, "e2"), Tile::Empty);
    assert_eq!(*game.get_player(), Color::Black);
    assert_eq!(game.get_plys().len(), 5);
}

#[test]
fn fen_errors_as_text_and_from_a_character() {
    assert_eq!(FenParseError::from('x'), FenParseError::InvalidPiece('x'));
    for e in [
        FenParseError::CouldNotRead,
        FenParseError::InvalidPiece('x'),
        FenParseError::InvalidColor('x'),
        FenParseError::InvalidCastling('x'),
        FenParseError::InvalidEnPassant('x'),
        FenParseError::InvalidPlyClock('x'),
        FenParseError::InvalidMoveClock('x'),
        FenParseError::RankOverflow,
        FenParseError::FileOverflow,
        FenParseError::Unknown,
    ] {
        assert_eq!(e.to_string(), "fen parsing error");
    }
}

#[test]
fn every_character_of_a_placement_is_read_as_digit_slash_or_piece() {
    for c in (0..=0x10ffffu32).filter_map(char::from_u32) {
        if c.is_whitespace() {
            continue;
        }
        let fen = format!("{} w - - 0 1", c);
        let result = Game::from_fen(&fen);
        if let Some(digit) = c.to_digit(10) {
            if digit <= 8 {
                assert!(result.is_ok(), "{:?}", fen);
            } else {
                assert_eq!(result.err(), Some(FenParseError::FileOverflow), "{:?}", fen);
            }
        } else if c == '/' || "PNBRQKpnbrqk".contains(c) {
            assert!(result.is_ok(), "{:?}", fen);
        } else {
            assert_eq!(result.err(), Some(FenParseError::InvalidPiece(c)), "{:?}", fen);
        }
    }
}

#[test]
fn fields_are_split_as_the_standard_library_splits_them() {
    let texts = [
        "8/8/8/8/8/8/8/8 w - - 0 1",
        "8/8/8/8/8/8/8/8\u{85}b\u{1680}-\u{2028}-\u{2029}0\u{202f}1",
        "\u{205f}8/8/8/8/8/8/8/8\u{3000}w\u{2000}-\u{200a}-\u{b}0\u{c}1\r\n",
        "8/8/8/8/8/8/8/8\u{200b}w - - 0 1",
        "8/8/8/8/8/8/8/8 w\u{feff}- - 0 1",
        "8/8/8/8/8/8/8/8 w - -\u{180e}0 1",
        "8 w - - 0",
        "8 w - - 0\u{a0}",
        "8 w - - 0\u{a0}1",
    ];
    for text in texts {
        let fields: Vec<&str> = text.split_whitespace().collect();
        let expected = if fields.is_empty() {
            Err(FenParseError::CouldNotRead)
        } else if let Some(c) = fields[0].chars().find(|c| !c.is_ascii_digit() && *c != '/') {
            Err(FenParseError::InvalidPiece(c))
        } else if fields.len() < 2 {
            Err(FenParseError::CouldNotRead)
        } else if !fields[1].starts_with('w') && !fields[1].starts_with('b') {
            Err(FenParseError::InvalidColor(fields[1].chars().next().unwrap()))
        } else if fields.len() < 6 {
            Err(FenParseError::CouldNotRead)
        } else {
            Ok(())
        };
        assert_eq!(Game::from_fen(text).map(|_| ()), expected, "{:?}", text);
    }
}

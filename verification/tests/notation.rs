use api::notation::{chars_of, first_ink, is_whitespace, read_file, read_rank, read_square};
use api::{Game, Pos};

fn every_char() -> impl Iterator<Item = char> {
    (0..=0x10ffffu32).filter_map(char::from_u32)
}

/// The squares of a ply text, read with the standard library's white space
/// and lower case.
fn squares_by_std(text: &str) -> Option<(Pos, Pos)> {
    let collapsed = text.split_whitespace().collect::<String>().to_lowercase();
    let mut chars = collapsed.chars();
    let mut square = || {
        let file = match chars.next()? {
            c @ 'a'..='h' => c as i32 - 'a' as i32,
            _ => return None,
        };
        let rank = match chars.next()? {
            c @ '1'..='8' => c as i32 - '1' as i32,
            _ => return None,
        };
        Some(Pos { rank, file })
    };
    let origin = square()?;
    let destination = square()?;
    Some((origin, destination))
}

fn squares(text: &str) -> Option<(Pos, Pos)> {
    match Game::get_pos_from_str(text) {
        Some((Some(origin), Some(destination))) => Some((origin, destination)),
        Some(_) => panic!("half a pair from {:?}", text),
        None => None,
    }
}

#[test]
fn white_space_is_what_the_standard_library_calls_white_space() {
    let mut count = 0;
    for c in every_char() {
        assert_eq!(is_whitespace(c), c.is_whitespace(), "U+{:04X}", c as u32);
        if is_whitespace(c) {
            count += 1;
        }
    }
    assert_eq!(count, 25);
    assert!(is_whitespace(' '));
    assert!(is_whitespace('\t'));
    assert!(is_whitespace('\u{3000}'));
    assert!(!is_whitespace('\u{200b}'));
    assert!(!is_whitespace('a'));
}

#[test]
fn files_and_ranks_are_read_in_either_case() {
    for c in every_char() {
        let lower = c.to_lowercase().collect::<String>();
        let file = match lower.as_str() {
            "a" => Some(0),
            "b" => Some(1),
            "c" => Some(2),
            "d" => Some(3),
            "e" => Some(4),
            "f" => Some(5),
            "g" => Some(6),
            "h" => Some(7),
            _ => None,
        };
        assert_eq!(read_file(c), file, "U+{:04X}", c as u32);
        let rank = match lower.as_str() {
            "1" => Some(0),
            "2" => Some(1),
            "3" => Some(2),
            "4" => Some(3),
            "5" => Some(4),
            "6" => Some(5),
            "7" => Some(6),
            "8" => Some(7),
            _ => None,
        };
        assert_eq!(read_rank(c), rank, "U+{:04X}", c as u32);
    }
    assert_eq!(read_square('c', '7'), Some(Pos { rank: 6, file: 2 }));
    assert_eq!(read_square('H', '1'), Some(Pos { rank: 0, file: 7 }));
    assert_eq!(read_square('7', 'c'), None);
    assert_eq!(read_square('i', '1'), None);
    assert_eq!(read_square('a', '9'), None);
}

#[test]
fn ply_text_is_read_as_with_the_standard_library() {
    let specials = ['\u{130}', '\u{212a}', '\u{212b}', '\u{3a3}', '\u{ff21}', '\u{ff41}', '\u{ff11}', '\u{1d7cf}'];
    let chars = (0..0x3100u32).filter_map(char::from_u32).chain(specials);
    for c in chars {
        for at in 0..5 {
            let mut text: Vec<char> = "b7g2".chars().collect();
            text.insert(at, c);
            let inserted: String = text.iter().collect();
            assert_eq!(squares(&inserted), squares_by_std(&inserted), "{:?}", inserted);
            if at < 4 {
                text.remove(at + 1);
                let replaced: String = text.iter().collect();
                assert_eq!(squares(&replaced), squares_by_std(&replaced), "{:?}", replaced);
            }
        }
    }
    for text in ["", "a", "a1", "a1b", "a1b2", "A1B2", " a 1 b 2 ", "a1b2c3", "h8h1", "a1 b", "\u{130}1a1"] {
        assert_eq!(squares(text), squares_by_std(text), "{:?}", text);
    }
    assert_eq!(squares("b7g2"), Some((Pos { rank: 6, file: 1 }, Pos { rank: 1, file: 6 })));
}

#[test]
fn characters_and_ink() {
    assert_eq!(chars_of("a\u{e9}\u{1f600}z"), vec!['a', '\u{e9}', '\u{1f600}', 'z']);
    assert_eq!(chars_of(""), Vec::<char>::new());
    let text = chars_of("  a b\tc\u{2003}d e ");
    assert_eq!(first_ink(&text, 4), vec!['a', 'b', 'c', 'd']);
    assert_eq!(first_ink(&text, 9), vec!['a', 'b', 'c', 'd', 'e']);
    assert_eq!(first_ink(&text, 0), Vec::<char>::new());
    assert_eq!(first_ink(&chars_of(" \n "), 4), Vec::<char>::new());
}

use hank::wordle::{puzzle_from_captures, Puzzle, Tile};
use Tile::{Black, Green, Yellow};

fn read(s: &str) -> Result<Puzzle, ()> {
    Puzzle::try_from(s.to_string())
}

#[test]
fn tile_names() {
    assert_eq!(Tile::try_from("black_large_square".to_string()), Ok(Black));
    assert_eq!(Tile::try_from("large_yellow_square".to_string()), Ok(Yellow));
    assert_eq!(Tile::try_from("large_green_square".to_string()), Ok(Green));
    assert_eq!(Tile::try_from("\u{2b1b}".to_string()), Ok(Black));
    assert_eq!(Tile::try_from("\u{1f7e8}".to_string()), Ok(Yellow));
    assert_eq!(Tile::try_from("\u{1f7e9}".to_string()), Ok(Green));
}

#[test]
fn tile_unknown_names() {
    for s in ["", "white_large_square", ":large_green_square:", "\u{2b1c}", "\u{2b1b}\u{fe0f}", "Green"] {
        assert_eq!(Tile::try_from(s.to_string()), Err(()), "input {:?}", s);
    }
}

#[test]
fn discord_result() {
    let p = read("Wordle 123 4/6\n\n\u{1f7e9}\u{2b1b}\u{2b1b}\u{1f7e8}\u{2b1b}\n\u{1f7e9}\u{1f7e9}\u{1f7e9}\u{1f7e9}\u{1f7e9}").unwrap();
    assert_eq!(p.day_offset, 123);
    assert_eq!(p.attempts, 4);
    assert!(p.solved);
    assert!(!p.hard_mode);
    assert_eq!(p.board, vec![vec![Green, Black, Black, Yellow, Black], vec![Green; 5]]);
}

#[test]
fn slack_result() {
    let p = read("Wordle 789 2/6\n:large_green_square::black_large_square::large_yellow_square:\n:large_green_square::large_green_square::large_green_square:").unwrap();
    assert_eq!((p.day_offset, p.attempts, p.solved, p.hard_mode), (789, 2, true, false));
    assert_eq!(p.board, vec![vec![Green, Black, Yellow], vec![Green, Green, Green]]);
}

#[test]
fn unsolved_hard_mode_counts_six() {
    let p = read("Wordle 456 X/6*\n\u{2b1b}\u{2b1b}").unwrap();
    assert_eq!((p.day_offset, p.attempts, p.solved, p.hard_mode), (456, 6, false, true));
    assert_eq!(p.board, vec![vec![Black, Black]]);
}

#[test]
fn header_only() {
    let p = read("Wordle 0 1/6").unwrap();
    assert_eq!((p.day_offset, p.attempts, p.solved, p.hard_mode), (0, 1, true, false));
    assert!(p.board.is_empty());
}

#[test]
fn header_inside_text_and_crlf() {
    let p = read("I got Wordle 12 3/6 today\r\n\r\n\u{1f7e8}\u{1f7e9}\r\n").unwrap();
    assert_eq!((p.day_offset, p.attempts), (12, 3));
    assert_eq!(p.board, vec![vec![Yellow, Green]]);
}

#[test]
fn not_a_result() {
    assert_eq!(read("hello"), Err(()));
    assert_eq!(read(""), Err(()));
    assert_eq!(read("Wordle 1,234 4/6\n\u{1f7e9}"), Err(()));
    assert_eq!(read("\nWordle 12 3/6"), Err(()));
    // A non-row line after a line that is no header is never looked at.
    assert_eq!(read("hi\nnot tiles"), Err(()));
}

#[test]
fn at_most_six_rows() {
    let row = "\u{1f7e9}\u{1f7e9}";
    let text = format!("Wordle 5 6/6\n{r}\n{r}\n\n{r}\n{r}\n{r}\n{r}\nthis line is never read\n{r}", r = row);
    let p = read(&text).unwrap();
    assert_eq!(p.board.len(), 6);
}

#[test]
fn non_ascii_attempt_digit_counts_six() {
    let p = read("Wordle 5 \u{663}/6").unwrap();
    assert_eq!((p.attempts, p.solved), (6, true));
}

#[test]
fn unreadable_results() {
    assert!(Puzzle::parse("Wordle 5 3/6\nnot tiles".to_string()).is_none());
    assert!(Puzzle::parse("Wordle 5 3/6\n:large_green_square:".to_string()).is_none());
    assert!(Puzzle::parse("Wordle 99999999999 3/6".to_string()).is_none());
    assert!(Puzzle::parse("Wordle \u{663} 3/6".to_string()).is_none());
    assert_eq!(Puzzle::parse("nothing here".to_string()).map(|r| r.is_err()), Some(true));
    let p = Puzzle::parse("Wordle 7 3/6".to_string()).unwrap().unwrap();
    assert_eq!(p.day_offset, 7);
}

#[test]
fn slack_and_discord_rows_agree() {
    let rows = [vec![Green, Black], vec![Yellow, Yellow, Green, Black, Green]];
    for tiles in rows {
        let slack: String = tiles.iter().map(|t| match t {
            Black => ":black_large_square:",
            Yellow => ":large_yellow_square:",
            Green => ":large_green_square:",
        }).collect();
        let discord: String = tiles.iter().map(|t| match t {
            Black => "\u{2b1b}",
            Yellow => "\u{1f7e8}",
            Green => "\u{1f7e9}",
        }).collect();
        let a = read(&format!("Wordle 1 3/6\n{}", slack)).unwrap();
        let b = read(&format!("Wordle 1 3/6\n{}", discord)).unwrap();
        assert_eq!(a.board, vec![tiles.clone()]);
        assert_eq!(b.board, vec![tiles.clone()]);
    }
}

#[test]
fn debug_text_matches_derived_debug() {
    let p = read("Wordle 123 X/6*\n\u{1f7e9}\u{2b1b}\n:large_yellow_square::black_large_square:").unwrap();
    assert_eq!(p.debug_text(), format!("{:?}", p));
    let q = Puzzle { day_offset: i32::MIN, attempts: -7, solved: false, hard_mode: true, board: vec![] };
    assert_eq!(q.debug_text(), format!("{:?}", q));
    let r = Puzzle { day_offset: 1000, attempts: 0, solved: true, hard_mode: false, board: vec![vec![], vec![Green]] };
    assert_eq!(r.debug_text(), format!("{:?}", r));
    assert_eq!(r.debug_text(), "Puzzle { day_offset: 1000, attempts: 0, solved: true, hard_mode: false, board: [[], [Green]] }");
}

#[test]
fn crlf_reads_like_lf() {
    let texts = [
        "Wordle 321 5/6*\n\n\u{1f7e9}\u{2b1b}\n\u{1f7e8}\u{1f7e9}\n",
        "Wordle 1 X/6\n:large_green_square::black_large_square:\n\n",
        "no puzzle here\n\u{1f7e9}",
        "\n",
    ];
    for t in texts {
        assert_eq!(read(&t.replace('\n', "\r\n")), read(t), "input {:?}", t);
    }
}

fn groups(day: Option<&str>, attempts: Option<&str>, star: bool) -> Option<Option<Vec<Option<String>>>> {
    Some(Some(vec![
        Some("whole match".to_string()),
        day.map(|d| d.to_string()),
        attempts.map(|a| a.to_string()),
        attempts.map(|a| a.to_string()),
        if star { Some("*".to_string()) } else { None },
    ]))
}

#[test]
fn reading_from_given_captures() {
    let text = "anything\n\u{1f7e9}\u{1f7e8}".to_string();
    let p = puzzle_from_captures(&text, groups(Some("77"), Some("5"), false)).unwrap().unwrap();
    assert_eq!((p.day_offset, p.attempts, p.solved, p.hard_mode), (77, 5, true, false));
    assert_eq!(p.board, vec![vec![Green, Yellow]]);
    let p = puzzle_from_captures(&text, groups(Some("-3"), Some("X"), true)).unwrap().unwrap();
    assert_eq!((p.day_offset, p.attempts, p.solved, p.hard_mode), (-3, 6, false, true));
    let p = puzzle_from_captures(&text, groups(Some("1"), Some("seven"), false)).unwrap().unwrap();
    assert_eq!((p.attempts, p.solved), (6, true));
    assert_eq!(puzzle_from_captures(&text, Some(None)), Some(Err(())));
    assert_eq!(puzzle_from_captures(&text, None), None);
    assert_eq!(puzzle_from_captures(&text, groups(None, Some("5"), false)), None);
    assert_eq!(puzzle_from_captures(&text, groups(Some("5"), None, false)), None);
    assert_eq!(puzzle_from_captures(&text, groups(Some("3000000000"), Some("5"), false)), None);
    assert_eq!(puzzle_from_captures(&text, Some(Some(vec![None, Some("1".to_string())]))), None);
    let bad = "x\nnot tiles".to_string();
    assert_eq!(puzzle_from_captures(&bad, groups(Some("1"), Some("2"), false)), None);
    assert_eq!(puzzle_from_captures(&bad, Some(None)), Some(Err(())));
}

#[test]
fn blank_lines_after_the_header_do_not_matter() {
    let base = "Wordle 9 3/6\n\u{1f7e9}\u{2b1b}\n\u{1f7e8}\u{1f7e9}\n\u{1f7e9}\u{1f7e9}";
    let spaced = "Wordle 9 3/6\n\n\n\u{1f7e9}\u{2b1b}\n\n\u{1f7e8}\u{1f7e9}\n\u{1f7e9}\u{1f7e9}\n\n";
    assert_eq!(read(spaced), read(base));
    assert!(read(base).is_ok());
    let seven = "Wordle 9 3/6\n\u{1f7e9}\n\u{1f7e9}\n\u{1f7e9}\n\u{1f7e9}\n\u{1f7e9}\n\u{1f7e9}\nnot tiles";
    let seven_spaced = "Wordle 9 3/6\n\u{1f7e9}\n\n\u{1f7e9}\n\u{1f7e9}\n\n\u{1f7e9}\n\u{1f7e9}\n\u{1f7e9}\n\nnot tiles";
    assert_eq!(read(seven_spaced), read(seven));
    assert!(Puzzle::parse("Wordle 9 3/6\n\nnope".to_string()).is_none());
}

use ferris_says::bubble::{draw_bubble, render, Mascot, CLIPPY, FERRIS};
use ferris_says::lines::split_lines;
use ferris_says::measure::longest_line;
use ferris_says::whitespace::merge_white_spaces;

const FERRIS_ART: &str = r#"
        \
         \
            _~^~^~_
        \) /  o o  \ (/
          '_   -   _'
          / '-----' \
"#;

fn text(bytes: &[u8]) -> String {
    String::from_utf8(bytes.to_vec()).unwrap()
}

fn with_ferris(frame: &str) -> String {
    format!("{}{}", frame, FERRIS_ART)
}

#[test]
fn hello_fellow_rustaceans() {
    let out = render("Hello fellow Rustaceans!", 24, Mascot::Ferris);
    let expected = with_ferris(" __________________________\n< Hello fellow Rustaceans! >\n --------------------------");
    assert_eq!(text(&out), expected);
}

#[test]
fn inner_spaces_are_merged_before_wrapping() {
    let out = render("a    b", 80, Mascot::Ferris);
    assert_eq!(text(&out), with_ferris(" _____\n< a b >\n -----"));
}

#[test]
fn wide_characters_pad_by_display_width() {
    let out = draw_bubble(&["\u{4f60}\u{597d}", "ab"], Mascot::Ferris);
    let expected = with_ferris(" ______\n/ \u{4f60}\u{597d} \\\n\\ ab   /\n ------");
    assert_eq!(text(&out), expected);
}

#[test]
fn wide_characters_in_a_message() {
    let out = render("\u{4f60}\u{597d}  ab", 80, Mascot::Ferris);
    let expected = with_ferris(" _________\n< \u{4f60}\u{597d} ab >\n ---------");
    assert_eq!(text(&out), expected);
}

#[test]
fn empty_input_gives_one_empty_row() {
    let out = render("", 24, Mascot::Ferris);
    assert_eq!(text(&out), with_ferris(" __\n<  >\n --"));
}

#[test]
fn zero_width_does_not_panic() {
    let out = text(&render("hello world", 0, Mascot::Ferris));
    assert!(out.starts_with(" _"));
    assert!(out.ends_with(FERRIS_ART));
    let out = text(&render("", 0, Mascot::Ferris));
    assert!(out.ends_with(FERRIS_ART));
}

#[test]
fn long_message_wraps_into_several_rows() {
    let out = render("Hello fellow Rustaceans!", 12, Mascot::Ferris);
    let expected = with_ferris(" ______________\n/ Hello fellow \\\n\\ Rustaceans!  /\n --------------");
    assert_eq!(text(&out), expected);
}

#[test]
fn middle_rows_use_bars() {
    let out = draw_bubble(&["one", "three", "two"], Mascot::Ferris);
    let expected = with_ferris(" _______\n/ one   \\\n| three |\n\\ two   /\n -------");
    assert_eq!(text(&out), expected);
}

#[test]
fn right_borders_align() {
    let out = text(&render("the quick brown fox jumps over the lazy dog", 10, Mascot::Ferris));
    let rows: Vec<&str> = out.lines().skip(1).take_while(|r| !r.starts_with(" -")).collect();
    assert!(rows.len() >= 2);
    let len = rows[0].len();
    for row in &rows {
        assert_eq!(row.len(), len);
        assert!(!row.contains('<') && !row.contains('>'));
    }
}

#[test]
fn one_line_uses_angle_brackets() {
    let out = text(&render("hi", 10, Mascot::Ferris));
    let row = out.lines().nth(1).unwrap();
    assert_eq!(row, "< hi >");
}

#[test]
fn border_lengths_follow_the_widest_line() {
    let out = text(&draw_bubble(&["abcd", "ab"], Mascot::Ferris));
    let lines: Vec<&str> = out.lines().collect();
    assert_eq!(lines[0], format!(" {}", "_".repeat(6)));
    assert_eq!(lines[3], format!(" {}", "-".repeat(6)));
}

#[test]
fn ascii_word_box_is_as_wide_as_the_word() {
    let out = render("Rustacean", 80, Mascot::Ferris);
    assert_eq!(text(&out), with_ferris(" ___________\n< Rustacean >\n -----------"));
    assert_eq!(render("Rustacean", 80, Mascot::Ferris), out);
}

#[test]
fn clippy_is_drawn_on_request() {
    let out = text(&render("hi", 10, Mascot::Clippy));
    assert!(out.ends_with(CLIPPY));
    assert!(out.contains("@  @"));
    assert_eq!(Mascot::Ferris.art(), FERRIS);
}

#[test]
fn merging_is_idempotent() {
    let once = merge_white_spaces("a \t b\u{3000}\u{a0}c  ");
    assert_eq!(once, "a b c ");
    assert_eq!(merge_white_spaces(&once), once);
}

#[test]
fn line_breaks_survive_merging() {
    assert_eq!(merge_white_spaces("a\n\nb"), "a\n\nb");
    assert_eq!(merge_white_spaces("a  \n\n \t b"), "a \n\n b");
    assert_eq!(merge_white_spaces("x \r\n y"), "x \r\n y");
    assert_eq!(merge_white_spaces(""), "");
}

#[test]
fn lines_are_split_like_str_lines() {
    assert_eq!(split_lines("a\r\nb\n"), vec!["a", "b"]);
    assert_eq!(split_lines("a\n\nb"), vec!["a", "", "b"]);
    assert_eq!(split_lines("a\rb"), vec!["a\rb"]);
    assert!(split_lines("").is_empty());
    assert_eq!(split_lines("\n"), vec![""]);
}

#[test]
fn longest_line_counts_columns() {
    assert_eq!(longest_line(&["\u{ff21}\u{ff22}", "abc"]), 4);
    assert_eq!(longest_line(&["e\u{301}"]), 1);
    assert_eq!(longest_line(&[]), 0);
}

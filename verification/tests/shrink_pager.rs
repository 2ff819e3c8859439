use carrot_utils::lines::{check_all_lines_cuttable, check_cuts, next_line};
use carrot_utils::pager::{can_cut_to_screen, screen_lines_of, PagerKey, Scroll, ScrollAction};
use carrot_utils::shrink::{can_shrink, shrink};

#[test]
fn shrink_cuts_long_lines() {
    assert!(can_shrink(3, "abcdefgh"));
    assert_eq!(shrink(3, "abcdefgh"), "abc\ndef\ngh\n");
}

#[test]
fn shrink_leaves_an_empty_piece_when_width_divides() {
    assert_eq!(shrink(3, "abcdef"), "abc\ndef\n\n");
}

#[test]
fn shrink_keeps_lines_that_fit() {
    assert_eq!(shrink(4, "ab\nabcdefg\nabcd\n"), "ab\nabcd\nefg\nabcd\n");
    assert_eq!(shrink(3, "ab\nabcdefg"), "ab\nabc\ndef\ng\n");
    assert_eq!(shrink(10, "short\nlines"), "short\nlines\n");
    assert_eq!(shrink(10, "a\n\nb"), "a\n\nb\n");
    assert_eq!(shrink(10, ""), "");
}

#[test]
fn shrink_handles_crlf_and_bare_cr() {
    // "\r\n" ends a line; a lone "\r" belongs to the line.
    assert_eq!(shrink(2, "abc\r\nde"), "ab\nc\nde\n");
    assert_eq!(shrink(2, "ab\rc"), "ab\n\rc\n\n");
}

#[test]
fn shrink_counts_bytes() {
    // "żż" is four bytes: cut after each character.
    assert!(can_shrink(2, "żżż"));
    assert_eq!(shrink(2, "żżż"), "ż\nż\nż\n\n");
    // A cut inside a character is refused.
    assert!(!can_shrink(3, "żżż"));
}

#[test]
fn shrink_needs_a_width() {
    assert!(!can_shrink(0, "a"));
    assert!(can_shrink(0, ""));
    assert_eq!(shrink(0, ""), "");
    assert!(can_shrink(0, "\n"));
    assert_eq!(shrink(0, "\n"), "\n");
}

#[test]
fn shrunk_lines_fit() {
    let out = shrink(3, "abcdefgh\nxy\nabcdefghijk");
    for line in out.lines() {
        assert!(line.len() <= 3);
    }
}

#[test]
fn shrink_twice_is_once() {
    let once = shrink(3, "abcdefgh\nab\nabcdef\nxyzw");
    assert_eq!(once, "abc\ndef\ngh\nab\nabc\ndef\n\nxyz\nw\n");
    assert!(can_shrink(3, &once));
    assert_eq!(shrink(3, &once), once);
}

#[test]
fn shrink_line_by_line() {
    let text = "abcdefgh\nab\nxyzw";
    let joined: String = text.lines().map(|l| shrink(3, l)).collect();
    assert_eq!(shrink(3, text), joined);
}

#[test]
fn shrunk_pieces_reassemble() {
    let line = "abcdefghij";
    let out = shrink(4, line);
    assert_eq!(out.lines().collect::<String>(), line);
}

#[test]
fn next_line_finds_line_ends() {
    let t = b"ab\r\ncd\nef";
    assert_eq!(next_line(t, 0), (2, 4));
    assert_eq!(next_line(t, 4), (6, 7));
    assert_eq!(next_line(t, 7), (9, 9));
}

#[test]
fn cut_checks() {
    let t = "aż".as_bytes();
    assert!(check_cuts(t, 0, t.len(), 1) == false);
    assert!(check_all_lines_cuttable("abc\nd".as_bytes(), 1));
}

#[test]
fn pager_screen_lines() {
    assert!(can_cut_to_screen(3, "abcdefgh\nxy\n\nabc"));
    assert_eq!(screen_lines_of(3, "abcdefgh\nxy\n\nabc"), vec!["abc", "def", "gh", "xy", "", "abc"]);
    assert_eq!(screen_lines_of(2, "abcd"), vec!["ab", "cd", ""]);
    assert_eq!(screen_lines_of(5, ""), Vec::<String>::new());
}

#[test]
fn pager_keeps_the_text() {
    let text = "one two three\nfour\r\nfive six";
    let lines = screen_lines_of(4, text);
    assert_eq!(lines.concat(), text.lines().collect::<String>());
    assert!(lines.iter().all(|l| l.len() <= 4));
}

#[test]
fn pager_scrolls_down_and_up() {
    let mut s = Scroll::new(5, 3);
    assert_eq!((s.start, s.index), (0, 2));
    assert_eq!(s.handle(PagerKey::Up), ScrollAction::Stay);
    assert_eq!(s.handle(PagerKey::Down), ScrollAction::ShowBottom(3));
    assert_eq!((s.start, s.index), (1, 3));
    assert_eq!(s.handle(PagerKey::Other), ScrollAction::Stay);
    assert_eq!(s.handle(PagerKey::Up), ScrollAction::ShowTop(0));
    assert_eq!((s.start, s.index), (0, 2));
    assert_eq!(s.handle(PagerKey::Quit), ScrollAction::Stop);
}

#[test]
fn pager_stops_at_the_end() {
    // Five lines on a three row screen: scrolling goes on until the last
    // line reaches the top row.
    let mut s = Scroll::new(5, 3);
    let mut moves = 0;
    while s.handle(PagerKey::Down) != ScrollAction::Stay {
        moves += 1;
    }
    assert_eq!(moves, 4);
    assert_eq!((s.start, s.index), (4, 6));
}

#[test]
fn up_undoes_down() {
    let mut s = Scroll::new(10, 4);
    s.handle(PagerKey::Down);
    s.handle(PagerKey::Down);
    let before = (s.start, s.index);
    assert_ne!(s.handle(PagerKey::Down), ScrollAction::Stay);
    s.handle(PagerKey::Up);
    assert_eq!((s.start, s.index), before);
    s.handle(PagerKey::Up);
    let before = (s.start, s.index);
    s.handle(PagerKey::Down);
    assert_eq!((s.start, s.index), (before.0 + 1, before.1 + 1));
}

use typre::ui::{wrap, DrawOp, RenderState, Style, Word};

fn state(words: &[&str]) -> RenderState {
    let owned: Vec<String> = words.iter().map(|w| w.to_string()).collect();
    RenderState::new(&owned).expect("plain words have widths")
}

#[test]
fn wrap_is_idempotent_and_partitions() {
    let rs = state(&["alpha", "beta", "gamma", "delta", "epsilon"]);
    let first = wrap(&rs.words, 12);
    let second = wrap(&rs.words, 12);
    assert_eq!(first, second);
    // The lines cover all words exactly once, contiguously and in order.
    assert_eq!(first[0].start, 0);
    assert_eq!(first.last().unwrap().end, rs.words.len());
    for pair in first.windows(2) {
        assert_eq!(pair[0].end, pair[1].start);
        assert!(pair[0].start < pair[0].end);
    }
}

#[test]
fn wrap_breaks_greedily() {
    let rs = state(&["ab", "cd", "ef"]);
    // Each word is 2 wide plus a space; a budget of 6 fits two words.
    let lines = wrap(&rs.words, 6);
    assert_eq!(lines.len(), 2);
    assert_eq!((lines[0].start, lines[0].end), (0, 2));
    assert_eq!((lines[1].start, lines[1].end), (2, 3));
}

#[test]
fn wrap_keeps_one_word_lines() {
    let rs = state(&["abcdefgh"]);
    // Even a word wider than the budget gets its line.
    let lines = wrap(&rs.words, 4);
    assert_eq!(lines.len(), 1);
    assert_eq!((lines[0].start, lines[0].end), (0, 1));
}

#[test]
fn word_rejects_control_characters() {
    assert!(Word::from_str("a\tb").is_none());
    assert!(Word::from_str("plain").is_some());
}

#[test]
fn typed_glyphs_restyle_placeholders() {
    let mut rs = state(&["cat"]);
    assert!(rs.correct('c', 40));
    assert!(rs.error('x', 40));
    assert_eq!(rs.words[0].chars.len(), 3);
    assert_eq!(rs.words[0].chars[0].style, Style::Correct);
    assert_eq!(rs.words[0].chars[0].ch, 'c');
    assert_eq!(rs.words[0].chars[1].style, Style::Error);
    assert_eq!(rs.words[0].chars[1].ch, 'x');
    assert_eq!(rs.words[0].chars[2].style, Style::Empty);
    assert_eq!(rs.words[0].pos, 2);
}

#[test]
fn extra_glyphs_append_and_undo_removes_them() {
    let mut rs = state(&["cat"]);
    assert!(rs.correct('c', 40));
    assert!(rs.correct('a', 40));
    assert!(rs.correct('t', 40));
    assert!(rs.extra('s', 40));
    assert_eq!(rs.words[0].chars.len(), 4);
    // Undoing an extra character removes it outright, not a placeholder.
    rs.undo(40);
    assert_eq!(rs.words[0].chars.len(), 3);
    assert_eq!(rs.words[0].pos, 3);
    // Undoing within the target restores the placeholder.
    rs.undo(40);
    assert_eq!(rs.words[0].chars.len(), 3);
    assert_eq!(rs.words[0].chars[2].style, Style::Empty);
    assert_eq!(rs.words[0].chars[2].ch, 't');
    assert_eq!(rs.words[0].pos, 2);
}

#[test]
fn undo_on_untouched_word_changes_nothing() {
    let mut rs = state(&["cat"]);
    rs.undo(40);
    assert_eq!(rs.words[0].pos, 0);
    assert_eq!(rs.words[0].chars.len(), 3);
    assert_eq!(rs.pos, 0);
}

#[test]
fn cursor_advances_by_glyph_width() {
    let mut rs = state(&["cat", "dog"]);
    assert_eq!(rs.pos, 0);
    assert!(rs.correct('c', 40));
    assert_eq!((rs.line, rs.pos), (0, 1));
    assert!(rs.correct('a', 40));
    assert_eq!((rs.line, rs.pos), (0, 2));
    rs.undo(40);
    assert_eq!((rs.line, rs.pos), (0, 1));
}

#[test]
fn cursor_wraps_to_next_line() {
    // Budget 4: "cat" fills a line (3 + separator), "dog" goes to line 1.
    let mut rs = state(&["cat", "dog"]);
    assert!(rs.correct('c', 4));
    assert!(rs.correct('a', 4));
    assert!(rs.correct('t', 4));
    rs.next_word(4);
    assert_eq!(rs.word, 1);
    assert_eq!(rs.line, 1);
}

#[test]
fn render_paints_glyphs_lines_and_cursor() {
    let rs = state(&["ab"]);
    // cols 8 -> budget 4, x0 = 4 - 2 = 2; rows 4 -> y0 = 2.
    let ops = rs.render(8, 4);
    assert_eq!(
        ops,
        vec![
            DrawOp::Clear,
            DrawOp::Goto(2, 2),
            DrawOp::Glyph('a', Style::Empty),
            DrawOp::Glyph('b', Style::Empty),
            DrawOp::Space,
            DrawOp::Goto(2, 2),
        ]
    );
}

#[test]
fn render_moves_cursor_with_typing() {
    let mut rs = state(&["ab"]);
    assert!(rs.correct('a', 4));
    let ops = rs.render(8, 4);
    assert_eq!(ops[2], DrawOp::Glyph('a', Style::Correct));
    assert_eq!(*ops.last().unwrap(), DrawOp::Goto(3, 2));
}

#[test]
fn wide_characters_use_their_column_width() {
    // A CJK character is two columns wide.
    let rs = state(&["你好"]);
    let lines = wrap(&rs.words, 10);
    assert_eq!(lines[0].len, 5);
}

#[test]
fn undo_retreats_by_the_undone_characters_width() {
    // The undone character's own width moves the cursor back, also when
    // the placeholder it uncovers has a different width.
    let mut rs = state(&["你a"]);
    assert!(rs.correct('你', 40));
    assert_eq!(rs.pos, 2);
    assert!(rs.correct('a', 40));
    assert_eq!(rs.pos, 3);
    rs.undo(40);
    assert_eq!(rs.pos, 2);
    rs.undo(40);
    assert_eq!(rs.pos, 0);
}

#[test]
fn line_change_reseats_at_confirmed_width() {
    // Budget 4: "cat" fills line 0; advancing onto the fresh "dog" seats
    // the column at its confirmed width — nothing confirmed, column 0.
    let mut rs = state(&["cat", "dog"]);
    assert!(rs.correct('c', 4));
    assert!(rs.correct('a', 4));
    assert!(rs.correct('t', 4));
    rs.next_word(4);
    assert_eq!((rs.line, rs.pos), (1, 0));
}

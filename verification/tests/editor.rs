//! The commit-message editor.

use git_viz::editor::Editor;

fn type_in(e: &mut Editor, s: &str) {
    for c in s.chars() {
        e.insert(c);
    }
}

#[test]
fn editor_multiline_editing() {
    let mut e = Editor::new();
    type_in(&mut e, "fix: bug");
    e.newline();
    type_in(&mut e, "body");
    assert_eq!(e.text(), "fix: bug\nbody");

    // Backspace at column 0 joins onto the previous line.
    e.home();
    e.backspace();
    assert_eq!(e.text(), "fix: bugbody");
    assert_eq!((e.row, e.col), (0, 8));

    // Delete at end of line joins the next line up.
    e.newline();
    e.up();
    e.end();
    e.delete();
    assert_eq!(e.text(), "fix: bugbody");

    // Cursor movement crosses line boundaries: after the split the lines
    // are ["fix: bug", "body"], so ← from the start of "body" lands at the
    // end of "fix: bug" (col 8), and → returns.
    e.newline();
    assert_eq!((e.row, e.col), (1, 0));
    e.left();
    assert_eq!((e.row, e.col), (0, 8));
    e.right();
    assert_eq!((e.row, e.col), (1, 0));
}

#[test]
fn editor_word_and_line_deletion() {
    let mut e = Editor::new();
    type_in(&mut e, "abc def ");
    e.delete_word_back();
    assert_eq!(e.text(), "abc ");
    e.delete_word_back();
    assert_eq!(e.text(), "");

    type_in(&mut e, "abc def");
    e.left();
    e.left();
    e.left();
    e.delete_to_start();
    assert_eq!(e.text(), "def");
    assert_eq!(e.col, 0);
}

#[test]
fn editor_is_unicode_aware() {
    let mut e = Editor::new();
    type_in(&mut e, "héllo 汉");
    assert_eq!(e.text(), "héllo 汉");
    // 汉 is one char but two display columns.
    assert_eq!(e.col, 7);
    assert_eq!(e.display_col(), 8);
    e.backspace();
    assert_eq!(e.text(), "héllo ");
    // Editing in the middle of multi-byte text stays on char boundaries.
    e.home();
    e.right();
    e.insert('X');
    assert_eq!(e.text(), "hXéllo ");
}

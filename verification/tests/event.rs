use git_viz::app::{App, Change, DiffSource, Editor, Focus, Mode, Step};
use git_viz::event::{
    committed, handle_key, handle_paste, intended, remote, report, staged, KeyCode, KeyEvent,
    KeyEventKind, KeyModifiers, HELP,
};
use git_viz::git::{CommitInfo, HeadInfo, RefLabel, Section, StatusEntry};
use git_viz::oid::Oid;
use git_viz::patch::{collect_diff, DiffChunk, DiffLine};

const NONE: KeyModifiers = KeyModifiers { control: false, alt: false, shift: false };
const CONTROL: KeyModifiers = KeyModifiers { control: true, alt: false, shift: false };
const ALT: KeyModifiers = KeyModifiers { control: false, alt: true, shift: false };
const SHIFT: KeyModifiers = KeyModifiers { control: false, alt: false, shift: true };

fn entry(path: &str, section: Section) -> StatusEntry {
    StatusEntry {
        path: path.to_string(),
        section,
        deleted: false,
        code: "M".to_string(),
    }
}

fn a_commit(n: u8) -> CommitInfo {
    CommitInfo {
        short_id: format!("{n:07}"),
        summary: format!("commit {n}"),
        author: "A".to_string(),
        graph: "● ".to_string(),
        oid: Oid { bytes: [n; 20] },
        refs: vec![RefLabel { name: "main".to_string(), remote: false }],
    }
}

fn status() -> Vec<StatusEntry> {
    vec![
        entry("staged.txt", Section::Staged),
        entry("changed.txt", Section::Unstaged),
        entry("new.txt", Section::Untracked),
    ]
}

fn file_diff() -> Vec<DiffLine> {
    let chunk = |origin: char, text: &str| DiffChunk { origin, content: text.as_bytes().to_vec() };
    collect_diff(&vec![
        chunk('F', "--- a/f\n+++ b/f\n"),
        chunk('H', "@@ -1,2 +1,2 @@\n"),
        chunk(' ', "a\n"),
        chunk('-', "b\n"),
        chunk('+', "B\n"),
    ])
}

/// What was asked of the repository while a key was handled.
#[derive(PartialEq, Debug)]
enum Asked {
    Commits,
    Diff(String),
    Stage(String, bool),
    Unstage(String),
    Intent(String),
    Apply(String, bool),
    Commit(String),
    Run(Vec<String>),
}

/// Carry out steps on a repository in which everything works.
fn settle(app: &mut App, mut step: Step) -> Vec<Asked> {
    let mut asked = Vec::new();
    loop {
        step = match step {
            Step::Done => return asked,
            Step::Failed(e) => panic!("{e}"),
            Step::LoadCommits(after) => {
                asked.push(Asked::Commits);
                app.commits_loaded(Ok(vec![a_commit(2), a_commit(1)]), after)
            }
            Step::LoadStatus(after) => app.status_loaded(Ok(status()), after),
            Step::LoadHead(after) => app.head_loaded(
                Some(HeadInfo {
                    branch: "main".to_string(),
                    upstream: None,
                    ahead: 0,
                    behind: 0,
                }),
                after,
            ),
            Step::LoadDiff { source, title, after } => {
                asked.push(Asked::Diff(title.clone()));
                app.diff_loaded(source, title, Ok(file_diff()), after)
            }
            Step::Stage { change, rest, msg } => {
                asked.push(Asked::Stage(change.path, change.deleted));
                staged(app, Ok(()), rest, msg)
            }
            Step::Unstage { path, msg } => {
                asked.push(Asked::Unstage(path));
                report(app, Ok(()), msg)
            }
            Step::IntentToAdd { path, patch, msg } => {
                asked.push(Asked::Intent(path));
                intended(app, Ok(()), patch, msg)
            }
            Step::Apply { patch, reverse, msg } => {
                asked.push(Asked::Apply(patch, reverse));
                report(app, Ok(()), msg)
            }
            Step::Commit { message } => {
                asked.push(Asked::Commit(message));
                committed(app, Ok(Oid { bytes: [0xab; 20] }))
            }
            Step::Remote { args } => {
                asked.push(Asked::Run(args));
                remote(Ok("output".to_string()))
            }
        };
    }
}

fn open() -> App {
    let (mut app, step) = App::load();
    settle(&mut app, step);
    app
}

fn press(app: &mut App, code: KeyCode, modifiers: KeyModifiers) -> Vec<Asked> {
    let step = handle_key(app, KeyEvent::new(code, modifiers));
    settle(app, step)
}

fn key(app: &mut App, c: char) -> Vec<Asked> {
    press(app, KeyCode::Char(c), NONE)
}

#[test]
fn ctrl_c_quits_from_any_mode_without_committing() {
    let mut app = open();
    let ctrl_c = KeyEvent::new(KeyCode::Char('c'), CONTROL);

    let mut editor = Editor::new();
    for c in "half-typed message".chars() {
        editor.insert(c);
    }
    let modes = [
        Mode::Normal,
        Mode::Input { editor },
        Mode::Message("popup".to_string()),
    ];
    for mode in modes {
        app.should_quit = false;
        app.mode = mode;
        let step = handle_key(&mut app, ctrl_c);
        assert!(app.should_quit, "Ctrl+C must quit from every mode");
        assert!(matches!(step, Step::Done), "nothing is committed");
    }

    // Plain c (no Ctrl) must keep meaning "commit", not quit.
    app.should_quit = false;
    app.mode = Mode::Normal;
    handle_key(&mut app, KeyEvent::new(KeyCode::Char('c'), NONE));
    assert!(!app.should_quit);
}

#[test]
fn commit_editor_supports_multiline_and_cursor_editing() {
    let mut app = open();
    app.mode = Mode::Input { editor: Editor::new() };

    let press = |app: &mut App, code: KeyCode, mods: KeyModifiers| {
        handle_key(app, KeyEvent::new(code, mods));
    };
    let type_str = |app: &mut App, s: &str| {
        for c in s.chars() {
            press(app, KeyCode::Char(c), NONE);
        }
    };

    type_str(&mut app, "subjct");
    // Fix the typo in place: ← ← then insert 'e'.
    press(&mut app, KeyCode::Left, NONE);
    press(&mut app, KeyCode::Left, NONE);
    press(&mut app, KeyCode::Char('e'), NONE);
    // Ctrl+N opens a body line without committing.
    press(&mut app, KeyCode::End, NONE);
    press(&mut app, KeyCode::Char('n'), CONTROL);
    type_str(&mut app, "body");
    // Alt+Enter also inserts a newline instead of committing.
    press(&mut app, KeyCode::Enter, ALT);
    type_str(&mut app, "more");

    let Mode::Input { editor } = &app.mode else {
        panic!("still in input mode");
    };
    assert_eq!(editor.text(), "subject\nbody\nmore");

    // A multi-line paste lands in the editor instead of submitting.
    handle_paste(&mut app, " pasted\r\ntail");
    let Mode::Input { editor } = &app.mode else {
        panic!("still in input mode");
    };
    assert_eq!(editor.text(), "subject\nbody\nmore pasted\ntail");

    // Esc abandons the whole thing.
    press(&mut app, KeyCode::Esc, NONE);
    assert!(matches!(app.mode, Mode::Normal));
    assert_eq!(app.status_line, "Commit cancelled");
}

#[test]
fn only_presses_count() {
    let mut app = open();
    for kind in [KeyEventKind::Repeat, KeyEventKind::Release] {
        let step = handle_key(
            &mut app,
            KeyEvent { code: KeyCode::Char('q'), modifiers: NONE, kind },
        );
        assert!(matches!(step, Step::Done));
        assert!(!app.should_quit);
    }
    key(&mut app, 'q');
    assert!(app.should_quit);
}

#[test]
fn any_key_closes_a_message() {
    let mut app = open();
    key(&mut app, '?');
    assert!(matches!(&app.mode, Mode::Message(text) if text == HELP));
    assert!(HELP.starts_with("git-viz — keys\n\n  Panes\n"));
    assert!(HELP.ends_with("any key closes messages"));
    assert_eq!(key(&mut app, 'q'), vec![]);
    assert!(matches!(app.mode, Mode::Normal));
    assert!(!app.should_quit);
}

#[test]
fn panes_are_reached_by_direction() {
    let mut app = open();
    assert!(app.focus == Focus::Status);
    // Down to the log: the diff pane follows.
    assert_eq!(key(&mut app, 'J'), vec![Asked::Diff("commit 0000002 — commit 2".to_string())]);
    assert!(app.focus == Focus::Log);
    // Right to the diff and back left.
    assert_eq!(press(&mut app, KeyCode::Right, SHIFT), vec![]);
    assert!(app.focus == Focus::Diff);
    press(&mut app, KeyCode::Char('h'), SHIFT);
    assert!(app.focus == Focus::Log);
    // Nothing below the log; up again.
    assert_eq!(press(&mut app, KeyCode::Down, SHIFT), vec![]);
    assert!(app.focus == Focus::Log);
    key(&mut app, 'K');
    assert!(app.focus == Focus::Status);
    // Lowercase letters without Shift are no directions.
    key(&mut app, 'l');
    assert!(app.focus == Focus::Status);
    // Tab cycles.
    press(&mut app, KeyCode::Tab, NONE);
    assert!(app.focus == Focus::Log);
    press(&mut app, KeyCode::BackTab, NONE);
    press(&mut app, KeyCode::BackTab, NONE);
    assert!(app.focus == Focus::Diff);
}

#[test]
fn the_diff_follows_the_selection() {
    let mut app = open();
    assert_eq!(app.diff.title, "staged.txt — staged");
    assert_eq!(key(&mut app, 'j'), vec![Asked::Diff("changed.txt — unstaged".to_string())]);
    press(&mut app, KeyCode::Down, NONE);
    assert_eq!(app.diff.title, "new.txt — untracked");
    // Saturates at the end.
    key(&mut app, 'j');
    assert_eq!(app.status_state.selected, Some(2));
    key(&mut app, 'g');
    assert_eq!(app.status_state.selected, Some(0));
    key(&mut app, 'G');
    assert_eq!(app.status_state.selected, Some(2));
    key(&mut app, 'k');
    assert!(matches!(
        &app.diff.source,
        DiffSource::File { path, staged: false, untracked: false } if path == "changed.txt"
    ));
}

#[test]
fn files_are_staged_and_unstaged() {
    let mut app = open();
    assert_eq!(key(&mut app, 's'), vec![]);
    assert_eq!(app.status_line, "Already staged — use u to unstage");
    let asked = key(&mut app, 'u');
    assert_eq!(asked[0], Asked::Unstage("staged.txt".to_string()));
    assert_eq!(asked[1], Asked::Commits);
    assert_eq!(app.status_line, "Unstaged staged.txt");

    key(&mut app, 'j');
    assert_eq!(key(&mut app, 'u'), vec![]);
    assert_eq!(app.status_line, "That change isn't staged");
    let asked = key(&mut app, 's');
    assert_eq!(asked[0], Asked::Stage("changed.txt".to_string(), false));
    assert_eq!(app.status_line, "Staged changed.txt");

    key(&mut app, 'J');
    assert_eq!(key(&mut app, 's'), vec![]);
    assert_eq!(app.status_line, "Staging acts on files — Shift+K to the Changes pane");
    assert_eq!(key(&mut app, 'u'), vec![]);
    assert_eq!(app.status_line, "Unstaging acts on files — Shift+K to the Changes pane");

    app.focus = Focus::Status;
    app.status.clear();
    assert_eq!(key(&mut app, 's'), vec![]);
    assert_eq!(app.status_line, "Nothing to stage");
    assert_eq!(key(&mut app, 'u'), vec![]);
    assert_eq!(app.status_line, "Nothing to unstage");
}

#[test]
fn everything_is_staged_in_turn() {
    let mut app = open();
    app.status[1].deleted = true;
    let asked = key(&mut app, 'a');
    assert_eq!(asked[0], Asked::Stage("changed.txt".to_string(), true));
    assert_eq!(asked[1], Asked::Stage("new.txt".to_string(), false));
    assert_eq!(asked[2], Asked::Commits);
    assert_eq!(app.status_line, "Staged all changes");

    // With nothing to stage the panels are reloaded all the same.
    app.status.truncate(1);
    assert_eq!(key(&mut app, 'a')[0], Asked::Commits);
}

#[test]
fn staging_stops_at_the_first_error() {
    let mut app = open();
    let step = handle_key(&mut app, KeyEvent::new(KeyCode::Char('a'), NONE));
    let Step::Stage { rest, msg, .. } = step else {
        panic!("stages");
    };
    assert_eq!(rest.len(), 1);
    let step = staged(&mut app, Err("locked".to_string()), rest, msg);
    assert!(matches!(step, Step::Done));
    assert!(matches!(&app.mode, Mode::Message(e) if e == "locked"));
}

#[test]
fn errors_pop_up() {
    let mut app = open();
    assert!(matches!(report(&mut app, Err("e1".into()), "msg".into()), Step::Done));
    assert!(matches!(&app.mode, Mode::Message(e) if e == "e1"));
    assert!(matches!(intended(&mut app, Err("e2".into()), "p".into(), "m".into()), Step::Done));
    assert!(matches!(&app.mode, Mode::Message(e) if e == "e2"));
    assert!(matches!(committed(&mut app, Err("e3".into())), Step::Done));
    assert!(matches!(&app.mode, Mode::Message(e) if e == "e3"));
    let rest: Vec<Change> = Vec::new();
    assert!(matches!(staged(&mut app, Err("e4".into()), rest, "m".into()), Step::Done));
    assert!(matches!(&app.mode, Mode::Message(e) if e == "e4"));
    let step = remote(Err("e5".into()));
    settle(&mut app, step);
    assert!(matches!(&app.mode, Mode::Message(e) if e == "e5"));
}

#[test]
fn messages_are_committed_trimmed() {
    let mut app = open();
    assert_eq!(key(&mut app, 'c'), vec![]);
    assert!(matches!(app.mode, Mode::Input { .. }));
    handle_paste(&mut app, "  \n subject\n\nbody\t \n");
    let asked = press(&mut app, KeyCode::Enter, NONE);
    assert_eq!(asked[0], Asked::Commit("subject\n\nbody".to_string()));
    assert!(matches!(app.mode, Mode::Normal));
    assert_eq!(app.status_line, "Committed abababa");
}

#[test]
fn blank_messages_are_refused() {
    let mut app = open();
    key(&mut app, 'c');
    handle_paste(&mut app, " \r\n\t");
    assert_eq!(press(&mut app, KeyCode::Enter, NONE), vec![]);
    assert!(matches!(app.mode, Mode::Normal));
    assert_eq!(app.status_line, "Aborted: empty commit message");
}

#[test]
fn nothing_staged_nothing_to_commit() {
    let mut app = open();
    app.status.remove(0);
    key(&mut app, 'c');
    assert!(matches!(app.mode, Mode::Normal));
    assert_eq!(app.status_line, "Nothing staged to commit — press s or a first");
}

#[test]
fn editing_keys() {
    let mut app = open();
    key(&mut app, 'c');
    let text = |app: &App| match &app.mode {
        Mode::Input { editor } => (editor.text(), editor.row, editor.col),
        _ => panic!("typing"),
    };
    handle_paste(&mut app, "one two\nthree");
    press(&mut app, KeyCode::Char('w'), CONTROL);
    assert_eq!(text(&app), ("one two\n".to_string(), 1, 0));
    press(&mut app, KeyCode::Backspace, NONE);
    assert_eq!(text(&app), ("one two".to_string(), 0, 7));
    press(&mut app, KeyCode::Char('a'), CONTROL);
    press(&mut app, KeyCode::Delete, NONE);
    assert_eq!(text(&app), ("ne two".to_string(), 0, 0));
    press(&mut app, KeyCode::Char('e'), CONTROL);
    press(&mut app, KeyCode::Left, NONE);
    press(&mut app, KeyCode::Char('u'), CONTROL);
    assert_eq!(text(&app), ("o".to_string(), 0, 0));
    press(&mut app, KeyCode::Right, NONE);
    press(&mut app, KeyCode::Enter, SHIFT);
    press(&mut app, KeyCode::Up, NONE);
    press(&mut app, KeyCode::Down, NONE);
    press(&mut app, KeyCode::Home, NONE);
    assert_eq!(text(&app), ("o\n".to_string(), 1, 0));
    // Letters with Ctrl or Alt are not typed, and other keys do nothing.
    press(&mut app, KeyCode::Char('x'), CONTROL);
    press(&mut app, KeyCode::Char('x'), ALT);
    press(&mut app, KeyCode::Tab, NONE);
    press(&mut app, KeyCode::Other, NONE);
    assert_eq!(text(&app), ("o\n".to_string(), 1, 0));
}

#[test]
fn pastes_are_cleaned() {
    let mut app = open();
    handle_paste(&mut app, "nowhere");
    assert!(matches!(app.mode, Mode::Normal));
    key(&mut app, 'c');
    handle_paste(&mut app, "a\rb\r\nc\n\td\u{7}e\u{1b}[0m");
    let Mode::Input { editor } = &app.mode else {
        panic!("typing");
    };
    assert_eq!(editor.text(), "a\nb\nc\n    de[0m");
    // In the middle of the text.
    press(&mut app, KeyCode::Home, NONE);
    handle_paste(&mut app, "\r\r\n!");
    let Mode::Input { editor } = &app.mode else {
        panic!("typing");
    };
    assert_eq!(editor.text(), "a\nb\nc\n\n\n!    de[0m");
}

fn in_diff() -> App {
    let mut app = open();
    key(&mut app, 'j');
    press(&mut app, KeyCode::Enter, NONE);
    assert!(app.focus == Focus::Diff);
    app
}

#[test]
fn the_diff_cursor_moves() {
    let mut app = in_diff();
    assert_eq!(app.diff.lines.len(), 6);
    key(&mut app, 'G');
    assert_eq!(app.diff.cursor(), 5);
    press(&mut app, KeyCode::Up, NONE);
    assert_eq!(app.diff.cursor(), 4);
    key(&mut app, 'g');
    assert_eq!(app.diff.cursor(), 0);
    // Half a page is at least one line.
    press(&mut app, KeyCode::Char('d'), CONTROL);
    assert_eq!(app.diff.cursor(), 1);
    app.diff.viewport = 7;
    press(&mut app, KeyCode::Char('d'), CONTROL);
    assert_eq!(app.diff.cursor(), 4);
    press(&mut app, KeyCode::Char('u'), CONTROL);
    assert_eq!(app.diff.cursor(), 1);
    key(&mut app, 'j');
    key(&mut app, 'k');
    assert_eq!(app.diff.cursor(), 1);
}

#[test]
fn highlights_start_and_stop() {
    let mut app = in_diff();
    key(&mut app, 'j');
    key(&mut app, ' ');
    assert_eq!(app.diff.selection(), Some((1, 1)));
    assert_eq!(
        app.status_line,
        "Highlighting — j/k extend · s stage · u unstage · Space/Esc cancel"
    );
    key(&mut app, 'k');
    assert_eq!(app.diff.selection(), Some((0, 1)));
    key(&mut app, ' ');
    assert_eq!(app.diff.selection(), None);
    assert_eq!(app.status_line, "Highlight cleared");
    app.status_line.clear();
    press(&mut app, KeyCode::Esc, NONE);
    assert_eq!(app.status_line, "");
    key(&mut app, ' ');
    press(&mut app, KeyCode::Esc, NONE);
    assert_eq!(app.status_line, "Highlight cleared");
    app.diff.lines.truncate(4);
    key(&mut app, ' ');
    assert_eq!(app.diff.anchor, None);
    assert_eq!(app.status_line, "Nothing to highlight in this diff");
}

#[test]
fn lines_are_staged_from_the_diff() {
    let mut app = in_diff();
    assert_eq!(key(&mut app, 's'), vec![]);
    assert_eq!(app.status_line, "Highlight lines with Shift+Space or move into a hunk first");
    key(&mut app, 'G');
    key(&mut app, ' ');
    let asked = key(&mut app, 's');
    assert_eq!(
        asked[0],
        Asked::Apply("--- a/f\n+++ b/f\n@@ -1,2 +1,3 @@\n a\n b\n+B\n".to_string(), false)
    );
    assert_eq!(app.status_line, "Staged 1 line(s) of changed.txt");
    // The document was shown again: the cursor stays, the highlight is gone.
    assert_eq!(app.diff.cursor(), 5);
    assert_eq!(app.diff.anchor, None);

    // Without a highlight the hunk under the cursor is staged.
    let asked = key(&mut app, 's');
    assert_eq!(
        asked[0],
        Asked::Apply("--- a/f\n+++ b/f\n@@ -1,2 +1,2 @@\n a\n-b\n+B\n".to_string(), false)
    );
    assert_eq!(app.status_line, "Staged 2 line(s) of changed.txt");

    // A highlight without changes.
    key(&mut app, 'g');
    key(&mut app, ' ');
    assert_eq!(key(&mut app, 's'), vec![]);
    assert_eq!(app.status_line, "No +/− lines in the highlight");

    // Unstaging works on the staged side only.
    assert_eq!(key(&mut app, 'u'), vec![]);
    assert_eq!(app.status_line, "These lines aren't staged yet — s stages them");
}

#[test]
fn lines_are_unstaged_from_the_diff() {
    let mut app = open();
    press(&mut app, KeyCode::Enter, NONE);
    assert_eq!(key(&mut app, 's'), vec![]);
    assert_eq!(app.status_line, "These lines are already staged — u unstages them");
    assert_eq!(key(&mut app, 'u'), vec![]);
    assert_eq!(app.status_line, "Highlight lines with Shift+Space or move into a hunk first");
    key(&mut app, 'G');
    key(&mut app, ' ');
    let asked = key(&mut app, 'u');
    assert_eq!(
        asked[0],
        Asked::Apply("--- a/f\n+++ b/f\n@@ -1,1 +1,2 @@\n a\n+B\n".to_string(), true)
    );
    assert_eq!(app.status_line, "Unstaged 1 line(s) of staged.txt");
}

#[test]
fn untracked_files_get_an_index_entry_first() {
    let mut app = open();
    key(&mut app, 'G');
    press(&mut app, KeyCode::Enter, NONE);
    key(&mut app, 'G');
    let asked = key(&mut app, 's');
    assert_eq!(asked[0], Asked::Intent("new.txt".to_string()));
    assert!(matches!(&asked[1], Asked::Apply(_, false)));
    assert_eq!(app.status_line, "Staged 2 line(s) of new.txt");
}

fn whole(kind: &str) -> Vec<DiffLine> {
    let chunk = |origin: char, text: &str| DiffChunk { origin, content: text.as_bytes().to_vec() };
    collect_diff(&vec![
        chunk('F', &format!("{kind} file mode 100644\n")),
        chunk('H', "@@ -1,2 +0,0 @@\n"),
        chunk('-', "a\n"),
        chunk('-', "b\n"),
    ])
}

#[test]
fn whole_files_are_not_split() {
    let mut app = in_diff();
    app.diff.lines = whole("deleted");
    key(&mut app, 'G');
    key(&mut app, ' ');
    assert_eq!(key(&mut app, 's'), vec![]);
    assert_eq!(
        app.status_line,
        "Deleted files stage as a whole — press s on the file in Changes"
    );
    // All of it is fine.
    key(&mut app, 'k');
    assert!(matches!(&key(&mut app, 's')[0], Asked::Apply(_, false)));

    let mut app = open();
    press(&mut app, KeyCode::Enter, NONE);
    app.diff.lines = whole("new");
    key(&mut app, 'G');
    key(&mut app, ' ');
    assert_eq!(key(&mut app, 'u'), vec![]);
    assert_eq!(
        app.status_line,
        "New/deleted files unstage as a whole — press u on the file in Changes"
    );
}

#[test]
fn commits_have_no_lines_to_stage() {
    let mut app = open();
    key(&mut app, 'J');
    press(&mut app, KeyCode::Enter, NONE);
    assert_eq!(key(&mut app, 's'), vec![]);
    assert_eq!(app.status_line, "Staging works on file diffs — pick a file in Changes");
    assert_eq!(key(&mut app, 'u'), vec![]);
    assert_eq!(app.status_line, "Unstaging works on file diffs — pick a staged file in Changes");
}

#[test]
fn remotes_show_their_output() {
    let mut app = open();
    let asked = key(&mut app, 'p');
    assert_eq!(asked[0], Asked::Run(vec!["push".to_string()]));
    assert_eq!(asked[1], Asked::Commits);
    assert!(matches!(&app.mode, Mode::Message(out) if out == "output"));
    app.mode = Mode::Normal;
    assert_eq!(key(&mut app, 'P')[0], Asked::Run(vec!["pull".to_string()]));
    app.mode = Mode::Normal;
    assert_eq!(
        key(&mut app, 'f')[0],
        Asked::Run(vec!["fetch".to_string(), "--all".to_string()])
    );
}

#[test]
fn refreshing_reloads_and_says_so() {
    let mut app = open();
    let asked = key(&mut app, 'r');
    assert_eq!(asked.iter().filter(|a| **a == Asked::Commits).count(), 2);
    assert_eq!(app.status_line, "Refreshed");
}

#[test]
fn keys_keep_the_cursors_fitting() {
    let mut app = open();
    let keys = "jjkGgJlKHjLsua dGk gG?x";
    for c in keys.chars() {
        key(&mut app, c);
        assert!(app.log_state.selected.unwrap() < app.commits.len());
        assert!(app.status_state.selected.unwrap() < app.status.len());
        assert!(app.diff.cursor() < app.diff.lines.len());
    }
}

use git_viz::app::{
    clamp, move_in, After, App, Dir, DiffSource, DiffView, Editor, Focus, ListState, Mode, Step,
};
use git_viz::git::{CommitInfo, Section, StatusEntry};
use git_viz::oid::Oid;
use git_viz::patch::DiffLine;

fn at(offset: usize, selected: Option<usize>) -> ListState {
    ListState { offset, selected }
}

fn entry(path: &str) -> StatusEntry {
    StatusEntry {
        path: path.to_string(),
        section: Section::Unstaged,
        deleted: false,
        code: "M".to_string(),
    }
}

fn a_commit(n: u8) -> CommitInfo {
    CommitInfo {
        short_id: "1234567".to_string(),
        summary: "subject".to_string(),
        author: "A".to_string(),
        graph: "● ".to_string(),
        oid: Oid { bytes: [n; 20] },
        refs: Vec::new(),
    }
}

fn lines(n: usize) -> Vec<DiffLine> {
    (0..n).map(|i| DiffLine::info(&format!("line {i}"))).collect()
}

#[test]
fn focus_cycles_both_ways() {
    for f in [Focus::Status, Focus::Log, Focus::Diff] {
        assert!(f.next().prev() == f);
        assert!(f.prev().next() == f);
        assert!(f.next().next().next() == f);
    }
    assert!(Focus::Status.next() == Focus::Log);
    assert!(Focus::Status.prev() == Focus::Diff);
}

#[test]
fn selections_are_clamped() {
    let clamped = |mut s: ListState, len: usize| {
        clamp(&mut s, len);
        (s.offset, s.selected)
    };
    assert_eq!(clamped(at(3, Some(5)), 0), (0, None));
    assert_eq!(clamped(at(3, Some(5)), 4), (3, Some(3)));
    assert_eq!(clamped(at(3, Some(3)), 4), (3, Some(3)));
    assert_eq!(clamped(at(3, None), 4), (3, Some(0)));
}

#[test]
fn moves_saturate_at_both_ends() {
    let moved = |mut s: ListState, len: usize, delta: i32| {
        move_in(&mut s, len, delta);
        s.selected
    };
    assert_eq!(moved(at(0, Some(2)), 5, 1), Some(3));
    assert_eq!(moved(at(0, Some(2)), 5, 100), Some(4));
    assert_eq!(moved(at(0, Some(2)), 5, -100), Some(0));
    assert_eq!(moved(at(0, None), 5, 1), Some(1));
    assert_eq!(moved(at(0, Some(2)), 0, 1), Some(2));
    assert_eq!(moved(at(0, Some(usize::MAX)), 5, i32::MAX), Some(4));
    assert_eq!(moved(at(0, Some(0)), 5, i32::MIN), Some(0));
    // Steps in one direction add up.
    assert_eq!(moved(at(0, moved(at(0, Some(1)), 5, 2)), 5, 9), moved(at(0, Some(1)), 5, 11));
}

#[test]
fn selecting_nothing_goes_back_to_the_top() {
    let mut s = at(7, Some(9));
    s.select(Some(8));
    assert_eq!((s.offset, s.selected), (7, Some(8)));
    s.select(None);
    assert_eq!((s.offset, s.selected), (0, None));
}

#[test]
fn an_empty_pane_says_so() {
    let pane = DiffView::empty();
    assert_eq!(pane.title, "Diff");
    assert_eq!(pane.lines[0].text, "(nothing selected)");
    assert_eq!(pane.cursor(), 0);
    assert_eq!(pane.selection(), None);
}

#[test]
fn highlights_span_anchor_and_cursor() {
    let mut pane = DiffView::empty();
    pane.lines = lines(9);
    pane.move_cursor(4);
    pane.anchor = Some(2);
    assert_eq!(pane.selection(), Some((2, 4)));
    pane.anchor = Some(7);
    assert_eq!(pane.selection(), Some((4, 7)));
    pane.jump(true);
    assert_eq!(pane.selection(), Some((7, 8)));
    pane.jump(false);
    assert_eq!(pane.selection(), Some((0, 7)));
}

#[test]
fn starting_loads_every_panel() {
    let (mut app, step) = App::load();
    assert_eq!(app.status_line, "Welcome to git-viz — press ? for help");
    let Step::LoadCommits(after) = step else { panic!("commits") };
    let Step::LoadStatus(after) = app.commits_loaded(Ok(vec![a_commit(1)]), after) else {
        panic!("status")
    };
    let Step::LoadHead(after) = app.status_loaded(Ok(vec![entry("a"), entry("b")]), after) else {
        panic!("head")
    };
    let Step::LoadDiff { source, title, after } = app.head_loaded(None, after) else {
        panic!("diff")
    };
    assert!(matches!(
        &source,
        DiffSource::File { path, staged: false, untracked: false } if path == "a"
    ));
    assert_eq!(title, "a — unstaged");
    let step = app.diff_loaded(source, title, Ok(lines(3)), after);
    assert!(matches!(step, Step::Done));
    assert_eq!(app.log_state.selected, Some(0));
    assert_eq!(app.status_state.selected, Some(0));
    assert_eq!(app.diff.lines.len(), 3);
}

#[test]
fn starting_fails_with_the_first_error() {
    let (mut app, step) = App::load();
    let Step::LoadCommits(after) = step else { panic!("commits") };
    let step = app.commits_loaded(Err("broken".to_string()), after);
    assert!(matches!(step, Step::Failed(e) if e == "broken"));
    let step = app.status_loaded(Err("worse".to_string()), After::Start);
    assert!(matches!(step, Step::Failed(e) if e == "worse"));
}

#[test]
fn a_clean_repository_selects_nothing() {
    let (mut app, _) = App::load();
    let step = app.head_loaded(None, After::Start);
    assert!(matches!(step, Step::Done));
    assert!(matches!(app.diff.source, DiffSource::Nothing));
    assert_eq!(app.diff.lines[0].text, "(nothing selected — pick a file or commit)");
    assert_eq!(app.log_state.selected, None);
}

#[test]
fn errors_of_a_reload_go_where_they_belong() {
    let (mut app, _) = App::load();
    // Asked for: shown.
    let step = app.status_loaded(Err("oops".to_string()), After::Refreshed);
    assert!(matches!(step, Step::Done));
    assert!(matches!(&app.mode, Mode::Message(e) if e == "oops"));
    // After an operation: what the operation has to say is shown anyway.
    app.mode = Mode::Normal;
    let step = app.commits_loaded(Err("oops".to_string()), After::Notify("Staged f".to_string()));
    assert!(matches!(step, Step::Done));
    assert_eq!(app.status_line, "Staged f");
    assert!(matches!(app.mode, Mode::Normal));
    let step = app.commits_loaded(Err("oops".to_string()), After::Popup("output".to_string()));
    assert!(matches!(step, Step::Done));
    assert!(matches!(&app.mode, Mode::Message(e) if e == "output"));
}

#[test]
fn an_error_is_shown_in_place_of_a_document() {
    let (mut app, _) = App::load();
    let step = app.diff_loaded(
        DiffSource::Commit(Oid { bytes: [1; 20] }),
        "title".to_string(),
        Err("no such object".to_string()),
        After::Rest,
    );
    assert!(matches!(step, Step::Done));
    assert_eq!(app.diff.lines.len(), 1);
    assert_eq!(app.diff.lines[0].text, "no such object");
}

#[test]
fn a_document_shown_again_keeps_the_cursor() {
    let source = |path: &str| DiffSource::File {
        path: path.to_string(),
        staged: false,
        untracked: false,
    };
    let (mut app, _) = App::load();
    app.diff_loaded(source("f"), "f".to_string(), Ok(lines(9)), After::Rest);
    app.diff.jump(true);
    app.diff.anchor = Some(3);
    app.diff.state.offset = 5;
    // Shorter now: the cursor goes to its end, the highlight ends.
    app.diff_loaded(source("f"), "f".to_string(), Ok(lines(4)), After::Rest);
    assert_eq!(app.diff.cursor(), 3);
    assert_eq!(app.diff.anchor, None);
    assert_eq!(app.diff.state.offset, 5);
    // Another document starts at its top.
    app.diff_loaded(source("g"), "g".to_string(), Ok(lines(9)), After::Rest);
    assert_eq!((app.diff.state.offset, app.diff.state.selected), (0, Some(0)));
    assert!(!source("f").same(&source("g")));
    assert!(source("f").same(&source("f")));
    assert!(!source("f").same(&DiffSource::Nothing));
    let staged = DiffSource::File { path: "f".to_string(), staged: true, untracked: false };
    assert!(!source("f").same(&staged));
}

#[test]
fn commits_are_targets_of_the_log() {
    let (mut app, _) = App::load();
    app.commits = vec![a_commit(1), a_commit(2)];
    app.log_state.select(Some(1));
    let Step::LoadDiff { source, title, .. } = app.set_focus(Focus::Log) else {
        panic!("diff")
    };
    assert!(matches!(&source, DiffSource::Commit(o) if o.same(&Oid { bytes: [2; 20] })));
    assert_eq!(title, "commit 1234567 — subject");
    assert!(app.selected_commit().is_some());
    assert!(app.selected_status().is_none());
    // The same pane again: nothing to do.
    assert!(matches!(app.set_focus(Focus::Log), Step::Done));
    assert!(matches!(app.move_selection(-5), Step::LoadDiff { .. }));
    assert_eq!(app.log_state.selected, Some(0));
    assert!(matches!(app.jump_selection(true), Step::LoadDiff { .. }));
    assert_eq!(app.log_state.selected, Some(1));
}

#[test]
fn left_undoes_right() {
    let (mut app, _) = App::load();
    assert!(matches!(app.focus_dir(Dir::Right), Step::Done));
    assert!(app.focus == Focus::Diff);
    assert!(matches!(app.focus_dir(Dir::Left), Step::Done));
    assert!(app.focus == Focus::Status);
    assert!(matches!(app.focus_dir(Dir::Up), Step::Done));
    assert!(app.focus == Focus::Status);
}

#[test]
fn a_cursor_outside_the_message_is_noticed() {
    let (mut app, _) = App::load();
    assert!(app.is_wf());
    let mut at = |row: usize, col: usize| {
        let lines = vec!["hé".to_string(), String::new()];
        app.mode = Mode::Input { editor: Editor { lines, row, col } };
        app.is_wf()
    };
    assert!(at(0, 2));
    assert!(!at(0, 3));
    assert!(at(1, 0));
    assert!(!at(1, 1));
    assert!(!at(2, 0));
}

//! Key handling. Dispatches by mode first, then (in Normal mode) by focused pane.
//! Every operation that can fail is funneled through `report`, which turns an
//! error into a dismissible message popup.

use vstd::prelude::*;

use crate::app::{After, App, Change, Dir, DiffSource, Editor, Focus, Mode, Step};
#[allow(unused_imports)]
use crate::app::{
    change_views, cursors_fit, follows, in_step, moving_keeps_the_cursors_fitting, the_diff_pane_follows, jumped, moved, next_focus, prev_focus, range, steps_left, AfterView, AppView, ChangeView, ModeView,
    PaneView, SourceView, StepView,
};
#[allow(unused_imports)]
use crate::editor::{
    insert_changes_the_text_at_the_cursor, newline_changes_the_text_at_the_cursor,
    the_cursor_has_an_offset, the_cursor_stays_in_the_text, EditorView,
};
use crate::git::{count_section, fetch, pull, push, Section, StatusEntry};
#[allow(unused_imports)]
use crate::git::{count_in, entries, outcome, EntryView};
use crate::oid::Oid;
#[allow(unused_imports)]
use crate::oid::{short, Id};
#[allow(unused_imports)]
use crate::outside::hex;
use crate::patch::{change_count, hunk_at, partial_patch, whole_file, WholeFile};
#[allow(unused_imports)]
use crate::patch::{
    a_patch_is_made_line_by_line, among, changes, changes_are_added_and_deleted_lines,
    first_announced, hunk_span, hunk_span_encloses, no_hunk_is_found_only_outside_hunks, one_hunk,
    part, past_a_header, patch_of, pick, reached, taken, the_hunk_found_is_the_one_around,
    unreadable_from, whole_file_from, whole_files_are_announced, LineKind, LineView, Pick,
};
use crate::text::{chars_of, copy_of, is_control, to_decimal, trimmed};
#[allow(unused_imports)]
use crate::text::{
    concat, control, decimal, trim, trim_is_empty_iff_all_white, trimming_twice_is_trimming_once,
    white,
};

verus! {

// ---------------------------------------------------------------------------
// Keys
// ---------------------------------------------------------------------------

/// A key.
#[derive(Clone, Copy, PartialEq, Eq, Structural)]
pub enum KeyCode {
    Char(char),
    Enter,
    Esc,
    Tab,
    BackTab,
    Backspace,
    Delete,
    Left,
    Right,
    Up,
    Down,
    Home,
    End,
    /// A key without a meaning here.
    Other,
}

/// The modifiers that are held down with a key.
#[derive(Clone, Copy, PartialEq, Eq, Structural)]
pub struct KeyModifiers {
    pub control: bool,
    pub alt: bool,
    pub shift: bool,
}

impl KeyModifiers {
    /// No modifier.
    pub fn none() -> (r: KeyModifiers)
        ensures
            r == (KeyModifiers { control: false, alt: false, shift: false }),
    {
        KeyModifiers { control: false, alt: false, shift: false }
    }
}

/// Whether a key went down, is held down, or came up.
#[derive(Clone, Copy, PartialEq, Eq, Structural)]
pub enum KeyEventKind {
    Press,
    Repeat,
    Release,
}

/// Something that happened to a key.
#[derive(Clone, Copy, PartialEq, Eq, Structural)]
pub struct KeyEvent {
    pub code: KeyCode,
    pub modifiers: KeyModifiers,
    pub kind: KeyEventKind,
}

impl KeyEvent {
    /// A key that went down.
    pub fn new(code: KeyCode, modifiers: KeyModifiers) -> (r: KeyEvent)
        ensures
            r == (KeyEvent { code, modifiers, kind: KeyEventKind::Press }),
    {
        KeyEvent { code, modifiers, kind: KeyEventKind::Press }
    }
}

/// The text of the help popup.
pub const HELP: &'static str = "\
git-viz — keys

  Panes
    Shift+H/J/K/L     move between panes (vim directions)
    Tab / Shift+Tab   cycle panes
    j / k  (↓ / ↑)    move selection / cursor
    g / G             jump to top / bottom
    Enter             jump to the diff pane
    r refresh   ·   q / Ctrl+C quit   ·   ? this help
                      (Ctrl+C works from anywhere and discards
                       any in-progress input)

  Changes pane
    s / u             stage / unstage the selected file
    a                 stage all
    c                 commit staged changes

  Commit message
    Enter             commit
    Ctrl+N            insert a newline (subject + body); Alt+Enter too
    arrows/Home/End   move the cursor  (Ctrl+A / Ctrl+E = line ends)
    Ctrl+W / Ctrl+U   delete word / to start of line
    Esc               cancel

  Diff pane  (follows the selected file or commit)
    Shift+Space       start/stop highlighting lines (plain Space works too)
    j / k             extend the highlight / move the cursor
    Ctrl+d / Ctrl+u   half-page down / up
    s                 stage highlighted lines (no highlight: hunk under cursor)
    u                 unstage highlighted lines (no highlight: hunk under cursor)
    Esc               clear the highlight

  Sync
    p / P / f         push / pull / fetch

  Popups
    Esc               cancel   ·   any key closes messages";

// ---------------------------------------------------------------------------
// Shared helpers
// ---------------------------------------------------------------------------

/// What follows an operation: after a success the panels are reloaded and
/// `msg` is shown; the error of a failure pops up.
pub open spec fn reported(app: AppView, res: Result<(), Seq<char>>, msg: Seq<char>) -> (
    AppView,
    StepView,
) {
    match res {
        Ok(_) => (app, StepView::LoadCommits(AfterView::Notify(msg))),
        Err(e) => (app.popped_up(e), StepView::Done),
    }
}

/// Go on after an operation: on success, refresh panels and set the status
/// line; on failure, pop up the error.
pub fn report(app: &mut App, res: Result<(), String>, msg: String) -> (r: Step)
    ensures
        (final(app)@, r@) == reported(old(app)@, outcome(res), msg@),
{
    match res {
        Ok(()) => App::refresh(After::Notify(msg)),
        Err(e) => {
            app.pop_up(e);
            Step::Done
        },
    }
}

/// The text of a result, of either kind.
pub open spec fn either_text(res: Result<String, String>) -> Seq<char> {
    match res {
        Ok(out) => out@,
        Err(e) => e@,
    }
}

/// Remote operations always show their (multi-line) output in a message popup,
/// once the panels have been reloaded.
pub fn remote(res: Result<String, String>) -> (r: Step)
    ensures
        r@ == StepView::LoadCommits(AfterView::Popup(either_text(res))),
{
    match res {
        Ok(out) => App::refresh(After::Popup(out)),
        Err(e) => App::refresh(After::Popup(e)),
    }
}

/// What follows a path that was staged: the next one, or the report.
pub open spec fn staged_next(
    app: AppView,
    res: Result<(), Seq<char>>,
    rest: Seq<ChangeView>,
    msg: Seq<char>,
) -> (AppView, StepView) {
    if res is Ok && rest.len() > 0 {
        (app, StepView::Stage { change: rest[0], rest: rest.skip(1), msg })
    } else {
        reported(app, res, msg)
    }
}

/// Go on after a path was staged: with the next one, up to the first error.
pub fn staged(
    app: &mut App,
    res: Result<(), String>,
    rest: Vec<Change>,
    msg: String,
) -> (r: Step)
    ensures
        (final(app)@, r@) == staged_next(old(app)@, outcome(res), change_views(rest@), msg@),
{
    if res.is_ok() && rest.len() > 0 {
        let mut rest = rest;
        let ghost was = change_views(rest@);
        let change = rest.remove(0);
        assert(change_views(rest@) =~= was.skip(1));
        Step::Stage { change, rest, msg }
    } else {
        report(app, res, msg)
    }
}

/// What follows once a path has an index entry: its patch is applied.
pub open spec fn intended_next(
    app: AppView,
    res: Result<(), Seq<char>>,
    patch: Seq<char>,
    msg: Seq<char>,
) -> (AppView, StepView) {
    match res {
        Ok(_) => (app, StepView::Apply { patch, reverse: false, msg }),
        Err(e) => (app.popped_up(e), StepView::Done),
    }
}

/// Go on once a path has an index entry.
pub fn intended(app: &mut App, res: Result<(), String>, patch: String, msg: String) -> (r: Step)
    ensures
        (final(app)@, r@) == intended_next(old(app)@, outcome(res), patch@, msg@),
{
    match res {
        Ok(()) => Step::Apply { patch, reverse: false, msg },
        Err(e) => {
            app.pop_up(e);
            Step::Done
        },
    }
}

/// What follows a commit.
pub open spec fn committed_next(app: AppView, res: Result<Id, Seq<char>>) -> (AppView, StepView) {
    match res {
        Ok(id) => reported(app, Ok(()), "Committed "@ + short(id)),
        Err(e) => reported(app, Err(e), Seq::empty()),
    }
}

/// The result of a commit, with what it holds.
pub open spec fn commit_result(r: Result<Oid, String>) -> Result<Id, Seq<char>> {
    match r {
        Ok(oid) => Ok(oid@),
        Err(e) => Err(e@),
    }
}

/// Go on after a commit.
pub fn committed(app: &mut App, res: Result<Oid, String>) -> (r: Step)
    ensures
        (final(app)@, r@) == committed_next(old(app)@, commit_result(res)),
{
    match res {
        Ok(oid) => {
            let mut msg = copy_of("Committed ");
            msg.append(oid.short_hex().as_str());
            report(app, Ok(()), msg)
        },
        Err(e) => report(app, Err(e), String::new()),
    }
}

// ---------------------------------------------------------------------------
// Changes / Log panes
// ---------------------------------------------------------------------------

/// A popup for a commit message, if there is anything to commit.
pub open spec fn commit_opened(app: AppView) -> AppView {
    if count_in(app.status, Section::Staged) == 0 {
        app.notified("Nothing staged to commit — press s or a first"@)
    } else {
        AppView { mode: ModeView::Input { editor: EditorView::blank() }, ..app }
    }
}

fn open_commit(app: &mut App)
    ensures
        final(app)@ == commit_opened(old(app)@),
        old(app).wf() ==> final(app).wf(),
{
    if count_section(&app.status, Section::Staged) == 0 {
        app.notify("Nothing staged to commit — press s or a first");
        return;
    }
    app.mode = Mode::Input { editor: Editor::new() };
}

/// The selected change staged, unless it is.
pub open spec fn selected_staged(app: AppView) -> (AppView, StepView) {
    match app.selected_status() {
        Some(e) => if e.section == Section::Staged {
            (app.notified("Already staged — use u to unstage"@), StepView::Done)
        } else {
            (
                app,
                StepView::Stage {
                    change: ChangeView { path: e.path, deleted: e.deleted },
                    rest: Seq::empty(),
                    msg: "Staged "@ + e.path,
                },
            )
        },
        None => (app.notified("Nothing to stage"@), StepView::Done),
    }
}

fn stage_selected(app: &mut App) -> (r: Step)
    ensures
        (final(app)@, r@) == selected_staged(old(app)@),
{
    let found = match app.selected_status() {
        Some(e) => Some((copy_of(e.path.as_str()), e.section, e.deleted)),
        None => None,
    };
    match found {
        Some((path, section, deleted)) => {
            if section == Section::Staged {
                app.notify("Already staged — use u to unstage");
                return Step::Done;
            }
            let mut msg = copy_of("Staged ");
            msg.append(path.as_str());
            let rest: Vec<Change> = Vec::new();
            assert(change_views(rest@) =~= Seq::empty());
            Step::Stage { change: Change { path, deleted }, rest, msg }
        },
        None => {
            app.notify("Nothing to stage");
            Step::Done
        },
    }
}

/// The selected change unstaged, if it is staged.
pub open spec fn selected_unstaged(app: AppView) -> (AppView, StepView) {
    match app.selected_status() {
        Some(e) => if e.section == Section::Staged {
            (app, StepView::Unstage { path: e.path, msg: "Unstaged "@ + e.path })
        } else {
            (app.notified("That change isn't staged"@), StepView::Done)
        },
        None => (app.notified("Nothing to unstage"@), StepView::Done),
    }
}

fn unstage_selected(app: &mut App) -> (r: Step)
    ensures
        (final(app)@, r@) == selected_unstaged(old(app)@),
{
    let found = match app.selected_status() {
        Some(e) => Some((copy_of(e.path.as_str()), e.section)),
        None => None,
    };
    match found {
        Some((path, section)) => {
            if section == Section::Staged {
                let mut msg = copy_of("Unstaged ");
                msg.append(path.as_str());
                Step::Unstage { path, msg }
            } else {
                app.notify("That change isn't staged");
                Step::Done
            }
        },
        None => {
            app.notify("Nothing to unstage");
            Step::Done
        },
    }
}

/// The changes of the panel that are not staged, in its order.
pub open spec fn pending(status: Seq<EntryView>) -> Seq<ChangeView>
    decreases status.len(),
{
    if status.len() == 0 {
        Seq::empty()
    } else {
        let before = pending(status.drop_last());
        let e = status.last();
        if e.section == Section::Staged {
            before
        } else {
            before.push(ChangeView { path: e.path, deleted: e.deleted })
        }
    }
}

/// Every change that is not staged is staged, one after the other.
pub open spec fn all_staged(app: AppView) -> (AppView, StepView) {
    staged_next(app, Ok(()), pending(app.status), "Staged all changes"@)
}

fn work_list(status: &Vec<StatusEntry>) -> (r: Vec<Change>)
    ensures
        change_views(r@) == pending(entries(status@)),
{
    let ghost all = entries(status@);
    let mut out: Vec<Change> = Vec::new();
    let mut i: usize = 0;
    assert(all.take(0) =~= Seq::empty());
    assert(change_views(out@) =~= Seq::empty());
    while i < status.len()
        invariant
            i <= status@.len(),
            all == entries(status@),
            change_views(out@) == pending(all.take(i as int)),
        decreases status.len() - i,
    {
        let ghost was = out@;
        assert(all.take(i + 1).drop_last() =~= all.take(i as int));
        assert(all[i as int] == status@[i as int]@);
        let e = &status[i];
        if e.section != Section::Staged {
            out.push(Change { path: copy_of(e.path.as_str()), deleted: e.deleted });
            assert(change_views(out@) =~= change_views(was).push(out@.last()@));
        }
        i += 1;
    }
    assert(all.take(i as int) =~= all);
    out
}

/// Stage every changed path currently shown in the status panel.
fn stage_all(app: &mut App) -> (r: Step)
    ensures
        (final(app)@, r@) == all_staged(old(app)@),
{
    let changes = work_list(&app.status);
    staged(app, Ok(()), changes, copy_of("Staged all changes"))
}

/// A key in one of the left panes.
pub open spec fn list_key(app: AppView, key: KeyEvent) -> (AppView, StepView) {
    if key.code == KeyCode::Char('j') || key.code == KeyCode::Down {
        app.moved(1)
    } else if key.code == KeyCode::Char('k') || key.code == KeyCode::Up {
        app.moved(-1)
    } else if key.code == KeyCode::Char('g') {
        app.jumped(false)
    } else if key.code == KeyCode::Char('G') {
        app.jumped(true)
    } else if key.code == KeyCode::Enter || key.code == KeyCode::Char('d') {
        app.focused(Focus::Diff)
    } else if key.code == KeyCode::Char('s') {
        if app.focus == Focus::Status {
            selected_staged(app)
        } else {
            (
                app.notified("Staging acts on files — Shift+K to the Changes pane"@),
                StepView::Done,
            )
        }
    } else if key.code == KeyCode::Char('u') {
        if app.focus == Focus::Status {
            selected_unstaged(app)
        } else {
            (
                app.notified("Unstaging acts on files — Shift+K to the Changes pane"@),
                StepView::Done,
            )
        }
    } else if key.code == KeyCode::Char('a') {
        all_staged(app)
    } else {
        (app, StepView::Done)
    }
}

fn list_keys(app: &mut App, key: KeyEvent) -> (r: Step)
    ensures
        (final(app)@, r@) == list_key(old(app)@, key),
{
    match key.code {
        KeyCode::Char('j') | KeyCode::Down => app.move_selection(1),
        KeyCode::Char('k') | KeyCode::Up => app.move_selection(-1),
        KeyCode::Char('g') => app.jump_selection(false),
        KeyCode::Char('G') => app.jump_selection(true),
        KeyCode::Enter | KeyCode::Char('d') => app.set_focus(Focus::Diff),
        KeyCode::Char('s') => {
            if app.focus == Focus::Status {
                stage_selected(app)
            } else {
                app.notify("Staging acts on files — Shift+K to the Changes pane");
                Step::Done
            }
        },
        KeyCode::Char('u') => {
            if app.focus == Focus::Status {
                unstage_selected(app)
            } else {
                app.notify("Unstaging acts on files — Shift+K to the Changes pane");
                Step::Done
            }
        },
        KeyCode::Char('a') => stage_all(app),
        _ => Step::Done,
    }
}

// ---------------------------------------------------------------------------
// Diff pane: cursor, highlight, line-level stage/unstage
// ---------------------------------------------------------------------------

/// The diff pane changed.
pub open spec fn with_pane(app: AppView, diff: PaneView) -> AppView {
    AppView { diff, ..app }
}

/// The highlight started at the cursor, or ended.
pub open spec fn anchor_toggled(app: AppView) -> AppView {
    if app.diff.anchor is Some {
        with_pane(app, PaneView { anchor: None, ..app.diff }).notified("Highlight cleared"@)
    } else if changes(app.diff.lines) == 0 {
        app.notified("Nothing to highlight in this diff"@)
    } else {
        with_pane(
            app,
            PaneView { anchor: Some(app.diff.cursor() as usize), ..app.diff },
        ).notified("Highlighting — j/k extend · s stage · u unstage · Space/Esc cancel"@)
    }
}

fn toggle_anchor(app: &mut App)
    ensures
        final(app)@ == anchor_toggled(old(app)@),
{
    if app.diff.anchor.is_some() {
        app.diff.anchor = None;
        app.notify("Highlight cleared");
        return;
    }
    if change_count(app.diff.lines.as_slice()) == 0 {
        app.notify("Nothing to highlight in this diff");
        return;
    }
    app.diff.anchor = Some(app.diff.cursor());
    app.notify("Highlighting — j/k extend · s stage · u unstage · Space/Esc cancel");
}

/// The lines that an s/u press acts on: the active highlight, or failing that
/// the hunk under the cursor.
pub open spec fn acted_on(p: PaneView) -> Option<(int, int)> {
    match p.selection() {
        Some(r) => Some(r),
        None => hunk_span(p.lines, p.cursor()),
    }
}

fn active_range(app: &App) -> (r: Option<(usize, usize)>)
    ensures
        range(r) == acted_on(app@.diff),
{
    match app.diff.selection() {
        Some(r) => Some(r),
        None => hunk_at(app.diff.lines.as_slice(), app.diff.cursor()),
    }
}

/// The patch for the lines that an s/u press acts on, and how many changes it
/// holds; or why there is none.
pub open spec fn acted_patch(p: PaneView, unstage: bool) -> Result<
    (Seq<char>, nat),
    Seq<char>,
> {
    match acted_on(p) {
        None => Err("Highlight lines with Shift+Space or move into a hunk first"@),
        Some((lo, hi)) => match patch_of(p.lines, Pick { lo, hi, unstage }) {
            None => Err("No +/− lines in the highlight"@),
            Some(r) => Ok(r),
        },
    }
}

/// The lines acted on staged, if they can be.
pub open spec fn lines_staged(app: AppView) -> (AppView, StepView) {
    match app.diff.source {
        SourceView::File { path, staged, untracked } => if staged {
            (
                app.notified("These lines are already staged — u unstages them"@),
                StepView::Done,
            )
        } else {
            match acted_patch(app.diff, false) {
                Err(why) => (app.notified(why), StepView::Done),
                Ok((patch, kept)) => if kept < changes(app.diff.lines) && !untracked
                    && whole_file_from(app.diff.lines, 0) == Some(WholeFile::Deleted) {
                    (
                        app.notified(
                            "Deleted files stage as a whole — press s on the file in Changes"@,
                        ),
                        StepView::Done,
                    )
                } else {
                    let msg = "Staged "@ + decimal(kept) + " line(s) of "@ + path;
                    (
                        app,
                        if untracked {
                            StepView::IntentToAdd { path, patch, msg }
                        } else {
                            StepView::Apply { patch, reverse: false, msg }
                        },
                    )
                },
            }
        },
        _ => (
            app.notified("Staging works on file diffs — pick a file in Changes"@),
            StepView::Done,
        ),
    }
}

/// The lines acted on unstaged, if they can be.
pub open spec fn lines_unstaged(app: AppView) -> (AppView, StepView) {
    match app.diff.source {
        SourceView::File { path, staged, untracked } => if !staged {
            (app.notified("These lines aren't staged yet — s stages them"@), StepView::Done)
        } else {
            match acted_patch(app.diff, true) {
                Err(why) => (app.notified(why), StepView::Done),
                Ok((patch, kept)) => if kept < changes(app.diff.lines) && whole_file_from(
                    app.diff.lines,
                    0,
                ) is Some {
                    (
                        app.notified(
                            "New/deleted files unstage as a whole — press u on the file in Changes"@,
                        ),
                        StepView::Done,
                    )
                } else {
                    let msg = "Unstaged "@ + decimal(kept) + " line(s) of "@ + path;
                    (app, StepView::Apply { patch, reverse: true, msg })
                },
            }
        },
        _ => (
            app.notified("Unstaging works on file diffs — pick a staged file in Changes"@),
            StepView::Done,
        ),
    }
}

/// The result of building a patch, with what it holds.
pub open spec fn patch_result(r: Result<(String, usize), &'static str>) -> Result<
    (Seq<char>, nat),
    Seq<char>,
> {
    match r {
        Ok((patch, kept)) => Ok((patch@, kept as nat)),
        Err(why) => Err(why@),
    }
}

/// Build the patch for the lines that an s/u press acts on.
fn build_patch(app: &App, unstage: bool) -> (r: Result<(String, usize), &'static str>)
    ensures
        patch_result(r) == acted_patch(app@.diff, unstage),
{
    match active_range(app) {
        None => Err("Highlight lines with Shift+Space or move into a hunk first"),
        Some(span) => {
            proof {
                let (lo, hi) = (span.0 as int, span.1 as int);
                assert(acted_on(app@.diff) == Some((lo, hi)));
                if app@.diff.selection() is None {
                    hunk_span_encloses(app@.diff.lines, app@.diff.cursor());
                }
                assert(pick(span, unstage) == Pick { lo, hi, unstage });
            }
            match partial_patch(app.diff.lines.as_slice(), span, unstage) {
                None => Err("No +/− lines in the highlight"),
                Some(r) => Ok(r),
            }
        },
    }
}

/// A message on some lines of a file.
fn lines_message(verb: &str, kept: usize, path: &str) -> (r: String)
    ensures
        r@ == verb@ + decimal(kept as nat) + " line(s) of "@ + path@,
{
    let mut msg = copy_of(verb);
    msg.append(to_decimal(kept as u128).as_str());
    msg.append(" line(s) of ");
    msg.append(path);
    msg
}

/// The file whose diff is shown: its path, and whether it is the staged side
/// and an untracked file.
fn shown_file(app: &App) -> (r: Option<(String, bool, bool)>)
    ensures
        match app@.diff.source {
            SourceView::File { path, staged, untracked } => r matches Some((p, s, u)) && p@ == path
                && s == staged && u == untracked,
            _ => r is None,
        },
{
    match &app.diff.source {
        DiffSource::File { path, staged, untracked } => Some(
            (copy_of(path.as_str()), *staged, *untracked),
        ),
        _ => None,
    }
}

fn stage_in_diff(app: &mut App) -> (r: Step)
    ensures
        (final(app)@, r@) == lines_staged(old(app)@),
{
    let (path, staged, untracked) = match shown_file(app) {
        Some(f) => f,
        None => {
            app.notify("Staging works on file diffs — pick a file in Changes");
            return Step::Done;
        },
    };
    if staged {
        app.notify("These lines are already staged — u unstages them");
        return Step::Done;
    }
    let (patch, kept) = match build_patch(app, false) {
        Ok(r) => r,
        Err(why) => {
            app.notify(why);
            return Step::Done;
        },
    };
    // A deletion can't be split: a partial patch would need context lines
    // against /dev/null. (Untracked files are fine: intent-to-add makes the
    // index side real.)
    if kept < change_count(app.diff.lines.as_slice()) && !untracked && whole_file(
        app.diff.lines.as_slice(),
    ) == Some(WholeFile::Deleted) {
        app.notify("Deleted files stage as a whole — press s on the file in Changes");
        return Step::Done;
    }
    let msg = lines_message("Staged ", kept, path.as_str());
    if untracked {
        Step::IntentToAdd { path, patch, msg }
    } else {
        Step::Apply { patch, reverse: false, msg }
    }
}

fn unstage_in_diff(app: &mut App) -> (r: Step)
    ensures
        (final(app)@, r@) == lines_unstaged(old(app)@),
{
    let (path, staged, untracked) = match shown_file(app) {
        Some(f) => f,
        None => {
            app.notify("Unstaging works on file diffs — pick a staged file in Changes");
            return Step::Done;
        },
    };
    if !staged {
        app.notify("These lines aren't staged yet — s stages them");
        return Step::Done;
    }
    let (patch, kept) = match build_patch(app, true) {
        Ok(r) => r,
        Err(why) => {
            app.notify(why);
            return Step::Done;
        },
    };
    // Newly added or deleted files have no HEAD side to leave context against,
    // so they can only be unstaged whole.
    if kept < change_count(app.diff.lines.as_slice()) && whole_file(
        app.diff.lines.as_slice(),
    ).is_some() {
        app.notify("New/deleted files unstage as a whole — press u on the file in Changes");
        return Step::Done;
    }
    let msg = lines_message("Unstaged ", kept, path.as_str());
    Step::Apply { patch, reverse: true, msg }
}

/// The lines of half a page, at least one.
pub open spec fn half_page(p: PaneView) -> int {
    if p.viewport >= 2 {
        p.viewport as int / 2
    } else {
        1
    }
}

/// The cursor of the diff pane moved by `delta`.
pub open spec fn cursor_moved(app: AppView, delta: int) -> AppView {
    with_pane(
        app,
        PaneView { state: moved(app.diff.state, app.diff.lines.len(), delta), ..app.diff },
    )
}

/// The cursor of the diff pane moved to an end.
pub open spec fn cursor_jumped(app: AppView, end: bool) -> AppView {
    with_pane(
        app,
        PaneView { state: jumped(app.diff.state, app.diff.lines.len(), end), ..app.diff },
    )
}

/// A key in the diff pane.
pub open spec fn diff_key(app: AppView, key: KeyEvent) -> (AppView, StepView) {
    let ctrl = key.modifiers.control;
    if key.code == KeyCode::Char('d') && ctrl {
        (cursor_moved(app, half_page(app.diff)), StepView::Done)
    } else if key.code == KeyCode::Char('u') && ctrl {
        (cursor_moved(app, -half_page(app.diff)), StepView::Done)
    } else if key.code == KeyCode::Char('j') || key.code == KeyCode::Down {
        (cursor_moved(app, 1), StepView::Done)
    } else if key.code == KeyCode::Char('k') || key.code == KeyCode::Up {
        (cursor_moved(app, -1), StepView::Done)
    } else if key.code == KeyCode::Char('g') {
        (cursor_jumped(app, false), StepView::Done)
    } else if key.code == KeyCode::Char('G') {
        (cursor_jumped(app, true), StepView::Done)
    } else if key.code == KeyCode::Char(' ') {
        (anchor_toggled(app), StepView::Done)
    } else if key.code == KeyCode::Esc {
        if app.diff.anchor is Some {
            (anchor_toggled(app), StepView::Done)
        } else {
            (app, StepView::Done)
        }
    } else if key.code == KeyCode::Char('s') {
        lines_staged(app)
    } else if key.code == KeyCode::Char('u') {
        lines_unstaged(app)
    } else {
        (app, StepView::Done)
    }
}

fn diff_keys(app: &mut App, key: KeyEvent) -> (r: Step)
    ensures
        (final(app)@, r@) == diff_key(old(app)@, key),
{
    let ctrl = key.modifiers.control;
    let half: i32 = if app.diff.viewport >= 2 {
        (app.diff.viewport / 2) as i32
    } else {
        1
    };
    match key.code {
        KeyCode::Char('d') if ctrl => app.diff.move_cursor(half),
        KeyCode::Char('u') if ctrl => app.diff.move_cursor(-half),
        KeyCode::Char('j') | KeyCode::Down => app.diff.move_cursor(1),
        KeyCode::Char('k') | KeyCode::Up => app.diff.move_cursor(-1),
        KeyCode::Char('g') => app.diff.jump(false),
        KeyCode::Char('G') => app.diff.jump(true),
        // Shift+Space starts/stops the highlight. Some terminals report
        // Shift+Space as a plain space: accept both.
        KeyCode::Char(' ') => toggle_anchor(app),
        KeyCode::Esc => {
            if app.diff.anchor.is_some() {
                toggle_anchor(app);
            }
        },
        KeyCode::Char('s') => {
            return stage_in_diff(app);
        },
        KeyCode::Char('u') => {
            return unstage_in_diff(app);
        },
        _ => {},
    }
    Step::Done
}

// ---------------------------------------------------------------------------
// Normal mode
// ---------------------------------------------------------------------------

/// The pane movement that a key stands for: Shift with a vim direction or with
/// an arrow. Shift+h arrives as an uppercase letter, or as a lowercase one with
/// the modifier; both count.
pub open spec fn direction(key: KeyEvent) -> Option<Dir> {
    let shift = key.modifiers.shift;
    if key.code == KeyCode::Char('H') || (shift && (key.code == KeyCode::Char('h') || key.code
        == KeyCode::Left)) {
        Some(Dir::Left)
    } else if key.code == KeyCode::Char('J') || (shift && (key.code == KeyCode::Char('j')
        || key.code == KeyCode::Down)) {
        Some(Dir::Down)
    } else if key.code == KeyCode::Char('K') || (shift && (key.code == KeyCode::Char('k')
        || key.code == KeyCode::Up)) {
        Some(Dir::Up)
    } else if key.code == KeyCode::Char('L') || (shift && (key.code == KeyCode::Char('l')
        || key.code == KeyCode::Right)) {
        Some(Dir::Right)
    } else {
        None
    }
}

fn pane_dir(key: &KeyEvent) -> (r: Option<Dir>)
    ensures
        r == direction(*key),
{
    let shift = key.modifiers.shift;
    match key.code {
        KeyCode::Char('H') => Some(Dir::Left),
        KeyCode::Char('J') => Some(Dir::Down),
        KeyCode::Char('K') => Some(Dir::Up),
        KeyCode::Char('L') => Some(Dir::Right),
        KeyCode::Char('h') if shift => Some(Dir::Left),
        KeyCode::Left if shift => Some(Dir::Left),
        KeyCode::Char('j') if shift => Some(Dir::Down),
        KeyCode::Down if shift => Some(Dir::Down),
        KeyCode::Char('k') if shift => Some(Dir::Up),
        KeyCode::Up if shift => Some(Dir::Up),
        KeyCode::Char('l') if shift => Some(Dir::Right),
        KeyCode::Right if shift => Some(Dir::Right),
        _ => None,
    }
}

/// The application told to quit.
pub open spec fn quitting(app: AppView) -> AppView {
    AppView { should_quit: true, ..app }
}

/// A key in normal mode.
pub open spec fn normal_key(app: AppView, key: KeyEvent) -> (AppView, StepView) {
    match direction(key) {
        Some(d) => app.stepped(d),
        None => if key.code == KeyCode::Char('q') {
            (quitting(app), StepView::Done)
        } else if key.code == KeyCode::Tab {
            app.focused(next_focus(app.focus))
        } else if key.code == KeyCode::BackTab {
            app.focused(prev_focus(app.focus))
        } else if key.code == KeyCode::Char('?') {
            (app.popped_up(HELP@), StepView::Done)
        } else if key.code == KeyCode::Char('r') {
            (app, StepView::LoadCommits(AfterView::Refreshed))
        } else if key.code == KeyCode::Char('c') {
            (commit_opened(app), StepView::Done)
        } else if key.code == KeyCode::Char('p') {
            (app, StepView::Remote { args: seq!["push"@] })
        } else if key.code == KeyCode::Char('P') {
            (app, StepView::Remote { args: seq!["pull"@] })
        } else if key.code == KeyCode::Char('f') {
            (app, StepView::Remote { args: seq!["fetch"@, "--all"@] })
        } else if app.focus == Focus::Diff {
            diff_key(app, key)
        } else {
            list_key(app, key)
        },
    }
}

fn normal(app: &mut App, key: KeyEvent) -> (r: Step)
    ensures
        (final(app)@, r@) == normal_key(old(app)@, key),
{
    // Pane movement first: Shift + h/j/k/l (or Shift + arrows).
    if let Some(dir) = pane_dir(&key) {
        return app.focus_dir(dir);
    }
    match key.code {
        // --- global controls ---
        KeyCode::Char('q') => {
            app.should_quit = true;
            Step::Done
        },
        KeyCode::Tab => app.set_focus(app.focus.next()),
        KeyCode::BackTab => app.set_focus(app.focus.prev()),
        KeyCode::Char('?') => {
            app.pop_up(copy_of(HELP));
            Step::Done
        },
        KeyCode::Char('r') => App::refresh(After::Refreshed),
        KeyCode::Char('c') => {
            open_commit(app);
            Step::Done
        },
        KeyCode::Char('p') => Step::Remote { args: push() },
        KeyCode::Char('P') => Step::Remote { args: pull() },
        KeyCode::Char('f') => Step::Remote { args: fetch() },
        // --- everything else is pane-specific ---
        _ => if app.focus == Focus::Diff {
            diff_keys(app, key)
        } else {
            list_keys(app, key)
        },
    }
}

// ---------------------------------------------------------------------------
// Input mode (commit message)
// ---------------------------------------------------------------------------

/// What a key does to the message that is being typed.
pub open spec fn edited(e: EditorView, key: KeyEvent) -> EditorView {
    let ctrl = key.modifiers.control;
    match key.code {
        KeyCode::Enter => e.newlined(),
        KeyCode::Char(c) => if ctrl && c == 'n' {
            e.newlined()
        } else if ctrl && c == 'a' {
            e.with_cursor(e.row, 0)
        } else if ctrl && c == 'e' {
            e.with_cursor(e.row, e.line().len() as int)
        } else if ctrl && c == 'w' {
            e.word_deleted()
        } else if ctrl && c == 'u' {
            e.start_deleted()
        } else if !ctrl && !key.modifiers.alt {
            e.inserted(c)
        } else {
            e
        },
        KeyCode::Backspace => e.backspaced(),
        KeyCode::Delete => e.deleted(),
        KeyCode::Left => e.moved_left(),
        KeyCode::Right => e.moved_right(),
        KeyCode::Up => e.moved_up(),
        KeyCode::Down => e.moved_down(),
        KeyCode::Home => e.with_cursor(e.row, 0),
        KeyCode::End => e.with_cursor(e.row, e.line().len() as int),
        _ => e,
    }
}

/// Apply a key to the message that is being typed.
fn edit(editor: &mut Editor, key: KeyEvent)
    requires
        old(editor).wf(),
    ensures
        final(editor)@ == edited(old(editor)@, key),
        final(editor).wf(),
{
    let ctrl = key.modifiers.control;
    let alt = key.modifiers.alt;
    match key.code {
        KeyCode::Enter => editor.newline(),
        KeyCode::Char('n') if ctrl => editor.newline(),
        KeyCode::Char('a') if ctrl => editor.home(),
        KeyCode::Char('e') if ctrl => editor.end(),
        KeyCode::Char('w') if ctrl => editor.delete_word_back(),
        KeyCode::Char('u') if ctrl => editor.delete_to_start(),
        KeyCode::Char(c) if !ctrl && !alt => editor.insert(c),
        KeyCode::Backspace => editor.backspace(),
        KeyCode::Delete => editor.delete(),
        KeyCode::Left => editor.left(),
        KeyCode::Right => editor.right(),
        KeyCode::Up => editor.up(),
        KeyCode::Down => editor.down(),
        KeyCode::Home => editor.home(),
        KeyCode::End => editor.end(),
        _ => {},
    }
}

/// The message handed in: committed, or refused when it is blank.
pub open spec fn submitted(app: AppView, e: EditorView) -> (AppView, StepView) {
    let message = trim(e.text());
    let closed = AppView { mode: ModeView::Normal, ..app };
    if message.len() == 0 {
        (closed.notified("Aborted: empty commit message"@), StepView::Done)
    } else {
        (closed, StepView::Commit { message })
    }
}

/// A key while a message is being typed.
pub open spec fn input_key(app: AppView, e: EditorView, key: KeyEvent) -> (AppView, StepView) {
    if key.code == KeyCode::Esc {
        (
            AppView { mode: ModeView::Normal, ..app }.notified("Commit cancelled"@),
            StepView::Done,
        )
    } else if key.code == KeyCode::Enter && !key.modifiers.alt && !key.modifiers.shift {
        submitted(app, e)
    } else {
        (
            AppView { mode: ModeView::Input { editor: edited(e, key) }, ..app },
            StepView::Done,
        )
    }
}

fn input(app: &mut App, key: KeyEvent) -> (r: Step)
    requires
        old(app).wf(),
        old(app).mode is Input,
    ensures
        (final(app)@, r@) == input_key(old(app)@, old(app)@.mode->editor, key),
        final(app).wf(),
{
    if key.code == KeyCode::Esc {
        app.mode = Mode::Normal;
        app.notify("Commit cancelled");
        return Step::Done;
    }
    // Plain Enter commits; Alt+Enter (and Shift+Enter where the terminal can
    // report it) inserts a newline.
    if key.code == KeyCode::Enter && !key.modifiers.alt && !key.modifiers.shift {
        return submit_commit(app);
    }
    if let Mode::Input { editor } = &mut app.mode {
        edit(editor, key);
    }
    Step::Done
}

fn submit_commit(app: &mut App) -> (r: Step)
    requires
        old(app).mode is Input,
    ensures
        (final(app)@, r@) == submitted(old(app)@, old(app)@.mode->editor),
        final(app).wf(),
{
    let text = match &app.mode {
        Mode::Input { editor } => trimmed(editor.text().as_str()),
        _ => String::new(),
    };
    app.mode = Mode::Normal;
    if text.as_str().unicode_len() == 0 {
        app.notify("Aborted: empty commit message");
        return Step::Done;
    }
    Step::Commit { message: text }
}

/// A text with every carriage return, and the line feed that may follow it,
/// turned into one line feed.
pub open spec fn unified(s: Seq<char>) -> Seq<char>
    decreases s.len(),
{
    if s.len() == 0 {
        s
    } else if s[0] == '\r' {
        seq!['\n'] + unified(
            s.skip(
                if s.len() > 1 && s[1] == '\n' {
                    2
                } else {
                    1
                },
            ),
        )
    } else {
        seq![s[0]] + unified(s.skip(1))
    }
}

/// What a pasted character puts into the message: tabs become spaces, other
/// control characters but the line feed are left out.
pub open spec fn pasted_char(c: char) -> Seq<char> {
    if c == '\t' {
        seq![' ', ' ', ' ', ' ']
    } else if c != '\n' && control(c) {
        Seq::empty()
    } else {
        seq![c]
    }
}

/// What a pasted text puts into the message.
pub open spec fn pasted_text(s: Seq<char>) -> Seq<char> {
    concat(unified(s).map_values(|c: char| pasted_char(c)))
}

/// A text typed character by character, a line feed as a new line.
pub open spec fn typed(e: EditorView, s: Seq<char>) -> EditorView
    decreases s.len(),
{
    if s.len() == 0 {
        e
    } else {
        let before = typed(e, s.drop_last());
        if s.last() == '\n' {
            before.newlined()
        } else {
            before.inserted(s.last())
        }
    }
}

/// A text pasted: into the message that is being typed, or nowhere.
pub open spec fn pasted(app: AppView, data: Seq<char>) -> AppView {
    match app.mode {
        ModeView::Input { editor } => AppView {
            mode: ModeView::Input { editor: typed(editor, pasted_text(data)) },
            ..app
        },
        _ => app,
    }
}

/// The characters of a text with its line ends unified.
fn unify(data: &str) -> (r: Vec<char>)
    ensures
        r@ == unified(data@),
{
    let chars = chars_of(data);
    let mut out: Vec<char> = Vec::new();
    let mut i: usize = 0;
    assert(chars@.skip(0) =~= chars@);
    assert(out@ + unified(chars@) =~= unified(chars@));
    while i < chars.len()
        invariant
            i <= chars@.len(),
            out@ + unified(chars@.skip(i as int)) == unified(chars@),
        decreases chars.len() - i,
    {
        let ghost was = out@;
        let ghost rest = chars@.skip(i as int);
        let n: usize = chars.len();
        if chars[i] == '\r' {
            out.push('\n');
            if i < n - 1 && chars[i + 1] == '\n' {
                assert(rest.skip(2) =~= chars@.skip(i + 2));
                i += 2;
            } else {
                assert(rest.skip(1) =~= chars@.skip(i + 1));
                i += 1;
            }
            assert(out@ + unified(chars@.skip(i as int)) =~= was + (seq!['\n'] + unified(
                chars@.skip(i as int),
            )));
        } else {
            out.push(chars[i]);
            assert(rest.skip(1) =~= chars@.skip(i + 1));
            assert(out@ + unified(chars@.skip(i + 1)) =~= was + (seq![rest[0]] + unified(
                chars@.skip(i + 1),
            )));
            i += 1;
        }
    }
    assert(out@ + unified(chars@.skip(i as int)) =~= out@);
    out
}

/// Put a pasted text into the message that is being typed.
fn paste_into(editor: &mut Editor, data: &str)
    requires
        old(editor).wf(),
    ensures
        final(editor)@ == typed(old(editor)@, pasted_text(data@)),
        final(editor).wf(),
{
    let ghost start = editor@;
    let chars = unify(data);
    let ghost parts = chars@.map_values(|c: char| pasted_char(c));
    let mut i: usize = 0;
    assert(parts.take(0) =~= Seq::empty());
    while i < chars.len()
        invariant
            i <= chars@.len(),
            parts == chars@.map_values(|c: char| pasted_char(c)),
            editor@ == typed(start, concat(parts.take(i as int))),
            editor.wf(),
        decreases chars.len() - i,
    {
        let c = chars[i];
        let ghost done = concat(parts.take(i as int));
        proof {
            assert(parts.take(i + 1).drop_last() =~= parts.take(i as int));
            assert(parts[i as int] == pasted_char(c));
            assert(concat(parts.take(i + 1)) == done + pasted_char(c));
        }
        if c == '\n' {
            editor.newline();
            assert(done + pasted_char(c) =~= done.push(c));
            assert(done.push(c).drop_last() =~= done);
        } else if c == '\t' {
            editor.insert(' ');
            editor.insert(' ');
            editor.insert(' ');
            editor.insert(' ');
            proof {
                let a = done.push(' ');
                let b = a.push(' ');
                let d = b.push(' ');
                let e = d.push(' ');
                assert(a.drop_last() =~= done);
                assert(typed(start, a) == typed(start, done).inserted(' '));
                assert(b.drop_last() =~= a);
                assert(typed(start, b) == typed(start, a).inserted(' '));
                assert(d.drop_last() =~= b);
                assert(typed(start, d) == typed(start, b).inserted(' '));
                assert(e.drop_last() =~= d);
                assert(typed(start, e) == typed(start, d).inserted(' '));
                assert(done + pasted_char(c) =~= e);
            }
        } else if is_control(c) {
            assert(done + pasted_char(c) =~= done);
        } else {
            editor.insert(c);
            assert(done + pasted_char(c) =~= done.push(c));
            assert(done.push(c).drop_last() =~= done);
        }
        i += 1;
    }
    assert(parts.take(i as int) =~= parts);
}

/// Bracketed paste goes straight into the commit-message editor, newlines and
/// all: without this, the carriage returns in a pasted message would submit it
/// early.
pub fn handle_paste(app: &mut App, data: &str)
    requires
        old(app).wf(),
    ensures
        final(app)@ == pasted(old(app)@, data@),
        final(app).wf(),
{
    if let Mode::Input { editor } = &mut app.mode {
        paste_into(editor, data);
    }
}

// ---------------------------------------------------------------------------
// All modes
// ---------------------------------------------------------------------------

/// What a key does.
pub open spec fn pressed(app: AppView, key: KeyEvent) -> (AppView, StepView) {
    if key.kind != KeyEventKind::Press {
        (app, StepView::Done)
    } else if key.code == KeyCode::Char('c') && key.modifiers.control {
        (quitting(app), StepView::Done)
    } else {
        match app.mode {
            ModeView::Normal => normal_key(app, key),
            ModeView::Input { editor } => input_key(app, editor, key),
            ModeView::Message(_) => (AppView { mode: ModeView::Normal, ..app }, StepView::Done),
        }
    }
}

/// Handle a key: what happened is in the application, what is left to do is in
/// the step.
pub fn handle_key(app: &mut App, key: KeyEvent) -> (r: Step)
    requires
        old(app).wf(),
    ensures
        (final(app)@, r@) == pressed(old(app)@, key),
        final(app).wf(),
{
    if key.kind != KeyEventKind::Press {
        return Step::Done;
    }
    // Ctrl+C exits immediately from any mode, abandoning whatever was in
    // flight (a half-typed commit message is discarded, not committed).
    if key.code == KeyCode::Char('c') && key.modifiers.control {
        app.should_quit = true;
        return Step::Done;
    }
    match app.mode {
        Mode::Normal => normal(app, key),
        Mode::Input { .. } => input(app, key),
        Mode::Message(_) => {
            // Any key dismisses.
            app.mode = Mode::Normal;
            Step::Done
        },
    }
}

// ---------------------------------------------------------------------------
// What the keys promise
// ---------------------------------------------------------------------------

/// Ctrl+C quits at once from every mode and does nothing else: whatever was
/// being typed is not committed.
pub proof fn ctrl_c_quits_from_any_mode(app: AppView, key: KeyEvent)
    requires
        key.kind == KeyEventKind::Press,
        key.code == KeyCode::Char('c'),
        key.modifiers.control,
    ensures
        pressed(app, key) == (AppView { should_quit: true, ..app }, StepView::Done),
{
}

/// A key that is held down or comes up does nothing.
pub proof fn only_presses_count(app: AppView, key: KeyEvent)
    requires
        key.kind != KeyEventKind::Press,
    ensures
        pressed(app, key) == (app, StepView::Done),
{
}

/// Any key but Ctrl+C closes a message, and does nothing else.
pub proof fn any_key_closes_a_message(app: AppView, key: KeyEvent)
    requires
        app.mode is Message,
        key.kind == KeyEventKind::Press,
        !(key.code == KeyCode::Char('c') && key.modifiers.control),
    ensures
        pressed(app, key) == (AppView { mode: ModeView::Normal, ..app }, StepView::Done),
{
}

/// Escape abandons a message that is being typed: nothing is committed.
pub proof fn escape_abandons_a_message(app: AppView, key: KeyEvent)
    requires
        app.mode is Input,
        key.kind == KeyEventKind::Press,
        key.code == KeyCode::Esc,
    ensures
        pressed(app, key) == (
            AppView { mode: ModeView::Normal, status_line: "Commit cancelled"@, ..app },
            StepView::Done,
        ),
{
}

/// A commit is only ever asked for by a plain Enter on a message, which is then
/// closed; what is committed is that message without the white space around
/// it, and it is never empty.
#[verifier::rlimit(40)]
pub proof fn commits_have_a_message(app: AppView, key: KeyEvent)
    ensures
        pressed(app, key).1 matches StepView::Commit { message } ==> {
            &&& app.mode is Input
            &&& key.code == KeyCode::Enter && !key.modifiers.alt && !key.modifiers.shift
            &&& pressed(app, key).0 == AppView { mode: ModeView::Normal, ..app }
            &&& message == trim(app.mode->editor.text())
            &&& message.len() > 0
            &&& trim(message) == message
        },
{
    if app.mode is Input {
        trimming_twice_is_trimming_once(app.mode->editor.text());
    }
}

/// A message is only opened for typing when something is staged.
#[verifier::rlimit(40)]
pub proof fn messages_need_staged_changes(app: AppView, key: KeyEvent)
    requires
        app.mode is Normal,
        pressed(app, key).0.mode is Input,
    ensures
        count_in(app.status, Section::Staged) > 0,
        pressed(app, key).0.mode == (ModeView::Input { editor: EditorView::blank() }),
{
}

/// While a message is being typed, no key asks for anything but its commit.
#[verifier::rlimit(40)]
pub proof fn typing_asks_for_nothing_else(app: AppView, key: KeyEvent)
    requires
        app.mode is Input,
    ensures
        pressed(app, key).1 is Done || pressed(app, key).1 is Commit,
{
}

/// Whether two states list the same.
spec fn same_lists(a: AppView, b: AppView) -> bool {
    &&& a.commits == b.commits
    &&& a.status == b.status
    &&& a.head == b.head
}

proof fn lemma_rebuilding_keeps_lists(app: AppView, delta: int, end: bool, f: Focus, d: Dir)
    ensures
        same_lists(app, app.moved(delta).0),
        same_lists(app, app.jumped(end).0),
        same_lists(app, app.focused(f).0),
        same_lists(app, app.stepped(d).0),
{
}

#[verifier::rlimit(40)]
proof fn lemma_diff_key_keeps_lists(app: AppView, key: KeyEvent)
    ensures
        same_lists(app, diff_key(app, key).0),
{
    lines_move_across_the_index_one_way(app);
}

#[verifier::rlimit(40)]
proof fn lemma_list_key_keeps_lists(app: AppView, key: KeyEvent)
    ensures
        same_lists(app, list_key(app, key).0),
{
    lemma_rebuilding_keeps_lists(app, 1, false, Focus::Diff, Dir::Left);
    lemma_rebuilding_keeps_lists(app, -1, true, Focus::Diff, Dir::Left);
    refused_requests_do_nothing(app);
}

#[verifier::rlimit(40)]
proof fn lemma_normal_key_keeps_lists(app: AppView, key: KeyEvent)
    ensures
        same_lists(app, normal_key(app, key).0),
{
    lemma_diff_key_keeps_lists(app, key);
    lemma_list_key_keeps_lists(app, key);
    match direction(key) {
        Some(d) => lemma_rebuilding_keeps_lists(app, 0, false, Focus::Diff, d),
        None => {
            lemma_rebuilding_keeps_lists(app, 0, false, next_focus(app.focus), Dir::Left);
            lemma_rebuilding_keeps_lists(app, 0, false, prev_focus(app.focus), Dir::Left);
        },
    }
}

/// No key changes what the panels list: only what was read from the repository
/// does.
#[verifier::rlimit(40)]
pub proof fn keys_leave_the_lists_alone(app: AppView, key: KeyEvent)
    ensures
        pressed(app, key).0.commits == app.commits,
        pressed(app, key).0.status == app.status,
        pressed(app, key).0.head == app.head,
{
    lemma_normal_key_keeps_lists(app, key);
    if let ModeView::Input { editor } = app.mode {
        assert(same_lists(app, input_key(app, editor, key).0));
    }
}

/// Whether two states select the same and show the same document.
spec fn same_selection(a: AppView, b: AppView) -> bool {
    &&& a.commits == b.commits
    &&& a.status == b.status
    &&& a.log_state == b.log_state
    &&& a.status_state == b.status_state
    &&& a.last_left == b.last_left
    &&& a.diff.source == b.diff.source
}

#[verifier::rlimit(40)]
proof fn lemma_diff_key(app: AppView, key: KeyEvent)
    ensures
        same_selection(app, diff_key(app, key).0),
        !(diff_key(app, key).1 is LoadDiff),
{
    lines_move_across_the_index_one_way(app);
}

#[verifier::rlimit(40)]
proof fn lemma_list_key(app: AppView, key: KeyEvent, lines: Result<Seq<LineView>, Seq<char>>)
    requires
        in_step(app),
    ensures
        follows(list_key(app, key), lines),
{
    the_diff_pane_follows(app, 1, false, Focus::Diff, Dir::Left, lines);
    the_diff_pane_follows(app, -1, true, Focus::Diff, Dir::Left, lines);
    refused_requests_do_nothing(app);
}

#[verifier::rlimit(40)]
proof fn lemma_normal_key(app: AppView, key: KeyEvent, lines: Result<Seq<LineView>, Seq<char>>)
    requires
        in_step(app),
    ensures
        follows(normal_key(app, key), lines),
{
    lemma_diff_key(app, key);
    lemma_list_key(app, key, lines);
    match direction(key) {
        Some(d) => the_diff_pane_follows(app, 1, false, Focus::Diff, d, lines),
        None => {
            the_diff_pane_follows(app, 1, false, next_focus(app.focus), Dir::Left, lines);
            the_diff_pane_follows(app, 1, false, prev_focus(app.focus), Dir::Left, lines);
        },
    }
}

/// Whatever key is pressed, the diff pane follows the selection.
#[verifier::rlimit(40)]
pub proof fn the_diff_pane_follows_every_key(
    app: AppView,
    key: KeyEvent,
    lines: Result<Seq<LineView>, Seq<char>>,
)
    requires
        in_step(app),
    ensures
        follows(pressed(app, key), lines),
{
    lemma_normal_key(app, key, lines);
    if let ModeView::Input { editor } = app.mode {
        assert(same_selection(app, input_key(app, editor, key).0));
        assert(!(input_key(app, editor, key).1 is LoadDiff));
    }
}

#[verifier::rlimit(40)]
proof fn lemma_diff_key_cursors(app: AppView, key: KeyEvent)
    requires
        cursors_fit(app),
    ensures
        cursors_fit(diff_key(app, key).0),
{
    lines_move_across_the_index_one_way(app);
}

#[verifier::rlimit(40)]
proof fn lemma_list_key_cursors(app: AppView, key: KeyEvent)
    requires
        cursors_fit(app),
    ensures
        cursors_fit(list_key(app, key).0),
{
    let (source, title, lines) = (app.diff.source, app.diff.title, app.diff.lines);
    let rest = AfterView::Rest;
    let (f, d) = (Focus::Diff, Dir::Left);
    moving_keeps_the_cursors_fitting(app, 1, false, f, d, source, title, lines, rest);
    moving_keeps_the_cursors_fitting(app, -1, true, f, d, source, title, lines, rest);
    refused_requests_do_nothing(app);
}

#[verifier::rlimit(40)]
proof fn lemma_normal_key_cursors(app: AppView, key: KeyEvent)
    requires
        cursors_fit(app),
    ensures
        cursors_fit(normal_key(app, key).0),
{
    lemma_diff_key_cursors(app, key);
    lemma_list_key_cursors(app, key);
    let (source, title, lines) = (app.diff.source, app.diff.title, app.diff.lines);
    let rest = AfterView::Rest;
    let d = match direction(key) {
        Some(d) => d,
        None => Dir::Left,
    };
    let (next, prev) = (next_focus(app.focus), prev_focus(app.focus));
    moving_keeps_the_cursors_fitting(app, 0, false, next, d, source, title, lines, rest);
    moving_keeps_the_cursors_fitting(app, 0, false, prev, d, source, title, lines, rest);
}

/// Whatever key is pressed, the selections stay in their lists and the diff
/// cursor on a line.
#[verifier::rlimit(40)]
pub proof fn keys_keep_the_cursors_fitting(app: AppView, key: KeyEvent)
    requires
        cursors_fit(app),
    ensures
        cursors_fit(pressed(app, key).0),
{
    lemma_normal_key_cursors(app, key);
    if let ModeView::Input { editor } = app.mode {
        assert(cursors_fit(input_key(app, editor, key).0));
    }
}

/// The cursor of a message stays in its text, whatever key is pressed.
#[verifier::rlimit(40)]
pub proof fn keys_keep_the_cursor_in_the_text(app: AppView, key: KeyEvent)
    requires
        app.wf(),
    ensures
        pressed(app, key).0.wf(),
{
    if let ModeView::Input { editor } = app.mode {
        match key.code {
            KeyCode::Char(c) => the_cursor_stays_in_the_text(editor, c),
            _ => the_cursor_stays_in_the_text(editor, ' '),
        }
    }
}

/// Only an unstaged change is staged, and only a staged one is unstaged; a
/// request on any other changes nothing but the line of feedback.
pub proof fn refused_requests_do_nothing(app: AppView)
    ensures
        match selected_staged(app).1 {
            StepView::Stage { change, rest, msg } => {
                &&& selected_staged(app).0 == app
                &&& app.selected_status() matches Some(e) && e.section != Section::Staged
                    && change.path == e.path && change.deleted == e.deleted
                &&& rest.len() == 0
            },
            step => {
                &&& step is Done
                &&& selected_staged(app).0 == app.notified(selected_staged(app).0.status_line)
                &&& app.selected_status() matches Some(e) ==> e.section == Section::Staged
            },
        },
        match selected_unstaged(app).1 {
            StepView::Unstage { path, msg } => {
                &&& selected_unstaged(app).0 == app
                &&& app.selected_status() matches Some(e) && e.section == Section::Staged && path
                    == e.path
            },
            step => {
                &&& step is Done
                &&& selected_unstaged(app).0 == app.notified(selected_unstaged(app).0.status_line)
                &&& app.selected_status() matches Some(e) ==> e.section != Section::Staged
            },
        },
{
}

/// Whether staging a change means staging that entry.
pub open spec fn stages(c: ChangeView, e: EntryView) -> bool {
    e.section != Section::Staged && c.path == e.path && c.deleted == e.deleted
}

/// Staging everything leaves no change out that is not staged.
pub proof fn staging_all_leaves_nothing_out(status: Seq<EntryView>, i: int) -> (k: int)
    requires
        0 <= i < status.len(),
        status[i].section != Section::Staged,
    ensures
        0 <= k < pending(status).len(),
        stages(pending(status)[k], status[i]),
    decreases status.len(),
{
    let before = pending(status.drop_last());
    if i < status.len() - 1 {
        staging_all_leaves_nothing_out(status.drop_last(), i)
    } else {
        before.len() as int
    }
}

/// Staging everything stages no change that is staged already, and each of the
/// others once.
pub proof fn staging_all_adds_nothing(status: Seq<EntryView>, k: int) -> (i: int)
    requires
        0 <= k < pending(status).len(),
    ensures
        0 <= i < status.len(),
        stages(pending(status)[k], status[i]),
    decreases status.len(),
{
    if k < pending(status.drop_last()).len() {
        staging_all_adds_nothing(status.drop_last(), k)
    } else {
        if status.last().section == Section::Staged {
            staging_all_adds_nothing(status.drop_last(), k)
        } else {
            status.len() - 1
        }
    }
}

/// Every entry is staged already or has its turn when everything is staged.
pub proof fn staging_all_counts_up(status: Seq<EntryView>)
    ensures
        pending(status).len() + count_in(status, Section::Staged) == status.len(),
    decreases status.len(),
{
    if status.len() > 0 {
        staging_all_counts_up(status.drop_last());
    }
}

/// Lines are staged from the unstaged side of a file only, and unstaged from
/// the staged side only. The patch is the one of the lines acted on, and a file
/// that is created or deleted as a whole is split only where that works: an
/// untracked file when it is staged.
#[verifier::rlimit(40)]
pub proof fn lines_move_across_the_index_one_way(app: AppView)
    ensures
        match lines_staged(app).1 {
            StepView::Apply { patch, reverse, msg } => {
                &&& !reverse
                &&& lines_staged(app).0 == app
                &&& app.diff.source matches SourceView::File { path, staged, untracked } && !staged
                    && !untracked
                &&& acted_patch(app.diff, false) matches Ok((p, kept)) && patch == p && (kept
                    >= changes(app.diff.lines) || whole_file_from(app.diff.lines, 0) != Some(
                    WholeFile::Deleted,
                ))
            },
            StepView::IntentToAdd { path, patch, msg } => {
                &&& lines_staged(app).0 == app
                &&& app.diff.source == (SourceView::File { path, staged: false, untracked: true })
                &&& acted_patch(app.diff, false) matches Ok((p, kept)) && patch == p
            },
            step => {
                &&& step is Done
                &&& lines_staged(app).0 == app.notified(lines_staged(app).0.status_line)
            },
        },
        match lines_unstaged(app).1 {
            StepView::Apply { patch, reverse, msg } => {
                &&& reverse
                &&& lines_unstaged(app).0 == app
                &&& app.diff.source matches SourceView::File { path, staged, untracked } && staged
                &&& acted_patch(app.diff, true) matches Ok((p, kept)) && patch == p && (kept
                    >= changes(app.diff.lines) || whole_file_from(app.diff.lines, 0) is None)
            },
            step => {
                &&& step is Done
                &&& lines_unstaged(app).0 == app.notified(lines_unstaged(app).0.status_line)
            },
        },
{
}

/// Starting a highlight and stopping it again leaves the pane as it was.
pub proof fn toggling_twice_restores_the_pane(app: AppView)
    ensures
        app.diff.anchor is None ==> anchor_toggled(anchor_toggled(app)).diff == app.diff,
{
}

/// Whatever comes of a step, fewer steps are left: every key press comes to an
/// end.
pub proof fn operations_end(
    app: AppView,
    res: Result<(), Seq<char>>,
    change: ChangeView,
    rest: Seq<ChangeView>,
    path: Seq<char>,
    patch: Seq<char>,
    reverse: bool,
    msg: Seq<char>,
    id: Result<Id, Seq<char>>,
    message: Seq<char>,
    args: Seq<Seq<char>>,
    text: Seq<char>,
)
    ensures
        steps_left(staged_next(app, res, rest, msg).1) < steps_left(
            StepView::Stage { change, rest, msg },
        ),
        steps_left(reported(app, res, msg).1) < steps_left(StepView::Unstage { path, msg }),
        steps_left(reported(app, res, msg).1) < steps_left(
            StepView::Apply { patch, reverse, msg },
        ),
        steps_left(intended_next(app, res, patch, msg).1) < steps_left(
            StepView::IntentToAdd { path, patch, msg },
        ),
        steps_left(committed_next(app, id).1) < steps_left(StepView::Commit { message }),
        steps_left(StepView::LoadCommits(AfterView::Popup(text))) < steps_left(
            StepView::Remote { args },
        ),
{
}

/// A failed operation changes nothing but that its error pops up; in a list of
/// paths to stage, nothing is staged behind the first error.
pub proof fn errors_pop_up(
    app: AppView,
    e: Seq<char>,
    rest: Seq<ChangeView>,
    patch: Seq<char>,
    msg: Seq<char>,
)
    ensures
        reported(app, Err(e), msg) == (app.popped_up(e), StepView::Done),
        staged_next(app, Err(e), rest, msg) == (app.popped_up(e), StepView::Done),
        intended_next(app, Err(e), patch, msg) == (app.popped_up(e), StepView::Done),
        committed_next(app, Err(e)) == (app.popped_up(e), StepView::Done),
{
}

/// After an operation that succeeds the panels are always reloaded, so that what
/// is shown reflects the repository.
pub proof fn successes_reload_the_panels(
    app: AppView,
    msg: Seq<char>,
    rest: Seq<ChangeView>,
    id: Id,
)
    ensures
        reported(app, Ok(()), msg) == (app, StepView::LoadCommits(AfterView::Notify(msg))),
        rest.len() == 0 ==> staged_next(app, Ok(()), rest, msg) == (
            app,
            StepView::LoadCommits(AfterView::Notify(msg)),
        ),
        committed_next(app, Ok(id)) == (
            app,
            StepView::LoadCommits(AfterView::Notify("Committed "@ + short(id))),
        ),
{
}

/// Typing a text puts it into the message where the cursor is, and the cursor
/// behind it.
pub proof fn typing_changes_the_text_at_the_cursor(e: EditorView, s: Seq<char>)
    requires
        e.wf(),
    ensures
        typed(e, s).wf(),
        0 <= e.offset() <= e.text().len(),
        typed(e, s).text() == e.text().take(e.offset()) + s + e.text().skip(e.offset()),
        typed(e, s).offset() == e.offset() + s.len(),
    decreases s.len(),
{
    the_cursor_has_an_offset(e);
    if s.len() == 0 {
        assert(e.text().take(e.offset()) + s + e.text().skip(e.offset()) =~= e.text());
    } else {
        let f = typed(e, s.drop_last());
        let c = s.last();
        typing_changes_the_text_at_the_cursor(e, s.drop_last());
        the_cursor_has_an_offset(f);
        the_cursor_stays_in_the_text(f, c);
        insert_changes_the_text_at_the_cursor(f, c);
        newline_changes_the_text_at_the_cursor(f);
        assert(f.text().insert(f.offset(), c) =~= e.text().take(e.offset()) + s + e.text().skip(
            e.offset(),
        ));
    }
}

/// A paste lands in the message where the cursor is, with its line ends
/// unified; it neither submits nor closes anything.
pub proof fn pasting_lands_in_the_message(app: AppView, data: Seq<char>)
    requires
        app.mode is Input,
        app.wf(),
    ensures
        pasted(app, data) == (AppView { mode: pasted(app, data).mode, ..app }),
        pasted(app, data).mode is Input,
        ({
            let e = app.mode->editor;
            pasted(app, data).mode->editor.text() == e.text().take(e.offset()) + pasted_text(data)
                + e.text().skip(e.offset())
        }),
{
    typing_changes_the_text_at_the_cursor(app.mode->editor, pasted_text(data));
}

/// A pasted text with unified line ends holds no carriage return.
pub proof fn pasted_lines_are_unified(s: Seq<char>)
    ensures
        forall|i: int| 0 <= i < unified(s).len() ==> #[trigger] unified(s)[i] != '\r',
        (forall|i: int| 0 <= i < s.len() ==> #[trigger] s[i] != '\r') ==> unified(s) == s,
    decreases s.len(),
{
    if s.len() > 0 {
        let u = unified(s);
        let n: int = if s[0] == '\r' && s.len() > 1 && s[1] == '\n' {
            2
        } else {
            1
        };
        let rest = unified(s.skip(n));
        pasted_lines_are_unified(s.skip(n));
        assert forall|i: int| 0 <= i < u.len() implies #[trigger] u[i] != '\r' by {
            if i > 0 {
                assert(u[i] == rest[i - 1]);
            }
        }
        if forall|i: int| 0 <= i < s.len() ==> #[trigger] s[i] != '\r' {
            assert forall|i: int| 0 <= i < s.skip(1).len() implies #[trigger] s.skip(1)[i]
                != '\r' by {
                assert(s[i + 1] != '\r');
            }
            assert(seq![s[0]] + s.skip(1) =~= s);
        }
    }
}

// ---------------------------------------------------------------------------
// Staging everything, path by path
// ---------------------------------------------------------------------------

/// When a path was staged and others are left, the next step stages the first of
/// them and hands on all the others, in their order; with none left the panels
/// are reloaded, and an error ends it. The application is as it was but for the
/// popup of an error.
pub proof fn staging_goes_on_with_all_the_others(
    app: AppView,
    rest: Seq<ChangeView>,
    msg: Seq<char>,
    e: Seq<char>,
)
    ensures
        rest.len() > 0 ==> {
            let (after, step) = staged_next(app, Ok(()), rest, msg);
            &&& after == app
            &&& step matches StepView::Stage { change, rest: others, msg: m } && {
                &&& change == rest[0]
                &&& others.len() == rest.len() - 1
                &&& forall|i: int| 0 <= i < others.len() ==> #[trigger] others[i] == rest[i + 1]
                &&& m == msg
            }
        },
        rest.len() == 0 ==> staged_next(app, Ok(()), rest, msg) == (
            app,
            StepView::LoadCommits(AfterView::Notify(msg)),
        ),
        staged_next(app, Err(e), rest, msg) == (
            AppView { mode: ModeView::Message(e), ..app },
            StepView::Done,
        ),
{
}

/// The changes that are staged from a step on while every one succeeds, and the
/// step that comes behind them.
pub open spec fn staged_in_turn(app: AppView, step: StepView) -> (Seq<ChangeView>, StepView)
    decreases steps_left(step),
{
    match step {
        StepView::Stage { change, rest, msg } => {
            let next = staged_next(app, Ok(()), rest, msg).1;
            if steps_left(next) < steps_left(step) {
                let (others, end) = staged_in_turn(app, next);
                (seq![change] + others, end)
            } else {
                (seq![change], step)
            }
        },
        _ => (Seq::empty(), step),
    }
}

proof fn lemma_staged_in_turn(app: AppView, work: Seq<ChangeView>, msg: Seq<char>)
    ensures
        staged_in_turn(app, staged_next(app, Ok(()), work, msg).1) == (
            work,
            StepView::LoadCommits(AfterView::Notify(msg)),
        ),
    decreases work.len(),
{
    let step = staged_next(app, Ok(()), work, msg).1;
    if work.len() > 0 {
        lemma_staged_in_turn(app, work.skip(1), msg);
        assert(seq![work[0]] + work.skip(1) =~= work);
    } else {
        assert(staged_in_turn(app, step).0 =~= work);
    }
}

/// The entries that are not staged.
pub open spec fn not_staged() -> spec_fn(EntryView) -> bool {
    |e: EntryView| e.section == Section::Unstaged || e.section == Section::Untracked
}

/// The change that stages an entry.
pub open spec fn change_of() -> spec_fn(EntryView) -> ChangeView {
    |e: EntryView| ChangeView { path: e.path, deleted: e.deleted }
}

proof fn lemma_pending(status: Seq<EntryView>)
    ensures
        pending(status) == status.filter(not_staged()).map_values(change_of()),
    decreases status.len(),
{
    reveal(Seq::filter);
    let p = not_staged();
    if status.len() > 0 {
        let init = status.drop_last();
        let e = status.last();
        lemma_pending(init);
        if p(e) {
            assert(status.filter(p) == init.filter(p).push(e));
        } else {
            assert(status.filter(p) == init.filter(p));
        }
    }
    assert(pending(status) =~= status.filter(p).map_values(change_of()));
}

/// The a key stages, as long as every one succeeds, exactly the entries of the
/// panel that are not staged, each once and in the order of the panel, and then
/// reloads the panels; nothing else changes before that.
pub proof fn the_a_key_stages_every_entry(app: AppView, key: KeyEvent)
    requires
        app.mode is Normal,
        app.focus != Focus::Diff,
        key.kind == KeyEventKind::Press,
        key.code == KeyCode::Char('a'),
    ensures
        pressed(app, key).0 == app,
        staged_in_turn(app, pressed(app, key).1) == (
            app.status.filter(not_staged()).map_values(change_of()),
            StepView::LoadCommits(AfterView::Notify("Staged all changes"@)),
        ),
{
    lemma_pending(app.status);
    lemma_staged_in_turn(app, pending(app.status), "Staged all changes"@);
}

// ---------------------------------------------------------------------------
// What a paste puts into the message
// ---------------------------------------------------------------------------

/// Whether a character is a control character: below the space, or from delete
/// up to the last one above it.
pub open spec fn unprintable(c: char) -> bool {
    c as u32 <= 0x1F || (0x7F <= c as u32 && c as u32 <= 0x9F)
}

proof fn lemma_concat_singles(parts: Seq<Seq<char>>, s: Seq<char>)
    requires
        parts.len() == s.len(),
        forall|i: int| 0 <= i < s.len() ==> #[trigger] parts[i] == seq![s[i]],
    ensures
        concat(parts) == s,
    decreases s.len(),
{
    if s.len() > 0 {
        lemma_concat_singles(parts.drop_last(), s.drop_last());
        assert(parts.last() == seq![s.last()]);
        assert(s.drop_last() + seq![s.last()] =~= s);
    } else {
        assert(concat(parts) =~= s);
    }
}

/// A pasted text without tabs, carriage returns and other control characters
/// lands in the message unchanged, line feeds and all.
pub proof fn plain_text_is_pasted_unchanged(s: Seq<char>)
    requires
        forall|i: int| 0 <= i < s.len() ==> (#[trigger] s[i]) == '\n' || !unprintable(s[i]),
    ensures
        pasted_text(s) == s,
{
    assert forall|i: int| 0 <= i < s.len() implies #[trigger] s[i] != '\r' by {
        assert(unprintable('\r'));
    }
    pasted_lines_are_unified(s);
    let parts = s.map_values(|c: char| pasted_char(c));
    assert forall|i: int| 0 <= i < s.len() implies #[trigger] parts[i] == seq![s[i]] by {
        assert(unprintable('\t'));
    }
    lemma_concat_singles(parts, s);
}

proof fn lemma_concat_adds_up(a: Seq<Seq<char>>, b: Seq<Seq<char>>)
    ensures
        concat(a + b) == concat(a) + concat(b),
    decreases b.len(),
{
    if b.len() == 0 {
        assert(a + b =~= a);
        assert(concat(a) + concat(b) =~= concat(a));
    } else {
        lemma_concat_adds_up(a, b.drop_last());
        assert((a + b).drop_last() =~= a + b.drop_last());
        assert(concat(a) + (concat(b.drop_last()) + b.last()) =~= (concat(a) + concat(
            b.drop_last(),
        )) + b.last());
    }
}

proof fn lemma_unified_adds_up(a: Seq<char>, b: Seq<char>)
    requires
        !(a.len() > 0 && b.len() > 0 && a.last() == '\r' && b[0] == '\n'),
    ensures
        unified(a + b) == unified(a) + unified(b),
    decreases a.len(),
{
    if a.len() == 0 {
        assert(a + b =~= b);
        assert(unified(a) + unified(b) =~= unified(b));
    } else {
        let n: int = if a[0] == '\r' && a.len() > 1 && a[1] == '\n' {
            2
        } else {
            1
        };
        lemma_unified_adds_up(a.skip(n), b);
        assert((a + b).skip(n) =~= a.skip(n) + b);
        if a.len() == 1 && b.len() > 0 {
            assert((a + b)[1] == b[0]);
        }
        assert(unified(a + b) =~= unified(a) + unified(b));
    }
}

/// Two texts pasted as one put into the message what they put there one after
/// the other, unless a line end is cut in two between them.
pub proof fn pastes_add_up(a: Seq<char>, b: Seq<char>)
    requires
        !(a.len() > 0 && b.len() > 0 && a.last() == '\r' && b[0] == '\n'),
    ensures
        pasted_text(a + b) == pasted_text(a) + pasted_text(b),
{
    lemma_unified_adds_up(a, b);
    let f = |c: char| pasted_char(c);
    assert((unified(a) + unified(b)).map_values(f) =~= unified(a).map_values(f) + unified(
        b,
    ).map_values(f));
    lemma_concat_adds_up(unified(a).map_values(f), unified(b).map_values(f));
}

/// A line end of either kind is pasted as a line feed, a tab as four spaces; of
/// the other characters, control characters are left out and every other is
/// itself.
pub proof fn one_character_is_pasted(c: char)
    ensures
        pasted_text(seq!['\r', '\n']) == seq!['\n'],
        c == '\r' || c == '\n' ==> pasted_text(seq![c]) == seq!['\n'],
        c == '\t' ==> pasted_text(seq![c]) == seq![' ', ' ', ' ', ' '],
        c != '\r' && c != '\n' && c != '\t' && unprintable(c) ==> pasted_text(seq![c]).len() == 0,
        !unprintable(c) ==> pasted_text(seq![c]) == seq![c],
        c as u32 > 0x9F ==> pasted_text(seq![c]) == seq![c],
        pasted_text(Seq::empty()).len() == 0,
{
    let f = |c: char| pasted_char(c);
    let none = Seq::<char>::empty();
    assert(unified(none) =~= none);
    assert(none.map_values(f) =~= Seq::empty());
    assert(concat(Seq::<Seq<char>>::empty()) =~= none);
    let crlf = seq!['\r', '\n'];
    assert(crlf.skip(2) =~= none);
    assert(unified(crlf) =~= seq!['\n']);
    let s = seq![c];
    assert(s.skip(1) =~= none);
    let d = if c == '\r' {
        '\n'
    } else {
        c
    };
    assert(unified(s) =~= seq![d]);
    lemma_concat_one(pasted_char(d));
    lemma_concat_one(pasted_char('\n'));
    assert(seq![d].map_values(f) =~= seq![pasted_char(d)]);
    assert(seq!['\n'].map_values(f) =~= seq![pasted_char('\n')]);
}

proof fn lemma_concat_one(part: Seq<char>)
    ensures
        concat(seq![part]) == part,
{
    assert(seq![part].drop_last() =~= Seq::empty());
    assert(concat(Seq::<Seq<char>>::empty()) =~= Seq::empty());
    assert(concat(seq![part]) =~= part);
}

/// A paste leaves the cursor behind it; where no message is being typed, it does
/// nothing.
pub proof fn pasting_goes_nowhere_else(app: AppView, data: Seq<char>)
    requires
        app.wf(),
    ensures
        !(app.mode is Input) ==> pasted(app, data) == app,
        app.mode matches ModeView::Input { editor } ==> {
            &&& pasted(app, data).wf()
            &&& pasted(app, data).mode->editor.offset() == editor.offset() + pasted_text(data).len()
        },
{
    if let ModeView::Input { editor } = app.mode {
        typing_changes_the_text_at_the_cursor(editor, pasted_text(data));
    }
}

// ---------------------------------------------------------------------------
// What the s and u keys act on
// ---------------------------------------------------------------------------

/// The line that the diff cursor is on: the selected one, or the first.
pub open spec fn cursor_line(p: PaneView) -> int {
    match p.state.selected {
        Some(i) => i as int,
        None => 0,
    }
}

/// Whether `lo..=hi` are the lines to act on: from the anchor of the highlight
/// to the cursor, or, without a highlight, the one hunk that holds the cursor.
pub open spec fn to_act_on(p: PaneView, lo: int, hi: int) -> bool {
    match p.anchor {
        Some(a) => lo <= hi && ((lo == a && hi == cursor_line(p)) || (lo == cursor_line(p) && hi
            == a)),
        None => one_hunk(p.lines, lo, hi) && lo <= cursor_line(p) <= hi,
    }
}

/// With a highlight, s and u act on the lines from its anchor to the cursor,
/// whichever comes first; without one, on the one hunk that holds the cursor, and
/// on no other line. They act on nothing exactly where there is no highlight and
/// the cursor is in no hunk.
pub proof fn keys_act_on_the_highlight_or_the_hunk(p: PaneView, lo: int, hi: int)
    ensures
        acted_on(p) == Some((lo, hi)) <==> to_act_on(p, lo, hi),
        acted_on(p) is None <==> p.anchor is None && forall|s: int, e: int|
            s <= cursor_line(p) <= e ==> !#[trigger] one_hunk(p.lines, s, e),
{
    the_hunk_found_is_the_one_around(p.lines, p.cursor(), lo, hi);
    no_hunk_is_found_only_outside_hunks(p.lines, p.cursor());
}

/// Whether a patch can be made of some lines: a change is among them, and the
/// header of every hunk with such a change can be read.
pub open spec fn patch_possible(lines: Seq<LineView>, k: Pick) -> bool {
    &&& exists|j: int| #[trigger] taken(lines, j, k) && past_a_header(lines, j)
    &&& !unreadable_from(lines, 0, k)
}

/// What every line puts into the patch, in order.
pub open spec fn all_parts(lines: Seq<LineView>, k: Pick) -> Seq<char> {
    Seq::new(lines.len(), |i: int| part(lines, i, k)).flatten()
}

/// The number of the changes that are picked.
pub open spec fn taken_count(lines: Seq<LineView>, k: Pick) -> nat {
    among(0, lines.len() as int, reached(lines, k)).len()
}

/// The number of the added and deleted lines.
pub open spec fn change_lines(lines: Seq<LineView>) -> nat {
    lines.filter(|l: LineView| l.kind == LineKind::Add || l.kind == LineKind::Del).len()
}

#[verifier::rlimit(40)]
proof fn lemma_s_and_u_keys(app: AppView, key: KeyEvent)
    requires
        app.mode is Normal,
        app.focus == Focus::Diff,
        key.kind == KeyEventKind::Press,
    ensures
        key.code == KeyCode::Char('s') ==> pressed(app, key) == lines_staged(app),
        key.code == KeyCode::Char('u') && !key.modifiers.control ==> pressed(app, key)
            == lines_unstaged(app),
{
}

proof fn lemma_acted_patch(p: PaneView, lo: int, hi: int, unstage: bool)
    requires
        to_act_on(p, lo, hi),
    ensures
        ({
            let k = Pick { lo, hi, unstage };
            acted_patch(p, unstage) == (if patch_possible(p.lines, k) {
                Ok::<(Seq<char>, nat), Seq<char>>(
                    (all_parts(p.lines, k), taken_count(p.lines, k)),
                )
            } else {
                Err("No +/− lines in the highlight"@)
            })
        }),
        changes(p.lines) == change_lines(p.lines),
{
    keys_act_on_the_highlight_or_the_hunk(p, lo, hi);
    a_patch_is_made_line_by_line(p.lines, Pick { lo, hi, unstage });
    changes_are_added_and_deleted_lines(p.lines);
}

/// The s key in the diff of an unstaged or untracked file asks for a patch of
/// exactly the lines it acts on, and says how many they are. An untracked file
/// gets an index entry first; a deletion is not split; and where there is nothing
/// to act on, the feedback says so and nothing else changes.
#[verifier::rlimit(40)]
pub proof fn the_s_key_stages_those_lines(
    app: AppView,
    key: KeyEvent,
    path: Seq<char>,
    untracked: bool,
    lo: int,
    hi: int,
)
    requires
        app.mode is Normal,
        app.focus == Focus::Diff,
        key.kind == KeyEventKind::Press,
        key.code == KeyCode::Char('s'),
        app.diff.source == (SourceView::File { path, staged: false, untracked }),
        to_act_on(app.diff, lo, hi),
    ensures
        ({
            let lines = app.diff.lines;
            let k = Pick { lo, hi, unstage: false };
            let patch = all_parts(lines, k);
            let msg = "Staged "@ + decimal(taken_count(lines, k)) + " line(s) of "@ + path;
            let split = taken_count(lines, k) < change_lines(lines) && first_announced(
                lines,
                WholeFile::Deleted,
            );
            &&& !patch_possible(lines, k) ==> pressed(app, key) == (
                AppView { status_line: "No +/− lines in the highlight"@, ..app },
                StepView::Done,
            )
            &&& patch_possible(lines, k) && untracked ==> pressed(app, key) == (
                app,
                StepView::IntentToAdd { path, patch, msg },
            )
            &&& patch_possible(lines, k) && !untracked && !split ==> pressed(app, key) == (
                app,
                StepView::Apply { patch, reverse: false, msg },
            )
            &&& patch_possible(lines, k) && !untracked && split ==> pressed(app, key) == (
                AppView {
                    status_line: "Deleted files stage as a whole — press s on the file in Changes"@,
                    ..app
                },
                StepView::Done,
            )
        }),
{
    lemma_s_and_u_keys(app, key);
    lemma_acted_patch(app.diff, lo, hi, false);
    whole_files_are_announced(app.diff.lines);
}

proof fn lemma_whole_files(lines: Seq<LineView>)
    ensures
        whole_file_from(lines, 0) is Some == (first_announced(lines, WholeFile::Deleted)
            || first_announced(lines, WholeFile::New)),
{
    whole_files_are_announced(lines);
    match whole_file_from(lines, 0) {
        Some(WholeFile::New) => {},
        Some(WholeFile::Deleted) => {},
        None => {},
    }
}

proof fn lemma_unstaging(
    app: AppView,
    r: (AppView, StepView),
    path: Seq<char>,
    untracked: bool,
    lo: int,
    hi: int,
)
    requires
        r == lines_unstaged(app),
        app.diff.source == (SourceView::File { path, staged: true, untracked }),
        to_act_on(app.diff, lo, hi),
    ensures
        ({
            let lines = app.diff.lines;
            let k = Pick { lo, hi, unstage: true };
            let patch = all_parts(lines, k);
            let msg = "Unstaged "@ + decimal(taken_count(lines, k)) + " line(s) of "@ + path;
            let split = taken_count(lines, k) < change_lines(lines) && (first_announced(
                lines,
                WholeFile::Deleted,
            ) || first_announced(lines, WholeFile::New));
            &&& !patch_possible(lines, k) ==> r == (
                AppView { status_line: "No +/− lines in the highlight"@, ..app },
                StepView::Done,
            )
            &&& patch_possible(lines, k) && !split ==> r == (
                app,
                StepView::Apply { patch, reverse: true, msg },
            )
            &&& patch_possible(lines, k) && split ==> r == (
                AppView {
                    status_line: "New/deleted files unstage as a whole — press u on the file in Changes"@,
                    ..app
                },
                StepView::Done,
            )
        }),
{
    lemma_acted_patch(app.diff, lo, hi, true);
    lemma_whole_files(app.diff.lines);
}

/// The u key in the diff of a staged file asks for the reverse of a patch of
/// exactly the lines it acts on, and says how many they are. A file that is
/// created or deleted as a whole is not split; and where there is nothing to act
/// on, the feedback says so and nothing else changes.
#[verifier::rlimit(40)]
pub proof fn the_u_key_unstages_those_lines(
    app: AppView,
    key: KeyEvent,
    path: Seq<char>,
    untracked: bool,
    lo: int,
    hi: int,
)
    requires
        app.mode is Normal,
        app.focus == Focus::Diff,
        key.kind == KeyEventKind::Press,
        key.code == KeyCode::Char('u'),
        !key.modifiers.control,
        app.diff.source == (SourceView::File { path, staged: true, untracked }),
        to_act_on(app.diff, lo, hi),
    ensures
        ({
            let lines = app.diff.lines;
            let k = Pick { lo, hi, unstage: true };
            let patch = all_parts(lines, k);
            let msg = "Unstaged "@ + decimal(taken_count(lines, k)) + " line(s) of "@ + path;
            let split = taken_count(lines, k) < change_lines(lines) && (first_announced(
                lines,
                WholeFile::Deleted,
            ) || first_announced(lines, WholeFile::New));
            &&& !patch_possible(lines, k) ==> pressed(app, key) == (
                AppView { status_line: "No +/− lines in the highlight"@, ..app },
                StepView::Done,
            )
            &&& patch_possible(lines, k) && !split ==> pressed(app, key) == (
                app,
                StepView::Apply { patch, reverse: true, msg },
            )
            &&& patch_possible(lines, k) && split ==> pressed(app, key) == (
                AppView {
                    status_line: "New/deleted files unstage as a whole — press u on the file in Changes"@,
                    ..app
                },
                StepView::Done,
            )
        }),
{
    lemma_s_and_u_keys(app, key);
    lemma_unstaging(app, pressed(app, key), path, untracked, lo, hi);
}

/// Where s or u cannot act on the diff at all, the feedback says why, and nothing
/// else changes: no file is shown, its lines are on the other side of the index,
/// or there is neither a highlight nor a hunk under the cursor.
#[verifier::rlimit(40)]
pub proof fn s_and_u_say_why_not(app: AppView, key: KeyEvent)
    requires
        app.mode is Normal,
        app.focus == Focus::Diff,
        key.kind == KeyEventKind::Press,
    ensures
        ({
            let r = pressed(app, key);
            let s = key.code == KeyCode::Char('s');
            let u = key.code == KeyCode::Char('u') && !key.modifiers.control;
            let nowhere = app.diff.anchor is None && forall|a: int, b: int|
                a <= cursor_line(app.diff) <= b ==> !#[trigger] one_hunk(app.diff.lines, a, b);
            let lost = "Highlight lines with Shift+Space or move into a hunk first"@;
            match app.diff.source {
                SourceView::File { path, staged, untracked } => {
                    &&& s && staged ==> r == (
                        AppView {
                            status_line: "These lines are already staged — u unstages them"@,
                            ..app
                        },
                        StepView::Done,
                    )
                    &&& u && !staged ==> r == (
                        AppView {
                            status_line: "These lines aren't staged yet — s stages them"@,
                            ..app
                        },
                        StepView::Done,
                    )
                    &&& ((s && !staged) || (u && staged)) && nowhere ==> r == (
                        AppView { status_line: lost, ..app },
                        StepView::Done,
                    )
                },
                _ => {
                    &&& s ==> r == (
                        AppView {
                            status_line: "Staging works on file diffs — pick a file in Changes"@,
                            ..app
                        },
                        StepView::Done,
                    )
                    &&& u ==> r == (
                        AppView {
                            status_line: "Unstaging works on file diffs — pick a staged file in Changes"@,
                            ..app
                        },
                        StepView::Done,
                    )
                },
            }
        }),
{
    keys_act_on_the_highlight_or_the_hunk(app.diff, 0, 0);
    lemma_s_and_u_keys(app, key);
}

// ---------------------------------------------------------------------------
// What each key is for
// ---------------------------------------------------------------------------

/// Shift with a vim direction or an arrow moves between the panes, from every
/// pane; a capital letter is its letter with Shift.
#[verifier::rlimit(40)]
pub proof fn shift_moves_between_panes(app: AppView, key: KeyEvent)
    requires
        app.mode is Normal,
        key.kind == KeyEventKind::Press,
    ensures
        ({
            let shift = key.modifiers.shift;
            let c = key.code;
            let h = KeyCode::Char('h');
            let j = KeyCode::Char('j');
            let k = KeyCode::Char('k');
            let l = KeyCode::Char('l');
            &&& c == KeyCode::Char('H') || (shift && (c == h || c == KeyCode::Left)) ==> pressed(
                app,
                key,
            ) == app.stepped(Dir::Left)
            &&& c == KeyCode::Char('J') || (shift && (c == j || c == KeyCode::Down)) ==> pressed(
                app,
                key,
            ) == app.stepped(Dir::Down)
            &&& c == KeyCode::Char('K') || (shift && (c == k || c == KeyCode::Up)) ==> pressed(
                app,
                key,
            ) == app.stepped(Dir::Up)
            &&& c == KeyCode::Char('L') || (shift && (c == l || c == KeyCode::Right)) ==> pressed(
                app,
                key,
            ) == app.stepped(Dir::Right)
        }),
{
}

/// The keys that work the same in every pane.
#[verifier::rlimit(40)]
pub proof fn some_keys_work_in_every_pane(app: AppView, key: KeyEvent)
    requires
        app.mode is Normal,
        key.kind == KeyEventKind::Press,
    ensures
        ({
            let r = pressed(app, key);
            let c = key.code;
            &&& c == KeyCode::Char('q') ==> r == (
                AppView { should_quit: true, ..app },
                StepView::Done,
            )
            &&& c == KeyCode::Tab ==> r == app.focused(next_focus(app.focus))
            &&& c == KeyCode::BackTab ==> r == app.focused(prev_focus(app.focus))
            &&& c == KeyCode::Char('?') ==> r == (
                AppView { mode: ModeView::Message(HELP@), ..app },
                StepView::Done,
            )
            &&& c == KeyCode::Char('r') ==> r == (app, StepView::LoadCommits(AfterView::Refreshed))
            &&& c == KeyCode::Char('p') ==> r == (app, StepView::Remote { args: seq!["push"@] })
            &&& c == KeyCode::Char('P') ==> r == (app, StepView::Remote { args: seq!["pull"@] })
            &&& c == KeyCode::Char('f') ==> r == (
                app,
                StepView::Remote { args: seq!["fetch"@, "--all"@] },
            )
        }),
{
}

proof fn lemma_staged_entries(v: Seq<EntryView>)
    ensures
        count_in(v, Section::Staged) == 0 <==> forall|i: int|
            0 <= i < v.len() ==> (#[trigger] v[i]).section != Section::Staged,
    decreases v.len(),
{
    if v.len() > 0 {
        let init = v.drop_last();
        lemma_staged_entries(init);
        if count_in(v, Section::Staged) == 0 {
            assert forall|i: int| 0 <= i < v.len() implies (#[trigger] v[i]).section
                != Section::Staged by {
                if i < init.len() {
                    assert(init[i] == v[i]);
                } else {
                    assert(v[i] == v.last());
                }
            }
        } else if forall|i: int| 0 <= i < v.len() ==> (#[trigger] v[i]).section != Section::Staged {
            assert forall|i: int| 0 <= i < init.len() implies (#[trigger] init[i]).section
                != Section::Staged by {
                assert(init[i] == v[i]);
            }
            assert(v[v.len() - 1].section != Section::Staged);
        }
    }
}

/// The c key opens an empty message exactly when an entry is staged; otherwise it
/// says that there is nothing to commit.
pub proof fn the_c_key_opens_a_message(app: AppView, key: KeyEvent)
    requires
        app.mode is Normal,
        key.kind == KeyEventKind::Press,
        key.code == KeyCode::Char('c'),
        !key.modifiers.control,
    ensures
        (forall|i: int|
            0 <= i < app.status.len() ==> (#[trigger] app.status[i]).section != Section::Staged)
            ==> pressed(app, key) == (
            AppView { status_line: "Nothing staged to commit — press s or a first"@, ..app },
            StepView::Done,
        ),
        (exists|i: int|
            0 <= i < app.status.len() && (#[trigger] app.status[i]).section == Section::Staged)
            ==> pressed(app, key) == (
            AppView {
                mode: ModeView::Input {
                    editor: EditorView { lines: seq![Seq::empty()], row: 0, col: 0 },
                },
                ..app
            },
            StepView::Done,
        ),
{
    lemma_staged_entries(app.status);
}

/// In the left panes the vim keys and the arrows move the selection, and Enter
/// and d go to the diff.
#[verifier::rlimit(40)]
pub proof fn keys_move_the_selection(app: AppView, key: KeyEvent)
    requires
        app.mode is Normal,
        app.focus != Focus::Diff,
        key.kind == KeyEventKind::Press,
    ensures
        ({
            let r = pressed(app, key);
            let c = key.code;
            let shift = key.modifiers.shift;
            &&& (c == KeyCode::Char('j') || c == KeyCode::Down) && !shift ==> r == app.moved(1)
            &&& (c == KeyCode::Char('k') || c == KeyCode::Up) && !shift ==> r == app.moved(-1)
            &&& c == KeyCode::Char('g') ==> r == app.jumped(false)
            &&& c == KeyCode::Char('G') ==> r == app.jumped(true)
            &&& c == KeyCode::Enter || c == KeyCode::Char('d') ==> r == app.focused(Focus::Diff)
        }),
{
}

/// In the changes pane s stages the selected entry, unless it is staged, and u
/// unstages it, if it is; the feedback names the file or says why not.
#[verifier::rlimit(40)]
pub proof fn s_and_u_act_on_the_selected_entry(app: AppView, key: KeyEvent, i: usize)
    requires
        app.mode is Normal,
        app.focus == Focus::Status,
        key.kind == KeyEventKind::Press,
        app.status_state.selected == Some(i),
        i < app.status.len(),
    ensures
        ({
            let r = pressed(app, key);
            let e = app.status[i as int];
            let s = key.code == KeyCode::Char('s');
            let u = key.code == KeyCode::Char('u');
            let staged = e.section == Section::Staged;
            &&& s && !staged ==> {
                &&& r.0 == app
                &&& r.1 matches StepView::Stage { change, rest, msg } && change.path == e.path
                    && change.deleted == e.deleted && rest.len() == 0 && msg == "Staged "@ + e.path
            }
            &&& s && staged ==> r == (
                AppView { status_line: "Already staged — use u to unstage"@, ..app },
                StepView::Done,
            )
            &&& u && staged ==> r == (
                app,
                StepView::Unstage { path: e.path, msg: "Unstaged "@ + e.path },
            )
            &&& u && !staged ==> r == (
                AppView { status_line: "That change isn't staged"@, ..app },
                StepView::Done,
            )
        }),
{
}

/// With no entry selected, or in the log, s and u only say so.
#[verifier::rlimit(40)]
pub proof fn s_and_u_need_a_selected_entry(app: AppView, key: KeyEvent)
    requires
        app.mode is Normal,
        key.kind == KeyEventKind::Press,
    ensures
        ({
            let r = pressed(app, key);
            let s = key.code == KeyCode::Char('s');
            let u = key.code == KeyCode::Char('u');
            let none = match app.status_state.selected {
                Some(i) => i >= app.status.len(),
                None => true,
            };
            &&& app.focus == Focus::Status && none && s ==> r == (
                AppView { status_line: "Nothing to stage"@, ..app },
                StepView::Done,
            )
            &&& app.focus == Focus::Status && none && u ==> r == (
                AppView { status_line: "Nothing to unstage"@, ..app },
                StepView::Done,
            )
            &&& app.focus == Focus::Log && s ==> r == (
                AppView {
                    status_line: "Staging acts on files — Shift+K to the Changes pane"@,
                    ..app
                },
                StepView::Done,
            )
            &&& app.focus == Focus::Log && u ==> r == (
                AppView {
                    status_line: "Unstaging acts on files — Shift+K to the Changes pane"@,
                    ..app
                },
                StepView::Done,
            )
        }),
{
}

/// In the diff pane the vim keys and the arrows move the cursor by a line, Ctrl+d
/// and Ctrl+u by half of the height of the pane, but at least by a line, and g and
/// G to an end; nothing else changes.
#[verifier::rlimit(40)]
pub proof fn keys_move_the_diff_cursor(app: AppView, key: KeyEvent, half: int)
    requires
        app.mode is Normal,
        app.focus == Focus::Diff,
        key.kind == KeyEventKind::Press,
        half >= 1,
        half == 1 || 2 * half <= app.diff.viewport,
        app.diff.viewport < 2 * half + 2,
    ensures
        ({
            let (after, step) = pressed(app, key);
            let c = key.code;
            let ctrl = key.modifiers.control;
            let n = app.diff.lines.len();
            let at = app.diff.state;
            let shift = key.modifiers.shift;
            let down = (c == KeyCode::Char('j') || c == KeyCode::Down) && !shift;
            let up = (c == KeyCode::Char('k') || c == KeyCode::Up) && !shift;
            let page_down = c == KeyCode::Char('d') && ctrl;
            let page_up = c == KeyCode::Char('u') && ctrl;
            let top = c == KeyCode::Char('g');
            let bottom = c == KeyCode::Char('G');
            &&& down || up || page_down || page_up || top || bottom ==> {
                &&& step is Done
                &&& after == AppView {
                    diff: PaneView { state: after.diff.state, ..app.diff },
                    ..app
                }
            }
            &&& down ==> after.diff.state == moved(at, n, 1)
            &&& up ==> after.diff.state == moved(at, n, -1)
            &&& page_down ==> after.diff.state == moved(at, n, half)
            &&& page_up ==> after.diff.state == moved(at, n, -half)
            &&& top ==> after.diff.state == jumped(at, n, false)
            &&& bottom ==> after.diff.state == jumped(at, n, true)
        }),
{
    assert(half_page(app.diff) == half) by {
        let v = app.diff.viewport as int;
        if v >= 2 {
            assert(2 * (v / 2) <= v < 2 * (v / 2) + 2);
        }
    }
}

/// Space starts a highlight at the cursor where the diff has any change, and ends
/// one; Escape ends one. Nothing changes but the highlight and the feedback.
#[verifier::rlimit(40)]
pub proof fn space_starts_and_ends_a_highlight(app: AppView, key: KeyEvent)
    requires
        app.mode is Normal,
        app.focus == Focus::Diff,
        key.kind == KeyEventKind::Press,
    ensures
        ({
            let r = pressed(app, key);
            let space = key.code == KeyCode::Char(' ');
            let esc = key.code == KeyCode::Esc;
            &&& (space || esc) && app.diff.anchor is Some ==> r == (
                AppView {
                    diff: PaneView { anchor: None, ..app.diff },
                    status_line: "Highlight cleared"@,
                    ..app
                },
                StepView::Done,
            )
            &&& esc && app.diff.anchor is None ==> r == (app, StepView::Done)
            &&& space && app.diff.anchor is None && change_lines(app.diff.lines) == 0 ==> r == (
                AppView { status_line: "Nothing to highlight in this diff"@, ..app },
                StepView::Done,
            )
            &&& space && app.diff.anchor is None && change_lines(app.diff.lines) > 0 ==> {
                &&& r.1 is Done
                &&& r.0.diff.anchor is Some
                &&& r.0.diff.anchor->0 == cursor_line(app.diff)
                &&& r.0 == AppView {
                    diff: PaneView { anchor: r.0.diff.anchor, ..app.diff },
                    status_line:
                        "Highlighting — j/k extend · s stage · u unstage · Space/Esc cancel"@,
                    ..app
                }
            }
        }),
{
    changes_are_added_and_deleted_lines(app.diff.lines);
}

/// Whether a key stands for something in normal mode, whatever is focused.
pub open spec fn known_everywhere(key: KeyEvent) -> bool {
    let c = key.code;
    let shift = key.modifiers.shift;
    ||| c == KeyCode::Char('H') || c == KeyCode::Char('J')
    ||| c == KeyCode::Char('K') || c == KeyCode::Char('L')
    ||| shift && (c == KeyCode::Char('h') || c == KeyCode::Char('j'))
    ||| shift && (c == KeyCode::Char('k') || c == KeyCode::Char('l'))
    ||| shift && (c == KeyCode::Left || c == KeyCode::Down)
    ||| shift && (c == KeyCode::Up || c == KeyCode::Right)
    ||| c == KeyCode::Char('q') || c == KeyCode::Tab || c == KeyCode::BackTab
    ||| c == KeyCode::Char('?') || c == KeyCode::Char('r') || c == KeyCode::Char('c')
    ||| c == KeyCode::Char('p') || c == KeyCode::Char('P') || c == KeyCode::Char('f')
    ||| c == KeyCode::Char('j') || c == KeyCode::Char('k')
    ||| c == KeyCode::Up || c == KeyCode::Down
    ||| c == KeyCode::Char('g') || c == KeyCode::Char('G')
    ||| c == KeyCode::Char('s') || c == KeyCode::Char('u')
}

/// A key that stands for nothing does nothing.
#[verifier::rlimit(40)]
pub proof fn unknown_keys_do_nothing(app: AppView, key: KeyEvent)
    requires
        app.mode is Normal,
        key.kind == KeyEventKind::Press,
        !known_everywhere(key),
        app.focus == Focus::Diff ==> key.code != KeyCode::Char(' ') && key.code != KeyCode::Esc
            && !(key.code == KeyCode::Char('d') && key.modifiers.control),
        app.focus != Focus::Diff ==> key.code != KeyCode::Enter && key.code != KeyCode::Char('d')
            && key.code != KeyCode::Char('a'),
    ensures
        pressed(app, key) == (app, StepView::Done),
{
}

/// A plain Enter hands a message in, which is then closed: without the white
/// space around it, or, if it is nothing else, not at all.
#[verifier::rlimit(40)]
pub proof fn enter_hands_a_message_in(app: AppView, key: KeyEvent)
    requires
        app.mode is Input,
        key.kind == KeyEventKind::Press,
        key.code == KeyCode::Enter,
        !key.modifiers.alt,
        !key.modifiers.shift,
    ensures
        ({
            let text = app.mode->editor.text();
            let blank = forall|i: int| 0 <= i < text.len() ==> white(#[trigger] text[i]);
            &&& !blank ==> pressed(app, key) == (
                AppView { mode: ModeView::Normal, ..app },
                StepView::Commit { message: trim(text) },
            )
            &&& blank ==> pressed(app, key) == (
                AppView {
                    mode: ModeView::Normal,
                    status_line: "Aborted: empty commit message"@,
                    ..app
                },
                StepView::Done,
            )
        }),
{
    trim_is_empty_iff_all_white(app.mode->editor.text());
}

/// While a message is typed, every other key edits it and changes nothing else:
/// a character is typed, Enter with Alt or Shift and Ctrl+n open a line, and the
/// other keys do what their names say.
#[verifier::rlimit(40)]
pub proof fn keys_edit_the_message(app: AppView, key: KeyEvent)
    requires
        app.mode is Input,
        key.kind == KeyEventKind::Press,
        key.code != KeyCode::Esc,
        !(key.code == KeyCode::Char('c') && key.modifiers.control),
        !(key.code == KeyCode::Enter && !key.modifiers.alt && !key.modifiers.shift),
    ensures
        ({
            let e = app.mode->editor;
            let (after, step) = pressed(app, key);
            let f = after.mode->editor;
            let ctrl = key.modifiers.control;
            let c = key.code;
            &&& after.mode is Input
            &&& after == AppView { mode: after.mode, ..app }
            &&& step is Done
            &&& c == KeyCode::Enter ==> f == e.newlined()
            &&& ctrl && c == KeyCode::Char('n') ==> f == e.newlined()
            &&& c == KeyCode::Home || (ctrl && c == KeyCode::Char('a')) ==> f == EditorView {
                col: 0,
                ..e
            }
            &&& c == KeyCode::End || (ctrl && c == KeyCode::Char('e')) ==> f == EditorView {
                col: e.lines[e.row].len() as int,
                ..e
            }
            &&& ctrl && c == KeyCode::Char('w') ==> f == e.word_deleted()
            &&& ctrl && c == KeyCode::Char('u') ==> f == e.start_deleted()
            &&& c == KeyCode::Backspace ==> f == e.backspaced()
            &&& c == KeyCode::Delete ==> f == e.deleted()
            &&& c == KeyCode::Left ==> f == e.moved_left()
            &&& c == KeyCode::Right ==> f == e.moved_right()
            &&& c == KeyCode::Up ==> f == e.moved_up()
            &&& c == KeyCode::Down ==> f == e.moved_down()
            &&& c == KeyCode::Tab || c == KeyCode::BackTab || c == KeyCode::Other ==> f == e
            &&& c matches KeyCode::Char(x) ==> {
                &&& !ctrl && !key.modifiers.alt ==> f == e.inserted(x)
                &&& !ctrl && key.modifiers.alt ==> f == e
                &&& ctrl && x != 'n' && x != 'a' && x != 'e' && x != 'w' && x != 'u' ==> f == e
            }
        }),
{
}

/// What was applied or undone is followed by a reload that says so; what failed
/// pops up and is followed by nothing; what a remote answered pops up, either
/// way, after a reload. A path that got its index entry has its patch applied.
pub proof fn every_outcome_is_told(
    app: AppView,
    e: Seq<char>,
    patch: Seq<char>,
    msg: Seq<char>,
    id: Id,
)
    ensures
        reported(app, Ok(()), msg) == (app, StepView::LoadCommits(AfterView::Notify(msg))),
        reported(app, Err(e), msg) == (
            AppView { mode: ModeView::Message(e), ..app },
            StepView::Done,
        ),
        intended_next(app, Ok(()), patch, msg) == (
            app,
            StepView::Apply { patch, reverse: false, msg },
        ),
        intended_next(app, Err(e), patch, msg) == (
            AppView { mode: ModeView::Message(e), ..app },
            StepView::Done,
        ),
        committed_next(app, Ok(id)) == (
            app,
            StepView::LoadCommits(AfterView::Notify("Committed "@ + hex(id).take(7))),
        ),
        committed_next(app, Err(e)) == (
            AppView { mode: ModeView::Message(e), ..app },
            StepView::Done,
        ),
        forall|out: String|
            either_text(Ok::<String, String>(out)) == #[trigger] out@ && either_text(
                Err::<String, String>(out),
            ) == out@,
{
}

/// The contents of a result are all that is in it.
pub proof fn results_leave_nothing_out(oid: Oid, e: String)
    ensures
        commit_result(Ok::<Oid, String>(oid)) == Ok::<Id, Seq<char>>(oid.bytes@),
        commit_result(Err::<Oid, String>(e)) == Err::<Id, Seq<char>>(e@),
        outcome(Ok::<(), String>(())) == Ok::<(), Seq<char>>(()),
        outcome(Err::<(), String>(e)) == Err::<(), Seq<char>>(e@),
{
}

} // verus!

//! Application state and the focus/mode state machine.
//!
//! Three panes: the staging area (Changes), the commit history (Log), and a
//! diff pane that always shows the diff of whatever is selected in the last
//! focused left pane. The diff pane has its own cursor and a visual-selection
//! anchor for line-level staging.
//!
//! Nothing here reaches into a repository. Where something has to be read from
//! one or done to one, a function returns the `Step` that asks for it, and what
//! came of the step is handed back to the function that goes on from there.

use vstd::prelude::*;

pub use crate::editor::Editor;
#[allow(unused_imports)]
use crate::editor::EditorView;
use crate::git::{CommitInfo, HeadInfo, Section, StatusEntry};
#[allow(unused_imports)]
use crate::git::{
    commit_views, entries, maybe_head, CommitView, EntryView, HeadView,
};
use crate::oid::Oid;
#[allow(unused_imports)]
use crate::oid::Id;
use crate::patch::DiffLine;
#[allow(unused_imports)]
use crate::patch::{doc, info_line, LineKind, LineView};
use crate::text::copy_of;
#[allow(unused_imports)]
use crate::text::texts;

verus! {

// ---------------------------------------------------------------------------
// Focus
// ---------------------------------------------------------------------------

/// Which panel currently receives navigation/action keys.
#[derive(Clone, Copy, PartialEq, Eq, Structural)]
pub enum Focus {
    Status,
    Log,
    Diff,
}

/// The pane behind another in the cycle.
pub open spec fn next_focus(f: Focus) -> Focus {
    match f {
        Focus::Status => Focus::Log,
        Focus::Log => Focus::Diff,
        Focus::Diff => Focus::Status,
    }
}

/// The pane before another in the cycle.
pub open spec fn prev_focus(f: Focus) -> Focus {
    match f {
        Focus::Status => Focus::Diff,
        Focus::Log => Focus::Status,
        Focus::Diff => Focus::Log,
    }
}

impl Focus {
    /// The next pane.
    pub fn next(self) -> (r: Focus)
        ensures
            r == next_focus(self),
    {
        match self {
            Focus::Status => Focus::Log,
            Focus::Log => Focus::Diff,
            Focus::Diff => Focus::Status,
        }
    }

    /// The previous pane.
    pub fn prev(self) -> (r: Focus)
        ensures
            r == prev_focus(self),
    {
        match self {
            Focus::Status => Focus::Diff,
            Focus::Log => Focus::Status,
            Focus::Diff => Focus::Log,
        }
    }
}

/// The cycle of the panes can be walked both ways and comes back after three.
pub proof fn focus_cycles(f: Focus)
    ensures
        prev_focus(next_focus(f)) == f,
        next_focus(prev_focus(f)) == f,
        next_focus(next_focus(next_focus(f))) == f,
        next_focus(f) != f,
{
}

/// A pane-movement direction (Shift+H/J/K/L).
#[derive(Clone, Copy, PartialEq, Eq, Structural)]
pub enum Dir {
    Left,
    Right,
    Up,
    Down,
}

// ---------------------------------------------------------------------------
// List selections
// ---------------------------------------------------------------------------

/// Where a list is scrolled to and which of its items is selected.
#[derive(Clone, Copy, PartialEq, Eq, Structural)]
pub struct ListState {
    pub offset: usize,
    pub selected: Option<usize>,
}

/// A selection as a caller puts it: without one, the list goes back to its top.
pub open spec fn selecting(state: ListState, index: Option<usize>) -> ListState {
    ListState {
        offset: if index is None {
            0
        } else {
            state.offset
        },
        selected: index,
    }
}

/// A list at its top with the first item selected.
pub open spec fn at_top() -> ListState {
    ListState { offset: 0, selected: Some(0usize) }
}

impl ListState {
    /// A list at its top with nothing selected.
    pub fn unselected() -> (r: ListState)
        ensures
            r == (ListState { offset: 0, selected: None }),
    {
        ListState { offset: 0, selected: None }
    }

    /// Select an item, or none.
    pub fn select(&mut self, index: Option<usize>)
        ensures
            *final(self) == selecting(*old(self), index),
    {
        self.selected = index;
        if index.is_none() {
            self.offset = 0;
        }
    }
}

/// Whether a selection fits a list of `len` items: an item that is there, or
/// none in an empty list.
pub open spec fn fits(state: ListState, len: nat) -> bool {
    match state.selected {
        Some(i) => i < len,
        None => len == 0,
    }
}

/// A selection made to fit a list of `len` items: the last item in place of one
/// behind it, the first in place of none.
pub open spec fn clamped(state: ListState, len: nat) -> ListState {
    if len == 0 {
        selecting(state, None)
    } else {
        match state.selected {
            Some(i) => if i >= len {
                selecting(state, Some((len - 1) as usize))
            } else {
                state
            },
            None => selecting(state, Some(0usize)),
        }
    }
}

/// Clamp a list's selection so it stays valid (and non-empty lists start
/// selected).
pub fn clamp(state: &mut ListState, len: usize)
    ensures
        *final(state) == clamped(*old(state), len as nat),
{
    if len == 0 {
        state.select(None);
        return;
    }
    match state.selected {
        Some(i) => {
            if i >= len {
                state.select(Some(len - 1));
            }
        },
        None => {
            state.select(Some(0));
        },
    }
}

/// An integer brought into the range from `lo` to `hi`.
pub open spec fn within(n: int, lo: int, hi: int) -> int {
    if n < lo {
        lo
    } else if n > hi {
        hi
    } else {
        n
    }
}

/// The item that is selected, or the first.
pub open spec fn position(state: ListState) -> int {
    match state.selected {
        Some(i) => i as int,
        None => 0,
    }
}

/// A selection `delta` items further, no further than the ends of the list.
pub open spec fn moved(state: ListState, len: nat, delta: int) -> ListState {
    if len == 0 {
        state
    } else {
        selecting(state, Some(within(position(state) + delta, 0, len - 1) as usize))
    }
}

/// Shift a selection by `delta`, saturating at both ends.
pub fn move_in(state: &mut ListState, len: usize, delta: i32)
    ensures
        *final(state) == moved(*old(state), len as nat, delta as int),
{
    if len == 0 {
        return;
    }
    let current: usize = match state.selected {
        Some(i) => i,
        None => 0,
    };
    let wanted: i128 = current as i128 + delta as i128;
    let last: usize = len - 1;
    let next: usize = if wanted < 0 {
        0
    } else if wanted > last as i128 {
        last
    } else {
        wanted as usize
    };
    state.select(Some(next));
}

/// The first or the last item of a list selected, if it has any.
pub open spec fn jumped(state: ListState, len: nat, end: bool) -> ListState {
    if len == 0 {
        state
    } else {
        selecting(
            state,
            Some(
                if end {
                    (len - 1) as usize
                } else {
                    0usize
                },
            ),
        )
    }
}

/// Select the first or the last item of a list.
fn jump_in(state: &mut ListState, len: usize, end: bool)
    ensures
        *final(state) == jumped(*old(state), len as nat, end),
{
    if len > 0 {
        state.select(
            Some(
                if end {
                    len - 1
                } else {
                    0
                },
            ),
        );
    }
}

/// A clamped selection fits its list, and one that fits is left alone.
pub proof fn clamping_makes_selections_fit(state: ListState, len: nat)
    requires
        len <= usize::MAX,
    ensures
        fits(clamped(state, len), len),
        fits(state, len) && len > 0 ==> clamped(state, len) == state,
{
}

/// Moving and jumping keep a selection in its list.
pub proof fn moving_keeps_selections_fitting(state: ListState, len: nat, delta: int, end: bool)
    requires
        len <= usize::MAX,
        fits(state, len),
    ensures
        fits(moved(state, len, delta), len),
        fits(jumped(state, len, end), len),
{
}

/// Steps in one direction add up.
pub proof fn moves_add_up(state: ListState, len: nat, a: int, b: int)
    requires
        0 < len <= usize::MAX,
        fits(state, len),
        (a >= 0 && b >= 0) || (a <= 0 && b <= 0),
    ensures
        moved(moved(state, len, a), len, b) == moved(state, len, a + b),
{
}

// ---------------------------------------------------------------------------
// Modes
// ---------------------------------------------------------------------------

/// The interaction mode. `Normal` routes keys to the focused panel; the others
/// are modal popups that capture all input until dismissed.
pub enum Mode {
    Normal,
    /// Typing a commit message.
    Input { editor: Editor },
    Message(String),
}

/// The contents of a mode.
#[verifier::ext_equal]
pub enum ModeView {
    Normal,
    Input { editor: EditorView },
    Message(Seq<char>),
}

impl View for Mode {
    type V = ModeView;

    open spec fn view(&self) -> ModeView {
        match self {
            Mode::Normal => ModeView::Normal,
            Mode::Input { editor } => ModeView::Input { editor: editor@ },
            Mode::Message(text) => ModeView::Message(text@),
        }
    }
}

// ---------------------------------------------------------------------------
// The diff pane
// ---------------------------------------------------------------------------

/// What the diff pane is currently showing.
pub enum DiffSource {
    Nothing,
    File { path: String, staged: bool, untracked: bool },
    Commit(Oid),
}

/// The contents of a source.
#[verifier::ext_equal]
pub enum SourceView {
    Nothing,
    File { path: Seq<char>, staged: bool, untracked: bool },
    Commit(Id),
}

impl View for DiffSource {
    type V = SourceView;

    open spec fn view(&self) -> SourceView {
        match self {
            DiffSource::Nothing => SourceView::Nothing,
            DiffSource::File { path, staged, untracked } => SourceView::File {
                path: path@,
                staged: *staged,
                untracked: *untracked,
            },
            DiffSource::Commit(oid) => SourceView::Commit(oid@),
        }
    }
}

impl DiffSource {
    /// Whether two sources are the same document.
    pub fn same(&self, other: &DiffSource) -> (r: bool)
        ensures
            r == (self@ == other@),
    {
        match (self, other) {
            (DiffSource::Nothing, DiffSource::Nothing) => true,
            (
                DiffSource::File { path, staged, untracked },
                DiffSource::File { path: p, staged: s, untracked: u },
            ) => *path == *p && *staged == *s && *untracked == *u,
            (DiffSource::Commit(a), DiffSource::Commit(b)) => a.same(b),
            _ => false,
        }
    }
}

/// The diff pane: a document with a cursor and an optional highlight anchor.
pub struct DiffView {
    pub source: DiffSource,
    pub title: String,
    pub lines: Vec<DiffLine>,
    pub state: ListState,
    /// Visual-selection anchor (Shift+Space); the highlight spans anchor..=cursor.
    pub anchor: Option<usize>,
    /// Inner height of the pane at last render, used for half-page jumps.
    pub viewport: u16,
}

/// The contents of the diff pane.
#[verifier::ext_equal]
pub struct PaneView {
    pub source: SourceView,
    pub title: Seq<char>,
    pub lines: Seq<LineView>,
    pub state: ListState,
    pub anchor: Option<usize>,
    pub viewport: u16,
}

impl View for DiffView {
    type V = PaneView;

    open spec fn view(&self) -> PaneView {
        PaneView {
            source: self.source@,
            title: self.title@,
            lines: doc(self.lines@),
            state: self.state,
            anchor: self.anchor,
            viewport: self.viewport,
        }
    }
}

impl PaneView {
    /// A pane that shows nothing yet.
    pub open spec fn empty() -> PaneView {
        PaneView {
            source: SourceView::Nothing,
            title: "Diff"@,
            lines: seq![info_line("(nothing selected)"@)],
            state: at_top(),
            anchor: None,
            viewport: 0,
        }
    }

    /// The line that the cursor is on.
    pub open spec fn cursor(self) -> int {
        position(self.state)
    }

    /// The highlighted lines, first and last, if a highlight is active.
    pub open spec fn selection(self) -> Option<(int, int)> {
        match self.anchor {
            Some(a) => if a <= self.cursor() {
                Some((a as int, self.cursor()))
            } else {
                Some((self.cursor(), a as int))
            },
            None => None,
        }
    }

    /// The pane with another document in it. The cursor stays when the source
    /// is the same, and goes to the top otherwise; the highlight ends.
    pub open spec fn showing(
        self,
        source: SourceView,
        title: Seq<char>,
        lines: Seq<LineView>,
    ) -> PaneView {
        let last = if lines.len() > 0 {
            lines.len() - 1
        } else {
            0
        };
        PaneView {
            source,
            title,
            lines,
            state: if source == self.source {
                selecting(self.state, Some(within(self.cursor(), 0, last) as usize))
            } else {
                at_top()
            },
            anchor: None,
            viewport: self.viewport,
        }
    }
}

/// A range of lines as the functions hand it out.
pub open spec fn range(r: Option<(usize, usize)>) -> Option<(int, int)> {
    match r {
        Some((lo, hi)) => Some((lo as int, hi as int)),
        None => None,
    }
}

impl DiffView {
    /// A pane that shows nothing yet.
    pub fn empty() -> (r: DiffView)
        ensures
            r@ == PaneView::empty(),
    {
        let mut lines: Vec<DiffLine> = Vec::new();
        lines.push(DiffLine::info("(nothing selected)"));
        let r = DiffView {
            source: DiffSource::Nothing,
            title: copy_of("Diff"),
            lines,
            state: ListState { offset: 0, selected: Some(0) },
            anchor: None,
            viewport: 0,
        };
        assert(r@.lines =~= PaneView::empty().lines);
        r
    }

    /// The line that the cursor is on.
    pub fn cursor(&self) -> (r: usize)
        ensures
            r == self@.cursor(),
    {
        match self.state.selected {
            Some(i) => i,
            None => 0,
        }
    }

    /// Move the cursor by `delta` lines.
    pub fn move_cursor(&mut self, delta: i32)
        ensures
            final(self)@ == (PaneView {
                state: moved(old(self)@.state, old(self)@.lines.len(), delta as int),
                ..old(self)@
            }),
    {
        let ghost was = self@;
        move_in(&mut self.state, self.lines.len(), delta);
        assert(self@.lines =~= was.lines);
    }

    /// Move the cursor to the first or the last line.
    pub fn jump(&mut self, end: bool)
        ensures
            final(self)@ == (PaneView {
                state: jumped(old(self)@.state, old(self)@.lines.len(), end),
                ..old(self)@
            }),
    {
        let ghost was = self@;
        jump_in(&mut self.state, self.lines.len(), end);
        assert(self@.lines =~= was.lines);
    }

    /// Highlighted display range (lo, hi), if a selection is active.
    pub fn selection(&self) -> (r: Option<(usize, usize)>)
        ensures
            range(r) == self@.selection(),
    {
        match self.anchor {
            Some(a) => {
                let c: usize = self.cursor();
                if a <= c {
                    Some((a, c))
                } else {
                    Some((c, a))
                }
            },
            None => None,
        }
    }

    /// Show another document.
    fn show(&mut self, source: DiffSource, title: String, lines: Vec<DiffLine>)
        ensures
            final(self)@ == old(self)@.showing(source@, title@, doc(lines@)),
    {
        let ghost was = self@;
        if source.same(&self.source) {
            let len: usize = lines.len();
            let last: usize = if len > 0 {
                len - 1
            } else {
                0
            };
            let cursor: usize = self.cursor();
            self.state.select(
                Some(
                    if cursor > last {
                        last
                    } else {
                        cursor
                    },
                ),
            );
        } else {
            // New document: fresh state so the scroll offset resets too.
            self.state = ListState { offset: 0, selected: Some(0) };
        }
        self.source = source;
        self.title = title;
        self.lines = lines;
        self.anchor = None;
    }
}

/// Whatever is shown, the cursor is on one of its lines, and nothing is
/// highlighted.
pub proof fn the_cursor_stays_in_the_document(
    p: PaneView,
    source: SourceView,
    title: Seq<char>,
    lines: Seq<LineView>,
)
    requires
        lines.len() <= usize::MAX,
    ensures
        lines.len() > 0 ==> p.showing(source, title, lines).cursor() < lines.len(),
        p.showing(source, title, lines).state.selected is Some,
        p.showing(source, title, lines).selection() is None,
{
}

/// The same document shown again keeps the cursor where it was, as far as the
/// document still goes there; another document starts at its top.
pub proof fn a_document_shown_again_keeps_the_cursor(
    p: PaneView,
    source: SourceView,
    title: Seq<char>,
    lines: Seq<LineView>,
)
    requires
        lines.len() <= usize::MAX,
    ensures
        source == p.source && p.cursor() < lines.len() ==> p.showing(source, title, lines).cursor()
            == p.cursor(),
        source != p.source ==> p.showing(source, title, lines).state == at_top(),
{
}

/// A highlight spans from its anchor to the cursor, both of them in it.
pub proof fn highlights_hold_anchor_and_cursor(p: PaneView)
    requires
        p.anchor is Some,
    ensures
        ({
            let (lo, hi) = p.selection()->0;
            &&& lo <= p.cursor() <= hi
            &&& lo <= p.anchor->0 <= hi
            &&& lo == p.cursor() || hi == p.cursor()
            &&& lo == p.anchor->0 || hi == p.anchor->0
        }),
{
}

// ---------------------------------------------------------------------------
// Steps
// ---------------------------------------------------------------------------

/// What to do once the panels have been reloaded, or once that has failed.
pub enum After {
    /// Nothing.
    Rest,
    /// The program is starting: give up on an error.
    Start,
    /// The panels were reloaded on request: show an error, or reload them once
    /// more and say so.
    Refreshed,
    /// Show a line of feedback, whatever came of it.
    Notify(String),
    /// Show a popup, whatever came of it.
    Popup(String),
}

/// The contents of what is to be done afterwards.
#[verifier::ext_equal]
pub enum AfterView {
    Rest,
    Start,
    Refreshed,
    Notify(Seq<char>),
    Popup(Seq<char>),
}

impl View for After {
    type V = AfterView;

    open spec fn view(&self) -> AfterView {
        match self {
            After::Rest => AfterView::Rest,
            After::Start => AfterView::Start,
            After::Refreshed => AfterView::Refreshed,
            After::Notify(msg) => AfterView::Notify(msg@),
            After::Popup(text) => AfterView::Popup(text@),
        }
    }
}

/// A path to stage.
pub struct Change {
    pub path: String,
    /// Deleted in the working tree.
    pub deleted: bool,
}

/// The contents of a path to stage.
#[verifier::ext_equal]
pub struct ChangeView {
    pub path: Seq<char>,
    pub deleted: bool,
}

impl View for Change {
    type V = ChangeView;

    open spec fn view(&self) -> ChangeView {
        ChangeView { path: self.path@, deleted: self.deleted }
    }
}

/// The contents of a list of paths to stage.
pub open spec fn change_views(v: Seq<Change>) -> Seq<ChangeView> {
    v.map_values(|c: Change| c@)
}

/// What has to be read from the repository or done to it next. What came of it
/// goes to the function that each variant names, with what else it holds.
pub enum Step {
    /// Nothing: wait for the next key.
    Done,
    /// Nothing: the program cannot start.
    Failed(String),
    /// Load the log, for `commits_loaded`.
    LoadCommits(After),
    /// Load the working-tree list, for `status_loaded`.
    LoadStatus(After),
    /// Load the branch's standing, for `head_loaded`.
    LoadHead(After),
    /// Load the document of a source, for `diff_loaded`.
    LoadDiff { source: DiffSource, title: String, after: After },
    /// Stage a path, for `staged`.
    Stage { change: Change, rest: Vec<Change>, msg: String },
    /// Unstage a path, for `report`.
    Unstage { path: String, msg: String },
    /// Give a path an index entry, for `intended`.
    IntentToAdd { path: String, patch: String, msg: String },
    /// Apply a patch to the index, for `report`.
    Apply { patch: String, reverse: bool, msg: String },
    /// Commit the index, for `committed`.
    Commit { message: String },
    /// Run git with these arguments, for `remote`.
    Remote { args: Vec<String> },
}

/// The contents of a step.
#[verifier::ext_equal]
pub enum StepView {
    Done,
    Failed(Seq<char>),
    LoadCommits(AfterView),
    LoadStatus(AfterView),
    LoadHead(AfterView),
    LoadDiff { source: SourceView, title: Seq<char>, after: AfterView },
    Stage { change: ChangeView, rest: Seq<ChangeView>, msg: Seq<char> },
    Unstage { path: Seq<char>, msg: Seq<char> },
    IntentToAdd { path: Seq<char>, patch: Seq<char>, msg: Seq<char> },
    Apply { patch: Seq<char>, reverse: bool, msg: Seq<char> },
    Commit { message: Seq<char> },
    Remote { args: Seq<Seq<char>> },
}

impl View for Step {
    type V = StepView;

    open spec fn view(&self) -> StepView {
        match self {
            Step::Done => StepView::Done,
            Step::Failed(e) => StepView::Failed(e@),
            Step::LoadCommits(after) => StepView::LoadCommits(after@),
            Step::LoadStatus(after) => StepView::LoadStatus(after@),
            Step::LoadHead(after) => StepView::LoadHead(after@),
            Step::LoadDiff { source, title, after } => StepView::LoadDiff {
                source: source@,
                title: title@,
                after: after@,
            },
            Step::Stage { change, rest, msg } => StepView::Stage {
                change: change@,
                rest: change_views(rest@),
                msg: msg@,
            },
            Step::Unstage { path, msg } => StepView::Unstage { path: path@, msg: msg@ },
            Step::IntentToAdd { path, patch, msg } => StepView::IntentToAdd {
                path: path@,
                patch: patch@,
                msg: msg@,
            },
            Step::Apply { patch, reverse, msg } => StepView::Apply {
                patch: patch@,
                reverse: *reverse,
                msg: msg@,
            },
            Step::Commit { message } => StepView::Commit { message: message@ },
            Step::Remote { args } => StepView::Remote { args: texts(args@) },
        }
    }
}

// ---------------------------------------------------------------------------
// The application
// ---------------------------------------------------------------------------

/// All application state that must survive from one frame to the next.
pub struct App {
    pub commits: Vec<CommitInfo>,
    pub status: Vec<StatusEntry>,
    /// Current branch and its standing (None on an empty repository).
    pub head: Option<HeadInfo>,
    pub log_state: ListState,
    pub status_state: ListState,
    pub focus: Focus,
    /// Which left pane (Status or Log) last drove the diff pane.
    pub last_left: Focus,
    pub diff: DiffView,
    pub mode: Mode,
    /// Transient one-line feedback shown in the bottom bar.
    pub status_line: String,
    pub should_quit: bool,
}

/// The contents of the application.
#[verifier::ext_equal]
pub struct AppView {
    pub commits: Seq<CommitView>,
    pub status: Seq<EntryView>,
    pub head: Option<HeadView>,
    pub log_state: ListState,
    pub status_state: ListState,
    pub focus: Focus,
    pub last_left: Focus,
    pub diff: PaneView,
    pub mode: ModeView,
    pub status_line: Seq<char>,
    pub should_quit: bool,
}

impl View for App {
    type V = AppView;

    open spec fn view(&self) -> AppView {
        AppView {
            commits: commit_views(self.commits@),
            status: entries(self.status@),
            head: maybe_head(self.head),
            log_state: self.log_state,
            status_state: self.status_state,
            focus: self.focus,
            last_left: self.last_left,
            diff: self.diff@,
            mode: self.mode@,
            status_line: self.status_line@,
            should_quit: self.should_quit,
        }
    }
}

/// The word for a group of changes.
pub open spec fn flavor(section: Section) -> Seq<char> {
    match section {
        Section::Staged => "staged"@,
        Section::Unstaged => "unstaged"@,
        Section::Untracked => "untracked"@,
    }
}

impl AppView {
    /// The cursor of a message that is being typed stands in its text.
    pub open spec fn wf(self) -> bool {
        self.mode matches ModeView::Input { editor } ==> editor.wf()
    }

    /// The application as it starts, before anything is loaded.
    pub open spec fn starting() -> AppView {
        AppView {
            commits: Seq::empty(),
            status: Seq::empty(),
            head: None,
            log_state: ListState { offset: 0, selected: None },
            status_state: ListState { offset: 0, selected: None },
            focus: Focus::Status,
            last_left: Focus::Status,
            diff: PaneView::empty(),
            mode: ModeView::Normal,
            status_line: "Welcome to git-viz — press ? for help"@,
            should_quit: false,
        }
    }

    /// A line of feedback shown.
    pub open spec fn notified(self, msg: Seq<char>) -> AppView {
        AppView { status_line: msg, ..self }
    }

    /// A popup shown.
    pub open spec fn popped_up(self, text: Seq<char>) -> AppView {
        AppView { mode: ModeView::Message(text), ..self }
    }

    /// The commit that is selected in the log.
    pub open spec fn selected_commit(self) -> Option<CommitView> {
        match self.log_state.selected {
            Some(i) => if i < self.commits.len() {
                Some(self.commits[i as int])
            } else {
                None
            },
            None => None,
        }
    }

    /// The change that is selected in the working-tree list.
    pub open spec fn selected_status(self) -> Option<EntryView> {
        match self.status_state.selected {
            Some(i) => if i < self.status.len() {
                Some(self.status[i as int])
            } else {
                None
            },
            None => None,
        }
    }

    /// What the diff pane has to show, and under which title: whatever the
    /// driving left pane has selected.
    pub open spec fn target(self) -> (SourceView, Seq<char>) {
        if self.last_left == Focus::Log {
            match self.selected_commit() {
                Some(c) => (
                    SourceView::Commit(c.id),
                    "commit "@ + c.short_id + " — "@ + c.summary,
                ),
                None => (SourceView::Nothing, "Diff"@),
            }
        } else {
            match self.selected_status() {
                Some(e) => (
                    SourceView::File {
                        path: e.path,
                        staged: e.section == Section::Staged,
                        untracked: e.section == Section::Untracked,
                    },
                    e.path + " — "@ + flavor(e.section),
                ),
                None => (SourceView::Nothing, "Diff"@),
            }
        }
    }

    /// A document shown in the diff pane.
    pub open spec fn showing(
        self,
        source: SourceView,
        title: Seq<char>,
        lines: Seq<LineView>,
    ) -> AppView {
        AppView { diff: self.diff.showing(source, title, lines), ..self }
    }

    /// What follows a reload of the panels that ended with `error`, or well.
    pub open spec fn finished(self, after: AfterView, error: Option<Seq<char>>) -> (
        AppView,
        StepView,
    ) {
        match after {
            AfterView::Rest => (self, StepView::Done),
            AfterView::Start => match error {
                Some(e) => (self, StepView::Failed(e)),
                None => (self, StepView::Done),
            },
            AfterView::Refreshed => match error {
                Some(e) => (self.popped_up(e), StepView::Done),
                None => (self, StepView::LoadCommits(AfterView::Notify("Refreshed"@))),
            },
            AfterView::Notify(msg) => (self.notified(msg), StepView::Done),
            AfterView::Popup(text) => (self.popped_up(text), StepView::Done),
        }
    }

    /// The diff pane pointed at its target: the document has to be loaded,
    /// unless nothing is selected.
    pub open spec fn rebuilt(self, after: AfterView) -> (AppView, StepView) {
        let (source, title) = self.target();
        if source == SourceView::Nothing {
            self.showing(
                source,
                title,
                seq![info_line("(nothing selected — pick a file or commit)"@)],
            ).finished(after, None)
        } else {
            (self, StepView::LoadDiff { source, title, after })
        }
    }

    /// The document of the diff pane arrived; an error is shown in its place.
    pub open spec fn with_diff(
        self,
        source: SourceView,
        title: Seq<char>,
        lines: Result<Seq<LineView>, Seq<char>>,
        after: AfterView,
    ) -> (AppView, StepView) {
        self.showing(
            source,
            title,
            match lines {
                Ok(l) => l,
                Err(e) => seq![info_line(e)],
            },
        ).finished(after, None)
    }

    /// The log arrived.
    pub open spec fn with_commits(
        self,
        commits: Result<Seq<CommitView>, Seq<char>>,
        after: AfterView,
    ) -> (AppView, StepView) {
        match commits {
            Ok(c) => (AppView { commits: c, ..self }, StepView::LoadStatus(after)),
            Err(e) => self.finished(after, Some(e)),
        }
    }

    /// The working-tree list arrived.
    pub open spec fn with_status(
        self,
        status: Result<Seq<EntryView>, Seq<char>>,
        after: AfterView,
    ) -> (AppView, StepView) {
        match status {
            Ok(s) => (AppView { status: s, ..self }, StepView::LoadHead(after)),
            Err(e) => self.finished(after, Some(e)),
        }
    }

    /// The branch's standing arrived: the last of what a reload reads. The
    /// selections are made to fit, and the diff pane follows them.
    pub open spec fn with_head(self, head: Option<HeadView>, after: AfterView) -> (
        AppView,
        StepView,
    ) {
        AppView {
            head,
            log_state: clamped(self.log_state, self.commits.len()),
            status_state: clamped(self.status_state, self.status.len()),
            ..self
        }.rebuilt(after)
    }

    /// The selection of the focused left panel changed to `state`.
    pub open spec fn reselected(self, state: ListState) -> AppView {
        if self.focus == Focus::Log {
            AppView { log_state: state, ..self }
        } else {
            AppView { status_state: state, ..self }
        }
    }

    /// The selection and the length of the focused left panel.
    pub open spec fn focused_list(self) -> (ListState, nat) {
        if self.focus == Focus::Log {
            (self.log_state, self.commits.len())
        } else {
            (self.status_state, self.status.len())
        }
    }

    /// The selection of the focused left panel moved by `delta`.
    pub open spec fn moved(self, delta: int) -> (AppView, StepView) {
        let (state, len) = self.focused_list();
        self.reselected(moved(state, len, delta)).rebuilt(AfterView::Rest)
    }

    /// The selection of the focused left panel moved to an end.
    pub open spec fn jumped(self, end: bool) -> (AppView, StepView) {
        let (state, len) = self.focused_list();
        self.reselected(jumped(state, len, end)).rebuilt(AfterView::Rest)
    }

    /// Another pane focused. When the driving left pane changes, the diff pane
    /// follows it.
    pub open spec fn focused(self, f: Focus) -> (AppView, StepView) {
        let now = AppView { focus: f, ..self };
        if self.focus != f && f != Focus::Diff && self.last_left != f {
            AppView { last_left: f, ..now }.rebuilt(AfterView::Rest)
        } else {
            (now, StepView::Done)
        }
    }

    /// The pane in a direction, if there is one.
    pub open spec fn neighbor(self, d: Dir) -> Option<Focus> {
        match (self.focus, d) {
            (Focus::Status, Dir::Down) => Some(Focus::Log),
            (Focus::Log, Dir::Up) => Some(Focus::Status),
            (Focus::Status, Dir::Right) => Some(Focus::Diff),
            (Focus::Log, Dir::Right) => Some(Focus::Diff),
            (Focus::Diff, Dir::Left) => Some(self.last_left),
            _ => None,
        }
    }

    /// The pane in a direction focused.
    pub open spec fn stepped(self, d: Dir) -> (AppView, StepView) {
        match self.neighbor(d) {
            Some(f) => self.focused(f),
            None => (self, StepView::Done),
        }
    }
}

/// The result of a load, with what it holds.
pub open spec fn loaded_lines(r: Result<Vec<DiffLine>, String>) -> Result<
    Seq<LineView>,
    Seq<char>,
> {
    match r {
        Ok(v) => Ok(doc(v@)),
        Err(e) => Err(e@),
    }
}

/// The result of a load, with what it holds.
pub open spec fn loaded_commits(r: Result<Vec<CommitInfo>, String>) -> Result<
    Seq<CommitView>,
    Seq<char>,
> {
    match r {
        Ok(v) => Ok(commit_views(v@)),
        Err(e) => Err(e@),
    }
}

/// The result of a load, with what it holds.
pub open spec fn loaded_status(r: Result<Vec<StatusEntry>, String>) -> Result<
    Seq<EntryView>,
    Seq<char>,
> {
    match r {
        Ok(v) => Ok(entries(v@)),
        Err(e) => Err(e@),
    }
}

impl App {
    /// The cursor of a message that is being typed stands in its text.
    pub open spec fn wf(self) -> bool {
        self@.wf()
    }

    /// Whether the cursor of a message that is being typed stands in its text.
    pub fn is_wf(&self) -> (r: bool)
        ensures
            r == self.wf(),
    {
        match &self.mode {
            Mode::Input { editor } => {
                assert(editor@.lines.len() == editor.lines@.len());
                editor.row < editor.lines.len() && {
                    assert(editor@.line() == editor.lines@[editor.row as int]@);
                    editor.col <= editor.lines[editor.row].as_str().unicode_len()
                }
            },
            _ => true,
        }
    }

    /// The application as it starts, and the step that loads every panel.
    pub fn load() -> (r: (App, Step))
        ensures
            r.0@ == AppView::starting(),
            r.1@ == StepView::LoadCommits(AfterView::Start),
            r.0.wf(),
    {
        let app = App {
            commits: Vec::new(),
            status: Vec::new(),
            head: None,
            log_state: ListState::unselected(),
            status_state: ListState::unselected(),
            focus: Focus::Status,
            last_left: Focus::Status,
            diff: DiffView::empty(),
            mode: Mode::Normal,
            status_line: copy_of("Welcome to git-viz — press ? for help"),
            should_quit: false,
        };
        assert(app@ =~= AppView::starting());
        (app, App::refresh(After::Start))
    }

    /// Record feedback shown in the bottom bar.
    pub fn notify(&mut self, msg: &str)
        ensures
            final(self)@ == old(self)@.notified(msg@),
    {
        self.status_line = copy_of(msg);
    }

    /// Show a popup.
    pub fn pop_up(&mut self, text: String)
        ensures
            final(self)@ == old(self)@.popped_up(text@),
    {
        self.mode = Mode::Message(text);
    }

    /// Reload the panels from the repository. Asked for after every mutation,
    /// so that what is shown always reflects the real state.
    pub fn refresh(after: After) -> (r: Step)
        ensures
            r@ == StepView::LoadCommits(after@),
    {
        Step::LoadCommits(after)
    }

    /// Go on after a reload of the panels.
    fn finish(&mut self, after: After, error: Option<String>) -> (r: Step)
        ensures
            (final(self)@, r@) == old(self)@.finished(
                after@,
                match error {
                    Some(e) => Some(e@),
                    None => None,
                },
            ),
    {
        match after {
            After::Rest => Step::Done,
            After::Start => match error {
                Some(e) => Step::Failed(e),
                None => Step::Done,
            },
            After::Refreshed => match error {
                Some(e) => {
                    self.pop_up(e);
                    Step::Done
                },
                None => App::refresh(After::Notify(copy_of("Refreshed"))),
            },
            After::Notify(msg) => {
                self.notify(msg.as_str());
                Step::Done
            },
            After::Popup(text) => {
                self.pop_up(text);
                Step::Done
            },
        }
    }

    /// The log was loaded.
    pub fn commits_loaded(
        &mut self,
        commits: Result<Vec<CommitInfo>, String>,
        after: After,
    ) -> (r: Step)
        ensures
            (final(self)@, r@) == old(self)@.with_commits(loaded_commits(commits), after@),
    {
        match commits {
            Ok(c) => {
                self.commits = c;
                Step::LoadStatus(after)
            },
            Err(e) => self.finish(after, Some(e)),
        }
    }

    /// The working-tree list was loaded.
    pub fn status_loaded(
        &mut self,
        status: Result<Vec<StatusEntry>, String>,
        after: After,
    ) -> (r: Step)
        ensures
            (final(self)@, r@) == old(self)@.with_status(loaded_status(status), after@),
    {
        match status {
            Ok(s) => {
                self.status = s;
                Step::LoadHead(after)
            },
            Err(e) => self.finish(after, Some(e)),
        }
    }

    /// The branch's standing was loaded: clamp the selections to the new sizes
    /// and retarget the diff pane.
    pub fn head_loaded(&mut self, head: Option<HeadInfo>, after: After) -> (r: Step)
        ensures
            (final(self)@, r@) == old(self)@.with_head(maybe_head(head), after@),
    {
        self.head = head;
        clamp(&mut self.log_state, self.commits.len());
        clamp(&mut self.status_state, self.status.len());
        self.rebuild_diff(after)
    }

    // --- navigation -------------------------------------------------------

    /// Move the selection in the focused left panel by `delta`, clamped to
    /// range, and retarget the diff pane.
    pub fn move_selection(&mut self, delta: i32) -> (r: Step)
        ensures
            (final(self)@, r@) == old(self)@.moved(delta as int),
    {
        if self.focus == Focus::Log {
            move_in(&mut self.log_state, self.commits.len(), delta);
        } else {
            move_in(&mut self.status_state, self.status.len(), delta);
        }
        self.rebuild_diff(After::Rest)
    }

    /// Jump the focused left panel's selection to the first or last entry.
    pub fn jump_selection(&mut self, end: bool) -> (r: Step)
        ensures
            (final(self)@, r@) == old(self)@.jumped(end),
    {
        if self.focus == Focus::Log {
            jump_in(&mut self.log_state, self.commits.len(), end);
        } else {
            jump_in(&mut self.status_state, self.status.len(), end);
        }
        self.rebuild_diff(After::Rest)
    }

    /// Focus a pane.
    pub fn set_focus(&mut self, f: Focus) -> (r: Step)
        ensures
            (final(self)@, r@) == old(self)@.focused(f),
    {
        if self.focus == f {
            return Step::Done;
        }
        self.focus = f;
        if f != Focus::Diff && self.last_left != f {
            self.last_left = f;
            return self.rebuild_diff(After::Rest);
        }
        Step::Done
    }

    /// Directional pane movement (Shift + h/j/k/l).
    pub fn focus_dir(&mut self, d: Dir) -> (r: Step)
        ensures
            (final(self)@, r@) == old(self)@.stepped(d),
    {
        let next = match (self.focus, d) {
            (Focus::Status, Dir::Down) => Focus::Log,
            (Focus::Log, Dir::Up) => Focus::Status,
            (Focus::Status, Dir::Right) => Focus::Diff,
            (Focus::Log, Dir::Right) => Focus::Diff,
            (Focus::Diff, Dir::Left) => self.last_left,
            _ => {
                return Step::Done;
            },
        };
        self.set_focus(next)
    }

    /// The commit that is selected in the log.
    pub fn selected_commit(&self) -> (r: Option<&CommitInfo>)
        ensures
            match r {
                Some(c) => self@.selected_commit() == Some(c@),
                None => self@.selected_commit() is None,
            },
    {
        match self.log_state.selected {
            Some(i) => if i < self.commits.len() {
                Some(&self.commits[i])
            } else {
                None
            },
            None => None,
        }
    }

    /// The change that is selected in the working-tree list.
    pub fn selected_status(&self) -> (r: Option<&StatusEntry>)
        ensures
            match r {
                Some(e) => self@.selected_status() == Some(e@),
                None => self@.selected_status() is None,
            },
    {
        match self.status_state.selected {
            Some(i) => if i < self.status.len() {
                Some(&self.status[i])
            } else {
                None
            },
            None => None,
        }
    }

    // --- diff pane --------------------------------------------------------

    /// What the diff pane has to show, and under which title.
    fn diff_target(&self) -> (r: (DiffSource, String))
        ensures
            (r.0@, r.1@) == self@.target(),
    {
        if self.last_left == Focus::Log {
            match self.selected_commit() {
                Some(c) => {
                    let mut title = copy_of("commit ");
                    title.append(c.short_id.as_str());
                    title.append(" — ");
                    title.append(c.summary.as_str());
                    (DiffSource::Commit(c.oid), title)
                },
                None => (DiffSource::Nothing, copy_of("Diff")),
            }
        } else {
            match self.selected_status() {
                Some(e) => {
                    let flavor = match e.section {
                        Section::Staged => "staged",
                        Section::Unstaged => "unstaged",
                        Section::Untracked => "untracked",
                    };
                    let mut title = copy_of(e.path.as_str());
                    title.append(" — ");
                    title.append(flavor);
                    (
                        DiffSource::File {
                            path: copy_of(e.path.as_str()),
                            staged: e.staged(),
                            untracked: e.section == Section::Untracked,
                        },
                        title,
                    )
                },
                None => (DiffSource::Nothing, copy_of("Diff")),
            }
        }
    }

    /// Point the diff pane at whatever the driving left pane has selected.
    pub fn rebuild_diff(&mut self, after: After) -> (r: Step)
        ensures
            (final(self)@, r@) == old(self)@.rebuilt(after@),
    {
        let (source, title) = self.diff_target();
        match source {
            DiffSource::Nothing => {
                let mut lines: Vec<DiffLine> = Vec::new();
                lines.push(
                    DiffLine::info("(nothing selected — pick a file or commit)"),
                );
                assert(doc(lines@) =~= seq![
                    info_line("(nothing selected — pick a file or commit)"@),
                ]);
                self.diff.show(DiffSource::Nothing, title, lines);
                self.finish(after, None)
            },
            source => Step::LoadDiff { source, title, after },
        }
    }

    /// The document of the diff pane was loaded. Keeps the cursor when the
    /// source is unchanged (e.g. after a partial stage); resets it when the
    /// document changes.
    pub fn diff_loaded(
        &mut self,
        source: DiffSource,
        title: String,
        lines: Result<Vec<DiffLine>, String>,
        after: After,
    ) -> (r: Step)
        ensures
            (final(self)@, r@) == old(self)@.with_diff(
                source@,
                title@,
                loaded_lines(lines),
                after@,
            ),
    {
        let lines = match lines {
            Ok(l) => l,
            Err(e) => {
                let mut l: Vec<DiffLine> = Vec::new();
                l.push(DiffLine::info(e.as_str()));
                assert(doc(l@) =~= seq![info_line(e@)]);
                l
            },
        };
        self.diff.show(source, title, lines);
        self.finish(after, None)
    }
}

// ---------------------------------------------------------------------------
// What the application promises
// ---------------------------------------------------------------------------

/// The steps that may still follow a reload that ends with `after`.
pub open spec fn steps_after(after: AfterView) -> nat {
    if after == AfterView::Refreshed {
        5
    } else {
        0
    }
}

/// A bound on the steps that are still to be taken.
pub open spec fn steps_left(s: StepView) -> nat {
    match s {
        StepView::Done => 0,
        StepView::Failed(_) => 0,
        StepView::LoadDiff { source, title, after } => 1 + steps_after(after),
        StepView::LoadHead(after) => 2 + steps_after(after),
        StepView::LoadStatus(after) => 3 + steps_after(after),
        StepView::LoadCommits(after) => 4 + steps_after(after),
        StepView::Stage { change, rest, msg } => 10 + rest.len(),
        StepView::Unstage { path, msg } => 10,
        StepView::Apply { patch, reverse, msg } => 10,
        StepView::IntentToAdd { path, patch, msg } => 11,
        StepView::Commit { message } => 10,
        StepView::Remote { args } => 10,
    }
}

/// Every reload comes to an end, whatever is read: each step leaves fewer.
pub proof fn reloads_end(
    app: AppView,
    after: AfterView,
    commits: Result<Seq<CommitView>, Seq<char>>,
    status: Result<Seq<EntryView>, Seq<char>>,
    head: Option<HeadView>,
    source: SourceView,
    title: Seq<char>,
    lines: Result<Seq<LineView>, Seq<char>>,
)
    ensures
        steps_left(app.with_commits(commits, after).1) < steps_left(StepView::LoadCommits(after)),
        steps_left(app.with_status(status, after).1) < steps_left(StepView::LoadStatus(after)),
        steps_left(app.with_head(head, after).1) < steps_left(StepView::LoadHead(after)),
        steps_left(app.with_diff(source, title, lines, after).1) < steps_left(
            StepView::LoadDiff { source, title, after },
        ),
{
}

/// The diff pane shows what the driving left pane has selected.
pub open spec fn in_step(app: AppView) -> bool {
    app.diff.source == app.target().0
}

/// Once everything that a reload asks for has been read, the panels show it,
/// the selections fit the lists, and the diff pane shows the document of the
/// selection, with no highlight.
pub proof fn a_reload_shows_what_was_read(
    app: AppView,
    commits: Seq<CommitView>,
    status: Seq<EntryView>,
    head: Option<HeadView>,
    lines: Result<Seq<LineView>, Seq<char>>,
)
    requires
        commits.len() <= usize::MAX,
        status.len() <= usize::MAX,
    ensures
        ({
            let after = AfterView::Rest;
            let (a, s1) = app.with_commits(Ok(commits), after);
            let (b, s2) = a.with_status(Ok(status), after);
            let (c, s3) = b.with_head(head, after);
            let (source, title) = c.target();
            let (d, s4) = if source == SourceView::Nothing {
                (c, s3)
            } else {
                c.with_diff(source, title, lines, after)
            };
            &&& s1 == StepView::LoadStatus(after)
            &&& s2 == StepView::LoadHead(after)
            &&& source != SourceView::Nothing ==> s3 == StepView::LoadDiff { source, title, after }
            &&& s4 == StepView::Done
            &&& d.commits == commits
            &&& d.status == status
            &&& d.head == head
            &&& fits(d.log_state, commits.len())
            &&& fits(d.status_state, status.len())
            &&& in_step(d)
            &&& d.diff.title == title
            &&& d.diff.anchor is None
            &&& d.mode == app.mode
            &&& d.focus == app.focus
            &&& d.last_left == app.last_left
            &&& d.status_line == app.status_line
            &&& d.should_quit == app.should_quit
        }),
{
    clamping_makes_selections_fit(app.log_state, commits.len());
    clamping_makes_selections_fit(app.status_state, status.len());
}

/// Whether the diff pane is in step, or will be once the document that is asked
/// for has arrived: that is the one of the selection.
pub open spec fn follows(r: (AppView, StepView), lines: Result<Seq<LineView>, Seq<char>>) -> bool {
    let (app, step) = r;
    match step {
        StepView::LoadDiff { source, title, after } => {
            &&& (source, title) == app.target()
            &&& in_step(app.with_diff(source, title, lines, after).0)
        },
        _ => in_step(app),
    }
}

/// The diff pane follows the selection, whatever moves it.
pub proof fn the_diff_pane_follows(
    app: AppView,
    delta: int,
    end: bool,
    f: Focus,
    d: Dir,
    lines: Result<Seq<LineView>, Seq<char>>,
)
    requires
        in_step(app),
    ensures
        follows(app.moved(delta), lines),
        follows(app.jumped(end), lines),
        follows(app.focused(f), lines),
        follows(app.stepped(d), lines),
{
}

/// The pane that drives the diff pane is one of the two on the left.
pub proof fn a_left_pane_drives(app: AppView, delta: int, end: bool, f: Focus, d: Dir)
    requires
        app.last_left != Focus::Diff,
    ensures
        app.moved(delta).0.last_left != Focus::Diff,
        app.jumped(end).0.last_left != Focus::Diff,
        app.focused(f).0.last_left != Focus::Diff,
        app.stepped(d).0.last_left != Focus::Diff,
        AppView::starting().last_left != Focus::Diff,
{
}

/// Going right from a left pane and back left leads to the pane one came from.
pub proof fn left_undoes_right(app: AppView)
    requires
        app.focus != Focus::Diff,
        app.last_left == app.focus,
    ensures
        app.stepped(Dir::Right).1 == StepView::Done,
        app.stepped(Dir::Right).0.focus == Focus::Diff,
        app.stepped(Dir::Right).0.stepped(Dir::Left) == (app, StepView::Done),
{
    assert(app.stepped(Dir::Right).0.stepped(Dir::Left).0 =~= app);
}

/// Whether every cursor is on something: the selections fit their lists, and
/// the diff cursor is on a line of the document.
pub open spec fn cursors_fit(app: AppView) -> bool {
    &&& app.commits.len() <= usize::MAX
    &&& app.status.len() <= usize::MAX
    &&& fits(app.log_state, app.commits.len())
    &&& fits(app.status_state, app.status.len())
    &&& app.diff.cursor() < app.diff.lines.len() <= usize::MAX
}

/// Moving about keeps every cursor on something, and so does showing a
/// document that has any lines.
pub proof fn moving_keeps_the_cursors_fitting(
    app: AppView,
    delta: int,
    end: bool,
    f: Focus,
    d: Dir,
    source: SourceView,
    title: Seq<char>,
    lines: Seq<LineView>,
    after: AfterView,
)
    requires
        cursors_fit(app),
        0 < lines.len() <= usize::MAX,
    ensures
        cursors_fit(app.moved(delta).0),
        cursors_fit(app.jumped(end).0),
        cursors_fit(app.focused(f).0),
        cursors_fit(app.stepped(d).0),
        cursors_fit(app.with_diff(source, title, Ok(lines), after).0),
{
    moving_keeps_selections_fitting(app.log_state, app.commits.len(), delta, end);
    moving_keeps_selections_fitting(app.status_state, app.status.len(), delta, end);
}

// ---------------------------------------------------------------------------
// How selections, panes and documents move
// ---------------------------------------------------------------------------

/// The panes follow one another from the changes to the log to the diff and back
/// to the changes; the other way round goes back.
pub proof fn panes_follow_in_order(f: Focus)
    ensures
        f == Focus::Status ==> next_focus(f) == Focus::Log && prev_focus(f) == Focus::Diff,
        f == Focus::Log ==> next_focus(f) == Focus::Diff && prev_focus(f) == Focus::Status,
        f == Focus::Diff ==> next_focus(f) == Focus::Status && prev_focus(f) == Focus::Log,
{
}

/// A selection moves by exactly what is asked for, unless an end of the list is
/// in the way: it stops there. It jumps to exactly the first or the last item.
/// Neither scrolls the list, and an empty list is left alone.
pub proof fn selections_move_as_asked(state: ListState, len: nat, delta: int, end: bool)
    requires
        len <= usize::MAX,
    ensures
        len == 0 ==> moved(state, len, delta) == state && jumped(state, len, end) == state,
        len > 0 ==> {
            let at = match state.selected {
                Some(i) => i as int,
                None => 0,
            };
            let m = moved(state, len, delta);
            let j = jumped(state, len, end);
            &&& m.selected is Some && j.selected is Some
            &&& m.offset == state.offset && j.offset == state.offset
            &&& 0 <= at + delta < len ==> m.selected->0 == at + delta
            &&& at + delta < 0 ==> m.selected->0 == 0
            &&& at + delta >= len ==> m.selected->0 == len - 1
            &&& end ==> j.selected->0 == len - 1
            &&& !end ==> j.selected->0 == 0
        },
{
}

/// A selection is changed only where it does not fit: the last item in place of
/// one behind it, the first in place of none, and none, at the top, in an empty
/// list.
pub proof fn selections_are_changed_only_to_fit(state: ListState, len: nat)
    requires
        len <= usize::MAX,
    ensures
        len == 0 ==> clamped(state, len) == (ListState { offset: 0, selected: None }),
        len > 0 ==> {
            let c = clamped(state, len);
            &&& c.offset == state.offset
            &&& state.selected is Some && state.selected->0 < len ==> c.selected
                == state.selected
            &&& state.selected is Some && state.selected->0 >= len ==> c.selected == Some(
                (len - 1) as usize,
            )
            &&& state.selected is None ==> c.selected == Some(0usize)
        },
        selecting(state, None) == (ListState { offset: 0, selected: None }),
        forall|i: usize|
            selecting(state, Some(i)) == (ListState { offset: state.offset, selected: Some(i) }),
{
}

/// A document that is shown is shown as it is, under its title. The cursor stays
/// on its line where the document is the same, or goes to the last line where
/// that is gone; in another document everything is at the top. A highlight ends,
/// and the height of the pane is what it was.
pub proof fn documents_are_shown_as_they_are(
    p: PaneView,
    source: SourceView,
    title: Seq<char>,
    lines: Seq<LineView>,
)
    requires
        lines.len() <= usize::MAX,
    ensures
        ({
            let r = p.showing(source, title, lines);
            let at = match p.state.selected {
                Some(i) => i as int,
                None => 0,
            };
            &&& r.source == source
            &&& r.title == title
            &&& r.lines == lines
            &&& r.anchor is None
            &&& r.viewport == p.viewport
            &&& source != p.source ==> r.state == (ListState { offset: 0, selected: Some(0usize) })
            &&& source == p.source ==> {
                &&& r.state.offset == p.state.offset
                &&& r.state.selected is Some
                &&& at < lines.len() ==> r.state.selected->0 == at
                &&& 0 < lines.len() <= at ==> r.state.selected->0 == lines.len() - 1
                &&& lines.len() == 0 ==> r.state.selected->0 == 0
            }
        }),
{
}

/// Without an anchor nothing is highlighted; with one, a line is highlighted
/// exactly when it is between the anchor and the cursor or is one of them.
pub proof fn a_line_is_highlighted_between_anchor_and_cursor(p: PaneView, i: int)
    ensures
        p.anchor is None <==> p.selection() is None,
        p.anchor matches Some(a) ==> p.selection() matches Some((lo, hi)) && {
            let at = match p.state.selected {
                Some(s) => s as int,
                None => 0,
            };
            lo <= i <= hi <==> a <= i <= at || at <= i <= a
        },
{
}

/// The changes drive the diff pane unless the log does. The document is the one
/// of the selected entry, or of the selected commit, and its title names both it
/// and where it stands; nothing selected is no document.
pub proof fn the_selection_is_the_target(app: AppView)
    ensures
        app.last_left == Focus::Log ==> {
            match app.log_state.selected {
                Some(i) => if i < app.commits.len() {
                    let c = app.commits[i as int];
                    app.target() == (
                        SourceView::Commit(c.id),
                        "commit "@ + c.short_id + " — "@ + c.summary,
                    )
                } else {
                    app.target() == (SourceView::Nothing, "Diff"@)
                },
                None => app.target() == (SourceView::Nothing, "Diff"@),
            }
        },
        app.last_left != Focus::Log ==> {
            match app.status_state.selected {
                Some(i) => if i < app.status.len() {
                    let e = app.status[i as int];
                    let (source, title) = app.target();
                    &&& source matches SourceView::File { path, staged, untracked } && {
                        &&& path == e.path
                        &&& staged <==> e.section == Section::Staged
                        &&& untracked <==> e.section == Section::Untracked
                    }
                    &&& e.section == Section::Staged ==> title == e.path + " — "@ + "staged"@
                    &&& e.section == Section::Unstaged ==> title == e.path + " — "@ + "unstaged"@
                    &&& e.section == Section::Untracked ==> title == e.path + " — "@
                        + "untracked"@
                } else {
                    app.target() == (SourceView::Nothing, "Diff"@)
                },
                None => app.target() == (SourceView::Nothing, "Diff"@),
            }
        },
{
}

/// A reload that ends well says what it was asked to say, and nothing else
/// changes; one that was asked for by a key reads everything once more and says
/// so. One that fails shows its error where a key asked for it, and is the end of
/// a program that is starting.
pub proof fn a_reload_ends_as_asked(app: AppView, e: Seq<char>, text: Seq<char>)
    ensures
        app.finished(AfterView::Rest, None) == (app, StepView::Done),
        app.finished(AfterView::Rest, Some(e)) == (app, StepView::Done),
        app.finished(AfterView::Start, None) == (app, StepView::Done),
        app.finished(AfterView::Start, Some(e)) == (app, StepView::Failed(e)),
        app.finished(AfterView::Refreshed, None) == (
            app,
            StepView::LoadCommits(AfterView::Notify("Refreshed"@)),
        ),
        app.finished(AfterView::Refreshed, Some(e)) == (
            AppView { mode: ModeView::Message(e), ..app },
            StepView::Done,
        ),
        forall|error: Option<Seq<char>>|
            #[trigger] app.finished(AfterView::Notify(text), error) == (
                AppView { status_line: text, ..app },
                StepView::Done,
            ),
        forall|error: Option<Seq<char>>|
            #[trigger] app.finished(AfterView::Popup(text), error) == (
                AppView { mode: ModeView::Message(text), ..app },
                StepView::Done,
            ),
        app.notified(text) == (AppView { status_line: text, ..app }),
        app.popped_up(text) == (AppView { mode: ModeView::Message(text), ..app }),
{
}

/// A reload reads the log, then the changes, then the branch, then the document
/// of the selection. Each is shown as it was read and nothing else changes, but
/// that the selections are made to fit; an error ends the reload.
pub proof fn a_reload_reads_everything_in_turn(
    app: AppView,
    commits: Seq<CommitView>,
    status: Seq<EntryView>,
    head: Option<HeadView>,
    e: Seq<char>,
    after: AfterView,
)
    ensures
        app.with_commits(Ok(commits), after) == (
            AppView { commits, ..app },
            StepView::LoadStatus(after),
        ),
        app.with_commits(Err(e), after) == app.finished(after, Some(e)),
        app.with_status(Ok(status), after) == (
            AppView { status, ..app },
            StepView::LoadHead(after),
        ),
        app.with_status(Err(e), after) == app.finished(after, Some(e)),
        ({
            let log_state = clamped(app.log_state, app.commits.len());
            let status_state = clamped(app.status_state, app.status.len());
            let now = AppView { head, log_state, status_state, ..app };
            &&& now.target().0 != SourceView::Nothing ==> app.with_head(head, after) == (
                now,
                StepView::LoadDiff { source: now.target().0, title: now.target().1, after },
            )
            &&& now.target().0 == SourceView::Nothing ==> app.with_head(head, after)
                == now.with_diff(
                SourceView::Nothing,
                "Diff"@,
                Err("(nothing selected — pick a file or commit)"@),
                after,
            )
        }),
{
    let log_state = clamped(app.log_state, app.commits.len());
    let status_state = clamped(app.status_state, app.status.len());
    let now = AppView { head, log_state, status_state, ..app };
    if now.target().0 == SourceView::Nothing {
        assert(now.target().1 == "Diff"@);
    }
}

/// A document that arrives is shown, and its error is shown in its place, as a
/// line that is part of no patch; nothing else changes, and the reload goes on.
pub proof fn a_document_that_arrives_is_shown(
    app: AppView,
    source: SourceView,
    title: Seq<char>,
    lines: Seq<LineView>,
    e: Seq<char>,
    after: AfterView,
)
    ensures
        app.with_diff(source, title, Ok(lines), after) == (AppView {
            diff: app.diff.showing(source, title, lines),
            ..app
        }).finished(after, None),
        app.with_diff(source, title, Err(e), after) == (AppView {
            diff: app.diff.showing(
                source,
                title,
                seq![LineView { kind: LineKind::Meta, text: e, raw: Seq::empty() }],
            ),
            ..app
        }).finished(after, None),
{
}

/// Whether a pane that was asked to show its target does so: the document is
/// asked for and nothing else changes, or nothing is selected and it says so.
pub open spec fn points_at_target(now: AppView, r: (AppView, StepView)) -> bool {
    let (source, title) = now.target();
    if source != SourceView::Nothing {
        r == (now, StepView::LoadDiff { source, title, after: AfterView::Rest })
    } else {
        let notice = "(nothing selected — pick a file or commit)"@;
        let lines = seq![LineView { kind: LineKind::Meta, text: notice, raw: Seq::empty() }];
        r == (
            AppView { diff: now.diff.showing(SourceView::Nothing, "Diff"@, lines), ..now },
            StepView::Done,
        )
    }
}

/// Moving the selection moves it in the list of the log where the log is focused
/// and in the list of the changes otherwise, leaves the other list alone, and has
/// the diff pane follow; nothing else changes.
pub proof fn moves_go_to_the_focused_list(app: AppView, delta: int, end: bool)
    ensures
        app.focus == Focus::Log ==> {
            &&& points_at_target(
                AppView { log_state: moved(app.log_state, app.commits.len(), delta), ..app },
                app.moved(delta),
            )
            &&& points_at_target(
                AppView { log_state: jumped(app.log_state, app.commits.len(), end), ..app },
                app.jumped(end),
            )
        },
        app.focus != Focus::Log ==> {
            &&& points_at_target(
                AppView { status_state: moved(app.status_state, app.status.len(), delta), ..app },
                app.moved(delta),
            )
            &&& points_at_target(
                AppView { status_state: jumped(app.status_state, app.status.len(), end), ..app },
                app.jumped(end),
            )
        },
{
}

/// Focusing a pane changes nothing else, unless it is a left pane that was not
/// driving the diff pane: that one drives it from here on.
pub proof fn a_left_pane_that_is_focused_drives(app: AppView, f: Focus)
    ensures
        f == Focus::Diff || f == app.focus || f == app.last_left ==> app.focused(f) == (
            AppView { focus: f, ..app },
            StepView::Done,
        ),
        f != Focus::Diff && f != app.focus && f != app.last_left ==> points_at_target(
            AppView { focus: f, last_left: f, ..app },
            app.focused(f),
        ),
{
}

/// The changes are above the log, and the diff is on the right of both; going
/// left from it leads to the pane that drives it. Where there is no pane, nothing
/// happens.
pub proof fn panes_stand_where_they_are_drawn(app: AppView, d: Dir)
    ensures
        app.focus == Focus::Status && d == Dir::Down ==> app.stepped(d) == app.focused(Focus::Log),
        app.focus == Focus::Log && d == Dir::Up ==> app.stepped(d) == app.focused(Focus::Status),
        app.focus != Focus::Diff && d == Dir::Right ==> app.stepped(d) == app.focused(Focus::Diff),
        app.focus == Focus::Diff && d == Dir::Left ==> app.stepped(d) == app.focused(
            app.last_left,
        ),
        app.focus == Focus::Status && (d == Dir::Up || d == Dir::Left) ==> app.stepped(d) == (
            app,
            StepView::Done,
        ),
        app.focus == Focus::Log && (d == Dir::Down || d == Dir::Left) ==> app.stepped(d) == (
            app,
            StepView::Done,
        ),
        app.focus == Focus::Diff && d != Dir::Left ==> app.stepped(d) == (app, StepView::Done),
{
}

/// The program starts on the changes, with nothing loaded, selected, highlighted
/// or typed.
pub proof fn the_program_starts_empty()
    ensures
        ({
            let s = AppView::starting();
            &&& s.commits.len() == 0 && s.status.len() == 0 && s.head is None
            &&& s.log_state == (ListState { offset: 0, selected: None })
            &&& s.status_state == (ListState { offset: 0, selected: None })
            &&& s.focus == Focus::Status && s.last_left == Focus::Status
            &&& s.mode is Normal
            &&& !s.should_quit
            &&& s.status_line == "Welcome to git-viz — press ? for help"@
            &&& s.diff.source == SourceView::Nothing
            &&& s.diff.title == "Diff"@
            &&& s.diff.lines == seq![
                LineView {
                    kind: LineKind::Meta,
                    text: "(nothing selected)"@,
                    raw: Seq::empty(),
                },
            ]
            &&& s.diff.state == (ListState { offset: 0, selected: Some(0usize) })
            &&& s.diff.anchor is None
            &&& s.diff.viewport == 0
        }),
{
}

/// The contents of the application are all that is in it.
pub proof fn the_contents_leave_nothing_out(app: App, pane: DiffView, c: Change)
    ensures
        app@.commits.len() == app.commits@.len(),
        app@.status.len() == app.status@.len(),
        forall|i: int| 0 <= i < app.commits@.len() ==> #[trigger] app@.commits[i] == app.commits@[i]@,
        forall|i: int| 0 <= i < app.status@.len() ==> #[trigger] app@.status[i] == app.status@[i]@,
        app.head is Some <==> app@.head is Some,
        app.head is Some ==> app@.head->0 == app.head->0@,
        app@.log_state == app.log_state && app@.status_state == app.status_state,
        app@.focus == app.focus && app@.last_left == app.last_left,
        app@.diff == app.diff@ && app@.mode == app.mode@,
        app@.status_line == app.status_line@ && app@.should_quit == app.should_quit,
        pane@.title == pane.title@ && pane@.state == pane.state && pane@.anchor == pane.anchor,
        pane@.viewport == pane.viewport && pane@.source == pane.source@,
        pane@.lines.len() == pane.lines@.len(),
        forall|i: int| 0 <= i < pane.lines@.len() ==> {
            let l = pane.lines@[i];
            #[trigger] pane@.lines[i] == (LineView { kind: l.kind, text: l.text@, raw: l.raw@ })
        },
        app.mode is Normal <==> app.mode@ is Normal,
        app.mode is Input <==> app.mode@ is Input,
        app.mode matches Mode::Input { editor } ==> app.mode@->editor == editor@,
        app.mode matches Mode::Message(t) ==> app.mode@ == ModeView::Message(t@),
        pane.source matches DiffSource::File { path, staged, untracked } ==> pane.source@ == (
        SourceView::File { path: path@, staged, untracked }),
        pane.source matches DiffSource::Commit(oid) ==> pane.source@ == SourceView::Commit(
            oid.bytes@,
        ),
        pane.source is Nothing ==> pane.source@ is Nothing,
        c@.path == c.path@ && c@.deleted == c.deleted,
{
}

/// The contents of a step are all that is in it.
pub proof fn a_step_leaves_nothing_out(s: Step, a: After)
    ensures
        match s {
            Step::Done => s@ is Done,
            Step::Failed(e) => s@ == StepView::Failed(e@),
            Step::LoadCommits(after) => s@ == StepView::LoadCommits(after@),
            Step::LoadStatus(after) => s@ == StepView::LoadStatus(after@),
            Step::LoadHead(after) => s@ == StepView::LoadHead(after@),
            Step::LoadDiff { source, title, after } => s@ is LoadDiff && s@->source == source@
                && s@->title == title@ && s@->LoadDiff_after == after@,
            Step::Stage { change, rest, msg } => s@ is Stage && s@->change == change@
                && s@->Stage_msg == msg@ && s@->rest == rest@.map_values(|c: Change| c@),
            Step::Unstage { path, msg } => s@ == (StepView::Unstage { path: path@, msg: msg@ }),
            Step::IntentToAdd { path, patch, msg } => s@ == (StepView::IntentToAdd {
                path: path@,
                patch: patch@,
                msg: msg@,
            }),
            Step::Apply { patch, reverse, msg } => s@ == (StepView::Apply {
                patch: patch@,
                reverse,
                msg: msg@,
            }),
            Step::Commit { message } => s@ == (StepView::Commit { message: message@ }),
            Step::Remote { args } => s@ is Remote && s@->args == args@.map_values(
                |t: String| t@,
            ),
        },
        match a {
            After::Rest => a@ is Rest,
            After::Start => a@ is Start,
            After::Refreshed => a@ is Refreshed,
            After::Notify(t) => a@ == AfterView::Notify(t@),
            After::Popup(t) => a@ == AfterView::Popup(t@),
        },
{
    if let Step::Remote { args } = s {
        assert(texts(args@) =~= args@.map_values(|t: String| t@));
    }
}

/// The contents of what was loaded are all that is in it.
pub proof fn loads_leave_nothing_out(
    lines: Vec<DiffLine>,
    commits: Vec<CommitInfo>,
    status: Vec<StatusEntry>,
    e: String,
)
    ensures
        loaded_lines(Ok::<Vec<DiffLine>, String>(lines)) == Ok::<Seq<LineView>, Seq<char>>(
            lines@.map_values(|l: DiffLine| l@),
        ),
        loaded_lines(Err::<Vec<DiffLine>, String>(e)) == Err::<Seq<LineView>, Seq<char>>(e@),
        loaded_commits(Ok::<Vec<CommitInfo>, String>(commits)) == Ok::<Seq<CommitView>, Seq<char>>(
            commits@.map_values(|c: CommitInfo| c@),
        ),
        loaded_commits(Err::<Vec<CommitInfo>, String>(e)) == Err::<Seq<CommitView>, Seq<char>>(e@),
        loaded_status(Ok::<Vec<StatusEntry>, String>(status)) == Ok::<Seq<EntryView>, Seq<char>>(
            status@.map_values(|s: StatusEntry| s@),
        ),
        loaded_status(Err::<Vec<StatusEntry>, String>(e)) == Err::<Seq<EntryView>, Seq<char>>(e@),
{
    assert(doc(lines@) =~= lines@.map_values(|l: DiffLine| l@));
    assert(commit_views(commits@) =~= commits@.map_values(|c: CommitInfo| c@));
    assert(entries(status@) =~= status@.map_values(|s: StatusEntry| s@));
}

} // verus!

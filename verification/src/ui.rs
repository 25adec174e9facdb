//! Rendering. Three panes (the staging area and the commit history stacked on
//! the left, the diff pane on the right) plus a bottom bar and modal popups.
//!
//! What is rendered is described here, down to each span of text and its style;
//! putting it on a terminal is left to the caller.

use vstd::prelude::*;

use crate::app::{App, Editor, Focus, Mode};
#[allow(unused_imports)]
use crate::app::{AppView, ModeView, PaneView};
#[allow(unused_imports)]
use crate::editor::EditorView;
use crate::git::{count_section, CommitInfo, Section, StatusEntry};
#[allow(unused_imports)]
use crate::git::{
    commit_views, count_in, counting_is_counting, entries, labels, CommitView, EntryView, HeadView,
    LabelView,
};
use crate::outside::{split_horizontal, split_vertical};
#[allow(unused_imports)]
use crate::outside::{far_end, share, width_of};
use crate::patch::{DiffLine, LineKind};
#[allow(unused_imports)]
use crate::patch::LineView;
use crate::text::{copy_of, join, split_lines, to_decimal};
#[allow(unused_imports)]
use crate::text::{decimal, joined, lines_of, texts};

verus! {

// ---------------------------------------------------------------------------
// Styled text
// ---------------------------------------------------------------------------

/// A color of the terminal.
#[derive(Clone, Copy, PartialEq, Eq, Structural)]
pub enum Color {
    Black,
    Red,
    Green,
    Yellow,
    Blue,
    Magenta,
    Cyan,
    Gray,
    DarkGray,
}

/// How text looks; what is not set stays as it is.
#[derive(Clone, Copy, PartialEq, Eq, Structural)]
pub struct Style {
    pub fg: Option<Color>,
    pub bg: Option<Color>,
    pub bold: bool,
    pub reversed: bool,
}

/// The style that changes nothing.
pub open spec fn unstyled() -> Style {
    Style { fg: None, bg: None, bold: false, reversed: false }
}

/// Text in a color.
pub open spec fn in_color(c: Color) -> Style {
    Style { fg: Some(c), ..unstyled() }
}

/// Bold text in a color.
pub open spec fn in_bold(c: Color) -> Style {
    Style { fg: Some(c), bold: true, ..unstyled() }
}

/// Text with its colors swapped.
pub open spec fn swapped() -> Style {
    Style { reversed: true, ..unstyled() }
}

fn plain() -> (r: Style)
    ensures
        r == unstyled(),
{
    Style { fg: None, bg: None, bold: false, reversed: false }
}

fn colored(c: Color) -> (r: Style)
    ensures
        r == in_color(c),
{
    Style { fg: Some(c), bg: None, bold: false, reversed: false }
}

fn bold(c: Color) -> (r: Style)
    ensures
        r == in_bold(c),
{
    Style { fg: Some(c), bg: None, bold: true, reversed: false }
}

fn reversed() -> (r: Style)
    ensures
        r == swapped(),
{
    Style { fg: None, bg: None, bold: false, reversed: true }
}

/// A piece of text in one style.
pub struct Span {
    pub text: String,
    pub style: Style,
}

/// The contents of a piece of text.
#[verifier::ext_equal]
pub struct SpanView {
    pub text: Seq<char>,
    pub style: Style,
}

impl View for Span {
    type V = SpanView;

    open spec fn view(&self) -> SpanView {
        SpanView { text: self.text@, style: self.style }
    }
}

/// The contents of a list of pieces.
pub open spec fn span_views(v: Seq<Span>) -> Seq<SpanView> {
    v.map_values(|s: Span| s@)
}

/// A line of text made of pieces, with a style for the whole of it.
pub struct Row {
    pub spans: Vec<Span>,
    pub style: Style,
}

/// The contents of a line of text.
#[verifier::ext_equal]
pub struct RowView {
    pub spans: Seq<SpanView>,
    pub style: Style,
}

impl View for Row {
    type V = RowView;

    open spec fn view(&self) -> RowView {
        RowView { spans: span_views(self.spans@), style: self.style }
    }
}

/// The contents of a list of lines.
pub open spec fn row_views(v: Seq<Row>) -> Seq<RowView> {
    v.map_values(|r: Row| r@)
}

fn push_span(spans: &mut Vec<Span>, text: String, style: Style)
    ensures
        span_views(final(spans)@) == span_views(old(spans)@).push(
            SpanView { text: text@, style },
        ),
{
    let ghost was = spans@;
    spans.push(Span { text, style });
    assert(span_views(spans@) =~= span_views(was).push(SpanView { text: text@, style }));
}

fn push_row(rows: &mut Vec<Row>, row: Row)
    ensures
        row_views(final(rows)@) == row_views(old(rows)@).push(row@),
{
    let ghost was = rows@;
    rows.push(row);
    assert(row_views(rows@) =~= row_views(was).push(row@));
}

fn no_spans() -> (r: Vec<Span>)
    ensures
        span_views(r@) == Seq::<SpanView>::empty(),
{
    let r: Vec<Span> = Vec::new();
    assert(span_views(r@) =~= Seq::<SpanView>::empty());
    r
}

fn no_rows() -> (r: Vec<Row>)
    ensures
        row_views(r@) == Seq::<RowView>::empty(),
{
    let r: Vec<Row> = Vec::new();
    assert(row_views(r@) =~= Seq::<RowView>::empty());
    r
}

/// A text put between two others.
fn between(before: &str, text: &str, after: &str) -> (r: String)
    ensures
        r@ == before@ + text@ + after@,
{
    let mut r = copy_of(before);
    r.append(text);
    r.append(after);
    r
}

// ---------------------------------------------------------------------------
// Geometry
// ---------------------------------------------------------------------------

/// What is asked of a part of a split area, in cells or in percent.
#[derive(Clone, Copy, PartialEq, Eq, Structural)]
pub enum Constraint {
    Min(u16),
    Length(u16),
    Percentage(u16),
}

/// A part of the terminal.
#[derive(Clone, Copy, PartialEq, Eq, Structural)]
pub struct Rect {
    pub x: u16,
    pub y: u16,
    pub width: u16,
    pub height: u16,
}

// ---------------------------------------------------------------------------
// Panels
// ---------------------------------------------------------------------------

/// A bordered list with a cursor.
pub struct ListPane {
    pub title: String,
    pub border: Style,
    pub items: Vec<Row>,
    /// How the selected item looks.
    pub highlight: Style,
    /// What stands in front of the selected item.
    pub symbol: &'static str,
}

/// The contents of a list.
#[verifier::ext_equal]
pub struct ListView {
    pub title: Seq<char>,
    pub border: Style,
    pub items: Seq<RowView>,
    pub highlight: Style,
    pub symbol: Seq<char>,
}

impl View for ListPane {
    type V = ListView;

    open spec fn view(&self) -> ListView {
        ListView {
            title: self.title@,
            border: self.border,
            items: row_views(self.items@),
            highlight: self.highlight,
            symbol: self.symbol@,
        }
    }
}

/// The border of a panel: bright when focused, dim otherwise.
pub open spec fn border(focused: bool) -> Style {
    if focused {
        in_bold(Color::Cyan)
    } else {
        in_color(Color::DarkGray)
    }
}

/// Border color for a panel: bright when focused, dim otherwise.
pub fn border_style(focused: bool) -> (r: Style)
    ensures
        r == border(focused),
{
    if focused {
        bold(Color::Cyan)
    } else {
        colored(Color::DarkGray)
    }
}

/// A list in a panel.
pub open spec fn list_in_panel(
    title: Seq<char>,
    focused: bool,
    items: Seq<RowView>,
    symbol: Seq<char>,
) -> ListView {
    ListView {
        title: " "@ + title + " "@,
        border: border(focused),
        items,
        highlight: swapped(),
        symbol,
    }
}

/// Put a list in a panel.
pub fn panel(title: &str, focused: bool, items: Vec<Row>, symbol: &'static str) -> (r: ListPane)
    ensures
        r@ == list_in_panel(title@, focused, row_views(items@), symbol@),
{
    ListPane {
        title: between(" ", title, " "),
        border: border_style(focused),
        items,
        highlight: reversed(),
        symbol,
    }
}

// ---------------------------------------------------------------------------
// Changes
// ---------------------------------------------------------------------------

/// The symbol and the color of a group: a green dot will be committed.
pub open spec fn badge(section: Section) -> (Seq<char>, Color) {
    match section {
        Section::Staged => ("● "@, Color::Green),
        Section::Unstaged => ("● "@, Color::Yellow),
        Section::Untracked => ("? "@, Color::DarkGray),
    }
}

/// A code with spaces behind it, to at least two characters.
pub open spec fn code_column(code: Seq<char>) -> Seq<char> {
    if code.len() == 0 {
        code + "   "@
    } else if code.len() == 1 {
        code + "  "@
    } else {
        code + " "@
    }
}

/// The row of a change.
pub open spec fn status_row(e: EntryView) -> RowView {
    let (symbol, color) = badge(e.section);
    RowView {
        spans: seq![
            SpanView { text: symbol, style: in_color(color) },
            SpanView { text: code_column(e.code), style: in_color(color) },
            SpanView { text: e.path, style: unstyled() },
        ],
        style: unstyled(),
    }
}

/// A count with its name, unless it is zero.
pub open spec fn counted(n: nat, name: Seq<char>) -> Seq<Seq<char>> {
    if n > 0 {
        seq![decimal(n) + name]
    } else {
        Seq::empty()
    }
}

/// The title of the panel: the groups that have any changes, counted.
pub open spec fn status_title(status: Seq<EntryView>) -> Seq<char> {
    let parts = counted(count_in(status, Section::Staged), " staged"@) + counted(
        count_in(status, Section::Unstaged),
        " mod"@,
    ) + counted(count_in(status, Section::Untracked), " new"@);
    if parts.len() == 0 {
        "Changes (clean)"@
    } else {
        "Changes: "@ + joined(parts, ", "@)
    }
}

/// The panel of the changes.
pub open spec fn status_panel(app: AppView) -> ListView {
    list_in_panel(
        status_title(app.status),
        app.focus == Focus::Status,
        app.status.map_values(|e: EntryView| status_row(e)),
        "> "@,
    )
}

fn status_item(e: &StatusEntry) -> (r: Row)
    ensures
        r@ == status_row(e@),
{
    let (symbol, color) = match e.section {
        Section::Staged => ("● ", Color::Green),
        Section::Unstaged => ("● ", Color::Yellow),
        Section::Untracked => ("? ", Color::DarkGray),
    };
    let mut code = copy_of(e.code.as_str());
    let n: usize = code.as_str().unicode_len();
    if n == 0 {
        code.append("   ");
    } else if n == 1 {
        code.append("  ");
    } else {
        code.append(" ");
    }
    let mut spans = no_spans();
    push_span(&mut spans, copy_of(symbol), colored(color));
    push_span(&mut spans, code, colored(color));
    push_span(&mut spans, copy_of(e.path.as_str()), plain());
    let row = Row { spans, style: plain() };
    assert(row@ =~= status_row(e@));
    row
}

fn push_count(parts: &mut Vec<String>, n: usize, name: &str)
    ensures
        texts(final(parts)@) == texts(old(parts)@) + counted(n as nat, name@),
{
    let ghost was = parts@;
    if n > 0 {
        parts.push(between("", to_decimal(n as u128).as_str(), name));
        assert(parts@.last()@ =~= decimal(n as nat) + name@) by {
            reveal_strlit("");
        }
    }
    assert(texts(parts@) =~= texts(was) + counted(n as nat, name@));
}

/// The panel of the changes. Entries arrive grouped; color and symbol make the
/// group obvious at a glance.
pub fn render_status(app: &App) -> (r: ListPane)
    ensures
        r@ == status_panel(app@),
{
    let mut items = no_rows();
    let ghost all = app@.status;
    let ghost rows = all.map_values(|e: EntryView| status_row(e));
    let mut i: usize = 0;
    assert(rows.take(0) =~= Seq::empty());
    while i < app.status.len()
        invariant
            i <= app.status@.len(),
            all == entries(app.status@),
            rows == all.map_values(|e: EntryView| status_row(e)),
            row_views(items@) == rows.take(i as int),
        decreases app.status.len() - i,
    {
        assert(all[i as int] == app.status@[i as int]@);
        push_row(&mut items, status_item(&app.status[i]));
        i += 1;
        assert(row_views(items@) =~= rows.take(i as int));
    }
    assert(rows.take(i as int) =~= rows);

    // Compact, adaptive title: only nonzero groups.
    let mut parts: Vec<String> = Vec::new();
    assert(texts(parts@) =~= Seq::empty());
    push_count(&mut parts, count_section(&app.status, Section::Staged), " staged");
    push_count(&mut parts, count_section(&app.status, Section::Unstaged), " mod");
    push_count(&mut parts, count_section(&app.status, Section::Untracked), " new");
    assert(texts(parts@) =~= counted(count_in(all, Section::Staged), " staged"@) + counted(
        count_in(all, Section::Unstaged),
        " mod"@,
    ) + counted(count_in(all, Section::Untracked), " new"@));
    assert(texts(parts@).len() == parts@.len());
    let title = if parts.len() == 0 {
        copy_of("Changes (clean)")
    } else {
        let mut t = copy_of("Changes: ");
        t.append(join(&parts, ", ").as_str());
        t
    };
    panel(title.as_str(), app.focus == Focus::Status, items, "> ")
}

// ---------------------------------------------------------------------------
// Log
// ---------------------------------------------------------------------------

/// The badge of a ref: local green, remote magenta.
pub open spec fn ref_span(l: LabelView) -> SpanView {
    SpanView {
        text: l.name + " "@,
        style: in_bold(
            if l.remote {
                Color::Magenta
            } else {
                Color::Green
            },
        ),
    }
}

/// The row of a commit.
pub open spec fn log_row(c: CommitView) -> RowView {
    RowView {
        spans: seq![
            SpanView { text: c.graph, style: in_color(Color::Cyan) },
            SpanView { text: c.short_id + " "@, style: in_color(Color::DarkGray) },
        ] + c.refs.map_values(|l: LabelView| ref_span(l)) + seq![
            SpanView { text: c.summary, style: unstyled() },
            SpanView { text: "  ("@ + c.author + ")"@, style: in_color(Color::DarkGray) },
        ],
        style: unstyled(),
    }
}

/// How far the branch is ahead and behind; a check mark when it is neither and
/// has an upstream.
pub open spec fn sync_marks(h: HeadView) -> Seq<char> {
    (if h.ahead > 0 {
        "↑"@ + decimal(h.ahead) + " "@
    } else {
        Seq::empty()
    }) + (if h.behind > 0 {
        "↓"@ + decimal(h.behind) + " "@
    } else {
        Seq::empty()
    }) + (if h.ahead == 0 && h.behind == 0 && h.upstream is Some {
        "✓ "@
    } else {
        Seq::empty()
    })
}

/// The title of the log: the branch and how it stands against its upstream.
pub open spec fn log_heading(head: Option<HeadView>, n: nat) -> Seq<char> {
    match head {
        Some(h) => h.branch + "  "@ + sync_marks(h) + "— "@ + decimal(n) + " commits"@,
        None => "git-viz — "@ + decimal(n) + " commits"@,
    }
}

/// The panel of the log.
pub open spec fn log_panel(app: AppView) -> ListView {
    list_in_panel(
        log_heading(app.head, app.commits.len()),
        app.focus == Focus::Log,
        app.commits.map_values(|c: CommitView| log_row(c)),
        "> "@,
    )
}

fn log_item(c: &CommitInfo) -> (r: Row)
    ensures
        r@ == log_row(c@),
{
    let mut spans = no_spans();
    push_span(&mut spans, copy_of(c.graph.as_str()), colored(Color::Cyan));
    push_span(&mut spans, between(c.short_id.as_str(), " ", ""), colored(Color::DarkGray));
    let ghost first = seq![
        SpanView { text: c@.graph, style: in_color(Color::Cyan) },
        SpanView { text: c@.short_id + " "@, style: in_color(Color::DarkGray) },
    ];
    let ghost refs = c@.refs.map_values(|l: LabelView| ref_span(l));
    proof {
        reveal_strlit("");
        assert(c@.short_id + " "@ + ""@ =~= c@.short_id + " "@);
        assert(span_views(spans@) =~= first + refs.take(0));
    }
    let mut i: usize = 0;
    while i < c.refs.len()
        invariant
            i <= c.refs@.len(),
            refs == labels(c.refs@).map_values(|l: LabelView| ref_span(l)),
            span_views(spans@) == first + refs.take(i as int),
        decreases c.refs.len() - i,
    {
        let l = &c.refs[i];
        let color = if l.remote {
            Color::Magenta
        } else {
            Color::Green
        };
        let mut name = copy_of(l.name.as_str());
        name.append(" ");
        push_span(&mut spans, name, bold(color));
        assert(labels(c.refs@)[i as int] == l@);
        i += 1;
        assert(span_views(spans@) =~= first + refs.take(i as int));
    }
    assert(refs.take(i as int) =~= refs);
    push_span(&mut spans, copy_of(c.summary.as_str()), plain());
    push_span(&mut spans, between("  (", c.author.as_str(), ")"), colored(Color::DarkGray));
    let row = Row { spans, style: plain() };
    assert(row@.spans =~= log_row(c@).spans);
    row
}

/// Log title carries the local-against-origin summary: branch name and
/// ahead/behind.
pub fn log_title(app: &App) -> (r: String)
    ensures
        r@ == log_heading(app@.head, app@.commits.len()),
{
    let n = to_decimal(app.commits.len() as u128);
    match &app.head {
        Some(h) => {
            let mut r = copy_of(h.branch.as_str());
            r.append("  ");
            let ghost front = r@;
            if h.ahead > 0 {
                r.append("↑");
                r.append(to_decimal(h.ahead as u128).as_str());
                r.append(" ");
            }
            if h.behind > 0 {
                r.append("↓");
                r.append(to_decimal(h.behind as u128).as_str());
                r.append(" ");
            }
            if h.ahead == 0 && h.behind == 0 && h.upstream.is_some() {
                r.append("✓ ");
            }
            assert(r@ =~= front + sync_marks(h@));
            r.append("— ");
            r.append(n.as_str());
            r.append(" commits");
            r
        },
        None => between("git-viz — ", n.as_str(), " commits"),
    }
}

/// The panel of the log. Ref badges show where each branch sits, so that one
/// can see local commits sitting ahead of origin.
pub fn render_log(app: &App) -> (r: ListPane)
    ensures
        r@ == log_panel(app@),
{
    let mut items = no_rows();
    let ghost all = app@.commits;
    let ghost rows = all.map_values(|c: CommitView| log_row(c));
    let mut i: usize = 0;
    assert(rows.take(0) =~= Seq::empty());
    while i < app.commits.len()
        invariant
            i <= app.commits@.len(),
            all == commit_views(app.commits@),
            rows == all.map_values(|c: CommitView| log_row(c)),
            row_views(items@) == rows.take(i as int),
        decreases app.commits.len() - i,
    {
        assert(all[i as int] == app.commits@[i as int]@);
        push_row(&mut items, log_item(&app.commits[i]));
        i += 1;
        assert(row_views(items@) =~= rows.take(i as int));
    }
    assert(rows.take(i as int) =~= rows);
    panel(log_title(app).as_str(), app.focus == Focus::Log, items, "> ")
}

// ---------------------------------------------------------------------------
// Diff
// ---------------------------------------------------------------------------

/// The marker in front of a line of a diff.
pub open spec fn marker(kind: LineKind) -> Seq<char> {
    match kind {
        LineKind::Add => "+"@,
        LineKind::Del => "-"@,
        LineKind::Ctx => " "@,
        _ => ""@,
    }
}

/// The style of a line of a diff.
pub open spec fn line_style(kind: LineKind) -> Style {
    match kind {
        LineKind::Add => in_color(Color::Green),
        LineKind::Del => in_color(Color::Red),
        LineKind::Ctx => unstyled(),
        LineKind::Hunk => in_color(Color::Cyan),
        LineKind::File => in_bold(Color::DarkGray),
        LineKind::Meta => in_color(Color::DarkGray),
        LineKind::Msg => unstyled(),
    }
}

/// The row of a line of a diff.
pub open spec fn diff_row(l: LineView, highlighted: bool) -> RowView {
    RowView {
        spans: seq![
            SpanView { text: marker(l.kind) + l.text, style: line_style(l.kind) },
        ],
        style: if highlighted {
            Style { bg: Some(Color::DarkGray), ..unstyled() }
        } else {
            unstyled()
        },
    }
}

/// Whether the line `i` is highlighted.
pub open spec fn is_highlighted(p: PaneView, i: int) -> bool {
    match p.selection() {
        Some((lo, hi)) => lo <= i <= hi,
        None => false,
    }
}

/// The rows of the diff pane.
pub open spec fn diff_rows(p: PaneView) -> Seq<RowView> {
    Seq::new(p.lines.len(), |i: int| diff_row(p.lines[i], is_highlighted(p, i)))
}

/// The title of the diff pane; it counts the highlighted lines.
pub open spec fn diff_heading(p: PaneView) -> Seq<char> {
    "Diff: "@ + p.title + match p.selection() {
        Some((lo, hi)) => "  ["@ + decimal((hi - lo + 1) as nat) + " highlighted]"@,
        None => Seq::empty(),
    }
}

/// The panel of the diff.
pub open spec fn diff_panel(app: AppView) -> ListView {
    list_in_panel(diff_heading(app.diff), app.focus == Focus::Diff, diff_rows(app.diff), ""@)
}

/// The application once its diff pane has been rendered with a height: the pane
/// remembers how many lines it shows between its borders.
pub open spec fn with_viewport(app: AppView, height: u16) -> AppView {
    AppView {
        diff: PaneView {
            viewport: if height >= 2 {
                (height - 2) as u16
            } else {
                0
            },
            ..app.diff
        },
        ..app
    }
}

fn diff_item(l: &DiffLine, highlighted: bool) -> (r: Row)
    ensures
        r@ == diff_row(l@, highlighted),
{
    let (mark, style) = match l.kind {
        LineKind::Add => ("+", colored(Color::Green)),
        LineKind::Del => ("-", colored(Color::Red)),
        LineKind::Ctx => (" ", plain()),
        LineKind::Hunk => ("", colored(Color::Cyan)),
        LineKind::File => ("", bold(Color::DarkGray)),
        LineKind::Meta => ("", colored(Color::DarkGray)),
        LineKind::Msg => ("", plain()),
    };
    let mut text = copy_of(mark);
    text.append(l.text.as_str());
    let mut spans = no_spans();
    push_span(&mut spans, text, style);
    let row = Row {
        spans,
        style: if highlighted {
            Style { fg: None, bg: Some(Color::DarkGray), bold: false, reversed: false }
        } else {
            plain()
        },
    };
    assert(row@.spans =~= diff_row(l@, highlighted).spans);
    row
}

/// The diff pane: colored patch lines with a cursor and, while highlighting, a
/// visibly selected range.
pub fn render_diff(app: &mut App, area: Rect) -> (r: ListPane)
    ensures
        r@ == diff_panel(old(app)@),
        final(app)@ == with_viewport(old(app)@, area.height),
{
    let ghost p = app@.diff;
    let sel = app.diff.selection();
    let mut items = no_rows();
    let mut i: usize = 0;
    assert(diff_rows(p).take(0) =~= Seq::empty());
    while i < app.diff.lines.len()
        invariant
            i <= app.diff.lines@.len(),
            p == app@.diff,
            match sel {
                Some((lo, hi)) => p.selection() == Some((lo as int, hi as int)),
                None => p.selection() is None,
            },
            row_views(items@) == diff_rows(p).take(i as int),
        decreases app.diff.lines.len() - i,
    {
        let highlighted = match sel {
            Some((lo, hi)) => i >= lo && i <= hi,
            None => false,
        };
        assert(p.lines[i as int] == app.diff.lines@[i as int]@);
        push_row(&mut items, diff_item(&app.diff.lines[i], highlighted));
        i += 1;
        assert(row_views(items@) =~= diff_rows(p).take(i as int));
    }
    assert(diff_rows(p).take(i as int) =~= diff_rows(p));

    let mut title = copy_of("Diff: ");
    title.append(app.diff.title.as_str());
    if let Some((lo, hi)) = sel {
        let n: u128 = hi as u128 - lo as u128 + 1;
        title.append("  [");
        title.append(to_decimal(n).as_str());
        title.append(" highlighted]");
    }
    assert(title@ =~= diff_heading(p));
    let list = panel(title.as_str(), app.focus == Focus::Diff, items, "");
    app.diff.viewport = if area.height >= 2 {
        area.height - 2
    } else {
        0
    };
    list
}

// ---------------------------------------------------------------------------
// Bottom bar
// ---------------------------------------------------------------------------

/// The heading of a group of keys.
pub open spec fn key_heading(name: Seq<char>, color: Color) -> SpanView {
    SpanView {
        text: " "@ + name + " "@,
        style: Style { fg: Some(Color::Black), bg: Some(color), bold: true, reversed: false },
    }
}

/// A group of keys.
pub open spec fn key_group(text: Seq<char>) -> SpanView {
    SpanView { text, style: in_color(Color::Gray) }
}

/// A gap between groups of keys.
pub open spec fn key_gap() -> SpanView {
    SpanView { text: "   "@, style: unstyled() }
}

/// The line of the last feedback.
pub open spec fn feedback_line(status_line: Seq<char>) -> RowView {
    RowView {
        spans: seq![
            SpanView {
                text: " "@ + status_line + " "@,
                style: Style {
                    fg: Some(Color::Black),
                    bg: Some(Color::Cyan),
                    bold: false,
                    reversed: false,
                },
            },
        ],
        style: unstyled(),
    }
}

/// The line on the keys that move.
pub open spec fn movement_line() -> RowView {
    RowView {
        spans: seq![
            key_heading("Panes"@, Color::Cyan),
            key_group(
                " ⇧H/J/K/L move · Tab cycle · j/k select · Enter diff · q/^C quit · ? help"@,
            ),
        ],
        style: unstyled(),
    }
}

/// The line on the keys that act.
pub open spec fn action_line() -> RowView {
    RowView {
        spans: seq![
            key_heading("Diff"@, Color::Blue),
            key_group(" ⇧Space highlight · s/u stage/unstage lines"@),
            key_gap(),
            key_heading("Files"@, Color::Green),
            key_group(" s/u/a stage · c commit"@),
            key_gap(),
            key_heading("Sync"@, Color::Magenta),
            key_group(" p/P/f"@),
        ],
        style: unstyled(),
    }
}

/// The bottom bar: the last feedback, then what the keys do.
pub open spec fn bar_rows(status_line: Seq<char>) -> Seq<RowView> {
    seq![feedback_line(status_line), movement_line(), action_line()]
}

fn push_heading(spans: &mut Vec<Span>, name: &str, color: Color)
    ensures
        span_views(final(spans)@) == span_views(old(spans)@).push(key_heading(name@, color)),
{
    push_span(
        spans,
        between(" ", name, " "),
        Style { fg: Some(Color::Black), bg: Some(color), bold: true, reversed: false },
    );
}

fn push_keys(spans: &mut Vec<Span>, text: &str)
    ensures
        span_views(final(spans)@) == span_views(old(spans)@).push(key_group(text@)),
{
    push_span(spans, copy_of(text), colored(Color::Gray));
}

fn push_gap(spans: &mut Vec<Span>)
    ensures
        span_views(final(spans)@) == span_views(old(spans)@).push(key_gap()),
{
    push_span(spans, copy_of("   "), plain());
}

fn feedback_row(status_line: &str) -> (r: Row)
    ensures
        r@ == feedback_line(status_line@),
{
    let mut spans = no_spans();
    push_span(
        &mut spans,
        between(" ", status_line, " "),
        Style { fg: Some(Color::Black), bg: Some(Color::Cyan), bold: false, reversed: false },
    );
    let row = Row { spans, style: plain() };
    assert(row@.spans =~= feedback_line(status_line@).spans);
    row
}

fn movement_row() -> (r: Row)
    ensures
        r@ == movement_line(),
{
    let mut spans = no_spans();
    push_heading(&mut spans, "Panes", Color::Cyan);
    push_keys(
        &mut spans,
        " ⇧H/J/K/L move · Tab cycle · j/k select · Enter diff · q/^C quit · ? help",
    );
    let row = Row { spans, style: plain() };
    assert(row@.spans =~= movement_line().spans);
    row
}

fn action_row() -> (r: Row)
    ensures
        r@ == action_line(),
{
    let mut spans = no_spans();
    push_heading(&mut spans, "Diff", Color::Blue);
    push_keys(&mut spans, " ⇧Space highlight · s/u stage/unstage lines");
    push_gap(&mut spans);
    push_heading(&mut spans, "Files", Color::Green);
    push_keys(&mut spans, " s/u/a stage · c commit");
    push_gap(&mut spans);
    push_heading(&mut spans, "Sync", Color::Magenta);
    push_keys(&mut spans, " p/P/f");
    let row = Row { spans, style: plain() };
    assert(row@.spans =~= action_line().spans);
    row
}

/// The bottom bar: a feedback line and a legend.
pub fn render_status_bar(app: &App) -> (r: Vec<Row>)
    ensures
        row_views(r@) == bar_rows(app@.status_line),
{
    let mut rows = no_rows();
    push_row(&mut rows, feedback_row(app.status_line.as_str()));
    push_row(&mut rows, movement_row());
    push_row(&mut rows, action_row());
    assert(row_views(rows@) =~= bar_rows(app@.status_line));
    rows
}

// ---------------------------------------------------------------------------
// Popups
// ---------------------------------------------------------------------------

/// A popup over the panes.
pub enum Popup {
    /// None.
    Closed,
    /// The commit message that is being typed.
    Input {
        area: Rect,
        lines: Vec<String>,
        /// How far the text is shifted left and up.
        scroll_x: u16,
        scroll_y: u16,
        title: String,
        bottom: &'static str,
        /// Where the terminal's cursor stands.
        cursor_x: u16,
        cursor_y: u16,
        border: Style,
    },
    /// A message.
    Message { area: Rect, text: String, title: String, border: Style },
}

/// The contents of a popup.
#[verifier::ext_equal]
pub enum PopupView {
    Closed,
    Input {
        area: Rect,
        lines: Seq<Seq<char>>,
        scroll_x: int,
        scroll_y: int,
        title: Seq<char>,
        bottom: Seq<char>,
        cursor_x: int,
        cursor_y: int,
        border: Style,
    },
    Message { area: Rect, text: Seq<char>, title: Seq<char>, border: Style },
}

impl View for Popup {
    type V = PopupView;

    open spec fn view(&self) -> PopupView {
        match self {
            Popup::Closed => PopupView::Closed,
            Popup::Input {
                area,
                lines,
                scroll_x,
                scroll_y,
                title,
                bottom,
                cursor_x,
                cursor_y,
                border,
            } => PopupView::Input {
                area: *area,
                lines: texts(lines@),
                scroll_x: *scroll_x as int,
                scroll_y: *scroll_y as int,
                title: title@,
                bottom: bottom@,
                cursor_x: *cursor_x as int,
                cursor_y: *cursor_y as int,
                border: *border,
            },
            Popup::Message { area, text, title, border } => PopupView::Message {
                area: *area,
                text: text@,
                title: title@,
                border: *border,
            },
        }
    }
}

/// `a - b`, but not below zero.
pub open spec fn less(a: int, b: int) -> int {
    if a >= b {
        a - b
    } else {
        0
    }
}

/// A number cut to what a position on the screen can count.
pub open spec fn cut_down(n: int) -> int {
    if n > u16::MAX {
        u16::MAX as int
    } else {
        n
    }
}

/// The larger of two numbers.
pub open spec fn larger(a: int, b: int) -> int {
    if a >= b {
        a
    } else {
        b
    }
}

/// The height of the popup for a message of `lines` lines in an area of a
/// height: it grows with the message, within reason.
pub open spec fn input_rows(lines: nat, height: u16) -> int {
    let counted = cut_down(lines as int);
    let most = larger(less(height as int, 6), 1);
    (if counted < 1 {
        1
    } else if counted > most {
        most
    } else {
        counted
    }) + 2
}

/// The height of the popup for a message to read.
pub open spec fn message_rows(text: Seq<char>, height: u16) -> int {
    let lines = larger(lines_of(text).len() as int, 1);
    let wanted = cut_down(lines + 2);
    let most = less(height as int, 2);
    larger(
        if wanted > most {
            most
        } else {
            wanted
        },
        3,
    )
}

/// The cells between the borders of a box of some size, at least one.
pub open spec fn inside(size: u16) -> int {
    larger(less(size as int, 2), 1)
}

/// How far a text is shifted so that the position `at` is among the `size`
/// cells that show.
pub open spec fn shift(at: int, size: int) -> int {
    less(at, size - 1)
}

/// The popup in which a message is typed, in a part of the screen. Long lines
/// shift the text left instead of letting typing vanish past the border, and
/// the terminal's cursor stands at the edit point.
pub open spec fn input_popup(app: AppView, e: EditorView, area: Rect) -> PopupView {
    let cx = cut_down(width_of(e.before()) as int);
    let cy = cut_down(e.row);
    let scroll_x = shift(cx, inside(area.width));
    let scroll_y = shift(cy, inside(area.height));
    PopupView::Input {
        area,
        lines: e.lines,
        scroll_x,
        scroll_y,
        title: " Commit message — "@ + decimal(count_in(app.status, Section::Staged))
            + " file(s) staged "@,
        bottom: " Enter commit · Ctrl+N newline · Esc cancel "@,
        cursor_x: (area.x + 1 + cx - scroll_x) % 0x1_0000,
        cursor_y: (area.y + 1 + cy - scroll_y) % 0x1_0000,
        border: in_color(Color::Yellow),
    }
}

/// The popup of a message, in a part of the screen.
pub open spec fn message_popup(text: Seq<char>, area: Rect) -> PopupView {
    PopupView::Message {
        area,
        text,
        title: " Message (press any key) "@,
        border: in_color(Color::Yellow),
    }
}

/// The height of the popup in which a message is typed.
pub fn input_height(editor: &Editor, area: Rect) -> (r: u16)
    ensures
        r == input_rows(editor@.lines.len(), area.height),
{
    let most: u16 = if area.height > 7 {
        area.height - 6
    } else {
        1
    };
    let lines: u16 = position_of_count(editor.lines.len());
    let body: u16 = if lines < 1 {
        1
    } else if lines > most {
        most
    } else {
        lines
    };
    body + 2
}

/// The height of the popup of a message.
pub fn message_height(text: &str, area: Rect) -> (r: u16)
    ensures
        r == message_rows(text@, area.height),
{
    let lines = split_lines(text);
    let n: usize = lines.len();
    assert(texts(lines@).len() == n);
    let wanted: u16 = if n <= 1 {
        3
    } else if n <= 0xFFFD {
        n as u16 + 2
    } else {
        0xFFFF
    };
    let most: u16 = if area.height >= 2 {
        area.height - 2
    } else {
        0
    };
    let height: u16 = if wanted > most {
        most
    } else {
        wanted
    };
    if height > 3 {
        height
    } else {
        3
    }
}

/// The cells between the borders of a box of some size, at least one.
fn inner(size: u16) -> (r: u16)
    ensures
        r == inside(size),
        r >= 1,
{
    if size > 3 {
        size - 2
    } else {
        1
    }
}

/// `a - b`, but not below zero.
fn minus(a: u16, b: u16) -> (r: u16)
    ensures
        r == less(a as int, b as int),
{
    if a >= b {
        a - b
    } else {
        0
    }
}

/// A number cut to what a position on the screen can count.
fn position_of_count(n: usize) -> (r: u16)
    ensures
        r == cut_down(n as int),
{
    if n > 0xFFFF {
        0xFFFF
    } else {
        n as u16
    }
}

/// Copies of some lines.
fn copy_lines(lines: &Vec<String>) -> (r: Vec<String>)
    ensures
        texts(r@) == texts(lines@),
{
    let mut out: Vec<String> = Vec::new();
    let mut i: usize = 0;
    while i < lines.len()
        invariant
            i <= lines@.len(),
            out@.len() == i,
            forall|j: int| 0 <= j < i ==> (#[trigger] out@[j])@ == lines@[j]@,
        decreases lines.len() - i,
    {
        out.push(copy_of(lines[i].as_str()));
        i += 1;
    }
    assert(texts(out@) =~= texts(lines@));
    out
}

/// The popup in which a message is typed, in the part `area` of the screen.
pub fn render_input(app: &App, editor: &Editor, area: Rect) -> (r: Popup)
    requires
        editor@.row < editor@.lines.len(),
    ensures
        r@ == input_popup(app@, editor@, area),
{
    let staged = to_decimal(count_section(&app.status, Section::Staged) as u128);
    let cx: u16 = position_of_count(editor.display_col());
    let cy: u16 = position_of_count(editor.row);
    let scroll_x: u16 = minus(cx, inner(area.width) - 1);
    let scroll_y: u16 = minus(cy, inner(area.height) - 1);
    let x: u32 = area.x as u32 + 1 + (cx - scroll_x) as u32;
    let y: u32 = area.y as u32 + 1 + (cy - scroll_y) as u32;
    Popup::Input {
        area,
        lines: copy_lines(&editor.lines),
        scroll_x,
        scroll_y,
        title: between(" Commit message — ", staged.as_str(), " file(s) staged "),
        bottom: " Enter commit · Ctrl+N newline · Esc cancel ",
        cursor_x: (x % 0x1_0000) as u16,
        cursor_y: (y % 0x1_0000) as u16,
        border: colored(Color::Yellow),
    }
}

/// The popup of a message, in the part `area` of the screen.
pub fn render_message(text: &str, area: Rect) -> (r: Popup)
    ensures
        r@ == message_popup(text@, area),
{
    Popup::Message {
        area,
        text: copy_of(text),
        title: copy_of(" Message (press any key) "),
        border: colored(Color::Yellow),
    }
}

// ---------------------------------------------------------------------------
// The whole screen
// ---------------------------------------------------------------------------

/// Whether a rectangle lies in another.
pub open spec fn holds(outer: Rect, inner: Rect) -> bool {
    &&& outer.x <= inner.x
    &&& inner.x + inner.width <= far_end(outer.x, outer.width)
    &&& outer.y <= inner.y
    &&& inner.y + inner.height <= far_end(outer.y, outer.height)
}

fn two(a: Constraint, b: Constraint) -> (r: Vec<Constraint>)
    ensures
        r@ == seq![a, b],
{
    let mut v: Vec<Constraint> = Vec::new();
    v.push(a);
    v.push(b);
    assert(v@ =~= seq![a, b]);
    v
}

fn three(a: Constraint, b: Constraint, c: Constraint) -> (r: Vec<Constraint>)
    ensures
        r@ == seq![a, b, c],
{
    let mut v = two(a, b);
    v.push(c);
    assert(v@ =~= seq![a, b, c]);
    v
}

/// The length that an area really has in one direction: no further than a
/// position can count.
pub open spec fn extent(start: u16, len: u16) -> int {
    far_end(start, len) - start
}

/// The part of an area that is centered: a percentage of its width, and a
/// number of rows or as many as there are.
pub open spec fn centered(area: Rect, pct_w: int, height: int) -> Rect {
    let w = extent(area.x, area.width);
    let h = extent(area.y, area.height);
    let side = (100 - pct_w) / 2;
    let left = share(w, side);
    let right = share(w, side + pct_w);
    let rows = if height <= h {
        height
    } else {
        h
    };
    Rect {
        x: (area.x + left) as u16,
        y: (area.y + (h - rows + 1) / 2) as u16,
        width: (right - left) as u16,
        height: rows as u16,
    }
}

/// Centered horizontally by percentage, with a fixed height in rows.
pub fn centered_h(area: Rect, pct_w: u16, height: u16) -> (r: Rect)
    requires
        pct_w <= 100,
    ensures
        r == centered(area, pct_w as int, height as int),
        holds(area, r),
{
    let rows = split_vertical(
        &three(Constraint::Min(0), Constraint::Length(height), Constraint::Min(0)),
        area,
    );
    let side: u16 = (100 - pct_w) / 2;
    let columns = split_horizontal(
        &three(
            Constraint::Percentage(side),
            Constraint::Percentage(pct_w),
            Constraint::Percentage(side),
        ),
        rows[1],
    );
    proof {
        popups_lie_in_the_body(area, pct_w as int, height as int);
    }
    columns[1]
}

/// Where the panes are. `body` is all of the screen but the bottom bar.
#[derive(Clone, Copy, PartialEq, Eq, Structural)]
pub struct Areas {
    pub status: Rect,
    pub log: Rect,
    pub diff: Rect,
    pub body: Rect,
    pub bar: Rect,
}

/// Where the panes are on a screen: the bottom bar takes three rows; of the body
/// over it the left panes take 36 percent of the width, the changes 40 percent
/// of their height.
pub open spec fn areas_of(screen: Rect) -> Areas {
    let w = extent(screen.x, screen.width);
    let h = extent(screen.y, screen.height);
    let bar = if h >= 3 {
        3
    } else {
        h
    };
    let left = share(w, 36);
    let top = share(h - bar, 40);
    let body = Rect { height: (h - bar) as u16, ..screen };
    Areas {
        body,
        bar: Rect { y: (screen.y + h - bar) as u16, height: bar as u16, ..screen },
        diff: Rect { x: (screen.x + left) as u16, width: (w - left) as u16, ..body },
        status: Rect { width: left as u16, height: top as u16, ..body },
        log: Rect {
            y: (screen.y + top) as u16,
            width: left as u16,
            height: (h - bar - top) as u16,
            ..body
        },
    }
}

/// Lay out the panes.
pub fn layout(screen: Rect) -> (r: Areas)
    ensures
        r == areas_of(screen),
{
    let outer = split_vertical(&two(Constraint::Min(0), Constraint::Length(3)), screen);
    let body = split_horizontal(
        &two(Constraint::Percentage(36), Constraint::Min(0)),
        outer[0],
    );
    let left = split_vertical(&two(Constraint::Percentage(40), Constraint::Min(0)), body[0]);
    Areas { status: left[0], log: left[1], diff: body[1], body: outer[0], bar: outer[1] }
}

/// The size that the popup of a mode asks for, in percent of the body's width
/// and in rows.
pub open spec fn popup_size(mode: ModeView, body: Rect) -> Option<(int, int)> {
    match mode {
        ModeView::Normal => None,
        ModeView::Input { editor } => Some((70, input_rows(editor.lines.len(), body.height))),
        ModeView::Message(text) => Some((80, message_rows(text, body.height))),
    }
}

/// The size that the popup asks for.
pub fn wanted_popup(app: &App, body: Rect) -> (r: Option<(u16, u16)>)
    ensures
        match r {
            Some((w, h)) => popup_size(app@.mode, body) == Some((w as int, h as int)),
            None => popup_size(app@.mode, body) is None,
        },
{
    match &app.mode {
        Mode::Normal => None,
        Mode::Input { editor } => Some((70, input_height(editor, body))),
        Mode::Message(text) => Some((80, message_height(text.as_str(), body))),
    }
}

/// The popup of the application, in a part of the screen.
pub open spec fn popup_in(app: AppView, area: Rect) -> PopupView {
    match app.mode {
        ModeView::Normal => PopupView::Closed,
        ModeView::Input { editor } => input_popup(app, editor, area),
        ModeView::Message(text) => message_popup(text, area),
    }
}

/// The popup of the application, in the part `area` of the screen.
pub fn render_popup(app: &App, area: Rect) -> (r: Popup)
    requires
        app.wf(),
    ensures
        r@ == popup_in(app@, area),
{
    match &app.mode {
        Mode::Normal => Popup::Closed,
        Mode::Input { editor } => render_input(app, editor, area),
        Mode::Message(text) => render_message(text.as_str(), area),
    }
}

/// All that is on the screen.
pub struct Screen {
    pub areas: Areas,
    pub status: ListPane,
    pub log: ListPane,
    pub diff: ListPane,
    pub bar: Vec<Row>,
    pub popup: Popup,
}

/// The popup of the application over the body of the screen.
pub open spec fn popup_over(app: AppView, body: Rect) -> PopupView {
    match popup_size(app.mode, body) {
        Some((w, h)) => popup_in(app, centered(body, w, h)),
        None => PopupView::Closed,
    }
}

/// Render the application on a screen of some size: the panes and the bar, and
/// over the body the popup, where there is one.
pub fn ui(app: &mut App, screen: Rect) -> (r: Screen)
    requires
        old(app).wf(),
    ensures
        final(app)@ == with_viewport(old(app)@, areas_of(screen).diff.height),
        final(app).wf(),
        r.areas == areas_of(screen),
        r.status@ == status_panel(old(app)@),
        r.log@ == log_panel(old(app)@),
        r.diff@ == diff_panel(old(app)@),
        row_views(r.bar@) == bar_rows(old(app)@.status_line),
        r.popup@ == popup_over(old(app)@, areas_of(screen).body),
{
    let areas = layout(screen);
    let status = render_status(app);
    let log = render_log(app);
    let diff = render_diff(app, areas.diff);
    let bar = render_status_bar(app);
    let popup = match wanted_popup(app, areas.body) {
        None => Popup::Closed,
        Some((w, h)) => {
            let area = centered_h(areas.body, w, h);
            render_popup(app, area)
        },
    };
    Screen { areas, status, log, diff, bar, popup }
}

// ---------------------------------------------------------------------------
// What the screen promises
// ---------------------------------------------------------------------------

/// The panes share the screen out, as far as positions count: the body and the
/// bar its height, the two columns of the body its width, and the changes and
/// the log the left column; everything stands side by side.
pub proof fn the_panes_fill_the_screen(screen: Rect)
    ensures
        ({
            let a = areas_of(screen);
            let w = extent(screen.x, screen.width);
            let h = extent(screen.y, screen.height);
            &&& a.body.y == screen.y
            &&& a.bar.y == a.body.y + a.body.height
            &&& a.body.height + a.bar.height == h
            &&& a.bar.height <= 3
            &&& a.status.x == screen.x && a.log.x == screen.x
            &&& a.status.width == a.log.width
            &&& a.diff.x == a.status.x + a.status.width
            &&& a.status.width + a.diff.width == w
            &&& a.status.y == a.body.y && a.diff.y == a.body.y
            &&& a.log.y == a.status.y + a.status.height
            &&& a.status.height + a.log.height == a.body.height
            &&& a.diff.height == a.body.height
        }),
{
}

/// A popup lies in the body of the screen.
pub proof fn popups_lie_in_the_body(body: Rect, pct_w: int, height: int)
    requires
        0 <= pct_w <= 100,
        0 <= height,
    ensures
        holds(body, centered(body, pct_w, height)),
{
    let w = extent(body.x, body.width);
    let side = (100 - pct_w) / 2;
    assert(0 <= w * side <= w * (side + pct_w) <= w * 100) by (nonlinear_arith)
        requires
            0 <= w,
            0 <= side <= side + pct_w <= 100,
    ;
}

/// The text of a message scrolls so that its cursor always stays in view: the
/// edit point is among the cells that show, and in a box that has any cells
/// between its borders, the terminal's cursor stands there.
pub proof fn the_edit_point_stays_in_view(app: AppView, e: EditorView, area: Rect)
    requires
        e.wf(),
        area.x + area.width <= u16::MAX,
        area.y + area.height <= u16::MAX,
    ensures
        input_popup(app, e, area) matches PopupView::Input {
            area: _,
            lines,
            scroll_x,
            scroll_y,
            title,
            bottom,
            cursor_x,
            cursor_y,
            border,
        } && {
            let cx = cut_down(width_of(e.before()) as int);
            let cy = cut_down(e.row);
            &&& 0 <= scroll_x <= cx < scroll_x + inside(area.width)
            &&& 0 <= scroll_y <= cy < scroll_y + inside(area.height)
            &&& area.width > 2 ==> area.x < cursor_x < area.x + area.width - 1
            &&& area.height > 2 ==> area.y < cursor_y < area.y + area.height - 1
        },
{
}

/// Nothing is scrolled while all of the text up to the cursor fits.
pub proof fn short_messages_do_not_scroll(at: int, size: int)
    requires
        0 <= at < size,
    ensures
        shift(at, size) == 0,
{
}

/// A popup is never less than three rows high, so that it shows a line of text;
/// it leaves some of the body free when that has room.
pub proof fn popups_have_room(mode: ModeView, body: Rect)
    ensures
        popup_size(mode, body) matches Some((w, h)) ==> {
            &&& 3 <= h <= u16::MAX
            &&& body.height >= 9 ==> h <= body.height - 2
            &&& 0 <= w <= 100
        },
{
}

/// The popup grows with the message.
pub proof fn popups_grow_with_the_message(a: nat, b: nat, height: u16)
    requires
        a <= b,
    ensures
        input_rows(a, height) <= input_rows(b, height),
{
}

/// Every line between the anchor and the cursor shows as highlighted, and the
/// title counts them.
pub proof fn highlights_show(p: PaneView, i: int)
    requires
        p.anchor is Some,
        0 <= i < p.lines.len(),
    ensures
        (diff_rows(p)[i].style.bg == Some(Color::DarkGray)) == (if p.anchor->0 <= p.cursor() {
            p.anchor->0 <= i <= p.cursor()
        } else {
            p.cursor() <= i <= p.anchor->0
        }),
{
}

/// Rendering changes nothing but the height that the diff pane remembers.
pub proof fn rendering_keeps_the_state(app: AppView, height: u16)
    ensures
        with_viewport(app, height) == (AppView {
            diff: PaneView { viewport: with_viewport(app, height).diff.viewport, ..app.diff },
            ..app
        }),
{
}

// ---------------------------------------------------------------------------
// What every part of the screen shows
// ---------------------------------------------------------------------------

/// A panel shows its rows as they are, under its title between two spaces. Its
/// border is bright and bold when it is focused and dim otherwise, and the
/// selected row has its colors swapped.
pub proof fn panels_frame_their_rows(
    title: Seq<char>,
    focused: bool,
    items: Seq<RowView>,
    symbol: Seq<char>,
)
    ensures
        ({
            let p = list_in_panel(title, focused, items, symbol);
            &&& p.title == seq![' '] + title + seq![' ']
            &&& p.items == items
            &&& p.symbol == symbol
            &&& p.border == Style {
                fg: Some(
                    if focused {
                        Color::Cyan
                    } else {
                        Color::DarkGray
                    },
                ),
                bg: None,
                bold: focused,
                reversed: false,
            }
            &&& p.highlight == Style { fg: None, bg: None, bold: false, reversed: true }
        }),
{
    reveal_strlit(" ");
    assert(" "@ =~= seq![' ']);
}

/// Plain text in a color, or in none.
pub open spec fn tinted(text: Seq<char>, fg: Option<Color>, bold: bool) -> SpanView {
    SpanView { text, style: Style { fg, bg: None, bold, reversed: false } }
}

/// Whether a row has no style of its own.
pub open spec fn bare(row: RowView) -> bool {
    row.style == (Style { fg: None, bg: None, bold: false, reversed: false })
}

/// The panel of the changes has a row for every entry, in their order: the mark
/// of its group in the color of the group, its code in the same color and filled
/// up to a column of three, and its path. The panel is focused when the changes
/// are.
pub proof fn every_entry_has_its_row(app: AppView, i: int)
    requires
        0 <= i < app.status.len(),
    ensures
        ({
            let p = status_panel(app);
            let e = app.status[i];
            let row = p.items[i];
            let color = match e.section {
                Section::Staged => Color::Green,
                Section::Unstaged => Color::Yellow,
                Section::Untracked => Color::DarkGray,
            };
            let mark = if e.section == Section::Untracked {
                seq!['?', ' ']
            } else {
                seq!['●', ' ']
            };
            &&& p.items.len() == app.status.len()
            &&& p.border == border(app.focus == Focus::Status)
            &&& p.symbol == seq!['>', ' ']
            &&& bare(row)
            &&& row.spans.len() == 3
            &&& row.spans[0] == tinted(mark, Some(color), false)
            &&& row.spans[1] == tinted(row.spans[1].text, Some(color), false)
            &&& row.spans[1].text.take(e.code.len() as int) == e.code
            &&& row.spans[1].text.len() == (if e.code.len() < 2 {
                3
            } else {
                e.code.len() + 1
            })
            &&& forall|j: int|
                e.code.len() <= j < row.spans[1].text.len() ==> #[trigger] row.spans[1].text[j]
                    == ' '
            &&& row.spans[2] == tinted(e.path, None, false)
        }),
{
    reveal_strlit("● ");
    reveal_strlit("? ");
    reveal_strlit("> ");
    reveal_strlit(" ");
    reveal_strlit("  ");
    reveal_strlit("   ");
    assert("● "@ =~= seq!['●', ' ']);
    assert("? "@ =~= seq!['?', ' ']);
    assert("> "@ =~= seq!['>', ' ']);
    let e = app.status[i];
    assert(code_column(e.code).take(e.code.len() as int) =~= e.code);
}

/// The number of the entries of a group.
pub open spec fn entries_in(v: Seq<EntryView>, section: Section) -> nat {
    v.filter(|e: EntryView| e.section == section).len()
}

/// A number with a name behind it, unless it is zero.
pub open spec fn if_any(n: nat, name: Seq<char>) -> Seq<Seq<char>> {
    if n == 0 {
        Seq::empty()
    } else {
        seq![decimal(n) + name]
    }
}

/// The title of the changes counts the entries of each group that has any, and
/// says so where there are none at all.
pub proof fn the_title_counts_the_entries(app: AppView)
    ensures
        ({
            let staged = entries_in(app.status, Section::Staged);
            let changed = entries_in(app.status, Section::Unstaged);
            let untracked = entries_in(app.status, Section::Untracked);
            let title = status_panel(app).title;
            &&& staged + changed + untracked == 0 ==> title == seq![' '] + "Changes (clean)"@
                + seq![' ']
            &&& staged + changed + untracked > 0 ==> title == seq![' '] + ("Changes: "@ + joined(
                if_any(staged, " staged"@) + if_any(changed, " mod"@) + if_any(untracked, " new"@),
                ", "@,
            )) + seq![' ']
        }),
{
    reveal_strlit(" ");
    assert(" "@ =~= seq![' ']);
    counting_is_counting(app.status, Section::Staged);
    counting_is_counting(app.status, Section::Unstaged);
    counting_is_counting(app.status, Section::Untracked);
}

/// The panel of the log has a row for every commit, in their order: its part of
/// the graph, its short id, the badges of its refs, its summary and its author,
/// each in its color. The panel is focused when the log is.
pub proof fn every_commit_has_its_row(app: AppView, i: int, j: int)
    requires
        0 <= i < app.commits.len(),
    ensures
        ({
            let p = log_panel(app);
            let c = app.commits[i];
            let row = p.items[i];
            let n = c.refs.len() as int;
            let gray = Some(Color::DarkGray);
            &&& p.items.len() == app.commits.len()
            &&& p.border == border(app.focus == Focus::Log)
            &&& p.symbol == seq!['>', ' ']
            &&& bare(row)
            &&& row.spans.len() == n + 4
            &&& row.spans[0] == tinted(c.graph, Some(Color::Cyan), false)
            &&& row.spans[1] == tinted(c.short_id + seq![' '], gray, false)
            &&& 0 <= j < n ==> row.spans[2 + j] == tinted(
                c.refs[j].name + seq![' '],
                Some(
                    if c.refs[j].remote {
                        Color::Magenta
                    } else {
                        Color::Green
                    },
                ),
                true,
            )
            &&& row.spans[2 + n] == tinted(c.summary, None, false)
            &&& row.spans[3 + n] == tinted(
                seq![' ', ' ', '('] + c.author + seq![')'],
                gray,
                false,
            )
        }),
{
    reveal_strlit(" ");
    reveal_strlit("> ");
    reveal_strlit("  (");
    reveal_strlit(")");
    assert(" "@ =~= seq![' ']);
    assert("> "@ =~= seq!['>', ' ']);
    assert("  ("@ =~= seq![' ', ' ', '(']);
    assert(")"@ =~= seq![')']);
}

/// The title of the log names the branch and counts the commits. In between it
/// says how far the branch is ahead and behind, each only where it is, or that it
/// is level with its upstream, if it has one.
pub proof fn the_title_says_how_the_branch_stands(app: AppView)
    ensures
        ({
            let title = log_panel(app).title;
            let count = decimal(app.commits.len()) + " commits"@;
            match app.head {
                None => title == seq![' '] + ("git-viz — "@ + count) + seq![' '],
                Some(h) => {
                    let up = "↑"@ + decimal(h.ahead) + seq![' '];
                    let down = "↓"@ + decimal(h.behind) + seq![' '];
                    let front = seq![' '] + (h.branch + seq![' ', ' ']);
                    let back = ("— "@ + count) + seq![' '];
                    &&& h.ahead > 0 && h.behind > 0 ==> title == front + (up + down) + back
                    &&& h.ahead > 0 && h.behind == 0 ==> title == front + up + back
                    &&& h.ahead == 0 && h.behind > 0 ==> title == front + down + back
                    &&& h.ahead == 0 && h.behind == 0 && h.upstream is Some ==> title == front
                        + "✓ "@ + back
                    &&& h.ahead == 0 && h.behind == 0 && h.upstream is None ==> title == front
                        + back
                },
            }
        }),
{
    reveal_strlit(" ");
    reveal_strlit("  ");
    assert(" "@ =~= seq![' ']);
    assert("  "@ =~= seq![' ', ' ']);
}

/// The diff pane has a row for every line of the document, in their order: its
/// text behind its sign, in the color of its kind. A line is set off exactly when
/// it is highlighted. The pane is focused when the diff is, and marks its cursor
/// by nothing but the swapped colors.
pub proof fn every_line_has_its_row(app: AppView, i: int)
    requires
        0 <= i < app.diff.lines.len(),
    ensures
        ({
            let p = diff_panel(app);
            let l = app.diff.lines[i];
            let row = p.items[i];
            let at = match app.diff.state.selected {
                Some(s) => s as int,
                None => 0,
            };
            let highlighted = match app.diff.anchor {
                Some(a) => a <= i <= at || at <= i <= a,
                None => false,
            };
            &&& p.items.len() == app.diff.lines.len()
            &&& p.border == border(app.focus == Focus::Diff)
            &&& p.symbol.len() == 0
            &&& row.style == Style {
                fg: None,
                bg: if highlighted {
                    Some(Color::DarkGray)
                } else {
                    None
                },
                bold: false,
                reversed: false,
            }
            &&& row.spans.len() == 1
            &&& l.kind == LineKind::Add ==> row.spans[0] == tinted(
                seq!['+'] + l.text,
                Some(Color::Green),
                false,
            )
            &&& l.kind == LineKind::Del ==> row.spans[0] == tinted(
                seq!['-'] + l.text,
                Some(Color::Red),
                false,
            )
            &&& l.kind == LineKind::Ctx ==> row.spans[0] == tinted(seq![' '] + l.text, None, false)
            &&& l.kind == LineKind::Hunk ==> row.spans[0] == tinted(
                l.text,
                Some(Color::Cyan),
                false,
            )
            &&& l.kind == LineKind::File ==> row.spans[0] == tinted(
                l.text,
                Some(Color::DarkGray),
                true,
            )
            &&& l.kind == LineKind::Meta ==> row.spans[0] == tinted(
                l.text,
                Some(Color::DarkGray),
                false,
            )
            &&& l.kind == LineKind::Msg ==> row.spans[0] == tinted(l.text, None, false)
        }),
{
    reveal_strlit("+");
    reveal_strlit("-");
    reveal_strlit(" ");
    reveal_strlit("");
    assert("+"@ =~= seq!['+']);
    assert("-"@ =~= seq!['-']);
    assert(" "@ =~= seq![' ']);
    let l = app.diff.lines[i];
    assert(""@ + l.text =~= l.text);
}

/// The title of the diff pane names the document, and counts the lines of a
/// highlight, both ends of it in.
pub proof fn the_title_counts_the_highlight(app: AppView, lo: int, hi: int)
    requires
        lo <= hi,
    ensures
        ({
            let at = match app.diff.state.selected {
                Some(s) => s as int,
                None => 0,
            };
            let name = "Diff: "@ + app.diff.title;
            let title = diff_panel(app).title;
            &&& app.diff.anchor is None ==> title == seq![' '] + name + seq![' ']
            &&& app.diff.anchor is Some && (lo == app.diff.anchor->0 && hi == at || lo == at && hi
                == app.diff.anchor->0) ==> title == seq![' '] + name + ("  ["@ + decimal(
                (hi - lo + 1) as nat,
            ) + " highlighted]"@) + seq![' ']
        }),
{
    reveal_strlit(" ");
    assert(" "@ =~= seq![' ']);
    let name = "Diff: "@ + app.diff.title;
    assert(name + Seq::<char>::empty() =~= name);
    let title = diff_panel(app).title;
    if app.diff.anchor is Some {
        let p = app.diff;
        let (a, b) = p.selection()->0;
        let tail = "  ["@ + decimal((b - a + 1) as nat) + " highlighted]"@;
        assert(title =~= seq![' '] + name + tail + seq![' ']);
    }
}

/// The diff pane remembers how many lines it shows: its height without the two
/// borders, or none. Nothing else changes.
pub proof fn the_pane_remembers_its_lines(app: AppView, height: u16)
    ensures
        height >= 2 ==> with_viewport(app, height).diff.viewport == height - 2,
        height < 2 ==> with_viewport(app, height).diff.viewport == 0,
        with_viewport(app, height).diff.lines == app.diff.lines,
        with_viewport(app, height).diff.state == app.diff.state,
        with_viewport(app, height).diff.anchor == app.diff.anchor,
        with_viewport(app, height).mode == app.mode,
        with_viewport(app, height).status_line == app.status_line,
{
}

/// The bottom bar has three lines: the feedback, set off, and two on what the keys
/// do, each group behind its heading.
pub proof fn the_bar_shows_the_feedback(status_line: Seq<char>)
    ensures
        ({
            let rows = bar_rows(status_line);
            let set_off = |text: Seq<char>, bg: Color, bold: bool|
                SpanView {
                    text: seq![' '] + text + seq![' '],
                    style: Style { fg: Some(Color::Black), bg: Some(bg), bold, reversed: false },
                };
            let keys = |text: Seq<char>| tinted(text, Some(Color::Gray), false);
            let gap = tinted(seq![' ', ' ', ' '], None, false);
            &&& rows.len() == 3
            &&& bare(rows[0]) && bare(rows[1]) && bare(rows[2])
            &&& rows[0].spans == seq![set_off(status_line, Color::Cyan, false)]
            &&& rows[1].spans == seq![
                set_off("Panes"@, Color::Cyan, true),
                keys(" ⇧H/J/K/L move · Tab cycle · j/k select · Enter diff · q/^C quit · ? help"@),
            ]
            &&& rows[2].spans == seq![
                set_off("Diff"@, Color::Blue, true),
                keys(" ⇧Space highlight · s/u stage/unstage lines"@),
                gap,
                set_off("Files"@, Color::Green, true),
                keys(" s/u/a stage · c commit"@),
                gap,
                set_off("Sync"@, Color::Magenta, true),
                keys(" p/P/f"@),
            ]
        }),
{
    reveal_strlit(" ");
    reveal_strlit("   ");
    assert(" "@ =~= seq![' ']);
    assert("   "@ =~= seq![' ', ' ', ' ']);
}

/// The popup of a commit message has a row for each line of it, as far as the
/// screen leaves six rows free, and at least one; the popup of a message to read
/// has a row for each line, as far as two rows are left free, and at least one.
/// Both have two more for the borders.
pub proof fn popups_are_as_high_as_their_text(n: nat, text: Seq<char>, height: u16)
    ensures
        n >= 1 && (n == 1 || n + 6 <= height) ==> input_rows(n, height) == n + 2,
        n == 0 ==> input_rows(n, height) == 3,
        n > 1 && n + 6 > height && height >= 7 ==> input_rows(n, height) == height - 4,
        n > 1 && height < 7 ==> input_rows(n, height) == 3,
        ({
            let k = lines_of(text).len();
            &&& k <= 1 ==> message_rows(text, height) == 3
            &&& k > 1 && k + 4 <= height ==> message_rows(text, height) == k + 2
            &&& k > 1 && k + 4 > height && height >= 5 ==> message_rows(text, height) == height - 2
            &&& height < 5 ==> message_rows(text, height) == 3
        }),
{
}

/// There is a popup exactly while a message is typed or read: over 70 percent of
/// the width of the body for the one, over 80 percent for the other.
pub proof fn popups_show_what_is_typed_or_read(app: AppView, body: Rect)
    ensures
        app.mode is Normal ==> popup_over(app, body) is Closed,
        app.mode matches ModeView::Message(text) ==> popup_over(app, body) == (PopupView::Message {
            area: centered(body, 80, message_rows(text, body.height)),
            text,
            title: " Message (press any key) "@,
            border: Style { fg: Some(Color::Yellow), bg: None, bold: false, reversed: false },
        }),
        app.mode matches ModeView::Input { editor } ==> {
            let area = centered(body, 70, input_rows(editor.lines.len(), body.height));
            &&& popup_over(app, body) == input_popup(app, editor, area)
            &&& popup_over(app, body)->Input_area == area
        },
{
}

/// The popup of a commit message shows all of its lines and counts the staged
/// entries. Its text is shifted by nothing while the cursor is in view, and
/// otherwise by just as much as puts the cursor on the last cell; the terminal's
/// cursor stands at the edit point, inside the border.
pub proof fn the_popup_shows_the_message(app: AppView, e: EditorView, area: Rect)
    requires
        e.wf(),
    ensures
        input_popup(app, e, area) matches PopupView::Input {
            area: a,
            lines,
            scroll_x,
            scroll_y,
            title,
            bottom,
            cursor_x,
            cursor_y,
            border,
        } && {
            let most = |n: int|
                if n > 0xFFFF {
                    0xFFFF
                } else {
                    n
                };
            let x = most(width_of(e.lines[e.row].take(e.col)) as int);
            let y = most(e.row);
            let columns: int = if area.width > 2 {
                area.width - 2
            } else {
                1
            };
            let rows: int = if area.height > 2 {
                area.height - 2
            } else {
                1
            };
            &&& a == area
            &&& lines == e.lines
            &&& title == " Commit message — "@ + decimal(entries_in(app.status, Section::Staged))
                + " file(s) staged "@
            &&& bottom == " Enter commit · Ctrl+N newline · Esc cancel "@
            &&& border == Style { fg: Some(Color::Yellow), bg: None, bold: false, reversed: false }
            &&& x < columns ==> scroll_x == 0
            &&& x >= columns ==> scroll_x == x - (columns - 1)
            &&& y < rows ==> scroll_y == 0
            &&& y >= rows ==> scroll_y == y - (rows - 1)
            &&& cursor_x == (area.x + 1 + (x - scroll_x)) % 0x1_0000
            &&& cursor_y == (area.y + 1 + (y - scroll_y)) % 0x1_0000
        },
{
    counting_is_counting(app.status, Section::Staged);
    assert(e.before() == e.lines[e.row].take(e.col));
}

/// The bar has three rows, or as many as there are; of the body above it the left
/// panes have 36 percent of the width, and of those the changes have 40 percent of
/// the height.
pub proof fn the_panes_have_their_shares(screen: Rect)
    requires
        screen.x + screen.width <= u16::MAX,
        screen.y + screen.height <= u16::MAX,
    ensures
        ({
            let a = areas_of(screen);
            &&& screen.height >= 3 ==> a.bar.height == 3
            &&& screen.height < 3 ==> a.bar.height == screen.height
            &&& a.body.x == screen.x && a.bar.x == screen.x
            &&& a.body.width == screen.width && a.bar.width == screen.width
            &&& a.status.width == share(screen.width as int, 36)
            &&& a.status.height == share(a.body.height as int, 40)
        }),
{
}

/// A popup is centered: as many rows high as asked for, or as there are, with as
/// many rows free above it as below it, or one more; and the percentage of the
/// width that is asked for wide, behind half of what is left of it.
pub proof fn popups_are_centered(body: Rect, pct_w: int, height: int)
    requires
        body.x + body.width <= u16::MAX,
        body.y + body.height <= u16::MAX,
        0 <= pct_w <= 100,
        0 <= height,
    ensures
        ({
            let r = centered(body, pct_w, height);
            let above = r.y - body.y;
            let below = body.y + body.height - (r.y + r.height);
            &&& height <= body.height ==> r.height == height
            &&& height > body.height ==> r.height == body.height
            &&& above == below || above == below + 1
            &&& r.x - body.x == share(body.width as int, (100 - pct_w) / 2)
            &&& r.x + r.width - body.x == share(
                body.width as int,
                (100 - pct_w) / 2 + pct_w,
            )
        }),
{
    popups_lie_in_the_body(body, pct_w, height);
    let w = body.width as int;
    let side = (100 - pct_w) / 2;
    assert(0 <= w * side <= w * (side + pct_w) <= w * 100) by (nonlinear_arith)
        requires
            0 <= w,
            0 <= side <= side + pct_w <= 100,
    ;
}

} // verus!

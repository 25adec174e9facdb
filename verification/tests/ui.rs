use git_viz::app::{App, DiffSource, Editor, Focus, Mode};
use git_viz::git::{CommitInfo, HeadInfo, RefLabel, Section, StatusEntry};
use git_viz::oid::Oid;
use git_viz::patch::{DiffLine, LineKind};
use git_viz::ui::{
    border_style, centered_h, input_height, layout, log_title, message_height, render_diff,
    render_input, render_log, render_message, render_status, render_status_bar, ui, Color, Popup,
    Rect, Row, Style,
};

fn app() -> App {
    let (mut app, _) = App::load();
    let entry = |path: &str, section: Section, code: &str| StatusEntry {
        path: path.to_string(),
        section,
        deleted: false,
        code: code.to_string(),
    };
    app.status = vec![
        entry("a", Section::Staged, "A"),
        entry("b", Section::Unstaged, "M"),
        entry("c", Section::Unstaged, "D"),
        entry("d", Section::Untracked, "??"),
    ];
    app.commits = vec![CommitInfo {
        short_id: "0123456".to_string(),
        summary: "subject".to_string(),
        author: "Ann".to_string(),
        graph: "│ ● ".to_string(),
        oid: Oid { bytes: [1; 20] },
        refs: vec![
            RefLabel { name: "main".to_string(), remote: false },
            RefLabel { name: "origin/main".to_string(), remote: true },
        ],
    }];
    let line = |kind: LineKind, text: &str| DiffLine {
        kind,
        text: text.to_string(),
        raw: String::new(),
    };
    app.diff.source = DiffSource::Commit(Oid { bytes: [1; 20] });
    app.diff.title = "f".to_string();
    app.diff.lines = vec![
        line(LineKind::File, "--- a/f"),
        line(LineKind::Hunk, "@@ -1 +1 @@"),
        line(LineKind::Ctx, "x"),
        line(LineKind::Del, "y"),
        line(LineKind::Add, "z"),
        line(LineKind::Meta, "m"),
        line(LineKind::Msg, "    s"),
    ];
    app
}

fn text(row: &Row) -> String {
    row.spans.iter().map(|s| s.text.as_str()).collect()
}

fn fg(c: Color) -> Style {
    Style { fg: Some(c), bg: None, bold: false, reversed: false }
}

fn screen(w: u16, h: u16) -> Rect {
    Rect { x: 0, y: 0, width: w, height: h }
}

/// Render every mode and focus across a range of sizes; the point is that
/// layout math and popup sizing never panic.
#[test]
fn renders_all_modes_without_panicking() {
    let mut app = app();

    let make_modes = || {
        // A long line (forces horizontal scroll) plus a multi-line body
        // (forces vertical growth), cursor mid-text.
        let editor = Editor {
            lines: vec![
                "a commit subject long enough to scroll past a narrow popup border".into(),
                String::new(),
                "body line".into(),
            ],
            row: 2,
            col: 4,
        };
        vec![
            Mode::Normal,
            Mode::Input { editor },
            Mode::Message("line1\nline2\nline3".to_string()),
        ]
    };

    for (w, h) in [(80u16, 24u16), (20, 8), (200, 60)] {
        for focus in [Focus::Status, Focus::Log, Focus::Diff] {
            app.set_focus(focus);
            // Exercise the highlight path too.
            app.diff.anchor = Some(0);
            app.diff.jump(true);
            for mode in make_modes() {
                app.mode = mode;
                let s = ui(&mut app, screen(w, h));
                // Everything lies on the screen, popups in the body.
                for r in [s.areas.status, s.areas.log, s.areas.diff, s.areas.bar] {
                    assert!(r.x + r.width <= w && r.y + r.height <= h);
                }
                let body = s.areas.body;
                match s.popup {
                    Popup::Closed => assert!(matches!(app.mode, Mode::Normal)),
                    Popup::Input { area, cursor_x, cursor_y, .. } => {
                        assert!(area.x >= body.x && area.y >= body.y);
                        assert!(area.x + area.width <= body.x + body.width);
                        assert!(area.y + area.height <= body.y + body.height);
                        assert!(cursor_x < w && cursor_y < h);
                    }
                    Popup::Message { area, .. } => {
                        assert!(area.x + area.width <= body.x + body.width);
                        assert!(area.y + area.height <= body.y + body.height);
                    }
                }
                assert_eq!(app.diff.viewport, s.areas.diff.height.saturating_sub(2));
            }
            app.diff.anchor = None;
        }
    }
}

#[test]
fn the_panes_share_the_screen() {
    let a = layout(screen(100, 43));
    assert_eq!((a.body.x, a.body.y, a.body.width, a.body.height), (0, 0, 100, 40));
    assert_eq!((a.bar.x, a.bar.y, a.bar.width, a.bar.height), (0, 40, 100, 3));
    assert_eq!((a.status.x, a.status.y, a.status.width, a.status.height), (0, 0, 36, 16));
    assert_eq!((a.log.x, a.log.y, a.log.width, a.log.height), (0, 16, 36, 24));
    assert_eq!((a.diff.x, a.diff.y, a.diff.width, a.diff.height), (36, 0, 64, 40));
}

#[test]
fn popups_are_centered() {
    let r = centered_h(screen(100, 40), 70, 6);
    assert_eq!((r.x, r.y, r.width, r.height), (15, 17, 70, 6));
    let r = centered_h(Rect { x: 10, y: 5, width: 20, height: 4 }, 80, 9);
    assert!(r.x >= 10 && r.x + r.width <= 30);
    assert!(r.y >= 5 && r.y + r.height <= 9);
}

fn share(extent: u32, percent: u32) -> u32 {
    (extent * percent + 50) / 100
}

fn parts(r: Rect) -> (u32, u32, u32, u32) {
    (r.x as u32, r.y as u32, r.width as u32, r.height as u32)
}

fn check_layout(area: Rect) {
    let (x, y, _, _) = parts(area);
    let w = (x + area.width as u32).min(65535) - x;
    let h = (y + area.height as u32).min(65535) - y;
    let a = layout(area);
    let bar = h.min(3);
    let body = h - bar;
    let full = area.width as u32;
    assert_eq!(parts(a.body), (x, y, full, body), "{:?}", parts(area));
    assert_eq!(parts(a.bar), (x, y + body, full, bar), "{:?}", parts(area));
    let left = share(w, 36);
    assert_eq!(parts(a.diff), (x + left, y, w - left, body), "{:?}", parts(area));
    let top = share(body, 40);
    assert_eq!(parts(a.status), (x, y, left, top), "{:?}", parts(area));
    assert_eq!(parts(a.log), (x, y + top, left, body - top), "{:?}", parts(area));
}

#[test]
fn the_screen_is_shared_out_at_every_size() {
    for n in 0..=700u16 {
        check_layout(screen(n, 30));
        check_layout(screen(90, n));
        check_layout(Rect { x: n, y: 2 * n, width: 3 * n, height: n });
        check_layout(Rect { x: 7, y: 0, width: n * 93, height: n * 91 });
        check_layout(Rect { x: 65535 - n, y: 65530, width: 400, height: 20 });
    }
}

fn check_centered(area: Rect, pct: u16, height: u16) {
    let (x, y, w, h) = parts(area);
    let side = (100 - pct as u32) / 2;
    let m = h.min(height as u32);
    let left = share(w, side);
    let right = share(w, side + pct as u32);
    assert_eq!(
        parts(centered_h(area, pct, height)),
        (x + left, y + (h - m + 1) / 2, right - left, m),
        "{:?} {pct} {height}",
        parts(area)
    );
}

#[test]
fn popups_are_centered_at_every_size() {
    for n in 0..=250u16 {
        for height in [0, 1, 3, 4, 7, 36, 99] {
            check_centered(screen(n, n), 70, height);
            check_centered(Rect { x: 3, y: 5, width: 100 + n, height: n }, 80, height);
        }
        check_centered(screen(121, n), n % 101, n / 2);
        check_centered(screen(60 * n, 261 * n), 70, 6 * n);
    }
}

#[test]
fn changes_are_listed_by_group() {
    let mut app = app();
    let pane = render_status(&app);
    assert_eq!(pane.title, " Changes: 1 staged, 2 mod, 1 new ");
    let rows: Vec<String> = pane.items.iter().map(text).collect();
    assert_eq!(rows, vec!["● A  a", "● M  b", "● D  c", "? ?? d"]);
    assert!(pane.items[0].spans[0].style == fg(Color::Green));
    assert!(pane.items[1].spans[1].style == fg(Color::Yellow));
    assert!(pane.items[3].spans[0].style == fg(Color::DarkGray));
    assert!(pane.items[0].spans[2].style.fg == None);
    assert_eq!(pane.symbol, "> ");
    assert!(pane.highlight.reversed);
    assert!(pane.border == border_style(true));
    assert!(pane.border.bold && pane.border.fg == Some(Color::Cyan));

    app.status.truncate(1);
    app.focus = Focus::Log;
    let pane = render_status(&app);
    assert_eq!(pane.title, " Changes: 1 staged ");
    assert!(pane.border == fg(Color::DarkGray));

    app.status.clear();
    assert_eq!(render_status(&app).title, " Changes (clean) ");
}

#[test]
fn commits_are_listed_with_their_refs() {
    let pane = render_log(&app());
    assert_eq!(pane.title, " git-viz — 1 commits ");
    let row = &pane.items[0];
    assert_eq!(text(row), "│ ● 0123456 main origin/main subject  (Ann)");
    assert!(row.spans[0].style == fg(Color::Cyan));
    assert!(row.spans[1].style == fg(Color::DarkGray));
    assert!(row.spans[2].style == Style { bold: true, ..fg(Color::Green) });
    assert!(row.spans[3].style == Style { bold: true, ..fg(Color::Magenta) });
    assert!(row.spans[4].style.fg == None);
    assert!(row.spans[5].style == fg(Color::DarkGray));
}

#[test]
fn the_log_title_says_how_the_branch_stands() {
    let mut app = app();
    let mut titled = |upstream: Option<&str>, ahead: usize, behind: usize| {
        app.head = Some(HeadInfo {
            branch: "main".to_string(),
            upstream: upstream.map(String::from),
            ahead,
            behind,
        });
        log_title(&app)
    };
    assert_eq!(titled(None, 0, 0), "main  — 1 commits");
    assert_eq!(titled(Some("origin/main"), 0, 0), "main  ✓ — 1 commits");
    assert_eq!(titled(Some("origin/main"), 2, 0), "main  ↑2 — 1 commits");
    assert_eq!(titled(Some("origin/main"), 0, 13), "main  ↓13 — 1 commits");
    assert_eq!(titled(Some("origin/main"), 2, 13), "main  ↑2 ↓13 — 1 commits");
}

#[test]
fn diffs_are_colored_and_highlighted() {
    let mut app = app();
    let pane = render_diff(&mut app, screen(10, 7));
    assert_eq!(pane.title, " Diff: f ");
    assert_eq!(app.diff.viewport, 5);
    let rows: Vec<String> = pane.items.iter().map(text).collect();
    assert_eq!(rows, vec!["--- a/f", "@@ -1 +1 @@", " x", "-y", "+z", "m", "    s"]);
    let style = |i: usize| pane.items[i].spans[0].style;
    assert!(style(0) == Style { bold: true, ..fg(Color::DarkGray) });
    assert!(style(1) == fg(Color::Cyan));
    assert!(style(2).fg == None);
    assert!(style(3) == fg(Color::Red));
    assert!(style(4) == fg(Color::Green));
    assert!(style(5) == fg(Color::DarkGray));
    assert!(style(6).fg == None);
    assert!(pane.items.iter().all(|r| r.style.bg == None));
    assert_eq!(pane.symbol, "");

    app.diff.anchor = Some(4);
    app.diff.state.select(Some(2));
    let pane = render_diff(&mut app, screen(10, 1));
    assert_eq!(pane.title, " Diff: f  [3 highlighted] ");
    assert_eq!(app.diff.viewport, 0);
    let lit: Vec<bool> =
        pane.items.iter().map(|r| r.style.bg == Some(Color::DarkGray)).collect();
    assert_eq!(lit, vec![false, false, true, true, true, false, false]);
}

#[test]
fn the_bar_shows_feedback_and_keys() {
    let mut app = app();
    app.notify("Staged f");
    let rows = render_status_bar(&app);
    assert_eq!(rows.len(), 3);
    assert_eq!(text(&rows[0]), " Staged f ");
    assert_eq!(
        text(&rows[1]),
        " Panes  ⇧H/J/K/L move · Tab cycle · j/k select · Enter diff · q/^C quit · ? help"
    );
    assert_eq!(
        text(&rows[2]),
        " Diff  ⇧Space highlight · s/u stage/unstage lines    Files  s/u/a stage · c commit    Sync  p/P/f"
    );
    let s = rows[0].spans[0].style;
    assert!(s.fg == Some(Color::Black) && s.bg == Some(Color::Cyan) && !s.bold);
    let s = rows[2].spans[0].style;
    assert!(s.fg == Some(Color::Black) && s.bg == Some(Color::Blue) && s.bold);
}

fn editor(lines: &[&str], row: usize, col: usize) -> Editor {
    Editor { lines: lines.iter().map(|l| l.to_string()).collect(), row, col }
}

#[test]
fn the_edit_point_stays_in_view() {
    let app = app();
    // Everything fits: no scrolling.
    let popup = render_input(
        &app,
        &editor(&["subject", "body"], 1, 2),
        Rect { x: 5, y: 3, width: 20, height: 4 },
    );
    let Popup::Input { scroll_x, scroll_y, cursor_x, cursor_y, title, bottom, lines, border, .. } =
        popup
    else {
        panic!("typing")
    };
    assert_eq!((scroll_x, scroll_y, cursor_x, cursor_y), (0, 0, 8, 5));
    assert_eq!(title, " Commit message — 1 file(s) staged ");
    assert_eq!(bottom, " Enter commit · Ctrl+N newline · Esc cancel ");
    assert_eq!(lines, vec!["subject", "body"]);
    assert!(border == fg(Color::Yellow));

    // Too long and too deep: the text shifts, the cursor stands at the border.
    let popup = render_input(
        &app,
        &editor(&["", "", "0123456789汉x"], 2, 11),
        Rect { x: 0, y: 0, width: 6, height: 4 },
    );
    let Popup::Input { scroll_x, scroll_y, cursor_x, cursor_y, .. } = popup else {
        panic!("typing")
    };
    // Twelve columns before the cursor, four of them show.
    assert_eq!((scroll_x, scroll_y, cursor_x, cursor_y), (9, 1, 4, 2));
}

#[test]
fn popups_have_a_height() {
    let e = |n: usize| Editor { lines: vec![String::new(); n], row: 0, col: 0 };
    assert_eq!(input_height(&e(1), screen(80, 40)), 3);
    assert_eq!(input_height(&e(5), screen(80, 40)), 7);
    assert_eq!(input_height(&e(99), screen(80, 40)), 36);
    assert_eq!(input_height(&e(99), screen(80, 5)), 3);
    // More lines than a position can count: as high as it gets.
    assert_eq!(input_height(&e(65_536), screen(80, 40)), 36);
    assert_eq!(input_height(&e(65_537), screen(80, 40)), 36);
    assert_eq!(message_height("", screen(80, 40)), 3);
    for n in [65_533, 65_534, 65_535, 65_536, 70_000] {
        assert_eq!(message_height(&"\n".repeat(n), screen(80, 40)), 38);
    }
    assert_eq!(message_height(&"\n".repeat(65_533), screen(80, 65_535)), 65_533);
    assert_eq!(message_height("a\nb\nc", screen(80, 40)), 5);
    assert_eq!(message_height(&"x\n".repeat(99), screen(80, 40)), 38);
    assert_eq!(message_height("a\nb\nc", screen(80, 1)), 3);
}

#[test]
fn messages_are_shown_whole() {
    let Popup::Message { text, title, area, border } = render_message("a\nb", screen(9, 9)) else {
        panic!("message")
    };
    assert_eq!(text, "a\nb");
    assert_eq!(title, " Message (press any key) ");
    assert!(area == screen(9, 9));
    assert!(border == fg(Color::Yellow));
}

use git_viz::patch::{
    change_count, collect_diff, hunk_at, parse_hunk_header, partial_patch, whole_file,
    whole_file_kind, DiffChunk, DiffLine, LineKind, WholeFile,
};

fn chunk(origin: char, text: &str) -> DiffChunk {
    DiffChunk { origin, content: text.as_bytes().to_vec() }
}

/// The lines of a diff of one file, from its header and its marked lines.
fn diff(header: &str, body: &str) -> Vec<DiffLine> {
    let mut chunks = vec![chunk('F', header)];
    for line in body.split_inclusive('\n') {
        if line.starts_with("@@") {
            chunks.push(chunk('H', line));
        } else if line.starts_with('\\') {
            chunks.push(chunk('>', &format!("\n{line}")));
        } else {
            chunks.push(chunk(line.chars().next().unwrap(), &line[1..]));
        }
    }
    collect_diff(&chunks)
}

const HEADER: &str =
    "diff --git a/f.txt b/f.txt\nindex 9405325..61780798 100644\n--- a/f.txt\n+++ b/f.txt\n";

/// Display index of the first line matching kind + text.
fn find_line(lines: &[DiffLine], kind: LineKind, text: &str) -> usize {
    lines
        .iter()
        .position(|l| l.kind == kind && l.text == text)
        .unwrap_or_else(|| panic!("no {kind:?} line {text:?}"))
}

/// A patch of one file applied to a text, or taken back out of it.
fn apply(text: &str, patch: &str, reverse: bool) -> String {
    let old: Vec<&str> = text.split_inclusive('\n').collect();
    let mut out = String::new();
    let mut at = 0;
    for line in patch.split_inclusive('\n') {
        if line.starts_with("@@ ") {
            let side = if reverse { '+' } else { '-' };
            let range = line.split(side).nth(1).unwrap().split(' ').next().unwrap();
            let (start, count) = range.split_once(',').unwrap();
            let start: usize = start.parse().unwrap();
            let to = if count == "0" { start } else { start - 1 };
            while at < to {
                out.push_str(old[at]);
                at += 1;
            }
        } else if line.starts_with("--- ") || line.starts_with("+++ ") {
        } else {
            let (mark, rest) = line.split_at(1);
            let mark = match (mark, reverse) {
                ("+", true) => "-",
                ("-", true) => "+",
                (m, _) => m,
            };
            match mark {
                " " => {
                    assert_eq!(old[at], rest, "context");
                    out.push_str(rest);
                    at += 1;
                }
                "-" => {
                    assert_eq!(old[at], rest, "removed line");
                    at += 1;
                }
                "+" => out.push_str(rest),
                _ => {}
            }
        }
    }
    while at < old.len() {
        out.push_str(old[at]);
        at += 1;
    }
    out
}

#[test]
fn partial_stage_and_unstage_selected_lines() {
    // Base commit: five lines. Working tree: b→X, d deleted, f appended.
    let base = "a\nb\nc\nd\ne\n";
    let lines = diff(HEADER, "@@ -1,5 +1,5 @@\n a\n-b\n+X\n c\n-d\n e\n+f\n");

    // Stage only the b→X edit (the adjacent -b / +X pair).
    let del_b = find_line(&lines, LineKind::Del, "b");
    let add_x = find_line(&lines, LineKind::Add, "X");
    let (patch, kept) = partial_patch(&lines, (del_b, add_x), false).expect("patch");
    assert_eq!(kept, 2);
    assert_eq!(
        patch,
        format!("{HEADER}@@ -1,5 +1,5 @@\n a\n-b\n+X\n c\n d\n e\n")
    );
    let index = apply(base, &patch, false);
    assert_eq!(index, "a\nX\nc\nd\ne\n");

    // Stage only the deletion of d, from a fresh diff.
    let lines = diff(HEADER, "@@ -1,5 +1,5 @@\n a\n X\n c\n-d\n e\n+f\n");
    let del_d = find_line(&lines, LineKind::Del, "d");
    let (patch, kept) = partial_patch(&lines, (del_d, del_d), false).expect("patch");
    assert_eq!(kept, 1);
    assert_eq!(
        patch,
        format!("{HEADER}@@ -1,5 +1,4 @@\n a\n X\n c\n-d\n e\n")
    );
    let index = apply(&index, &patch, false);
    assert_eq!(index, "a\nX\nc\ne\n");

    // Stage the rest via hunk-at-cursor: everything left is "+f".
    let lines = diff(HEADER, "@@ -2,3 +2,4 @@ a\n X\n c\n e\n+f\n");
    let add_f = find_line(&lines, LineKind::Add, "f");
    let hunk = hunk_at(&lines, add_f).expect("hunk");
    let (patch, _) = partial_patch(&lines, hunk, false).expect("patch");
    let index = apply(&index, &patch, false);
    assert_eq!(index, "a\nX\nc\ne\nf\n");

    // Now unstage just the +X line from the staged diff. The b-deletion
    // stays staged, so the index ends up with neither b nor X.
    let staged = diff(HEADER, "@@ -1,5 +1,5 @@\n a\n-b\n+X\n c\n-d\n e\n+f\n");
    let add_x = find_line(&staged, LineKind::Add, "X");
    let (patch, kept) = partial_patch(&staged, (add_x, add_x), true).expect("patch");
    assert_eq!(kept, 1);
    assert_eq!(
        patch,
        format!("{HEADER}@@ -1,4 +1,5 @@\n a\n+X\n c\n e\n f\n")
    );
    let index = apply(&index, &patch, true);
    assert_eq!(index, "a\nc\ne\nf\n");

    // A selection with no +/- lines yields no patch.
    let ctx = lines
        .iter()
        .position(|l| l.kind == LineKind::Ctx)
        .expect("context line");
    assert!(partial_patch(&lines, (ctx, ctx), false).is_none());
}

#[test]
fn partial_stage_untracked_via_intent_to_add() {
    let lines = diff(
        "diff --git a/u.txt b/u.txt\nnew file mode 100644\nindex 0000000..4cb29ea\n--- /dev/null\n+++ b/u.txt\n",
        "@@ -0,0 +1,3 @@\n+one\n+two\n+three\n",
    );
    assert_eq!(whole_file_kind(&lines), Some("new"));
    assert_eq!(change_count(&lines), 3);

    // Stage only the first line of the untracked file.
    let one = find_line(&lines, LineKind::Add, "one");
    let (patch, kept) = partial_patch(&lines, (one, one), false).expect("patch");
    assert_eq!(kept, 1);
    assert!(patch.ends_with("@@ -0,0 +1,1 @@\n+one\n"));
    assert_eq!(apply("", patch.split_once("@@").map(|_| &patch[patch.find("@@").unwrap()..]).unwrap(), false), "one\n");

    // The worktree still has all three lines; the rest shows as unstaged.
    let rest = diff(HEADER, "@@ -1 +1,3 @@\n one\n+two\n+three\n");
    assert_eq!(change_count(&rest), 2);
}

#[test]
fn hunk_at_finds_enclosing_hunk_only() {
    let lines = diff(HEADER, "@@ -1,2 +1,2 @@\n a\n-b\n+B\n");
    let hdr = lines
        .iter()
        .position(|l| l.kind == LineKind::Hunk)
        .expect("hunk header");

    // File-header lines are outside any hunk.
    assert!(hunk_at(&lines, 0).is_none());
    // The header itself and every body line map to the same span.
    let span = hunk_at(&lines, hdr).expect("span");
    assert_eq!(span.0, hdr);
    assert_eq!(span.1, lines.len() - 1);
    assert_eq!(hunk_at(&lines, lines.len() - 1), Some(span));
    // Behind the end there is nothing.
    assert_eq!(hunk_at(&lines, lines.len()), None);
    assert_eq!(hunk_at(&[], 0), None);
}

#[test]
fn two_hunks_are_told_apart() {
    let lines = diff(HEADER, "@@ -1,2 +1,2 @@\n-a\n+A\n b\n@@ -9,2 +9,2 @@ fn f\n c\n-d\n+D\n");
    let first = hunk_at(&lines, 5).expect("first");
    let second = hunk_at(&lines, 9).expect("second");
    assert_eq!(first, (4, 7));
    assert_eq!(second, (8, 11));
    // A range over both keeps only the changes inside it, and drops hunks
    // without any.
    let (patch, kept) = partial_patch(&lines, (9, 10), false).expect("patch");
    assert_eq!(kept, 1);
    assert_eq!(patch, format!("{HEADER}@@ -9,2 +9,1 @@ fn f\n c\n-d\n"));
    // The ends of a range may come in either order.
    assert_eq!(partial_patch(&lines, (10, 9), false), partial_patch(&lines, (9, 10), false));
    let (patch, kept) = partial_patch(&lines, (0, usize::MAX), false).expect("patch");
    assert_eq!(kept, 4);
    assert!(patch.ends_with("@@ -1,2 +1,2 @@\n-a\n+A\n b\n@@ -9,2 +9,2 @@ fn f\n c\n-d\n+D\n"));
}

#[test]
fn a_missing_newline_goes_with_its_line() {
    let lines = diff(HEADER, "@@ -1 +1 @@\n-a\n\\ No newline at end of file\n+b\n");
    assert_eq!(lines[6].kind, LineKind::Meta);
    assert_eq!(lines[6].text, "\\ No newline at end of file");
    let (patch, _) = partial_patch(&lines, (5, 5), false).expect("patch");
    assert!(patch.contains("No newline"));
    // Dropped with the line it belongs to.
    let (patch, kept) = partial_patch(&lines, (7, 7), true).expect("patch");
    assert_eq!(kept, 1);
    assert!(!patch.contains("No newline"));
}

#[test]
fn staging_one_part_is_unstaging_the_other() {
    let base = "a\nb\nc\n";
    let work = "a\nB\nC\n";
    let lines = diff(HEADER, "@@ -1,3 +1,3 @@\n a\n-b\n-c\n+B\n+C\n");
    for lo in 4..lines.len() {
        for hi in lo..lines.len() {
            if let Some((patch, _)) = partial_patch(&lines, (lo, hi), false) {
                // Forward onto the base always applies.
                let some = apply(base, &patch, false);
                if (lo, hi) == (4, lines.len() - 1) {
                    assert_eq!(some, work);
                }
            }
            if let Some((patch, _)) = partial_patch(&lines, (lo, hi), true) {
                // In reverse onto the other side always applies.
                let some = apply(work, &patch, true);
                if (lo, hi) == (4, lines.len() - 1) {
                    assert_eq!(some, base);
                }
            }
        }
    }
}

#[test]
fn hunk_headers_are_read() {
    assert_eq!(
        parse_hunk_header("@@ -12,3 +34,5 @@ fn main() {"),
        Some((12, 34, " fn main() {".to_string()))
    );
    assert_eq!(parse_hunk_header("@@ -1 +2 @@"), Some((1, 2, String::new())));
    assert_eq!(parse_hunk_header("@@ +2 @@"), Some((0, 2, String::new())));
    assert_eq!(parse_hunk_header("@@ -1 +2"), None);
    assert_eq!(parse_hunk_header("-1 +2 @@"), None);
    assert_eq!(parse_hunk_header("@@ *1 +2 @@"), None);
    assert_eq!(parse_hunk_header("@@ -x +2 @@"), None);
    assert_eq!(parse_hunk_header("@@ -1 +99999999999999999999 @@"), None);
    assert_eq!(parse_hunk_header("@@@ -1 -1 +1 @@@"), None);
}

#[test]
fn headers_are_read_in_every_form() {
    for old in ["7", "7,2"] {
        for new in ["9", "9,0"] {
            for ctx in ["", " fn f()", " @@ x"] {
                assert_eq!(
                    parse_hunk_header(&format!("@@ -{old} +{new} @@{ctx}")),
                    Some((7, 9, ctx.to_string()))
                );
            }
        }
    }
}

#[test]
fn an_unreadable_header_gives_no_patch() {
    let lines = diff(HEADER, "@@ garbled\n-a\n+b\n");
    assert!(partial_patch(&lines, (0, 9), false).is_none());
}

#[test]
fn whole_files_are_recognised() {
    let new = diff("diff --git a/f b/f\nnew file mode 100644\n", "@@ -0,0 +1 @@\n+x\n");
    let gone = diff("diff --git a/f b/f\ndeleted file mode 100644\n", "@@ -1 +0,0 @@\n-x\n");
    let plain = diff(HEADER, "@@ -1 +1 @@\n-new file mode\n+y\n");
    assert_eq!(whole_file_kind(&new), Some("new"));
    assert_eq!(whole_file_kind(&gone), Some("deleted"));
    assert_eq!(whole_file_kind(&plain), None);
    assert!(whole_file(&gone) == Some(WholeFile::Deleted));
}

#[test]
fn chunks_become_lines() {
    let lines = collect_diff(&vec![
        chunk('F', "one\ntwo\r\nthree"),
        chunk('B', "Binary files differ\n"),
        chunk('=', "\n\\ No newline at end of file\n"),
        chunk(' ', "ctx\r\n"),
        DiffChunk { origin: '+', content: vec![b'x', 0xff, b'\n'] },
    ]);
    let shown: Vec<(LineKind, &str, &str)> = lines
        .iter()
        .map(|l| (l.kind, l.text.as_str(), l.raw.as_str()))
        .collect();
    assert_eq!(
        shown,
        vec![
            (LineKind::File, "one", "one\n"),
            (LineKind::File, "two", "two\r\n"),
            (LineKind::File, "three", "three"),
            (LineKind::Meta, "Binary files differ", "Binary files differ\n"),
            (
                LineKind::Meta,
                "\\ No newline at end of file",
                "\n\\ No newline at end of file\n"
            ),
            (LineKind::Ctx, "ctx", "ctx\r\n"),
            (LineKind::Add, "x\u{fffd}", "x\u{fffd}\n"),
        ]
    );
}

#[test]
fn an_empty_diff_says_so() {
    let lines = collect_diff(&Vec::new());
    assert_eq!(lines.len(), 1);
    assert_eq!(lines[0].text, "(no changes)");
    assert_eq!(lines[0].kind, LineKind::Meta);
    assert_eq!(change_count(&lines), 0);
}

#[test]
fn headers_read_back() {
    let lines = diff(HEADER, "@@ -10,3 +20,3 @@ fn f() -> Vec<u8> {\n a\n-b\n+B\n c\n");
    let (patch, _) = partial_patch(&lines, (6, 6), false).expect("patch");
    let header = patch.lines().find(|l| l.starts_with("@@")).expect("header");
    assert_eq!(header, "@@ -10,3 +20,2 @@ fn f() -> Vec<u8> {");
    assert_eq!(
        parse_hunk_header(header),
        Some((10, 20, " fn f() -> Vec<u8> {".to_string()))
    );
    assert_eq!(parse_hunk_header(header), parse_hunk_header(&lines[4].text));
}

#[test]
fn collecting_keeps_the_bytes() {
    let chunks = vec![
        chunk('F', "diff --git a/é b/é\r\n--- a/é\n"),
        chunk('H', "@@ -1 +1 @@ 汉\n"),
        chunk('-', "a\r\n"),
        chunk('>', "\n\\ No newline at end of file\n"),
        chunk('+', "ü"),
    ];
    let bytes: Vec<u8> = chunks.iter().flat_map(|c| c.content.clone()).collect();
    let raw: String = collect_diff(&chunks).iter().map(|l| l.raw.as_str()).collect();
    assert_eq!(raw.as_bytes(), bytes);
}

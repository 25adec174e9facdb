use git_viz::date::Time;
use git_viz::git::{
    apply_cached, apply_cached_done, bare_repository, commit, diff_commit, diff_file, fetch,
    head_info, identity_hint, index_code, intent_to_add, intent_to_add_done, load_commits,
    load_status, pull, push, ref_labels, run_git, stage, unstage, worktree_code, CommitDetails, Comparison,
    FileStatus, Finished, IndexEdit, RawCommit, RawHead, RawRef, RawStatus, RawUpstream, Section,
};
use git_viz::graph::Node;
use git_viz::oid::Oid;
use git_viz::patch::{DiffChunk, LineKind};

fn oid(n: u8) -> Oid {
    let mut bytes = [0u8; 20];
    bytes[0] = n;
    bytes[1] = 0x0f;
    bytes[19] = 0xa5;
    Oid { bytes }
}

fn file(path: &str, bits: u32) -> RawStatus {
    RawStatus { path: Some(path.to_string()), bits }
}

fn chunk(origin: char, text: &str) -> DiffChunk {
    DiffChunk { origin, content: text.as_bytes().to_vec() }
}

fn raw(n: u8, parents: &[u8], summary: Option<&str>, author: Option<&str>) -> RawCommit {
    RawCommit {
        node: Node { oid: oid(n), parents: parents.iter().map(|p| oid(*p)).collect() },
        summary: summary.map(String::from),
        author: author.map(String::from),
    }
}

fn a_ref(branch: bool, remote: bool, target: Option<u8>, name: Option<&str>) -> RawRef {
    RawRef {
        is_branch: branch,
        is_remote: remote,
        target: target.map(oid),
        shorthand: name.map(String::from),
    }
}

#[test]
fn ids_are_shown_in_hexadecimal() {
    let id = Oid {
        bytes: [
            0x01, 0x23, 0x45, 0x67, 0x89, 0xab, 0xcd, 0xef, 0x00, 0xff, 0x10, 0x32, 0x54, 0x76,
            0x98, 0xba, 0xdc, 0xfe, 0x7f, 0x80,
        ],
    };
    assert_eq!(id.to_hex(), "0123456789abcdef00ff1032547698badcfe7f80");
    assert_eq!(id.short_hex(), "0123456");
    assert_eq!(git2::Oid::from_bytes(&id.bytes).unwrap().to_string(), id.to_hex());
    assert!(id.same(&id));
    assert!(!id.same(&oid(1)));
}

// What the panels show along the way of a file that is added, committed,
// changed, staged and unstaged.
#[test]
fn stage_commit_diff_unstage_flow() {
    // Empty repo: no commits.
    assert!(load_commits(&Vec::new(), &Vec::new()).is_empty());

    // Untracked file shows as "??".
    let status = load_status(&vec![file("a.txt", 128)]);
    assert_eq!(status.len(), 1);
    assert_eq!(status[0].code, "??");
    assert!(!status[0].staged());

    // Stage it: becomes staged; the first commit has no parent.
    assert!(matches!(stage("a.txt", false), IndexEdit::Add(p) if p == "a.txt"));
    assert!(load_status(&vec![file("a.txt", 1)])[0].staged());
    assert!(commit(None).is_empty());
    let walk = vec![raw(1, &[], Some("initial"), Some("Test User"))];
    assert_eq!(load_commits(&walk, &Vec::new()).len(), 1);
    assert!(load_status(&Vec::new()).is_empty());

    // head_info reports the current branch (no upstream here).
    let head = head_info(Some(RawHead {
        is_branch: true,
        shorthand: Some("main".to_string()),
        found: true,
        upstream: None,
    }))
    .expect("head");
    assert!(!head.branch.is_empty());
    assert_eq!((head.ahead, head.behind), (0, 0));

    // Second commit, then diff it against its parent.
    let parents = commit(Some(oid(1)));
    assert_eq!(parents.len(), 1);
    assert!(parents[0].same(&oid(1)));
    let details = CommitDetails {
        oid: oid(2),
        author: Some("Test User".to_string()),
        email: Some("test@example.com".to_string()),
        time: Time { seconds: 1_700_000_000, offset_minutes: 0 },
        message: Some("add b".to_string()),
    };
    let diff = diff_commit(
        &details,
        &vec![
            chunk(
                'F',
                "diff --git a/b.txt b/b.txt\nnew file mode 100644\nindex 0000000..cc628cc\n--- /dev/null\n+++ b/b.txt\n",
            ),
            chunk('H', "@@ -0,0 +1 @@\n"),
            chunk('+', "world\n"),
        ],
    );
    assert!(diff.iter().any(|l| l.kind == LineKind::File && l.text.contains("b.txt")));
    assert!(diff.iter().any(|l| l.kind == LineKind::Add && l.text.contains("world")));

    // Staging then unstaging round-trips between the Staged and Unstaged groups.
    assert!(load_status(&vec![file("a.txt", 2)])[0].staged());
    assert!(matches!(unstage("a.txt", true), IndexEdit::Reset(p) if p == "a.txt"));
    assert!(!load_status(&vec![file("a.txt", 256)])[0].staged());
}

#[test]
fn deletions_are_staged_as_removals() {
    assert!(matches!(stage("gone", true), IndexEdit::Remove(p) if p == "gone"));
    assert!(matches!(unstage("new", false), IndexEdit::Remove(p) if p == "new"));
}

#[test]
fn the_log_fills_in_what_is_missing() {
    let walk = vec![
        raw(2, &[1], None, None),
        raw(1, &[], Some("first"), Some("A")),
    ];
    let log = load_commits(&walk, &Vec::new());
    assert_eq!(log[0].summary, "<no summary>");
    assert_eq!(log[0].author, "<unknown>");
    assert_eq!(log[0].short_id, "020f000");
    assert_eq!(log[0].graph, "● ");
    assert_eq!(log[1].summary, "first");
    assert_eq!(log[1].author, "A");
    assert!(log[1].oid.same(&oid(1)));
}

#[test]
fn refs_are_shown_at_their_commits() {
    let walk = vec![raw(2, &[1], Some("b"), None), raw(1, &[], Some("a"), None)];
    let refs = vec![
        a_ref(true, false, Some(2), Some("main")),
        a_ref(false, true, Some(1), Some("origin/main")),
        a_ref(false, true, Some(1), Some("origin/HEAD")),
        a_ref(false, false, Some(1), Some("v1.0")),
        a_ref(true, false, None, Some("broken")),
        a_ref(true, false, Some(1), None),
        a_ref(true, false, Some(1), Some("old")),
        a_ref(true, false, Some(9), Some("elsewhere")),
    ];
    let log = load_commits(&walk, &refs);
    let names = |i: usize| -> Vec<(String, bool)> {
        log[i].refs.iter().map(|r| (r.name.clone(), r.remote)).collect()
    };
    assert_eq!(names(0), vec![("main".to_string(), false)]);
    assert_eq!(
        names(1),
        vec![("origin/main".to_string(), true), ("old".to_string(), false)]
    );
}

#[test]
fn only_the_pointer_to_a_remotes_head_is_skipped() {
    let walk = vec![raw(1, &[], Some("a"), None)];
    let refs = vec![
        a_ref(true, false, Some(1), Some("fixHEAD")),
        a_ref(true, false, Some(1), Some("fix/HEAD")),
        a_ref(false, true, Some(1), Some("origin/fixHEAD")),
        a_ref(false, true, Some(1), Some("origin/HEAD")),
        a_ref(false, true, Some(1), Some("upstream/HEAD")),
    ];
    let log = load_commits(&walk, &refs);
    let names: Vec<(&str, bool)> =
        log[0].refs.iter().map(|r| (r.name.as_str(), r.remote)).collect();
    assert_eq!(
        names,
        vec![("fixHEAD", false), ("fix/HEAD", false), ("origin/fixHEAD", true)]
    );
    let placed = ref_labels(&refs);
    assert_eq!(placed.len(), 3);
    assert!(placed[0].oid.same(&oid(1)));
    assert_eq!(placed[0].label.name, "fixHEAD");
    assert!(!placed[0].label.remote);
}

#[test]
fn the_standing_of_the_branch() {
    assert!(head_info(None).is_none());

    let detached = head_info(Some(RawHead {
        is_branch: false,
        shorthand: Some("HEAD".to_string()),
        found: false,
        upstream: None,
    }))
    .unwrap();
    assert_eq!(detached.branch, "(detached HEAD)");
    assert!(detached.upstream.is_none());

    let following = head_info(Some(RawHead {
        is_branch: true,
        shorthand: Some("main".to_string()),
        found: true,
        upstream: Some(RawUpstream { name: Some("origin/main".to_string()), counts: Some((2, 3)) }),
    }))
    .unwrap();
    assert_eq!(following.upstream.as_deref(), Some("origin/main"));
    assert_eq!((following.ahead, following.behind), (2, 3));

    let uncounted = head_info(Some(RawHead {
        is_branch: true,
        shorthand: Some("main".to_string()),
        found: true,
        upstream: Some(RawUpstream { name: None, counts: None }),
    }))
    .unwrap();
    assert!(uncounted.upstream.is_none());
    assert_eq!((uncounted.ahead, uncounted.behind), (0, 0));

    assert!(head_info(Some(RawHead {
        is_branch: true,
        shorthand: Some("main".to_string()),
        found: false,
        upstream: None,
    }))
    .is_none());
    assert!(head_info(Some(RawHead {
        is_branch: true,
        shorthand: None,
        found: true,
        upstream: None,
    }))
    .is_none());
}

#[test]
fn the_status_is_grouped() {
    let status = load_status(&vec![
        file("new", 128),
        file("both", 2 | 256),
        file("gone", 512),
        file("added", 1),
        RawStatus { path: None, bits: 8 },
        file("clean", 0),
        file("ignored", 1 << 14),
        file("added-again", 4 | 128),
    ]);
    let shown: Vec<(&str, Section, bool, &str)> = status
        .iter()
        .map(|e| (e.path.as_str(), e.section, e.deleted, e.code.as_str()))
        .collect();
    assert!(
        shown
            == vec![
                ("both", Section::Staged, false, "M"),
                ("added", Section::Staged, false, "A"),
                ("<non-utf8>", Section::Staged, false, "R"),
                ("added-again", Section::Staged, false, "D"),
                ("both", Section::Unstaged, false, "M"),
                ("gone", Section::Unstaged, true, "D"),
                ("new", Section::Untracked, false, "??"),
                ("added-again", Section::Untracked, false, "??"),
            ]
    );
}

#[test]
fn status_bits_are_those_of_git2() {
    let pairs = [
        (git2::Status::INDEX_NEW, Some("A"), None),
        (git2::Status::INDEX_MODIFIED, Some("M"), None),
        (git2::Status::INDEX_DELETED, Some("D"), None),
        (git2::Status::INDEX_RENAMED, Some("R"), None),
        (git2::Status::INDEX_TYPECHANGE, Some("T"), None),
        (git2::Status::WT_NEW, None, Some("??")),
        (git2::Status::WT_MODIFIED, None, Some("M")),
        (git2::Status::WT_DELETED, None, Some("D")),
        (git2::Status::WT_RENAMED, None, Some("R")),
        (git2::Status::WT_TYPECHANGE, None, Some("T")),
        (git2::Status::WT_UNREADABLE, None, None),
        (git2::Status::IGNORED, None, None),
        (git2::Status::CONFLICTED, None, None),
        (git2::Status::CURRENT, None, None),
    ];
    for (status, staged, other) in pairs {
        let rows = load_status(&vec![file("f", status.bits())]);
        let code = |section_staged: bool| {
            rows.iter()
                .find(|e| e.staged() == section_staged)
                .map(|e| e.code.as_str())
        };
        assert_eq!(code(true), staged);
        assert_eq!(code(false), other);
    }
}

#[test]
fn codes_go_by_the_first_flag() {
    let none = FileStatus {
        index_new: false,
        index_modified: false,
        index_deleted: false,
        index_renamed: false,
        index_typechange: false,
        wt_new: false,
        wt_modified: false,
        wt_deleted: false,
        wt_typechange: false,
        wt_renamed: false,
    };
    assert_eq!(index_code(&none), None);
    assert_eq!(worktree_code(&none), None);
    let all = FileStatus {
        index_modified: true,
        index_typechange: true,
        wt_renamed: true,
        wt_typechange: true,
        ..none
    };
    assert_eq!(index_code(&all).as_deref(), Some("M"));
    assert_eq!(worktree_code(&all).as_deref(), Some("R"));
}

#[test]
fn commits_are_headed_by_who_and_when() {
    let details = CommitDetails {
        oid: oid(0xff),
        author: None,
        email: None,
        time: Time { seconds: 1_700_000_000, offset_minutes: 60 },
        message: Some("subject\n\nbody\r\nmore\n\n".to_string()),
    };
    let lines = diff_commit(&details, &Vec::new());
    let shown: Vec<(LineKind, &str)> = lines.iter().map(|l| (l.kind, l.text.as_str())).collect();
    assert_eq!(
        shown,
        vec![
            (LineKind::Meta, "commit ff0f0000000000000000000000000000000000a5"),
            (LineKind::Meta, "Author: <unknown> <>"),
            (LineKind::Meta, "Date:   2023-11-14 23:13 +0100"),
            (LineKind::Meta, ""),
            (LineKind::Msg, "    subject"),
            (LineKind::Msg, "    "),
            (LineKind::Msg, "    body"),
            (LineKind::Msg, "    more"),
            (LineKind::Meta, ""),
            (LineKind::Meta, "(no changes)"),
        ]
    );
    assert!(lines.iter().all(|l| l.raw.is_empty()));
}

#[test]
fn a_blank_message_shows_no_lines() {
    let details = CommitDetails {
        oid: oid(1),
        author: Some("A".to_string()),
        email: Some("a@b".to_string()),
        time: Time { seconds: 0, offset_minutes: 0 },
        message: Some(" \n\t".to_string()),
    };
    let lines = diff_commit(&details, &Vec::new());
    assert_eq!(lines.len(), 5);
    assert_eq!(lines[1].text, "Author: A <a@b>");
}

#[test]
fn file_diffs_compare_two_sides() {
    assert!(diff_file(true, false) == Comparison::HeadToIndex);
    assert!(diff_file(true, true) == Comparison::HeadToIndex);
    assert!(diff_file(false, false) == Comparison::IndexToWorkdir { untracked: false });
    assert!(diff_file(false, true) == Comparison::IndexToWorkdir { untracked: true });
}

#[test]
fn git_is_run_with_these_arguments() {
    assert_eq!(push(), vec!["push"]);
    assert_eq!(pull(), vec!["pull"]);
    assert_eq!(fetch(), vec!["fetch", "--all"]);
    assert_eq!(intent_to_add("-x"), vec!["add", "--intent-to-add", "--", "-x"]);
    assert_eq!(apply_cached(false), vec!["apply", "--cached", "--whitespace=nowarn", "-"]);
    assert_eq!(
        apply_cached(true),
        vec!["apply", "--cached", "--whitespace=nowarn", "--reverse", "-"]
    );
}

fn finished(success: bool, code: Option<i32>, stdout: &[u8], stderr: &[u8]) -> Finished {
    Finished { success, code, stdout: stdout.to_vec(), stderr: stderr.to_vec() }
}

#[test]
fn what_git_wrote_is_shown() {
    let shown = run_git(&push(), &finished(true, Some(0), b"out\n", b"err\xff\n"));
    assert_eq!(shown, "out\nerr\u{fffd}\n");
    assert_eq!(
        run_git(&fetch(), &finished(true, Some(0), b" \n", b"\t")),
        "git fetch --all — done"
    );
    assert_eq!(
        run_git(&pull(), &finished(false, Some(128), b"", b"")),
        "git pull failed (exit Some(128))"
    );
    assert_eq!(
        run_git(&pull(), &finished(false, Some(-1), b"", b"")),
        "git pull failed (exit Some(-1))"
    );
    assert_eq!(
        run_git(&pull(), &finished(false, None, b"", b"")),
        "git pull failed (exit None)"
    );
}

#[test]
fn failures_say_what_git_said() {
    let ok = finished(true, Some(0), b"", b"warning");
    let bad = finished(false, Some(1), b"", b"error: patch failed\n");
    assert_eq!(intent_to_add_done(&ok), Ok(()));
    assert_eq!(intent_to_add_done(&bad), Err("error: patch failed\n".to_string()));
    assert_eq!(apply_cached_done(&ok), Ok(()));
    assert_eq!(
        apply_cached_done(&bad),
        Err("git apply failed:\nerror: patch failed\n".to_string())
    );
}

#[test]
fn fixed_messages() {
    assert_eq!(bare_repository(), "bare repository — no working tree");
    assert_eq!(
        identity_hint(),
        "git identity not set — run:\n  git config --global user.name  \"Your Name\"\n  git config --global user.email \"you@example.com\""
    );
}

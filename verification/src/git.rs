//! What is read from a repository, and what is asked of it, as plain values.
//!
//! The functions that load something take what was read and return owned data
//! to show. The functions that change something say what has to be done.

use vstd::prelude::*;
#[allow(unused_imports)]
use vstd::utf8::{decode_utf8, valid_utf8};

use crate::date::{format_time, Time};
use crate::graph::{build_graph, Node};
#[allow(unused_imports)]
use crate::graph::{history, ids, rows_of, NodeView};
use crate::oid::Oid;
#[allow(unused_imports)]
use crate::oid::{short, Id};
use crate::outside::{decode_status, lossy_text};
#[allow(unused_imports)]
use crate::outside::{hex, lossy, status_of};
use crate::patch::{collect_diff, DiffChunk, DiffLine, LineKind};
#[allow(unused_imports)]
use crate::patch::{collected, doc, info_line, LineView};
use crate::text::{
    copy_of, copy_or, ends_with, join, split_lines, to_signed, trimmed, trimmed_end,
};
#[allow(unused_imports)]
use crate::text::{
    joined, lines_of, maybe, signed, text_or, texts, trim, trim_end, trim_is_empty_iff_all_white,
    white,
};

verus! {

// ---------------------------------------------------------------------------
// Refs
// ---------------------------------------------------------------------------

/// A ref badge shown next to a commit.
pub struct RefLabel {
    pub name: String,
    pub remote: bool,
}

/// The contents of a ref badge.
#[verifier::ext_equal]
pub struct LabelView {
    pub name: Seq<char>,
    pub remote: bool,
}

impl View for RefLabel {
    type V = LabelView;

    open spec fn view(&self) -> LabelView {
        LabelView { name: self.name@, remote: self.remote }
    }
}

impl Clone for RefLabel {
    fn clone(&self) -> (r: RefLabel)
        ensures
            r@ == self@,
    {
        RefLabel { name: copy_of(self.name.as_str()), remote: self.remote }
    }
}

/// The contents of a list of badges.
pub open spec fn labels(v: Seq<RefLabel>) -> Seq<LabelView> {
    v.map_values(|l: RefLabel| l@)
}

/// A ref as it was read: what it is, the commit it resolves to and its short
/// name, as far as they could be read.
pub struct RawRef {
    pub is_branch: bool,
    pub is_remote: bool,
    pub target: Option<Oid>,
    pub shorthand: Option<String>,
}

/// Whether a ref is shown, and where: branches and remote branches that
/// resolve to a commit and have a name, but for the pointers to a remote's
/// `HEAD`.
pub open spec fn shown_at(r: RawRef) -> Option<Id> {
    match (r.target, r.shorthand) {
        (Some(oid), Some(name)) => if (r.is_branch || r.is_remote) && !(r.is_remote
            && "/HEAD"@.is_suffix_of(name@)) {
            Some(oid@)
        } else {
            None
        },
        _ => None,
    }
}

/// The badges of the commit `id`, in the order of the refs.
pub open spec fn labels_at(refs: Seq<RawRef>, id: Id) -> Seq<LabelView>
    decreases refs.len(),
{
    if refs.len() == 0 {
        Seq::empty()
    } else {
        let before = labels_at(refs.drop_last(), id);
        let r = refs.last();
        if shown_at(r) == Some(id) {
            before.push(LabelView { name: r.shorthand->0@, remote: r.is_remote })
        } else {
            before
        }
    }
}

/// A badge and the commit it stands at.
pub struct PlacedLabel {
    pub oid: Oid,
    pub label: RefLabel,
}

/// The badges of the commit `id` in a list of placed ones.
pub open spec fn placed_at(v: Seq<PlacedLabel>, id: Id) -> Seq<LabelView>
    decreases v.len(),
{
    if v.len() == 0 {
        Seq::empty()
    } else if v.last().oid@ == id {
        placed_at(v.drop_last(), id).push(v.last().label@)
    } else {
        placed_at(v.drop_last(), id)
    }
}

/// The branch and remote refs, each with the commit it points at.
pub fn ref_labels(refs: &Vec<RawRef>) -> (r: Vec<PlacedLabel>)
    ensures
        forall|id: Id| #[trigger] placed_at(r@, id) == labels_at(refs@, id),
{
    let mut out: Vec<PlacedLabel> = Vec::new();
    let mut i: usize = 0;
    assert(refs@.take(0) =~= Seq::empty());
    while i < refs.len()
        invariant
            i <= refs@.len(),
            forall|id: Id| #[trigger]
                placed_at(out@, id) == labels_at(refs@.take(i as int), id),
        decreases refs.len() - i,
    {
        let ghost was = out@;
        assert(refs@.take(i + 1).drop_last() =~= refs@.take(i as int));
        let r = &refs[i];
        if r.is_branch || r.is_remote {
            match (&r.target, &r.shorthand) {
                (Some(oid), Some(name)) => {
                    // Skip the noisy origin/HEAD pointer.
                    if !(r.is_remote && ends_with(name.as_str(), "/HEAD")) {
                        let label = RefLabel {
                            name: copy_of(name.as_str()),
                            remote: r.is_remote,
                        };
                        out.push(PlacedLabel { oid: *oid, label });
                        assert(out@.drop_last() =~= was);
                    }
                },
                _ => {},
            }
        }
        i += 1;
        assert forall|id: Id| #[trigger]
            placed_at(out@, id) == labels_at(refs@.take(i as int), id) by {
            assert(placed_at(was, id) == labels_at(refs@.take(i - 1), id));
        }
    }
    assert(refs@.take(i as int) =~= refs@);
    out
}

/// The badges of one commit.
fn labels_of(placed: &Vec<PlacedLabel>, oid: &Oid) -> (r: Vec<RefLabel>)
    ensures
        labels(r@) == placed_at(placed@, oid@),
{
    let mut out: Vec<RefLabel> = Vec::new();
    let mut i: usize = 0;
    assert(labels(out@) =~= placed_at(placed@.take(0), oid@));
    while i < placed.len()
        invariant
            i <= placed@.len(),
            labels(out@) == placed_at(placed@.take(i as int), oid@),
        decreases placed.len() - i,
    {
        let ghost was = out@;
        assert(placed@.take(i + 1).drop_last() =~= placed@.take(i as int));
        let p = &placed[i];
        if p.oid.same(oid) {
            out.push(p.label.clone());
            assert(labels(out@) =~= labels(was).push(p.label@));
        }
        i += 1;
    }
    assert(placed@.take(i as int) =~= placed@);
    out
}

// ---------------------------------------------------------------------------
// Commits
// ---------------------------------------------------------------------------

/// A single commit, reduced to just the fields we want to show.
pub struct CommitInfo {
    pub short_id: String,
    pub summary: String,
    pub author: String,
    /// Pre-rendered graph prefix (the rails and nodes) for this row.
    pub graph: String,
    /// Full oid, kept so that the commit can be diffed on demand.
    pub oid: Oid,
    /// Refs pointing at this commit (e.g. "main", "origin/main"), so that one
    /// can see where local branches sit relative to their remotes in the log.
    pub refs: Vec<RefLabel>,
}

/// The contents of a shown commit.
#[verifier::ext_equal]
pub struct CommitView {
    pub short_id: Seq<char>,
    pub summary: Seq<char>,
    pub author: Seq<char>,
    pub graph: Seq<char>,
    pub id: Id,
    pub refs: Seq<LabelView>,
}

impl View for CommitInfo {
    type V = CommitView;

    open spec fn view(&self) -> CommitView {
        CommitView {
            short_id: self.short_id@,
            summary: self.summary@,
            author: self.author@,
            graph: self.graph@,
            id: self.oid@,
            refs: labels(self.refs@),
        }
    }
}

/// The contents of a log.
pub open spec fn commit_views(v: Seq<CommitInfo>) -> Seq<CommitView> {
    v.map_values(|c: CommitInfo| c@)
}

/// A commit as it was read while walking the history, newest first.
pub struct RawCommit {
    pub node: Node,
    pub summary: Option<String>,
    pub author: Option<String>,
}

/// The commits of a walk with their parents.
pub open spec fn nodes(walk: Seq<RawCommit>) -> Seq<NodeView> {
    walk.map_values(|c: RawCommit| c.node@)
}

/// The log of a walk through the history.
pub open spec fn log_of(walk: Seq<RawCommit>, refs: Seq<RawRef>) -> Seq<CommitView> {
    Seq::new(
        walk.len(),
        |i: int|
            CommitView {
                short_id: short(walk[i].node@.id),
                summary: text_or(maybe(walk[i].summary), "<no summary>"@),
                author: text_or(maybe(walk[i].author), "<unknown>"@),
                graph: rows_of(nodes(walk))[i],
                id: walk[i].node@.id,
                refs: labels_at(refs, walk[i].node@.id),
            },
    )
}

/// A copy of the parent links of a walk.
fn topology(walk: &Vec<RawCommit>) -> (r: Vec<Node>)
    ensures
        history(r@) == nodes(walk@),
{
    let mut out: Vec<Node> = Vec::new();
    let mut i: usize = 0;
    while i < walk.len()
        invariant
            i <= walk@.len(),
            out@.len() == i,
            forall|j: int| 0 <= j < i ==> (#[trigger] out@[j])@ == walk@[j].node@,
        decreases walk.len() - i,
    {
        let node = &walk[i].node;
        let mut parents: Vec<Oid> = Vec::new();
        let mut j: usize = 0;
        while j < node.parents.len()
            invariant
                j <= node.parents@.len(),
                parents@ == node.parents@.take(j as int),
            decreases node.parents.len() - j,
        {
            parents.push(node.parents[j]);
            j += 1;
            assert(parents@ =~= node.parents@.take(j as int));
        }
        assert(parents@ =~= node.parents@);
        out.push(Node { oid: node.oid, parents });
        i += 1;
    }
    assert(history(out@) =~= nodes(walk@));
    out
}

/// The log: every commit of the walk with its graph row and its badges.
pub fn load_commits(walk: &Vec<RawCommit>, refs: &Vec<RawRef>) -> (r: Vec<CommitInfo>)
    ensures
        commit_views(r@) == log_of(walk@, refs@),
{
    let topology = topology(walk);
    let graphs = build_graph(&topology);
    let placed = ref_labels(refs);
    let ghost log = log_of(walk@, refs@);
    let mut out: Vec<CommitInfo> = Vec::new();
    let mut i: usize = 0;
    assert(texts(graphs@).len() == walk@.len());
    while i < walk.len()
        invariant
            i <= walk@.len(),
            log == log_of(walk@, refs@),
            graphs@.len() == walk@.len(),
            texts(graphs@) == rows_of(nodes(walk@)),
            forall|id: Id| #[trigger] placed_at(placed@, id) == labels_at(refs@, id),
            out@.len() == i,
            forall|j: int| 0 <= j < i ==> (#[trigger] out@[j])@ == log[j],
        decreases walk.len() - i,
    {
        let c = &walk[i];
        let oid = c.node.oid;
        assert(texts(graphs@)[i as int] == graphs@[i as int]@);
        let info = CommitInfo {
            short_id: oid.short_hex(),
            summary: copy_or(&c.summary, "<no summary>"),
            author: copy_or(&c.author, "<unknown>"),
            graph: copy_of(graphs[i].as_str()),
            oid,
            refs: labels_of(&placed, &oid),
        };
        assert(info@ =~= log[i as int]);
        out.push(info);
        i += 1;
    }
    assert(commit_views(out@) =~= log);
    out
}

// ---------------------------------------------------------------------------
// HEAD
// ---------------------------------------------------------------------------

/// The current branch's standing relative to its upstream, shown in the log
/// header so that local against origin is always visible.
pub struct HeadInfo {
    pub branch: String,
    /// The upstream this branch tracks, e.g. "origin/main".
    pub upstream: Option<String>,
    /// Commits we have that the upstream does not (local-only work).
    pub ahead: usize,
    /// Commits the upstream has that we do not.
    pub behind: usize,
}

/// The contents of the branch's standing.
#[verifier::ext_equal]
pub struct HeadView {
    pub branch: Seq<char>,
    pub upstream: Option<Seq<char>>,
    pub ahead: nat,
    pub behind: nat,
}

impl View for HeadInfo {
    type V = HeadView;

    open spec fn view(&self) -> HeadView {
        HeadView {
            branch: self.branch@,
            upstream: maybe(self.upstream),
            ahead: self.ahead as nat,
            behind: self.behind as nat,
        }
    }
}

/// The contents of a standing, if there is one.
pub open spec fn maybe_head(h: Option<HeadInfo>) -> Option<HeadView> {
    match h {
        Some(info) => Some(info@),
        None => None,
    }
}

/// The upstream of a branch as it was read. `counts` is how far the branch is
/// ahead and behind, if both tips are known and could be counted.
pub struct RawUpstream {
    pub name: Option<String>,
    pub counts: Option<(usize, usize)>,
}

/// `HEAD` as it was read: whether it is a branch, its short name, whether a
/// local branch of that name was found, and the upstream of that branch.
pub struct RawHead {
    pub is_branch: bool,
    pub shorthand: Option<String>,
    pub found: bool,
    pub upstream: Option<RawUpstream>,
}

/// The standing of `HEAD`: nothing where it is unborn, or where the branch it
/// names cannot be found.
pub open spec fn standing(head: Option<RawHead>) -> Option<HeadView> {
    match head {
        None => None,
        Some(h) => if !h.is_branch {
            Some(
                HeadView { branch: "(detached HEAD)"@, upstream: None, ahead: 0, behind: 0 },
            )
        } else if h.found && h.shorthand is Some {
            let counts = match h.upstream {
                Some(RawUpstream { name, counts: Some(c) }) => c,
                _ => (0usize, 0usize),
            };
            Some(
                HeadView {
                    branch: h.shorthand->0@,
                    upstream: match h.upstream {
                        Some(u) => maybe(u.name),
                        None => None,
                    },
                    ahead: counts.0 as nat,
                    behind: counts.1 as nat,
                },
            )
        } else {
            None
        },
    }
}

/// Current branch and how far it is ahead of and behind its upstream. `None`
/// on an empty repository.
pub fn head_info(head: Option<RawHead>) -> (r: Option<HeadInfo>)
    ensures
        maybe_head(r) == standing(head),
{
    match head {
        None => None,
        Some(h) => {
            if !h.is_branch {
                let branch = copy_of("(detached HEAD)");
                return Some(HeadInfo { branch, upstream: None, ahead: 0, behind: 0 });
            }
            if !h.found {
                return None;
            }
            match h.shorthand {
                None => None,
                Some(branch) => match h.upstream {
                    Some(up) => {
                        let (ahead, behind): (usize, usize) = match up.counts {
                            Some(c) => c,
                            None => (0, 0),
                        };
                        Some(HeadInfo { branch, upstream: up.name, ahead, behind })
                    },
                    None => Some(HeadInfo { branch, upstream: None, ahead: 0, behind: 0 }),
                },
            }
        },
    }
}

// ---------------------------------------------------------------------------
// Status
// ---------------------------------------------------------------------------

/// Which side of the index a change sits on.
#[derive(PartialEq, Eq, Clone, Copy, Structural)]
pub enum Section {
    /// In the index: will be part of the next commit.
    Staged,
    /// Modified in the working tree but not staged.
    Unstaged,
    /// Not tracked by git at all.
    Untracked,
}

/// One row in the working-tree panel. A file that is both staged and further
/// modified produces two entries (one Staged, one Unstaged), as `git status`
/// shows it, so that it is never ambiguous what will be committed.
pub struct StatusEntry {
    pub path: String,
    pub section: Section,
    /// Deleted in the working tree: staging means removing it from the index.
    pub deleted: bool,
    /// Short code shown to the user (`A`, `M`, `??`, `D`, ...).
    pub code: String,
}

/// The contents of a row of the working-tree panel.
#[verifier::ext_equal]
pub struct EntryView {
    pub path: Seq<char>,
    pub section: Section,
    pub deleted: bool,
    pub code: Seq<char>,
}

impl View for StatusEntry {
    type V = EntryView;

    open spec fn view(&self) -> EntryView {
        EntryView {
            path: self.path@,
            section: self.section,
            deleted: self.deleted,
            code: self.code@,
        }
    }
}

/// The contents of the working-tree panel.
pub open spec fn entries(v: Seq<StatusEntry>) -> Seq<EntryView> {
    v.map_values(|e: StatusEntry| e@)
}

impl StatusEntry {
    /// Whether the change will be part of the next commit.
    pub fn staged(&self) -> (r: bool)
        ensures
            r == (self@.section == Section::Staged),
    {
        self.section == Section::Staged
    }
}

/// What git says of a file, on the index side and on the working-tree side.
#[derive(Clone, Copy)]
pub struct FileStatus {
    pub index_new: bool,
    pub index_modified: bool,
    pub index_deleted: bool,
    pub index_renamed: bool,
    pub index_typechange: bool,
    pub wt_new: bool,
    pub wt_modified: bool,
    pub wt_deleted: bool,
    pub wt_typechange: bool,
    pub wt_renamed: bool,
}

/// The letter for the index side, if the file changed there.
pub open spec fn index_letter(s: FileStatus) -> Option<char> {
    if s.index_new {
        Some('A')
    } else if s.index_modified {
        Some('M')
    } else if s.index_deleted {
        Some('D')
    } else if s.index_renamed {
        Some('R')
    } else if s.index_typechange {
        Some('T')
    } else {
        None
    }
}

/// The letter for the working-tree side, if the file changed there.
pub open spec fn worktree_letter(s: FileStatus) -> Option<char> {
    if s.wt_modified {
        Some('M')
    } else if s.wt_deleted {
        Some('D')
    } else if s.wt_renamed {
        Some('R')
    } else if s.wt_typechange {
        Some('T')
    } else {
        None
    }
}

/// A code of one letter.
pub open spec fn code_of(letter: Option<char>) -> Option<Seq<char>> {
    match letter {
        Some(c) => Some(seq![c]),
        None => None,
    }
}

/// One-letter code for the index (staged) side, or `None` if unchanged there.
pub fn index_code(s: &FileStatus) -> (r: Option<String>)
    ensures
        maybe(r) == code_of(index_letter(*s)),
{
    let c = if s.index_new {
        'A'
    } else if s.index_modified {
        'M'
    } else if s.index_deleted {
        'D'
    } else if s.index_renamed {
        'R'
    } else if s.index_typechange {
        'T'
    } else {
        return None;
    };
    Some(letter(c))
}

/// One-letter code for the working-tree side, or `None` if unchanged there.
pub fn worktree_code(s: &FileStatus) -> (r: Option<String>)
    ensures
        maybe(r) == code_of(worktree_letter(*s)),
{
    let c = if s.wt_modified {
        'M'
    } else if s.wt_deleted {
        'D'
    } else if s.wt_renamed {
        'R'
    } else if s.wt_typechange {
        'T'
    } else {
        return None;
    };
    Some(letter(c))
}

fn letter(c: char) -> (r: String)
    ensures
        r@ == seq![c],
{
    let mut r = String::new();
    r.push(c);
    assert(r@ =~= seq![c]);
    r
}

/// The status of one file as it was read: its path, if that is text, and the
/// bits of its status.
pub struct RawStatus {
    pub path: Option<String>,
    pub bits: u32,
}

/// The row of a file in a group, if it has one there.
pub open spec fn row_in(r: RawStatus, section: Section) -> Option<EntryView> {
    let s = status_of(r.bits);
    let path = text_or(maybe(r.path), "<non-utf8>"@);
    match section {
        Section::Staged => match index_letter(s) {
            Some(c) => Some(EntryView { path, section, deleted: false, code: seq![c] }),
            None => None,
        },
        Section::Unstaged => match worktree_letter(s) {
            Some(c) => if s.wt_new {
                None
            } else {
                Some(EntryView { path, section, deleted: s.wt_deleted, code: seq![c] })
            },
            None => None,
        },
        Section::Untracked => if s.wt_new {
            Some(EntryView { path, section, deleted: false, code: "??"@ })
        } else {
            None
        },
    }
}

/// The rows of a group, in the order of the files.
pub open spec fn group(files: Seq<RawStatus>, section: Section) -> Seq<EntryView>
    decreases files.len(),
{
    if files.len() == 0 {
        Seq::empty()
    } else {
        let before = group(files.drop_last(), section);
        match row_in(files.last(), section) {
            Some(e) => before.push(e),
            None => before,
        }
    }
}

/// The working-tree panel: the staged rows, the unstaged, the untracked.
pub open spec fn grouped(files: Seq<RawStatus>) -> Seq<EntryView> {
    group(files, Section::Staged) + group(files, Section::Unstaged) + group(
        files,
        Section::Untracked,
    )
}

/// Build the working-tree list, grouped Staged, Unstaged, Untracked. A file
/// with both index and working-tree changes appears once in each relevant group.
pub fn load_status(files: &Vec<RawStatus>) -> (r: Vec<StatusEntry>)
    ensures
        entries(r@) == grouped(files@),
{
    let mut staged: Vec<StatusEntry> = Vec::new();
    let mut unstaged: Vec<StatusEntry> = Vec::new();
    let mut untracked: Vec<StatusEntry> = Vec::new();
    let mut i: usize = 0;
    assert(files@.take(0) =~= Seq::empty());
    assert(entries(staged@) =~= Seq::empty());
    while i < files.len()
        invariant
            i <= files@.len(),
            entries(staged@) == group(files@.take(i as int), Section::Staged),
            entries(unstaged@) == group(files@.take(i as int), Section::Unstaged),
            entries(untracked@) == group(files@.take(i as int), Section::Untracked),
        decreases files.len() - i,
    {
        let ghost (a, b, c) = (staged@, unstaged@, untracked@);
        assert(files@.take(i + 1).drop_last() =~= files@.take(i as int));
        let s = decode_status(files[i].bits);
        let path = copy_or(&files[i].path, "<non-utf8>");

        // Index side: staged.
        if let Some(code) = index_code(&s) {
            staged.push(
                StatusEntry {
                    path: copy_of(path.as_str()),
                    section: Section::Staged,
                    deleted: false,
                    code,
                },
            );
            assert(entries(staged@) =~= entries(a).push(staged@.last()@));
        }
        // Working-tree side: unstaged or untracked.
        if s.wt_new {
            untracked.push(
                StatusEntry {
                    path,
                    section: Section::Untracked,
                    deleted: false,
                    code: copy_of("??"),
                },
            );
            assert(entries(untracked@) =~= entries(c).push(untracked@.last()@));
        } else if let Some(code) = worktree_code(&s) {
            unstaged.push(
                StatusEntry { path, section: Section::Unstaged, deleted: s.wt_deleted, code },
            );
            assert(entries(unstaged@) =~= entries(b).push(unstaged@.last()@));
        }
        i += 1;
    }
    assert(files@.take(i as int) =~= files@);
    let ghost (a, b, c) = (staged@, unstaged@, untracked@);
    staged.append(&mut unstaged);
    staged.append(&mut untracked);
    assert(entries(staged@) =~= entries(a) + entries(b) + entries(c));
    staged
}

/// How many rows of a group a panel has.
pub open spec fn count_in(v: Seq<EntryView>, section: Section) -> nat
    decreases v.len(),
{
    if v.len() == 0 {
        0
    } else {
        count_in(v.drop_last(), section) + if v.last().section == section {
            1nat
        } else {
            0nat
        }
    }
}

/// Count the rows of a group.
pub fn count_section(v: &Vec<StatusEntry>, section: Section) -> (n: usize)
    ensures
        n == count_in(entries(v@), section),
{
    let ghost all = entries(v@);
    let mut n: usize = 0;
    let mut i: usize = 0;
    assert(all.take(0) =~= Seq::empty());
    while i < v.len()
        invariant
            n <= i <= v@.len(),
            all == entries(v@),
            n == count_in(all.take(i as int), section),
        decreases v.len() - i,
    {
        assert(all.take(i + 1).drop_last() =~= all.take(i as int));
        assert(all[i as int] == v@[i as int]@);
        if v[i].section == section {
            n += 1;
        }
        i += 1;
    }
    assert(all.take(i as int) =~= all);
    n
}

/// Where a group stands in the panel.
pub open spec fn rank(section: Section) -> int {
    match section {
        Section::Staged => 0,
        Section::Unstaged => 1,
        Section::Untracked => 2,
    }
}

proof fn lemma_group(files: Seq<RawStatus>, section: Section)
    ensures
        forall|i: int|
            0 <= i < group(files, section).len() ==> (#[trigger] group(files, section)[i]).section
                == section,
        forall|i: int|
            0 <= i < files.len() && row_in(#[trigger] files[i], section) is Some ==> group(
                files,
                section,
            ).contains(row_in(files[i], section)->0),
    decreases files.len(),
{
    if files.len() > 0 {
        let before = group(files.drop_last(), section);
        let now = group(files, section);
        lemma_group(files.drop_last(), section);
        assert forall|i: int|
            0 <= i < files.len() && row_in(#[trigger] files[i], section) is Some implies now.contains(
            row_in(files[i], section)->0,
        ) by {
            let e = row_in(files[i], section)->0;
            if i < files.len() - 1 {
                assert(files.drop_last()[i] == files[i]);
                let k = choose|k: int| 0 <= k < before.len() && before[k] == e;
                assert(now[k] == e);
            } else {
                assert(now[before.len() as int] == e);
            }
        }
    }
}

/// The panel is grouped: staged rows come before unstaged ones, and these
/// before untracked ones.
pub proof fn status_is_grouped(files: Seq<RawStatus>, i: int, j: int)
    requires
        0 <= i <= j < grouped(files).len(),
    ensures
        rank(grouped(files)[i].section) <= rank(grouped(files)[j].section),
{
    lemma_group(files, Section::Staged);
    lemma_group(files, Section::Unstaged);
    lemma_group(files, Section::Untracked);
}

/// A file that changed on both sides of the index has a row on each: what will
/// be committed and what will not are never mixed up.
pub proof fn both_sides_show(files: Seq<RawStatus>, i: int, section: Section)
    requires
        0 <= i < files.len(),
        row_in(files[i], section) is Some,
    ensures
        grouped(files).contains(row_in(files[i], section)->0),
{
    lemma_group(files, section);
    let e = row_in(files[i], section)->0;
    let g = group(files, section);
    let k = choose|k: int| 0 <= k < g.len() && g[k] == e;
    let a = group(files, Section::Staged).len();
    let b = group(files, Section::Unstaged).len();
    match section {
        Section::Staged => assert(grouped(files)[k] == e),
        Section::Unstaged => assert(grouped(files)[a + k] == e),
        Section::Untracked => assert(grouped(files)[a + b + k] == e),
    }
}

// ---------------------------------------------------------------------------
// Mutations
// ---------------------------------------------------------------------------

/// What has to be done to the index, for the path that it holds.
pub enum IndexEdit {
    /// Add the file as it is in the working tree.
    Add(String),
    /// Remove the file from the index.
    Remove(String),
    /// Reset the file to what `HEAD` has of it.
    Reset(String),
}

/// The contents of an edit of the index.
#[verifier::ext_equal]
pub enum IndexEditView {
    Add(Seq<char>),
    Remove(Seq<char>),
    Reset(Seq<char>),
}

impl View for IndexEdit {
    type V = IndexEditView;

    open spec fn view(&self) -> IndexEditView {
        match self {
            IndexEdit::Add(p) => IndexEditView::Add(p@),
            IndexEdit::Remove(p) => IndexEditView::Remove(p@),
            IndexEdit::Reset(p) => IndexEditView::Reset(p@),
        }
    }
}

/// Stage one path. Deletions are staged as removals; everything else as an add.
pub fn stage(path: &str, deleted: bool) -> (r: IndexEdit)
    ensures
        r@ == (if deleted {
            IndexEditView::Remove(path@)
        } else {
            IndexEditView::Add(path@)
        }),
{
    if deleted {
        IndexEdit::Remove(copy_of(path))
    } else {
        IndexEdit::Add(copy_of(path))
    }
}

/// Unstage one path by resetting it to `HEAD`. Without a `HEAD` (the very first
/// commit has not been made yet) it is removed from the index.
pub fn unstage(path: &str, has_head: bool) -> (r: IndexEdit)
    ensures
        r@ == (if has_head {
            IndexEditView::Reset(path@)
        } else {
            IndexEditView::Remove(path@)
        }),
{
    if has_head {
        IndexEdit::Reset(copy_of(path))
    } else {
        IndexEdit::Remove(copy_of(path))
    }
}

/// The parents of a new commit: the commit at `HEAD`, or none for the first.
pub fn commit(head: Option<Oid>) -> (r: Vec<Oid>)
    ensures
        ids(r@) == (match head {
            Some(h) => seq![h@],
            None => Seq::<Id>::empty(),
        }),
{
    let mut parents: Vec<Oid> = Vec::new();
    if let Some(h) = head {
        parents.push(h);
    }
    assert(ids(parents@) =~= (match head {
        Some(h) => seq![h@],
        None => Seq::<Id>::empty(),
    }));
    parents
}

/// The hint shown when a commit is refused because no identity is set.
pub fn identity_hint() -> (r: &'static str)
    ensures
        r@
            == "git identity not set — run:\n  git config --global user.name  \"Your Name\"\n  git config --global user.email \"you@example.com\""@,
{
    "git identity not set — run:\n  git config --global user.name  \"Your Name\"\n  git config --global user.email \"you@example.com\""
}

// ---------------------------------------------------------------------------
// Diffs
// ---------------------------------------------------------------------------

/// The two sides that a file's diff compares.
#[derive(PartialEq, Eq, Clone, Copy, Structural)]
pub enum Comparison {
    /// What `HEAD` has against the index.
    HeadToIndex,
    /// The index against the working tree; untracked files count as new ones
    /// when `untracked` is set.
    IndexToWorkdir { untracked: bool },
}

/// Diff a single working-tree file: staged (index against `HEAD`) or unstaged
/// (working tree against index). Untracked files show as all-added new ones.
pub fn diff_file(staged: bool, untracked: bool) -> (r: Comparison)
    ensures
        r == (if staged {
            Comparison::HeadToIndex
        } else {
            Comparison::IndexToWorkdir { untracked }
        }),
{
    if staged {
        Comparison::HeadToIndex
    } else {
        Comparison::IndexToWorkdir { untracked }
    }
}

/// A commit as it was read for its diff, with what of it is text.
pub struct CommitDetails {
    pub oid: Oid,
    pub author: Option<String>,
    pub email: Option<String>,
    pub time: Time,
    pub message: Option<String>,
}

/// A line of a commit message, indented.
pub open spec fn message_line(l: Seq<char>) -> LineView {
    LineView { kind: LineKind::Msg, text: "    "@ + l, raw: Seq::empty() }
}

/// The lines of a commit message, and a blank line below if there are any.
pub open spec fn message_lines(message: Seq<char>) -> Seq<LineView> {
    lines_of(message).map_values(|l: Seq<char>| message_line(l)) + (if message.len() > 0 {
        seq![info_line(""@)]
    } else {
        Seq::empty()
    })
}

/// The header above the diff of a commit: id, author, date and the message.
pub open spec fn commit_header(c: CommitDetails) -> Seq<LineView> {
    seq![
        info_line("commit "@ + hex(c.oid@)),
        info_line(
            "Author: "@ + text_or(maybe(c.author), "<unknown>"@) + " <"@ + text_or(
                maybe(c.email),
                ""@,
            ) + ">"@,
        ),
        info_line("Date:   "@ + c.time.text()),
        info_line(""@),
    ] + message_lines(trim_end(text_or(maybe(c.message), ""@)))
}

/// The first four lines of the header of a commit.
fn signature_lines(c: &CommitDetails) -> (out: Vec<DiffLine>)
    requires
        c.time.fits(),
    ensures
        doc(out@) == commit_header(*c).take(4),
{
    let mut id = copy_of("commit ");
    id.append(c.oid.to_hex().as_str());
    let mut author = copy_of("Author: ");
    author.append(copy_or(&c.author, "<unknown>").as_str());
    author.append(" <");
    author.append(copy_or(&c.email, "").as_str());
    author.append(">");
    let mut date = copy_of("Date:   ");
    date.append(format_time(&c.time).as_str());
    let mut out: Vec<DiffLine> = Vec::new();
    out.push(DiffLine::info(id.as_str()));
    out.push(DiffLine::info(author.as_str()));
    out.push(DiffLine::info(date.as_str()));
    out.push(DiffLine::info(""));
    assert(doc(out@) =~= commit_header(*c).take(4));
    out
}

/// The diff of a commit against its first parent (or against the empty tree for
/// a root commit), preceded by a header: id, author, date, and the full commit
/// message.
pub fn diff_commit(c: &CommitDetails, chunks: &Vec<DiffChunk>) -> (out: Vec<DiffLine>)
    requires
        c.time.fits(),
    ensures
        doc(out@) == commit_header(*c) + collected(chunks@),
        forall|j: int|
            0 <= j < chunks@.len() && valid_utf8((#[trigger] chunks@[j]).content@) ==> lossy(
                chunks@[j].content@,
            ) == decode_utf8(chunks@[j].content@),
{
    let mut patch = collect_diff(chunks);
    let mut out = signature_lines(c);
    let ghost head = doc(out@);
    let message = trimmed_end(copy_or(&c.message, "").as_str());
    let lines = split_lines(message.as_str());
    let ghost all = texts(lines@);
    let mut i: usize = 0;
    assert(doc(out@) =~= head + all.take(0).map_values(|l: Seq<char>| message_line(l)));
    while i < lines.len()
        invariant
            i <= lines@.len(),
            all == texts(lines@),
            doc(out@) == head + all.take(i as int).map_values(|l: Seq<char>| message_line(l)),
        decreases lines.len() - i,
    {
        let ghost was = out@;
        let mut text = copy_of("    ");
        text.append(lines[i].as_str());
        out.push(DiffLine { kind: LineKind::Msg, text, raw: String::new() });
        i += 1;
        assert(doc(out@) =~= doc(was).push(out@.last()@));
        assert(all[i - 1] == lines@[i - 1]@);
        assert(out@.last()@ =~= message_line(all[i - 1]));
        assert(doc(out@) =~= head + all.take(i as int).map_values(
            |l: Seq<char>| message_line(l),
        ));
    }
    assert(all.take(i as int) =~= all);
    if message.as_str().unicode_len() > 0 {
        let ghost was = out@;
        out.push(DiffLine::info(""));
        assert(doc(out@) =~= doc(was).push(info_line(""@)));
    }
    assert(doc(out@) =~= head + message_lines(message@));
    assert(doc(out@) =~= commit_header(*c));
    let ghost (a, b) = (out@, patch@);
    out.append(&mut patch);
    assert(doc(out@) =~= doc(a) + doc(b));
    out
}

// ---------------------------------------------------------------------------
// The git command
// ---------------------------------------------------------------------------

/// The message shown where there is no working tree to run git in.
pub fn bare_repository() -> (r: &'static str)
    ensures
        r@ == "bare repository — no working tree"@,
{
    "bare repository — no working tree"
}

/// The arguments of git for a push.
pub fn push() -> (r: Vec<String>)
    ensures
        texts(r@) == seq!["push"@],
{
    let mut args: Vec<String> = Vec::new();
    args.push(copy_of("push"));
    assert(texts(args@) =~= seq!["push"@]);
    args
}

/// The arguments of git for a pull.
pub fn pull() -> (r: Vec<String>)
    ensures
        texts(r@) == seq!["pull"@],
{
    let mut args: Vec<String> = Vec::new();
    args.push(copy_of("pull"));
    assert(texts(args@) =~= seq!["pull"@]);
    args
}

/// The arguments of git for a fetch of all remotes.
pub fn fetch() -> (r: Vec<String>)
    ensures
        texts(r@) == seq!["fetch"@, "--all"@],
{
    let mut args: Vec<String> = Vec::new();
    args.push(copy_of("fetch"));
    args.push(copy_of("--all"));
    assert(texts(args@) =~= seq!["fetch"@, "--all"@]);
    args
}

/// The arguments of git that give an untracked file an index entry, so that a
/// partial patch can then be applied against it.
pub fn intent_to_add(path: &str) -> (r: Vec<String>)
    ensures
        texts(r@) == seq!["add"@, "--intent-to-add"@, "--"@, path@],
{
    let mut args: Vec<String> = Vec::new();
    args.push(copy_of("add"));
    args.push(copy_of("--intent-to-add"));
    args.push(copy_of("--"));
    args.push(copy_of(path));
    assert(texts(args@) =~= seq!["add"@, "--intent-to-add"@, "--"@, path@]);
    args
}

/// The arguments of git that apply a patch from its standard input to the index
/// only, or take it back out.
pub open spec fn apply_args(reverse: bool) -> Seq<Seq<char>> {
    if reverse {
        seq!["apply"@, "--cached"@, "--whitespace=nowarn"@, "--reverse"@, "-"@]
    } else {
        seq!["apply"@, "--cached"@, "--whitespace=nowarn"@, "-"@]
    }
}

/// The arguments of git that apply a patch to the index only; `reverse`
/// unstages.
pub fn apply_cached(reverse: bool) -> (r: Vec<String>)
    ensures
        texts(r@) == apply_args(reverse),
{
    let mut args: Vec<String> = Vec::new();
    args.push(copy_of("apply"));
    args.push(copy_of("--cached"));
    args.push(copy_of("--whitespace=nowarn"));
    if reverse {
        args.push(copy_of("--reverse"));
    }
    args.push(copy_of("-"));
    assert(texts(args@) =~= apply_args(reverse));
    args
}

/// How a run of git ended.
pub struct Finished {
    pub success: bool,
    /// The exit code, if the process ended by itself.
    pub code: Option<i32>,
    pub stdout: Vec<u8>,
    pub stderr: Vec<u8>,
}

/// What came of a step: done, or the message of the error.
pub open spec fn outcome(r: Result<(), String>) -> Result<(), Seq<char>> {
    match r {
        Ok(()) => Ok(()),
        Err(e) => Err(e@),
    }
}

/// Whether an index entry was made; the message is what git wrote about it.
pub fn intent_to_add_done(run: &Finished) -> (r: Result<(), String>)
    ensures
        outcome(r) == (if run.success {
            Ok(())
        } else {
            Err(lossy(run.stderr@))
        }),
        !run.success && valid_utf8(run.stderr@) ==> lossy(run.stderr@) == decode_utf8(run.stderr@),
{
    if run.success {
        Ok(())
    } else {
        Err(lossy_text(&run.stderr))
    }
}

/// Whether a patch was applied; the message is what git wrote about it.
pub fn apply_cached_done(run: &Finished) -> (r: Result<(), String>)
    ensures
        outcome(r) == (if run.success {
            Ok(())
        } else {
            Err("git apply failed:\n"@ + lossy(run.stderr@))
        }),
        !run.success && valid_utf8(run.stderr@) ==> lossy(run.stderr@) == decode_utf8(run.stderr@),
{
    if run.success {
        Ok(())
    } else {
        let mut e = copy_of("git apply failed:\n");
        e.append(lossy_text(&run.stderr).as_str());
        Err(e)
    }
}

/// An exit code as it is shown.
pub open spec fn code_text(code: Option<i32>) -> Seq<char> {
    match code {
        Some(c) => "Some("@ + signed(c as int) + ")"@,
        None => "None"@,
    }
}

/// What is shown of a run of git with the arguments `args`: what it wrote, or,
/// when that is blank, how it ended.
pub open spec fn shown_output(args: Seq<Seq<char>>, run: Finished) -> Seq<char> {
    let text = lossy(run.stdout@) + lossy(run.stderr@);
    if trim(text).len() > 0 {
        text
    } else if run.success {
        "git "@ + joined(args, " "@) + " — done"@
    } else {
        "git "@ + joined(args, " "@) + " failed (exit "@ + code_text(run.code) + ")"@
    }
}

/// What is shown of a finished run of git.
pub fn run_git(args: &Vec<String>, run: &Finished) -> (r: String)
    ensures
        r@ == shown_output(texts(args@), *run),
        valid_utf8(run.stdout@) ==> lossy(run.stdout@) == decode_utf8(run.stdout@),
        valid_utf8(run.stderr@) ==> lossy(run.stderr@) == decode_utf8(run.stderr@),
{
    let mut text = lossy_text(&run.stdout);
    text.append(lossy_text(&run.stderr).as_str());
    if trimmed(text.as_str()).as_str().unicode_len() > 0 {
        return text;
    }
    let mut r = copy_of("git ");
    r.append(join(args, " ").as_str());
    if run.success {
        r.append(" — done");
    } else {
        r.append(" failed (exit ");
        match run.code {
            Some(c) => {
                r.append("Some(");
                r.append(to_signed(c as i64).as_str());
                r.append(")");
            },
            None => {
                r.append("None");
            },
        }
        r.append(")");
        assert(r@ =~= shown_output(texts(args@), *run));
    }
    r
}

// ---------------------------------------------------------------------------
// What is shown, in terms of what was read
// ---------------------------------------------------------------------------

/// The files that differ between `HEAD` and the index, by the bits of their
/// status: new, modified, deleted, renamed or of another type there.
pub open spec fn changed_in_index() -> spec_fn(RawStatus) -> bool {
    |f: RawStatus|
        f.bits & 1 == 1 || f.bits & 2 == 2 || f.bits & 4 == 4 || f.bits & 8 == 8 || f.bits & 16
            == 16
}

/// The tracked files that differ between the index and the working tree, by the
/// bits of their status: modified, deleted, of another type or renamed there,
/// and not new.
pub open spec fn changed_in_tree() -> spec_fn(RawStatus) -> bool {
    |f: RawStatus|
        f.bits & 128 != 128 && (f.bits & 256 == 256 || f.bits & 512 == 512 || f.bits & 1024 == 1024
            || f.bits & 2048 == 2048)
}

/// The files that are new in the working tree.
pub open spec fn new_in_tree() -> spec_fn(RawStatus) -> bool {
    |f: RawStatus| f.bits & 128 == 128
}

/// The path of a file as it is shown.
pub open spec fn shown_path(f: RawStatus) -> Seq<char> {
    match f.path {
        Some(p) => p@,
        None => "<non-utf8>"@,
    }
}

/// The staged row of a file: its code is the first that holds of added,
/// modified, deleted, renamed and of another type.
pub open spec fn index_row() -> spec_fn(RawStatus) -> EntryView {
    |f: RawStatus|
        EntryView {
            path: shown_path(f),
            section: Section::Staged,
            deleted: false,
            code: seq![
                if f.bits & 1 == 1 {
                    'A'
                } else if f.bits & 2 == 2 {
                    'M'
                } else if f.bits & 4 == 4 {
                    'D'
                } else if f.bits & 8 == 8 {
                    'R'
                } else {
                    'T'
                },
            ],
        }
}

/// The unstaged row of a file: its code is the first that holds of modified,
/// deleted, renamed and of another type.
pub open spec fn tree_row() -> spec_fn(RawStatus) -> EntryView {
    |f: RawStatus|
        EntryView {
            path: shown_path(f),
            section: Section::Unstaged,
            deleted: f.bits & 512 == 512,
            code: seq![
                if f.bits & 256 == 256 {
                    'M'
                } else if f.bits & 512 == 512 {
                    'D'
                } else if f.bits & 2048 == 2048 {
                    'R'
                } else {
                    'T'
                },
            ],
        }
}

/// The untracked row of a file.
pub open spec fn new_row() -> spec_fn(RawStatus) -> EntryView {
    |f: RawStatus|
        EntryView {
            path: shown_path(f),
            section: Section::Untracked,
            deleted: false,
            code: seq!['?', '?'],
        }
}

proof fn lemma_group_is(
    files: Seq<RawStatus>,
    section: Section,
    p: spec_fn(RawStatus) -> bool,
    row: spec_fn(RawStatus) -> EntryView,
)
    requires
        forall|f: RawStatus|
            #[trigger] row_in(f, section) == (if p(f) {
                Some(row(f))
            } else {
                None
            }),
    ensures
        group(files, section) == files.filter(p).map_values(row),
    decreases files.len(),
{
    reveal(Seq::filter);
    if files.len() > 0 {
        let init = files.drop_last();
        lemma_group_is(init, section, p, row);
        let f = files.last();
        assert(row_in(f, section) == (if p(f) {
            Some(row(f))
        } else {
            None
        }));
        if p(f) {
            assert(files.filter(p) == init.filter(p).push(f));
            assert(files.filter(p).map_values(row) =~= init.filter(p).map_values(row).push(row(f)));
        } else {
            assert(files.filter(p) == init.filter(p));
        }
        assert(group(files, section) =~= files.filter(p).map_values(row));
    } else {
        assert(group(files, section) =~= files.filter(p).map_values(row));
    }
}

/// The working-tree panel lists, in the order they were read, first each file
/// that changed in the index, whatever happened to it in the working tree; then
/// each tracked file that changed in the working tree, whatever happened to it
/// in the index; then each untracked file; each of them once there.
pub proof fn every_change_has_its_row(files: Seq<RawStatus>)
    ensures
        grouped(files) == files.filter(changed_in_index()).map_values(index_row()) + files.filter(
            changed_in_tree(),
        ).map_values(tree_row()) + files.filter(new_in_tree()).map_values(new_row()),
{
    reveal_strlit("??");
    assert("??"@ =~= seq!['?', '?']);
    lemma_group_is(files, Section::Staged, changed_in_index(), index_row());
    lemma_group_is(files, Section::Unstaged, changed_in_tree(), tree_row());
    lemma_group_is(files, Section::Untracked, new_in_tree(), new_row());
}

/// A file with both index and working-tree changes appears in both groups: where
/// the bits of its status say so, the panel has a staged row of its path, and an
/// unstaged or an untracked one.
pub proof fn a_file_changed_on_both_sides_has_two_rows(files: Seq<RawStatus>, i: int)
    requires
        0 <= i < files.len(),
    ensures
        changed_in_index()(files[i]) ==> grouped(files).contains(index_row()(files[i])),
        changed_in_tree()(files[i]) ==> grouped(files).contains(tree_row()(files[i])),
        new_in_tree()(files[i]) ==> grouped(files).contains(new_row()(files[i])),
{
    reveal_strlit("??");
    assert("??"@ =~= seq!['?', '?']);
    if changed_in_index()(files[i]) {
        both_sides_show(files, i, Section::Staged);
    }
    if changed_in_tree()(files[i]) {
        both_sides_show(files, i, Section::Unstaged);
    }
    if new_in_tree()(files[i]) {
        both_sides_show(files, i, Section::Untracked);
    }
}

/// Staging a file with no change in the working tree left, or unstaging one,
/// moves it between the groups: one file alone has a row for each side on which
/// it differs, and no other.
pub proof fn one_file_has_a_row_for_each_side(f: RawStatus)
    ensures
        grouped(seq![f]).len() == (if changed_in_index()(f) {
            1int
        } else {
            0
        }) + (if changed_in_tree()(f) || new_in_tree()(f) {
            1int
        } else {
            0
        }),
        changed_in_index()(f) <==> exists|k: int|
            0 <= k < grouped(seq![f]).len() && (#[trigger] grouped(seq![f])[k]).section
                == Section::Staged,
        changed_in_tree()(f) <==> exists|k: int|
            0 <= k < grouped(seq![f]).len() && (#[trigger] grouped(seq![f])[k]).section
                == Section::Unstaged,
        new_in_tree()(f) <==> exists|k: int|
            0 <= k < grouped(seq![f]).len() && (#[trigger] grouped(seq![f])[k]).section
                == Section::Untracked,
{
    let s = seq![f];
    let e = Seq::<RawStatus>::empty();
    assert(s.drop_last() =~= e);
    assert(group(e, Section::Staged) =~= Seq::empty());
    assert(group(e, Section::Unstaged) =~= Seq::empty());
    assert(group(e, Section::Untracked) =~= Seq::empty());
    let a = group(s, Section::Staged);
    let b = group(s, Section::Unstaged);
    let c = group(s, Section::Untracked);
    let g = grouped(s);
    if changed_in_index()(f) {
        assert(g[0] == a[0]);
    }
    if changed_in_tree()(f) {
        assert(g[a.len() as int] == b[0]);
    }
    if new_in_tree()(f) {
        assert(g[a.len() as int] == c[0]);
    }
}

/// Counting the rows of a group counts its rows.
pub proof fn counting_is_counting(v: Seq<EntryView>, section: Section)
    ensures
        count_in(v, section) == v.filter(|e: EntryView| e.section == section).len(),
    decreases v.len(),
{
    reveal(Seq::filter);
    if v.len() > 0 {
        counting_is_counting(v.drop_last(), section);
    }
}

/// The refs that are shown at a commit: the branches and remote branches with a
/// name that resolve to it, but for a remote's `HEAD`.
pub open spec fn points_at(id: Id) -> spec_fn(RawRef) -> bool {
    |r: RawRef|
        (r.is_branch || r.is_remote) && r.target is Some && r.target->0@ == id && r.shorthand is Some
            && !(r.is_remote && r.shorthand->0@.len() >= 5 && r.shorthand->0@.skip(
            r.shorthand->0@.len() - 5,
        ) == seq!['/', 'H', 'E', 'A', 'D'])
}

/// The badge of a ref: its name, and whether it is a remote one.
pub open spec fn badge_of() -> spec_fn(RawRef) -> LabelView {
    |r: RawRef| LabelView { name: r.shorthand->0@, remote: r.is_remote }
}

/// Every branch and remote branch that points at a commit has its badge there, in
/// the order of the refs, and nothing else has one.
pub proof fn every_ref_has_its_badge(refs: Seq<RawRef>, id: Id)
    ensures
        labels_at(refs, id) == refs.filter(points_at(id)).map_values(badge_of()),
    decreases refs.len(),
{
    reveal(Seq::filter);
    let p = points_at(id);
    if refs.len() > 0 {
        let init = refs.drop_last();
        let r = refs.last();
        every_ref_has_its_badge(init, id);
        reveal_strlit("/HEAD");
        let tail = seq!['/', 'H', 'E', 'A', 'D'];
        assert("/HEAD"@ =~= tail);
        if r.shorthand is Some {
            let name = r.shorthand->0@;
            if name.len() >= 5 {
                assert(name.skip(name.len() - 5) =~= name.subrange(
                    name.len() - 5,
                    name.len() as int,
                ));
            }
            assert("/HEAD"@.is_suffix_of(name) <==> name.len() >= 5 && name.skip(name.len() - 5)
                == tail);
        }
        assert(p(r) <==> shown_at(r) == Some(id));
        if p(r) {
            assert(refs.filter(p) == init.filter(p).push(r));
        } else {
            assert(refs.filter(p) == init.filter(p));
        }
    }
    assert(labels_at(refs, id) =~= refs.filter(p).map_values(badge_of()));
}

/// The log has one entry for each commit of the walk, in its order, with what was
/// read of the commit.
pub proof fn every_commit_has_its_entry(walk: Seq<RawCommit>, refs: Seq<RawRef>, i: int)
    requires
        0 <= i < walk.len(),
    ensures
        log_of(walk, refs).len() == walk.len(),
        log_of(walk, refs)[i].id == walk[i].node.oid@,
        log_of(walk, refs)[i].short_id == hex(walk[i].node.oid@).take(7),
        walk[i].summary matches Some(t) ==> log_of(walk, refs)[i].summary == t@,
        walk[i].summary is None ==> log_of(walk, refs)[i].summary == "<no summary>"@,
        walk[i].author matches Some(t) ==> log_of(walk, refs)[i].author == t@,
        walk[i].author is None ==> log_of(walk, refs)[i].author == "<unknown>"@,
        log_of(walk, refs)[i].graph == rows_of(walk.map_values(|c: RawCommit| c.node@))[i],
        log_of(walk, refs)[i].refs == refs.filter(points_at(walk[i].node.oid@)).map_values(
            badge_of(),
        ),
{
    every_ref_has_its_badge(refs, walk[i].node.oid@);
    assert(nodes(walk) =~= walk.map_values(|c: RawCommit| c.node@));
}

/// The standing of `HEAD`, by what was read of it: there is one exactly where it
/// is not a branch, or is one that has a name and was found.
pub proof fn the_standing_is_what_was_read(head: Option<RawHead>)
    ensures
        standing(head) is Some <==> head is Some && (!head->0.is_branch || (head->0.found
            && head->0.shorthand is Some)),
        head matches Some(h) ==> standing(head) matches Some(v) ==> {
            &&& !h.is_branch ==> v.branch == "(detached HEAD)"@ && v.upstream is None && v.ahead == 0
                && v.behind == 0
            &&& h.is_branch ==> v.branch == h.shorthand->0@
            &&& h.is_branch && h.upstream is None ==> v.upstream is None && v.ahead == 0 && v.behind
                == 0
            &&& h.is_branch && h.upstream is Some ==> {
                let u = h.upstream->0;
                &&& u.name is Some ==> v.upstream == Some(u.name->0@)
                &&& u.name is None ==> v.upstream is None
                &&& u.counts matches Some((ahead, behind)) ==> v.ahead == ahead && v.behind
                    == behind
                &&& u.counts is None ==> v.ahead == 0 && v.behind == 0
            }
        },
{
}

/// The header of a commit's diff, line by line: its id, who and when, a blank
/// line, then its message without the white space at its end, each line
/// indented, and a blank line below where there is a message. None of it can
/// become part of a patch.
pub proof fn the_header_says_who_and_when(c: CommitDetails)
    ensures
        ({
            let h = commit_header(c);
            let name = match c.author {
                Some(t) => t@,
                None => "<unknown>"@,
            };
            let email = match c.email {
                Some(t) => t@,
                None => ""@,
            };
            let message = trim_end(
                match c.message {
                    Some(t) => t@,
                    None => ""@,
                },
            );
            let n = lines_of(message).len() as int;
            &&& h.len() == 4 + n + (if message.len() > 0 {
                1int
            } else {
                0
            })
            &&& h[0].text == "commit "@ + hex(c.oid@)
            &&& h[1].text == "Author: "@ + name + " <"@ + email + ">"@
            &&& h[2].text == "Date:   "@ + c.time.text()
            &&& h[3].text == ""@
            &&& message.len() > 0 ==> h[4 + n].text == ""@
            &&& forall|i: int|
                0 <= i < n ==> (#[trigger] h[4 + i]).text == "    "@ + lines_of(message)[i] && h[4
                    + i].kind == LineKind::Msg
            &&& forall|i: int|
                #![trigger h[i]]
                0 <= i < h.len() ==> h[i].raw.len() == 0 && (i < 4 || i >= 4 + n ==> h[i].kind
                    == LineKind::Meta)
        }),
{
    let h = commit_header(c);
    let message = trim_end(text_or(maybe(c.message), ""@));
    let n = lines_of(message).len() as int;
    assert forall|i: int| 0 <= i < n implies (#[trigger] h[4 + i]) == message_line(
        lines_of(message)[i],
    ) by {}
    assert forall|i: int|
        #![trigger h[i]]
        0 <= i < h.len() implies h[i].raw.len() == 0 && (i < 4 || i >= 4 + n ==> h[i].kind
        == LineKind::Meta) by {
        if 4 <= i < 4 + n {
            assert(h[4 + (i - 4)] == message_line(lines_of(message)[i - 4]));
        }
    }
}

/// What git wrote is shown, standard output first, unless it is blank: nothing
/// but white space. In that case what is shown says how the run ended.
pub proof fn output_is_shown_unless_blank(args: Seq<Seq<char>>, run: Finished)
    ensures
        ({
            let text = lossy(run.stdout@) + lossy(run.stderr@);
            let blank = forall|i: int| 0 <= i < text.len() ==> white(#[trigger] text[i]);
            &&& !blank ==> shown_output(args, run) == text
            &&& blank && run.success ==> shown_output(args, run) == "git "@ + joined(args, " "@)
                + " — done"@
            &&& blank && !run.success ==> {
                &&& run.code matches Some(c) ==> shown_output(args, run) == "git "@ + joined(
                    args,
                    " "@,
                ) + " failed (exit "@ + ("Some("@ + signed(c as int) + ")"@) + ")"@
                &&& run.code is None ==> shown_output(args, run) == "git "@ + joined(args, " "@)
                    + " failed (exit "@ + "None"@ + ")"@
            }
        }),
{
    trim_is_empty_iff_all_white(lossy(run.stdout@) + lossy(run.stderr@));
}

/// A patch goes to the index only, from standard input, and in reverse exactly
/// when it is to be taken out.
pub proof fn patches_go_to_the_index_only(reverse: bool)
    ensures
        apply_args(reverse).len() == (if reverse {
            5int
        } else {
            4
        }),
        apply_args(reverse)[0] == "apply"@,
        apply_args(reverse)[1] == "--cached"@,
        apply_args(reverse)[2] == "--whitespace=nowarn"@,
        reverse ==> apply_args(reverse)[3] == "--reverse"@,
        apply_args(reverse).last() == "-"@,
{
}

/// The contents of what is shown are all that is in it.
pub proof fn contents_leave_nothing_out(
    l: RefLabel,
    c: CommitInfo,
    h: HeadInfo,
    e: StatusEntry,
    cs: Seq<CommitInfo>,
    es: Seq<StatusEntry>,
    ls: Seq<RefLabel>,
)
    ensures
        l@.name == l.name@ && l@.remote == l.remote,
        c@.short_id == c.short_id@ && c@.summary == c.summary@ && c@.author == c.author@,
        c@.graph == c.graph@ && c@.id == c.oid.bytes@,
        c@.refs.len() == c.refs@.len(),
        h@.branch == h.branch@ && h@.ahead == h.ahead && h@.behind == h.behind,
        h.upstream is Some <==> h@.upstream is Some,
        h.upstream is Some ==> h@.upstream->0 == h.upstream->0@,
        e@.path == e.path@ && e@.section == e.section && e@.deleted == e.deleted && e@.code
            == e.code@,
        commit_views(cs).len() == cs.len(),
        forall|i: int| 0 <= i < cs.len() ==> #[trigger] commit_views(cs)[i] == cs[i]@,
        entries(es).len() == es.len(),
        forall|i: int| 0 <= i < es.len() ==> #[trigger] entries(es)[i] == es[i]@,
        labels(ls).len() == ls.len(),
        forall|i: int| 0 <= i < ls.len() ==> #[trigger] labels(ls)[i] == ls[i]@,
        forall|i: int| 0 <= i < c.refs@.len() ==> #[trigger] c@.refs[i] == c.refs@[i]@,
{
}

/// The rows of a path in a group.
pub open spec fn rows_for(path: Seq<char>, section: Section) -> spec_fn(EntryView) -> bool {
    |e: EntryView| e.path == path && e.section == section
}

proof fn lemma_rows_for(
    files: Seq<RawStatus>,
    i: int,
    path: Seq<char>,
    within: Section,
    section: Section,
)
    requires
        forall|j: int| 0 <= j < files.len() && j != i ==> shown_path(#[trigger] files[j]) != path,
        0 <= i < files.len() ==> shown_path(files[i]) == path,
    ensures
        group(files, within).filter(rows_for(path, section)).len() == (if 0 <= i < files.len()
            && within == section && row_in(files[i], section) is Some {
            1nat
        } else {
            0
        }),
    decreases files.len(),
{
    reveal(Seq::filter);
    let p = rows_for(path, section);
    if files.len() > 0 {
        let init = files.drop_last();
        let f = files.last();
        lemma_rows_for(
            init,
            if i == init.len() {
                -1
            } else {
                i
            },
            path,
            within,
            section,
        );
        assert(files[files.len() - 1] == f);
        if let Some(e) = row_in(f, within) {
            assert(group(files, within).drop_last() =~= group(init, within));
            assert(group(files, within).last() == e);
            assert(e.section == within);
            assert(e.path == shown_path(f));
        }
    }
}

/// A file has exactly one staged row where it changed in the index, whatever its
/// other bits are, exactly one unstaged row where it is tracked and changed in the
/// working tree, whatever its other bits are, and exactly one untracked row where
/// it is new there; and it has no other rows.
pub proof fn a_file_has_one_row_for_each_side(files: Seq<RawStatus>, i: int)
    requires
        0 <= i < files.len(),
        forall|j: int|
            0 <= j < files.len() && j != i ==> shown_path(#[trigger] files[j]) != shown_path(
                files[i],
            ),
    ensures
        ({
            let bits = files[i].bits;
            let rows = |section: Section|
                grouped(files).filter(rows_for(shown_path(files[i]), section)).len();
            &&& rows(Section::Staged) == (if bits & 1 == 1 || bits & 2 == 2 || bits & 4 == 4 || bits
                & 8 == 8 || bits & 16 == 16 {
                1nat
            } else {
                0
            })
            &&& rows(Section::Unstaged) == (if bits & 128 != 128 && (bits & 256 == 256 || bits & 512
                == 512 || bits & 1024 == 1024 || bits & 2048 == 2048) {
                1nat
            } else {
                0
            })
            &&& rows(Section::Untracked) == (if bits & 128 == 128 {
                1nat
            } else {
                0
            })
        }),
{
    lemma_rows_split(files, i, Section::Staged);
    lemma_rows_split(files, i, Section::Unstaged);
    lemma_rows_split(files, i, Section::Untracked);
}

proof fn lemma_rows_split(files: Seq<RawStatus>, i: int, section: Section)
    requires
        0 <= i < files.len(),
        forall|j: int|
            0 <= j < files.len() && j != i ==> shown_path(#[trigger] files[j]) != shown_path(
                files[i],
            ),
    ensures
        grouped(files).filter(rows_for(shown_path(files[i]), section)).len() == (if row_in(
            files[i],
            section,
        ) is Some {
            1nat
        } else {
            0
        }),
{
    let path = shown_path(files[i]);
    let p = rows_for(path, section);
    let a = group(files, Section::Staged);
    let b = group(files, Section::Unstaged);
    let c = group(files, Section::Untracked);
    Seq::filter_distributes_over_add(a + b, c, p);
    Seq::filter_distributes_over_add(a, b, p);
    lemma_rows_for(files, i, path, Section::Staged, section);
    lemma_rows_for(files, i, path, Section::Unstaged, section);
    lemma_rows_for(files, i, path, Section::Untracked, section);
}

/// The code of either side is one letter, that of the first change that holds
/// there, and there is none exactly where none does.
pub proof fn codes_are_single_letters(s: FileStatus)
    ensures
        ({
            let a = code_of(index_letter(s));
            let b = code_of(worktree_letter(s));
            let before_deleted = s.index_new || s.index_modified;
            let before_renamed = before_deleted || s.index_deleted;
            let before_type = before_renamed || s.index_renamed;
            let wt_before_renamed = s.wt_modified || s.wt_deleted;
            let wt_before_type = wt_before_renamed || s.wt_renamed;
            &&& s.index_new ==> a == Some(seq!['A'])
            &&& s.index_modified && !s.index_new ==> a == Some(seq!['M'])
            &&& s.index_deleted && !before_deleted ==> a == Some(seq!['D'])
            &&& s.index_renamed && !before_renamed ==> a == Some(seq!['R'])
            &&& s.index_typechange && !before_type ==> a == Some(seq!['T'])
            &&& !s.index_typechange && !before_type ==> a is None
            &&& s.wt_modified ==> b == Some(seq!['M'])
            &&& s.wt_deleted && !s.wt_modified ==> b == Some(seq!['D'])
            &&& s.wt_renamed && !wt_before_renamed ==> b == Some(seq!['R'])
            &&& s.wt_typechange && !wt_before_type ==> b == Some(seq!['T'])
            &&& !s.wt_typechange && !wt_before_type ==> b is None
        }),
{
}

/// The badges placed at a commit are those that hold its id, in their order.
pub proof fn placed_badges_are_found(v: Seq<PlacedLabel>, id: Id)
    ensures
        placed_at(v, id) == v.filter(|p: PlacedLabel| p.oid.bytes@ == id).map_values(
            |p: PlacedLabel| LabelView { name: p.label.name@, remote: p.label.remote },
        ),
    decreases v.len(),
{
    reveal(Seq::filter);
    let f = |p: PlacedLabel| p.oid.bytes@ == id;
    let g = |p: PlacedLabel| LabelView { name: p.label.name@, remote: p.label.remote };
    if v.len() > 0 {
        let init = v.drop_last();
        placed_badges_are_found(init, id);
        if f(v.last()) {
            assert(v.filter(f) == init.filter(f).push(v.last()));
        } else {
            assert(v.filter(f) == init.filter(f));
        }
    }
    assert(placed_at(v, id) =~= v.filter(f).map_values(g));
}

} // verus!

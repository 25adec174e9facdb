//! Diff documents and partial (line and hunk) staging: the display lines of a
//! diff, the hunk under a cursor, and the patch that holds only the
//! highlighted changes.

use vstd::prelude::*;
#[allow(unused_imports)]
use vstd::utf8::{decode_utf8, decode_utf8_encode_utf8, encode_utf8, valid_utf8};

use crate::outside::lossy_text;
#[allow(unused_imports)]
use crate::outside::lossy;
use crate::text::{
    copy_of, parse_u64, position_of, split_pieces, split_words, starts_with, to_decimal, trim_eol,
};
#[allow(unused_imports)]
use crate::text::{
    all_digits, concat, decimal, decimal_reads_back, digit_value, find, find_from, grown, lemma_decimal, parsed_u64,
    pieces, pieces_concat, stands_at, texts, the_first_place_is_found, white, without_eol, words,
};

verus! {

// ---------------------------------------------------------------------------
// Diff lines
// ---------------------------------------------------------------------------

/// What a rendered diff line is: drives both coloring and partial patches.
#[derive(Clone, Copy, PartialEq, Eq, Debug, Structural)]
pub enum LineKind {
    /// `diff --git`, `index`, `---`, `+++`, mode lines.
    File,
    /// `@@ -a,b +c,d @@ ...`
    Hunk,
    Add,
    Del,
    Ctx,
    /// `\ No newline at end of file`, binary notices, placeholder text.
    Meta,
    /// Commit-message lines in the header of a commit diff.
    Msg,
}

/// One display line of a diff. `text` is what is shown; `raw` is the exact
/// patch text (marker left out for Add/Del/Ctx, original line ending kept), so
/// that a partial patch can be rebuilt to the letter from highlighted lines.
pub struct DiffLine {
    pub kind: LineKind,
    pub text: String,
    pub raw: String,
}

/// The contents of a diff line.
#[verifier::ext_equal]
pub struct LineView {
    pub kind: LineKind,
    pub text: Seq<char>,
    pub raw: Seq<char>,
}

impl View for DiffLine {
    type V = LineView;

    open spec fn view(&self) -> LineView {
        LineView { kind: self.kind, text: self.text@, raw: self.raw@ }
    }
}

/// The contents of a whole diff document.
pub open spec fn doc(lines: Seq<DiffLine>) -> Seq<LineView> {
    lines.map_values(|l: DiffLine| l@)
}

/// A line that is shown and is part of no patch.
pub open spec fn info_line(text: Seq<char>) -> LineView {
    LineView { kind: LineKind::Meta, text, raw: Seq::empty() }
}

impl DiffLine {
    /// A display-only line that can never contribute to a patch.
    pub fn info(text: &str) -> (r: DiffLine)
        ensures
            r@ == info_line(text@),
    {
        DiffLine { kind: LineKind::Meta, text: copy_of(text), raw: String::new() }
    }
}

// ---------------------------------------------------------------------------
// Collecting a diff
// ---------------------------------------------------------------------------

/// One printed chunk of a patch: what it is (`F` a file header, `H` a hunk
/// header, `+`, `-` and space a line, `B` a binary notice, anything else a
/// missing newline at the end of a file) and its bytes.
pub struct DiffChunk {
    pub origin: char,
    pub content: Vec<u8>,
}

/// A diff line that shows its own text.
pub open spec fn plain_line(kind: LineKind, raw: Seq<char>) -> LineView {
    LineView { kind, text: without_eol(raw), raw }
}

/// The lines that a file header of several lines is shown as.
pub open spec fn header_lines(raw: Seq<char>) -> Seq<LineView> {
    pieces(raw).map_values(|p: Seq<char>| plain_line(LineKind::File, p))
}

/// The diff lines that a chunk with the text `raw` is shown as.
pub open spec fn chunk_lines(origin: char, raw: Seq<char>) -> Seq<LineView> {
    if origin == 'F' {
        header_lines(raw)
    } else if origin == 'H' {
        seq![plain_line(LineKind::Hunk, raw)]
    } else if origin == '+' {
        seq![plain_line(LineKind::Add, raw)]
    } else if origin == '-' {
        seq![plain_line(LineKind::Del, raw)]
    } else if origin == ' ' {
        seq![plain_line(LineKind::Ctx, raw)]
    } else if origin == 'B' {
        seq![plain_line(LineKind::Meta, raw)]
    } else {
        seq![LineView { kind: LineKind::Meta, text: "\\ No newline at end of file"@, raw }]
    }
}

/// The diff lines of all the chunks, in order.
pub open spec fn chunks_lines(chunks: Seq<DiffChunk>) -> Seq<LineView>
    decreases chunks.len(),
{
    if chunks.len() == 0 {
        Seq::empty()
    } else {
        chunks_lines(chunks.drop_last()) + chunk_lines(
            chunks.last().origin,
            lossy(chunks.last().content@),
        )
    }
}

/// The document of a diff; one without any lines says so.
pub open spec fn collected(chunks: Seq<DiffChunk>) -> Seq<LineView> {
    if chunks_lines(chunks).len() == 0 {
        seq![info_line("(no changes)"@)]
    } else {
        chunks_lines(chunks)
    }
}

/// Put the diff lines of one chunk with the text `raw` at the end of `out`.
pub fn push_chunk(out: &mut Vec<DiffLine>, origin: char, raw: String)
    ensures
        doc(final(out)@) == doc(old(out)@) + chunk_lines(origin, raw@),
{
    let ghost was = out@;
    if origin == 'F' {
        let parts = split_pieces(raw.as_str());
        let mut i: usize = 0;
        assert(header_lines(raw@).take(0) =~= Seq::empty());
        while i < parts.len()
            invariant
                i <= parts@.len(),
                texts(parts@) == pieces(raw@),
                doc(out@) == doc(was) + header_lines(raw@).take(i as int),
            decreases parts.len() - i,
        {
            let ghost before = out@;
            let text = trim_eol(parts[i].as_str());
            let line = DiffLine { kind: LineKind::File, text, raw: copy_of(parts[i].as_str()) };
            out.push(line);
            proof {
                assert(texts(parts@)[i as int] == parts@[i as int]@);
                assert(header_lines(raw@)[i as int] == line@);
                assert(header_lines(raw@).take(i + 1) =~= header_lines(raw@).take(i as int).push(
                    line@,
                ));
                assert(doc(out@) =~= doc(before).push(line@));
            }
            i += 1;
        }
        assert(texts(parts@).len() == pieces(raw@).len());
        assert(header_lines(raw@).take(i as int) =~= header_lines(raw@));
    } else {
        let kind: LineKind = if origin == 'H' {
            LineKind::Hunk
        } else if origin == '+' {
            LineKind::Add
        } else if origin == '-' {
            LineKind::Del
        } else if origin == ' ' {
            LineKind::Ctx
        } else {
            LineKind::Meta
        };
        let known = origin == 'H' || origin == '+' || origin == '-' || origin == ' ' || origin
            == 'B';
        let text = if known {
            trim_eol(raw.as_str())
        } else {
            copy_of("\\ No newline at end of file")
        };
        let line = DiffLine { kind, text, raw };
        out.push(line);
        assert(chunk_lines(origin, raw@) =~= seq![line@]);
        assert(doc(out@) =~= doc(was) + seq![line@]);
    }
}

/// Flatten the printed chunks of a diff into display lines. The text of a chunk
/// is the one that its bytes encode, where they are UTF-8; where all of the diff
/// is, its lines hold its bytes one for one.
pub fn collect_diff(chunks: &Vec<DiffChunk>) -> (out: Vec<DiffLine>)
    ensures
        doc(out@) == collected(chunks@),
        forall|j: int|
            0 <= j < chunks@.len() && valid_utf8((#[trigger] chunks@[j]).content@) ==> lossy(
                chunks@[j].content@,
            ) == decode_utf8(chunks@[j].content@),
        (forall|j: int| 0 <= j < chunks@.len() ==> valid_utf8((#[trigger] chunks@[j]).content@))
            ==> encode_utf8(raw_text(doc(out@))) == chunks_bytes(chunks@),
{
    let mut out: Vec<DiffLine> = Vec::new();
    let mut i: usize = 0;
    assert(doc(out@) =~= chunks_lines(chunks@.take(0)));
    while i < chunks.len()
        invariant
            i <= chunks@.len(),
            doc(out@) == chunks_lines(chunks@.take(i as int)),
            forall|j: int|
                0 <= j < i && valid_utf8((#[trigger] chunks@[j]).content@) ==> lossy(
                    chunks@[j].content@,
                ) == decode_utf8(chunks@[j].content@),
        decreases chunks.len() - i,
    {
        assert(chunks@.take(i + 1).drop_last() =~= chunks@.take(i as int));
        let raw = lossy_text(&chunks[i].content);
        push_chunk(&mut out, chunks[i].origin, raw);
        i += 1;
    }
    assert(chunks@.take(i as int) =~= chunks@);
    assert(doc(out@).len() == out@.len());
    if out.len() == 0 {
        out.push(DiffLine::info("(no changes)"));
        assert(doc(out@) =~= collected(chunks@));
    }
    proof {
        if forall|j: int| 0 <= j < chunks@.len() ==> valid_utf8((#[trigger] chunks@[j]).content@) {
            lemma_collected_bytes(chunks@);
        }
    }
    out
}

/// The raw text of some diff lines, put together.
pub open spec fn raw_text(lines: Seq<LineView>) -> Seq<char>
    decreases lines.len(),
{
    if lines.len() == 0 {
        Seq::empty()
    } else {
        raw_text(lines.drop_last()) + lines.last().raw
    }
}

proof fn lemma_raw_text_concat(a: Seq<LineView>, b: Seq<LineView>)
    ensures
        raw_text(a + b) == raw_text(a) + raw_text(b),
    decreases b.len(),
{
    if b.len() == 0 {
        assert(a + b =~= a);
        assert(raw_text(a) + raw_text(b) =~= raw_text(a));
    } else {
        lemma_raw_text_concat(a, b.drop_last());
        assert((a + b).drop_last() =~= a + b.drop_last());
        assert(raw_text(a + b) =~= raw_text(a) + raw_text(b));
    }
}

proof fn lemma_raw_text_of_pieces(parts: Seq<Seq<char>>)
    ensures
        raw_text(parts.map_values(|p: Seq<char>| plain_line(LineKind::File, p))) == concat(parts),
    decreases parts.len(),
{
    let f = |p: Seq<char>| plain_line(LineKind::File, p);
    if parts.len() > 0 {
        lemma_raw_text_of_pieces(parts.drop_last());
        assert(parts.map_values(f).drop_last() =~= parts.drop_last().map_values(f));
    }
}

/// The diff lines of a chunk hold its text to the letter.
pub proof fn chunk_lines_keep_the_text(origin: char, raw: Seq<char>)
    ensures
        raw_text(chunk_lines(origin, raw)) == raw,
{
    if origin == 'F' {
        pieces_concat(raw);
        lemma_raw_text_of_pieces(pieces(raw));
    } else {
        let l = chunk_lines(origin, raw);
        assert(l.drop_last() =~= Seq::empty());
        assert(raw_text(l.drop_last()) =~= Seq::empty());
        assert(raw_text(l) =~= raw);
    }
}

/// The texts of all the chunks, put together.
pub open spec fn chunks_text(chunks: Seq<DiffChunk>) -> Seq<char>
    decreases chunks.len(),
{
    if chunks.len() == 0 {
        Seq::empty()
    } else {
        chunks_text(chunks.drop_last()) + lossy(chunks.last().content@)
    }
}

/// The lines of a collected diff hold the text of the diff to the letter.
pub proof fn collecting_keeps_the_text(chunks: Seq<DiffChunk>)
    ensures
        raw_text(collected(chunks)) == chunks_text(chunks),
{
    lemma_chunks_text(chunks);
    if chunks_lines(chunks).len() == 0 {
        let l = collected(chunks);
        assert(l.drop_last() =~= Seq::empty());
        assert(raw_text(l.drop_last()) =~= Seq::empty());
        assert(raw_text(chunks_lines(chunks)) =~= Seq::empty());
        assert(raw_text(l) =~= Seq::empty());
    }
}

proof fn lemma_chunks_text(chunks: Seq<DiffChunk>)
    ensures
        raw_text(chunks_lines(chunks)) == chunks_text(chunks),
    decreases chunks.len(),
{
    if chunks.len() > 0 {
        lemma_chunks_text(chunks.drop_last());
        let (o, raw) = (chunks.last().origin, lossy(chunks.last().content@));
        chunk_lines_keep_the_text(o, raw);
        lemma_raw_text_concat(chunks_lines(chunks.drop_last()), chunk_lines(o, raw));
    }
}

/// The bytes of all the chunks, put together.
pub open spec fn chunks_bytes(chunks: Seq<DiffChunk>) -> Seq<u8>
    decreases chunks.len(),
{
    if chunks.len() == 0 {
        Seq::empty()
    } else {
        chunks_bytes(chunks.drop_last()) + chunks.last().content@
    }
}

proof fn lemma_encode_concat(a: Seq<char>, b: Seq<char>)
    ensures
        encode_utf8(a + b) == encode_utf8(a) + encode_utf8(b),
    decreases a.len(),
{
    if a.len() == 0 {
        assert(a + b =~= b);
        assert(encode_utf8(a) + encode_utf8(b) =~= encode_utf8(b));
    } else {
        assert((a + b).drop_first() =~= a.drop_first() + b);
        lemma_encode_concat(a.drop_first(), b);
        assert(encode_utf8(a + b) =~= encode_utf8(a) + encode_utf8(b));
    }
}

proof fn lemma_chunks_bytes(chunks: Seq<DiffChunk>)
    requires
        forall|j: int|
            0 <= j < chunks.len() ==> valid_utf8((#[trigger] chunks[j]).content@) && lossy(
                chunks[j].content@,
            ) == decode_utf8(chunks[j].content@),
    ensures
        encode_utf8(chunks_text(chunks)) == chunks_bytes(chunks),
    decreases chunks.len(),
{
    if chunks.len() > 0 {
        let init = chunks.drop_last();
        let last = chunks[chunks.len() - 1].content@;
        assert forall|j: int| 0 <= j < init.len() implies valid_utf8(
            (#[trigger] init[j]).content@,
        ) && lossy(init[j].content@) == decode_utf8(init[j].content@) by {
            assert(init[j] == chunks[j]);
        }
        lemma_chunks_bytes(init);
        decode_utf8_encode_utf8(last);
        lemma_encode_concat(chunks_text(init), lossy(last));
    }
}

proof fn lemma_collected_bytes(chunks: Seq<DiffChunk>)
    requires
        forall|j: int|
            0 <= j < chunks.len() ==> valid_utf8((#[trigger] chunks[j]).content@) && lossy(
                chunks[j].content@,
            ) == decode_utf8(chunks[j].content@),
    ensures
        encode_utf8(raw_text(collected(chunks))) == chunks_bytes(chunks),
{
    collecting_keeps_the_text(chunks);
    lemma_chunks_bytes(chunks);
}

// ---------------------------------------------------------------------------
// Whole-document questions
// ---------------------------------------------------------------------------

/// Whether a line adds or deletes something.
pub open spec fn is_change(kind: LineKind) -> bool {
    kind == LineKind::Add || kind == LineKind::Del
}

/// Whether a line ends the hunk before it.
pub open spec fn is_break(kind: LineKind) -> bool {
    kind == LineKind::Hunk || kind == LineKind::File
}

/// How many of the lines `from..to` satisfy `p`, which is given a position
/// and the line there.
pub open spec fn count(
    lines: Seq<LineView>,
    from: int,
    to: int,
    p: spec_fn(int, LineView) -> bool,
) -> nat
    decreases to - from,
{
    if to <= from {
        0
    } else {
        count(lines, from, to - 1, p) + (if p(to - 1, lines[to - 1]) {
            1nat
        } else {
            0
        })
    }
}

/// The number of added and deleted lines of a diff.
pub open spec fn changes(lines: Seq<LineView>) -> nat {
    count(lines, 0, lines.len() as int, |i: int, l: LineView| is_change(l.kind))
}

fn kind_is_change(kind: LineKind) -> (r: bool)
    ensures
        r == is_change(kind),
{
    match kind {
        LineKind::Add | LineKind::Del => true,
        _ => false,
    }
}

fn kind_is_break(kind: LineKind) -> (r: bool)
    ensures
        r == is_break(kind),
{
    match kind {
        LineKind::Hunk | LineKind::File => true,
        _ => false,
    }
}

proof fn lemma_count_bound(
    lines: Seq<LineView>,
    from: int,
    to: int,
    p: spec_fn(int, LineView) -> bool,
)
    ensures
        from <= to ==> count(lines, from, to, p) <= to - from,
        to < from ==> count(lines, from, to, p) == 0,
    decreases to - from,
{
    if from < to {
        lemma_count_bound(lines, from, to - 1, p);
    }
}

/// Total number of added and deleted lines in a diff.
pub fn change_count(lines: &[DiffLine]) -> (n: usize)
    ensures
        n == changes(doc(lines@)),
{
    let mut n: usize = 0;
    let mut i: usize = 0;
    let ghost d = doc(lines@);
    let ghost p = |i: int, l: LineView| is_change(l.kind);
    while i < lines.len()
        invariant
            i <= lines@.len(),
            d == doc(lines@),
            p == (|i: int, l: LineView| is_change(l.kind)),
            n == count(d, 0, i as int, p),
            n <= i,
        decreases lines.len() - i,
    {
        assert(d[i as int] == lines@[i as int]@);
        if kind_is_change(lines[i].kind) {
            n += 1;
        }
        i += 1;
    }
    n
}

/// What a diff does to its file as a whole.
#[derive(Clone, Copy, PartialEq, Eq, Structural)]
pub enum WholeFile {
    New,
    Deleted,
}

/// What a file-header line says of its file as a whole.
pub open spec fn whole_file_line(l: LineView) -> Option<WholeFile> {
    if l.kind != LineKind::File {
        None
    } else if "new file mode"@.is_prefix_of(l.text) {
        Some(WholeFile::New)
    } else if "deleted file mode"@.is_prefix_of(l.text) {
        Some(WholeFile::Deleted)
    } else {
        None
    }
}

/// What the first line at or after `i` that says anything of its file as a
/// whole says.
pub open spec fn whole_file_from(lines: Seq<LineView>, i: int) -> Option<WholeFile>
    decreases lines.len() - i,
{
    if i < 0 || i >= lines.len() {
        None
    } else if whole_file_line(lines[i]) is Some {
        whole_file_line(lines[i])
    } else {
        whole_file_from(lines, i + 1)
    }
}

/// Whether a diff creates or deletes its file outright.
pub fn whole_file(lines: &[DiffLine]) -> (r: Option<WholeFile>)
    ensures
        r == whole_file_from(doc(lines@), 0),
{
    let mut i: usize = 0;
    let ghost d = doc(lines@);
    while i < lines.len()
        invariant
            i <= lines@.len(),
            d == doc(lines@),
            whole_file_from(d, 0) == whole_file_from(d, i as int),
        decreases lines.len() - i,
    {
        assert(d[i as int] == lines@[i as int]@);
        if lines[i].kind == LineKind::File {
            let text = lines[i].text.as_str();
            if starts_with(text, "new file mode") {
                return Some(WholeFile::New);
            }
            if starts_with(text, "deleted file mode") {
                return Some(WholeFile::Deleted);
            }
        }
        i += 1;
    }
    None
}

/// "new" or "deleted" when the diff creates or deletes the file outright: such
/// a file can only be staged or unstaged whole, because a partial patch would
/// need context lines against `/dev/null`.
pub fn whole_file_kind(lines: &[DiffLine]) -> (r: Option<&'static str>)
    ensures
        match whole_file_from(doc(lines@), 0) {
            None => r is None,
            Some(WholeFile::New) => r is Some && r->0@ == "new"@,
            Some(WholeFile::Deleted) => r is Some && r->0@ == "deleted"@,
        },
{
    match whole_file(lines) {
        None => None,
        Some(WholeFile::New) => Some("new"),
        Some(WholeFile::Deleted) => Some("deleted"),
    }
}

// ---------------------------------------------------------------------------
// The hunk under the cursor
// ---------------------------------------------------------------------------

/// The first line at or after `i` that ends a hunk, or the end of the document.
pub open spec fn body_end(lines: Seq<LineView>, i: int) -> int
    decreases lines.len() - i,
{
    if i < 0 || i >= lines.len() || is_break(lines[i].kind) {
        i
    } else {
        body_end(lines, i + 1)
    }
}

/// The header of the hunk that the line `i` belongs to.
pub open spec fn hunk_start(lines: Seq<LineView>, i: int) -> Option<int>
    decreases i + 1,
{
    if i < 0 || i >= lines.len() {
        None
    } else if lines[i].kind == LineKind::Hunk {
        Some(i)
    } else if lines[i].kind == LineKind::File {
        None
    } else {
        hunk_start(lines, i - 1)
    }
}

/// The span, header to last body line, of the hunk that the line `i` belongs to.
pub open spec fn hunk_span(lines: Seq<LineView>, i: int) -> Option<(int, int)> {
    match hunk_start(lines, i) {
        None => None,
        Some(s) => Some((s, body_end(lines, i + 1) - 1)),
    }
}

/// The display-line span (header to last body line) of the hunk containing
/// `cursor`, or `None` when the cursor sits outside any hunk.
pub fn hunk_at(lines: &[DiffLine], cursor: usize) -> (r: Option<(usize, usize)>)
    ensures
        match r {
            None => hunk_span(doc(lines@), cursor as int) is None,
            Some((s, e)) => hunk_span(doc(lines@), cursor as int) == Some((s as int, e as int)),
        },
{
    let ghost d = doc(lines@);
    if cursor >= lines.len() {
        return None;
    }
    let mut start: usize = cursor;
    while lines[start].kind != LineKind::Hunk
        invariant
            start <= cursor < lines@.len(),
            d == doc(lines@),
            hunk_start(d, start as int) == hunk_start(d, cursor as int),
        decreases start,
    {
        assert(d[start as int] == lines@[start as int]@);
        if lines[start].kind == LineKind::File {
            return None;
        }
        if start == 0 {
            assert(hunk_start(d, -1) is None);
            return None;
        }
        start -= 1;
    }
    assert(d[start as int] == lines@[start as int]@);
    let mut end: usize = cursor;
    while end + 1 < lines.len() && !kind_is_break(lines[end + 1].kind)
        invariant
            cursor <= end < lines@.len(),
            d == doc(lines@),
            body_end(d, end + 1) == body_end(d, cursor + 1),
        decreases lines.len() - end,
    {
        assert(d[end + 1] == lines@[end + 1]@);
        end += 1;
    }
    assert(end + 1 < lines@.len() ==> d[end + 1] == lines@[end + 1]@);
    Some((start, end))
}

/// A hunk body reaches to the next header or to the end of the document, with
/// no header inside.
pub proof fn body_end_bounds(lines: Seq<LineView>, i: int)
    requires
        0 <= i <= lines.len(),
    ensures
        i <= body_end(lines, i) <= lines.len(),
        forall|k: int| i <= k < body_end(lines, i) ==> !is_break(#[trigger] lines[k].kind),
        body_end(lines, i) < lines.len() ==> is_break(lines[body_end(lines, i)].kind),
    decreases lines.len() - i,
{
    if i < lines.len() && !is_break(lines[i].kind) {
        body_end_bounds(lines, i + 1);
    }
}

proof fn lemma_hunk_start(lines: Seq<LineView>, i: int)
    requires
        hunk_start(lines, i) is Some,
    ensures
        0 <= hunk_start(lines, i)->0 <= i < lines.len(),
        lines[hunk_start(lines, i)->0].kind == LineKind::Hunk,
        forall|k: int|
            hunk_start(lines, i)->0 < k <= i ==> !is_break(#[trigger] lines[k].kind),
    decreases i + 1,
{
    if lines[i].kind != LineKind::Hunk {
        lemma_hunk_start(lines, i - 1);
    }
}

/// The hunk found under a cursor holds the cursor, begins with its header and
/// has no other header inside.
pub proof fn hunk_span_encloses(lines: Seq<LineView>, i: int)
    requires
        hunk_span(lines, i) is Some,
    ensures
        ({
            let (s, e) = hunk_span(lines, i)->0;
            &&& 0 <= s <= i <= e < lines.len()
            &&& lines[s].kind == LineKind::Hunk
            &&& forall|k: int| s < k <= e ==> !is_break(#[trigger] lines[k].kind)
            &&& e + 1 < lines.len() ==> is_break(lines[e + 1].kind)
        }),
{
    lemma_hunk_start(lines, i);
    body_end_bounds(lines, i + 1);
}

/// The header of a hunk and every line of its body map to the same span.
pub proof fn hunk_span_is_shared(lines: Seq<LineView>, i: int, s: int, e: int, j: int)
    requires
        hunk_span(lines, i) == Some((s, e)),
        s <= j <= e,
    ensures
        hunk_span(lines, j) == Some((s, e)),
{
    hunk_span_encloses(lines, i);
    lemma_same_start(lines, s, j);
    lemma_same_end(lines, j + 1, e + 1);
}

proof fn lemma_same_start(lines: Seq<LineView>, s: int, j: int)
    requires
        0 <= s <= j < lines.len(),
        lines[s].kind == LineKind::Hunk,
        forall|k: int| s < k <= j ==> !is_break(#[trigger] lines[k].kind),
    ensures
        hunk_start(lines, j) == Some(s),
    decreases j - s,
{
    if s < j {
        assert(!is_break(lines[j].kind));
        lemma_same_start(lines, s, j - 1);
    }
}

proof fn lemma_same_end(lines: Seq<LineView>, i: int, e: int)
    requires
        0 <= i <= e <= lines.len(),
        forall|k: int| i <= k < e ==> !is_break(#[trigger] lines[k].kind),
        e < lines.len() ==> is_break(lines[e].kind),
    ensures
        body_end(lines, i) == e,
    decreases e - i,
{
    if i < e {
        assert(!is_break(lines[i].kind));
        lemma_same_end(lines, i + 1, e);
    }
}

/// A line of a file header is outside any hunk.
pub proof fn file_lines_are_outside_hunks(lines: Seq<LineView>, i: int)
    requires
        0 <= i < lines.len(),
        lines[i].kind == LineKind::File,
    ensures
        hunk_span(lines, i) is None,
{
}

// ---------------------------------------------------------------------------
// Hunk headers
// ---------------------------------------------------------------------------

/// What stands before the first comma.
pub open spec fn before_comma(s: Seq<char>) -> Seq<char> {
    match find(s, seq![',']) {
        None => s,
        Some(i) => s.take(i),
    }
}

/// The old and new start that the range tokens `-a[,b]` and `+c[,d]` give: of
/// several tokens of one sign the last counts, and a missing sign gives 0.
pub open spec fn range_starts(tokens: Seq<Seq<char>>) -> Option<(u64, u64)>
    decreases tokens.len(),
{
    if tokens.len() == 0 {
        Some((0u64, 0u64))
    } else {
        match range_starts(tokens.drop_last()) {
            None => None,
            Some((old_start, new_start)) => match parsed_u64(
                before_comma(tokens.last().skip(1)),
            ) {
                None => None,
                Some(n) => if tokens.last().first() == '-' {
                    Some((n, new_start))
                } else if tokens.last().first() == '+' {
                    Some((old_start, n))
                } else {
                    None
                },
            },
        }
    }
}

/// The start numbers and the trailing context of a header
/// `@@ -a[,b] +c[,d] @@ ctx`.
pub open spec fn hunk_header(text: Seq<char>) -> Option<(u64, u64, Seq<char>)> {
    if !"@@ "@.is_prefix_of(text) {
        None
    } else {
        let after = text.skip(3);
        match find(after, " @@"@) {
            None => None,
            Some(end) => match range_starts(words(after.take(end))) {
                None => None,
                Some((old_start, new_start)) => Some((old_start, new_start, after.skip(end + 3))),
            },
        }
    }
}

proof fn lemma_words_nonempty(s: Seq<char>)
    ensures
        forall|i: int| 0 <= i < words(s).len() ==> (#[trigger] words(s)[i]).len() > 0,
        s.len() > 0 && !white(s.last()) ==> words(s).len() > 0,
    decreases s.len(),
{
    if s.len() > 0 {
        let before = s.drop_last();
        lemma_words_nonempty(before);
        assert forall|i: int| 0 <= i < words(s).len() implies (#[trigger] words(s)[i]).len()
            > 0 by {
            if i < words(before).len() {
                assert(words(before)[i].len() > 0);
            }
        }
    }
}

proof fn lemma_find_bounds(s: Seq<char>, pat: Seq<char>, i: int)
    requires
        0 <= i,
    ensures
        find_from(s, pat, i) matches Some(k) ==> i <= k && k + pat.len() <= s.len(),
    decreases s.len() - i + 1,
{
    if i + pat.len() <= s.len() && !stands_at(s, pat, i) {
        lemma_find_bounds(s, pat, i + 1);
    }
}

/// The number at the head of a range, `a` in `a[,b]`.
fn range_number(s: &str) -> (r: Option<u64>)
    ensures
        r == parsed_u64(before_comma(s@)),
{
    proof {
        reveal_strlit(",");
        assert(","@ =~= seq![',']);
        lemma_find_bounds(s@, ","@, 0);
    }
    match position_of(s, ",") {
        None => parse_u64(s),
        Some(i) => {
            let head = s.substring_char(0, i);
            assert(head@ =~= s@.take(i as int));
            parse_u64(head)
        },
    }
}

/// Pull the start numbers and trailing context out of
/// `@@ -a[,b] +c[,d] @@ ctx`.
pub fn parse_hunk_header(text: &str) -> (r: Option<(u64, u64, String)>)
    ensures
        match r {
            None => hunk_header(text@) is None,
            Some((old_start, new_start, ctx)) => hunk_header(text@) == Some(
                (old_start, new_start, ctx@),
            ),
        },
{
    proof {
        reveal_strlit("@@ ");
        reveal_strlit(" @@");
    }
    if !starts_with(text, "@@ ") {
        return None;
    }
    let n: usize = text.unicode_len();
    let after = text.substring_char(3, n);
    assert(after@ =~= text@.skip(3));
    proof {
        lemma_find_bounds(after@, " @@"@, 0);
    }
    let end: usize = match position_of(after, " @@") {
        None => {
            return None;
        },
        Some(end) => end,
    };
    let nums = after.substring_char(0, end);
    let ctx = after.substring_char(end + 3, n - 3);
    assert(nums@ =~= after@.take(end as int));
    assert(ctx@ =~= after@.skip(end + 3));
    let tokens = split_words(nums);
    proof {
        lemma_words_nonempty(nums@);
    }
    let mut old_start: u64 = 0;
    let mut new_start: u64 = 0;
    let mut i: usize = 0;
    let ghost all = texts(tokens@);
    assert(all.take(0).len() == 0);
    while i < tokens.len()
        invariant
            i <= tokens@.len(),
            all == texts(tokens@),
            forall|j: int| 0 <= j < all.len() ==> (#[trigger] all[j]).len() > 0,
            range_starts(all.take(i as int)) == Some((old_start, new_start)),
            hunk_header(text@) is None <==> range_starts(all) is None,
        decreases tokens.len() - i,
    {
        proof {
            assert(all.take(i + 1).drop_last() =~= all.take(i as int));
            assert(all[i as int].len() > 0);
            assert(all[i as int] == tokens@[i as int]@);
            if range_starts(all.take(i + 1)) is None {
                lemma_range_none(all, i + 1);
            }
        }
        let token = tokens[i].as_str();
        let len: usize = token.unicode_len();
        let sign = token.get_char(0);
        let rest = token.substring_char(1, len);
        assert(rest@ =~= token@.skip(1));
        match range_number(rest) {
            None => {
                return None;
            },
            Some(start) => {
                if sign == '-' {
                    old_start = start;
                } else if sign == '+' {
                    new_start = start;
                } else {
                    return None;
                }
            },
        }
        i += 1;
    }
    assert(all.take(all.len() as int) =~= all);
    Some((old_start, new_start, copy_of(ctx)))
}

proof fn lemma_range_none(tokens: Seq<Seq<char>>, k: int)
    requires
        0 <= k <= tokens.len(),
        range_starts(tokens.take(k)) is None,
    ensures
        range_starts(tokens) is None,
    decreases tokens.len() - k,
{
    if k < tokens.len() {
        assert(tokens.take(k + 1).drop_last() =~= tokens.take(k));
        lemma_range_none(tokens, k + 1);
    } else {
        assert(tokens.take(k) =~= tokens);
    }
}

// ---------------------------------------------------------------------------
// Partial patches
// ---------------------------------------------------------------------------

/// What a partial patch is to hold: the changes on the lines `lo..=hi`, to be
/// moved into the index, or out of it when `unstage` is set.
pub struct Pick {
    pub lo: int,
    pub hi: int,
    pub unstage: bool,
}

/// The changes between two display lines, in either order.
pub open spec fn pick(sel: (usize, usize), unstage: bool) -> Pick {
    Pick {
        lo: if sel.0 <= sel.1 {
            sel.0 as int
        } else {
            sel.1 as int
        },
        hi: if sel.0 <= sel.1 {
            sel.1 as int
        } else {
            sel.0 as int
        },
        unstage,
    }
}

/// The marker that a line gets in a partial patch, or `None` if it is dropped.
///
/// A selected change keeps its own marker. Staging applies the patch forward
/// onto the index, so of the others an added line, not there yet, is dropped,
/// and a deleted one, still there, becomes context. Unstaging applies it in
/// reverse, and the two change roles.
pub open spec fn mark(kind: LineKind, selected: bool, unstage: bool) -> Option<char> {
    match kind {
        LineKind::Ctx => Some(' '),
        LineKind::Add => if selected {
            Some('+')
        } else if unstage {
            Some(' ')
        } else {
            None
        },
        LineKind::Del => if selected {
            Some('-')
        } else if unstage {
            None
        } else {
            Some(' ')
        },
        _ => None,
    }
}

/// The marker of the line `l` at position `i`.
pub open spec fn mark_at(i: int, l: LineView, k: Pick) -> Option<char> {
    mark(l.kind, k.lo <= i <= k.hi, k.unstage)
}

/// The lines of a partial patch that stand on its old side.
pub open spec fn on_old_side(k: Pick) -> spec_fn(int, LineView) -> bool {
    |i: int, l: LineView| mark_at(i, l, k) == Some(' ') || mark_at(i, l, k) == Some('-')
}

/// The lines of a partial patch that stand on its new side.
pub open spec fn on_new_side(k: Pick) -> spec_fn(int, LineView) -> bool {
    |i: int, l: LineView| mark_at(i, l, k) == Some(' ') || mark_at(i, l, k) == Some('+')
}

/// The changes that a partial patch keeps.
pub open spec fn is_picked(k: Pick) -> spec_fn(int, LineView) -> bool {
    |i: int, l: LineView| is_change(l.kind) && k.lo <= i <= k.hi
}

/// Whether the last text line among `from..to` is part of the patch; a
/// "no newline" marker right after it shares its fate.
pub open spec fn last_text_kept(lines: Seq<LineView>, from: int, to: int, k: Pick) -> bool
    decreases to - from,
{
    if to <= from {
        true
    } else if is_change(lines[to - 1].kind) || lines[to - 1].kind == LineKind::Ctx {
        mark_at(to - 1, lines[to - 1], k) is Some
    } else {
        last_text_kept(lines, from, to - 1, k)
    }
}

/// What the line `i` of the hunk body that begins at `from` puts into the patch.
pub open spec fn line_text(lines: Seq<LineView>, from: int, i: int, k: Pick) -> Seq<char> {
    match mark_at(i, lines[i], k) {
        Some(m) => seq![m] + lines[i].raw,
        None => if lines[i].kind == LineKind::Meta && last_text_kept(lines, from, i, k) {
            lines[i].raw
        } else {
            Seq::empty()
        },
    }
}

/// What the lines `from..to` of a hunk body put into the patch.
pub open spec fn body_text(lines: Seq<LineView>, from: int, to: int, k: Pick) -> Seq<char>
    decreases to - from,
{
    if to <= from {
        Seq::empty()
    } else {
        body_text(lines, from, to - 1, k) + line_text(lines, from, to - 1, k)
    }
}

/// A hunk header with its counts.
pub open spec fn header_text(
    old_start: u64,
    old_count: nat,
    new_start: u64,
    new_count: nat,
    ctx: Seq<char>,
) -> Seq<char> {
    "@@ -"@ + decimal(old_start as nat) + ","@ + decimal(old_count) + " +"@ + decimal(
        new_start as nat,
    ) + ","@ + decimal(new_count) + " @@"@ + ctx + "\n"@
}

/// What the hunk with its header at `h` puts into the patch: nothing if none
/// of its changes is picked, else its header with the counts of what is left,
/// and its body. `None` if the header cannot be read.
pub open spec fn hunk_patch(lines: Seq<LineView>, h: int, k: Pick) -> Option<Seq<char>> {
    let from = h + 1;
    let to = body_end(lines, h + 1);
    if count(lines, from, to, is_picked(k)) == 0 {
        Some(Seq::empty())
    } else {
        match hunk_header(lines[h].text) {
            None => None,
            Some((old_start, new_start, ctx)) => Some(
                header_text(
                    old_start,
                    count(lines, from, to, on_old_side(k)),
                    new_start,
                    count(lines, from, to, on_new_side(k)),
                    ctx,
                ) + body_text(lines, from, to, k),
            ),
        }
    }
}

/// What the hunks from line `i` on put into the patch.
pub open spec fn hunks_patch(lines: Seq<LineView>, i: int, k: Pick) -> Option<Seq<char>>
    decreases lines.len() - i,
{
    if i < 0 || i >= lines.len() {
        Some(Seq::empty())
    } else {
        proof {
            body_end_bounds(lines, i + 1);
        }
        match hunk_patch(lines, i, k) {
            None => None,
            Some(p) => match hunks_patch(lines, body_end(lines, i + 1), k) {
                None => None,
                Some(q) => Some(p + q),
            },
        }
    }
}

/// The first hunk header at or after line `i`, or the end of the document.
pub open spec fn first_hunk_from(lines: Seq<LineView>, i: int) -> int
    decreases lines.len() - i,
{
    if i < 0 || i >= lines.len() || lines[i].kind == LineKind::Hunk {
        i
    } else {
        first_hunk_from(lines, i + 1)
    }
}

/// The first hunk header of a document, or its end.
pub open spec fn first_hunk(lines: Seq<LineView>) -> int {
    first_hunk_from(lines, 0)
}

/// The file-header lines among the first `to` lines.
pub open spec fn file_header(lines: Seq<LineView>, to: int) -> Seq<char>
    decreases to,
{
    if to <= 0 {
        Seq::empty()
    } else if lines[to - 1].kind == LineKind::File {
        file_header(lines, to - 1) + lines[to - 1].raw
    } else {
        file_header(lines, to - 1)
    }
}

/// The changes that a partial patch keeps, in number.
pub open spec fn picked(lines: Seq<LineView>, k: Pick) -> nat {
    count(lines, first_hunk(lines), lines.len() as int, is_picked(k))
}

/// The patch that holds the picked changes only, and how many they are; `None`
/// when there are none, or when the header of a hunk that holds some cannot be
/// read.
pub open spec fn patch_of(lines: Seq<LineView>, k: Pick) -> Option<(Seq<char>, nat)> {
    if picked(lines, k) == 0 {
        None
    } else {
        match hunks_patch(lines, first_hunk(lines), k) {
            None => None,
            Some(p) => Some((file_header(lines, first_hunk(lines)) + p, picked(lines, k))),
        }
    }
}

/// The body of one hunk in a partial patch.
struct Body {
    text: String,
    old_count: u64,
    new_count: u64,
    kept: usize,
    end: usize,
}

/// Build the body of the hunk whose first body line is `from`.
fn hunk_body(lines: &[DiffLine], from: usize, sel: (usize, usize), unstage: bool) -> (b: Body)
    requires
        from <= lines@.len(),
        sel.0 <= sel.1,
    ensures
        b.end == body_end(doc(lines@), from as int),
        from <= b.end <= lines@.len(),
        b.text@ == body_text(doc(lines@), from as int, b.end as int, pick(sel, unstage)),
        b.old_count == count(
            doc(lines@),
            from as int,
            b.end as int,
            on_old_side(pick(sel, unstage)),
        ),
        b.new_count == count(
            doc(lines@),
            from as int,
            b.end as int,
            on_new_side(pick(sel, unstage)),
        ),
        b.kept == count(doc(lines@), from as int, b.end as int, is_picked(pick(sel, unstage))),
{
    let ghost d = doc(lines@);
    let ghost k = pick(sel, unstage);
    let mut text = String::new();
    let mut old_count: u64 = 0;
    let mut new_count: u64 = 0;
    let mut kept: usize = 0;
    let mut last_kept = true;
    let mut i: usize = from;
    while i < lines.len() && !kind_is_break(lines[i].kind)
        invariant
            from <= i <= lines@.len(),
            sel.0 <= sel.1,
            d == doc(lines@),
            k == pick(sel, unstage),
            body_end(d, from as int) == body_end(d, i as int),
            text@ == body_text(d, from as int, i as int, k),
            old_count == count(d, from as int, i as int, on_old_side(k)),
            new_count == count(d, from as int, i as int, on_new_side(k)),
            kept == count(d, from as int, i as int, is_picked(k)),
            old_count <= i - from,
            new_count <= i - from,
            kept <= i - from,
            last_kept == last_text_kept(d, from as int, i as int, k),
        decreases lines.len() - i,
    {
        assert(d[i as int] == lines@[i as int]@);
        let selected = sel.0 <= i && i <= sel.1;
        let raw = lines[i].raw.as_str();
        let marker: Option<char> = match lines[i].kind {
            LineKind::Ctx => Some(' '),
            LineKind::Add => if selected {
                Some('+')
            } else if unstage {
                Some(' ')
            } else {
                None
            },
            LineKind::Del => if selected {
                Some('-')
            } else if unstage {
                None
            } else {
                Some(' ')
            },
            _ => None,
        };
        assert(marker == mark_at(i as int, d[i as int], k));
        let ghost was = text@;
        match marker {
            Some(m) => {
                text.push(m);
                text.append(raw);
                assert(text@ =~= was + (seq![m] + d[i as int].raw));
                if m != '+' {
                    old_count += 1;
                }
                if m != '-' {
                    new_count += 1;
                }
                if m != ' ' {
                    kept += 1;
                }
                last_kept = true;
            },
            None => {
                if lines[i].kind == LineKind::Meta {
                    if last_kept {
                        text.append(raw);
                    }
                } else if lines[i].kind != LineKind::Msg {
                    last_kept = false;
                }
                assert(text@ =~= was + line_text(d, from as int, i as int, k));
            },
        }
        i += 1;
    }
    assert(i < lines@.len() ==> d[i as int] == lines@[i as int]@);
    Body { text, old_count, new_count, kept, end: i }
}

/// Put a hunk header with its counts at the end of `patch`.
fn push_header(
    patch: &mut String,
    old_start: u64,
    old_count: u64,
    new_start: u64,
    new_count: u64,
    ctx: &str,
)
    ensures
        final(patch)@ == old(patch)@ + header_text(
            old_start,
            old_count as nat,
            new_start,
            new_count as nat,
            ctx@,
        ),
{
    let ghost was = patch@;
    patch.append("@@ -");
    let n = to_decimal(old_start as u128);
    patch.append(n.as_str());
    patch.append(",");
    let n = to_decimal(old_count as u128);
    patch.append(n.as_str());
    patch.append(" +");
    let n = to_decimal(new_start as u128);
    patch.append(n.as_str());
    patch.append(",");
    let n = to_decimal(new_count as u128);
    patch.append(n.as_str());
    patch.append(" @@");
    patch.append(ctx);
    patch.append("\n");
    assert(patch@ =~= was + header_text(
        old_start,
        old_count as nat,
        new_start,
        new_count as nat,
        ctx@,
    ));
}

proof fn lemma_count_split(
    lines: Seq<LineView>,
    from: int,
    mid: int,
    to: int,
    p: spec_fn(int, LineView) -> bool,
)
    requires
        from <= mid <= to,
    ensures
        count(lines, from, to, p) == count(lines, from, mid, p) + count(lines, mid, to, p),
    decreases to - mid,
{
    if mid < to {
        lemma_count_split(lines, from, mid, to - 1, p);
    }
}

/// Put what the hunk with its header at `h` gives at the end of `patch`.
/// Returns how many changes it kept and where the hunk ends, or `None` if its
/// header is needed and cannot be read.
fn push_hunk(
    patch: &mut String,
    lines: &[DiffLine],
    h: usize,
    sel: (usize, usize),
    unstage: bool,
) -> (r: Option<(usize, usize)>)
    requires
        h < lines@.len(),
        sel.0 <= sel.1,
    ensures
        match r {
            None => hunk_patch(doc(lines@), h as int, pick(sel, unstage)) is None,
            Some((kept, end)) => {
                &&& hunk_patch(doc(lines@), h as int, pick(sel, unstage)) is Some
                &&& final(patch)@ == old(patch)@ + hunk_patch(
                    doc(lines@),
                    h as int,
                    pick(sel, unstage),
                )->0
                &&& kept == count(doc(lines@), h + 1, end as int, is_picked(pick(sel, unstage)))
                &&& end == body_end(doc(lines@), h + 1)
                &&& h < end <= lines@.len()
            },
        },
{
    let n: usize = lines.len();
    assert(h < n);
    let body = hunk_body(lines, h + 1, sel, unstage);
    let ghost was = patch@;
    assert(doc(lines@)[h as int] == lines@[h as int]@);
    if body.kept > 0 {
        match parse_hunk_header(lines[h].text.as_str()) {
            None => {
                return None;
            },
            Some((old_start, new_start, ctx)) => {
                push_header(
                    patch,
                    old_start,
                    body.old_count,
                    new_start,
                    body.new_count,
                    ctx.as_str(),
                );
                patch.append(body.text.as_str());
            },
        }
    }
    assert(patch@ =~= was + hunk_patch(doc(lines@), h as int, pick(sel, unstage))->0);
    Some((body.kept, body.end))
}

/// Build a unified diff containing only the added and deleted lines inside
/// `sel` (display-line indices, both ends counted, into a *single-file* diff).
///
/// `for_unstage` flips how unselected changes are neutralized (see [`mark`]).
/// Hunk counts are recomputed; the start position of the side that git anchors
/// on (old for forward, new for reverse) is kept. Returns the patch and how
/// many change lines it kept, or `None` when the selection holds no changes.
pub fn partial_patch(lines: &[DiffLine], sel: (usize, usize), for_unstage: bool) -> (r: Option<
    (String, usize),
>)
    ensures
        match r {
            None => patch_of(doc(lines@), pick(sel, for_unstage)) is None,
            Some((patch, kept)) => patch_of(doc(lines@), pick(sel, for_unstage)) == Some(
                (patch@, kept as nat),
            ),
        },
{
    let ghost d = doc(lines@);
    let ghost k = pick(sel, for_unstage);
    let span: (usize, usize) = if sel.0 <= sel.1 {
        sel
    } else {
        (sel.1, sel.0)
    };
    assert(pick(span, for_unstage) == k);

    // File header block: everything before the first hunk.
    let mut patch = String::new();
    let mut i: usize = 0;
    while i < lines.len() && lines[i].kind != LineKind::Hunk
        invariant
            i <= lines@.len(),
            d == doc(lines@),
            first_hunk(d) == first_hunk_from(d, i as int),
            patch@ == file_header(d, i as int),
        decreases lines.len() - i,
    {
        assert(d[i as int] == lines@[i as int]@);
        if lines[i].kind == LineKind::File {
            patch.append(lines[i].raw.as_str());
        }
        i += 1;
    }
    assert(i < lines@.len() ==> d[i as int] == lines@[i as int]@);
    assert(first_hunk(d) == i);
    let ghost first = i as int;
    let ghost head = patch@;
    let ghost mut done: Seq<char> = Seq::empty();
    proof {
        assert(patch@ =~= head + done);
        if hunks_patch(d, first, k) is Some {
            assert(done + hunks_patch(d, first, k)->0 =~= hunks_patch(d, first, k)->0);
        }
    }

    let mut kept_total: usize = 0;
    while i < lines.len()
        invariant
            first <= i <= lines@.len(),
            i < lines@.len() ==> is_break(d[i as int].kind),
            span.0 <= span.1,
            k == pick(span, for_unstage),
            k == pick(sel, for_unstage),
            d == doc(lines@),
            patch@ == head + done,
            kept_total == count(d, first, i as int, is_picked(k)),
            kept_total <= i - first,
            0 <= first == first_hunk(d),
            hunks_patch(d, first, k) == (match hunks_patch(d, i as int, k) {
                None => None::<Seq<char>>,
                Some(q) => Some(done + q),
            }),
        decreases lines.len() - i,
    {
        match push_hunk(&mut patch, lines, i, span, for_unstage) {
            None => {
                return None;
            },
            Some((kept, end)) => {
                proof {
                    lemma_unpicked_header(d, first, i as int, k);
                    body_end_bounds(d, i + 1);
                    lemma_count_split(d, first, i + 1, end as int, is_picked(k));
                    lemma_count_bound(d, i + 1, end as int, is_picked(k));
                    let p = hunk_patch(d, i as int, k)->0;
                    let was = done;
                    done = was + p;
                    assert(patch@ =~= head + done);
                    let rest = hunks_patch(d, end as int, k);
                    if rest is Some {
                        assert(was + (p + rest->0) =~= done + rest->0);
                    }
                }
                kept_total += kept;
                i = end;
            },
        }
    }
    assert(done + Seq::<char>::empty() =~= done);
    if kept_total > 0 {
        Some((patch, kept_total))
    } else {
        None
    }
}

proof fn lemma_unpicked_header(lines: Seq<LineView>, from: int, h: int, k: Pick)
    requires
        from <= h < lines.len(),
    ensures
        is_break(lines[h].kind) ==> count(lines, from, h + 1, is_picked(k)) == count(
            lines,
            from,
            h,
            is_picked(k),
        ),
{
}

// ---------------------------------------------------------------------------
// What partial patches promise
// ---------------------------------------------------------------------------

/// The text of the lines among `from..to` that satisfy `p`.
pub open spec fn side(
    lines: Seq<LineView>,
    from: int,
    to: int,
    p: spec_fn(int, LineView) -> bool,
) -> Seq<char>
    decreases to - from,
{
    if to <= from {
        Seq::empty()
    } else if p(to - 1, lines[to - 1]) {
        side(lines, from, to - 1, p) + lines[to - 1].raw
    } else {
        side(lines, from, to - 1, p)
    }
}

/// The lines of a diff that its old side holds.
pub open spec fn in_old() -> spec_fn(int, LineView) -> bool {
    |i: int, l: LineView| l.kind == LineKind::Ctx || l.kind == LineKind::Del
}

/// The lines of a diff that its new side holds.
pub open spec fn in_new() -> spec_fn(int, LineView) -> bool {
    |i: int, l: LineView| l.kind == LineKind::Ctx || l.kind == LineKind::Add
}

proof fn lemma_same_lines(
    lines: Seq<LineView>,
    from: int,
    to: int,
    p: spec_fn(int, LineView) -> bool,
    q: spec_fn(int, LineView) -> bool,
)
    requires
        forall|i: int| from <= i < to ==> p(i, #[trigger] lines[i]) == q(i, lines[i]),
    ensures
        side(lines, from, to, p) == side(lines, from, to, q),
        count(lines, from, to, p) == count(lines, from, to, q),
    decreases to - from,
{
    if from < to {
        lemma_same_lines(lines, from, to - 1, p, q);
        assert(p(to - 1, lines[to - 1]) == q(to - 1, lines[to - 1]));
    }
}

/// A patch made for staging has, in every hunk and whatever is picked, the
/// whole old side of the diff: what the index holds is what it applies to.
pub proof fn staging_keeps_the_old_side(lines: Seq<LineView>, from: int, to: int, k: Pick)
    requires
        !k.unstage,
    ensures
        side(lines, from, to, on_old_side(k)) == side(lines, from, to, in_old()),
        count(lines, from, to, on_old_side(k)) == count(lines, from, to, in_old()),
{
    lemma_same_lines(lines, from, to, on_old_side(k), in_old());
}

/// A patch made for unstaging has, in every hunk and whatever is picked, the
/// whole new side of the diff: what the index holds is what it is taken back
/// from.
pub proof fn unstaging_keeps_the_new_side(lines: Seq<LineView>, from: int, to: int, k: Pick)
    requires
        k.unstage,
    ensures
        side(lines, from, to, on_new_side(k)) == side(lines, from, to, in_new()),
        count(lines, from, to, on_new_side(k)) == count(lines, from, to, in_new()),
{
    lemma_same_lines(lines, from, to, on_new_side(k), in_new());
}

/// Picking a whole hunk moves all of it: both sides of the patch are those of
/// the diff.
pub proof fn picking_a_whole_hunk_moves_all_of_it(
    lines: Seq<LineView>,
    from: int,
    to: int,
    k: Pick,
)
    requires
        k.lo <= from,
        to <= k.hi + 1,
    ensures
        side(lines, from, to, on_old_side(k)) == side(lines, from, to, in_old()),
        side(lines, from, to, on_new_side(k)) == side(lines, from, to, in_new()),
        count(lines, from, to, on_old_side(k)) == count(lines, from, to, in_old()),
        count(lines, from, to, on_new_side(k)) == count(lines, from, to, in_new()),
{
    lemma_same_lines(lines, from, to, on_old_side(k), in_old());
    lemma_same_lines(lines, from, to, on_new_side(k), in_new());
}

/// The lines `from..to` of a hunk body as the diff has them: every text line
/// behind its marker, every notice as it is.
pub open spec fn body_verbatim(lines: Seq<LineView>, from: int, to: int) -> Seq<char>
    decreases to - from,
{
    if to <= from {
        Seq::empty()
    } else {
        let l = lines[to - 1];
        body_verbatim(lines, from, to - 1) + (match l.kind {
            LineKind::Ctx => seq![' '] + l.raw,
            LineKind::Add => seq!['+'] + l.raw,
            LineKind::Del => seq!['-'] + l.raw,
            LineKind::Meta => l.raw,
            _ => Seq::empty(),
        })
    }
}

/// Picking a whole hunk gives its body back to the letter.
pub proof fn picking_a_whole_hunk_copies_its_body(
    lines: Seq<LineView>,
    from: int,
    to: int,
    k: Pick,
)
    requires
        k.lo <= from,
        to <= k.hi + 1,
    ensures
        body_text(lines, from, to, k) == body_verbatim(lines, from, to),
    decreases to - from,
{
    if from < to {
        picking_a_whole_hunk_copies_its_body(lines, from, to - 1, k);
        lemma_all_kept(lines, from, to - 1, k);
    }
}

proof fn lemma_all_kept(lines: Seq<LineView>, from: int, to: int, k: Pick)
    requires
        k.lo <= from,
        to <= k.hi + 1,
    ensures
        last_text_kept(lines, from, to, k),
    decreases to - from,
{
    if from < to {
        lemma_all_kept(lines, from, to - 1, k);
    }
}

/// Staging the first part of a hunk leaves in the index what unstaging the
/// rest of it, from an index that holds all of it, leaves there.
pub proof fn staging_a_part_is_unstaging_the_rest(
    lines: Seq<LineView>,
    from: int,
    mid: int,
    to: int,
)
    requires
        from <= mid <= to,
    ensures
        side(lines, from, to, on_new_side(Pick { lo: from, hi: mid - 1, unstage: false })) == side(
            lines,
            from,
            to,
            on_old_side(Pick { lo: mid, hi: to - 1, unstage: true }),
        ),
{
    lemma_same_lines(
        lines,
        from,
        to,
        on_new_side(Pick { lo: from, hi: mid - 1, unstage: false }),
        on_old_side(Pick { lo: mid, hi: to - 1, unstage: true }),
    );
}

/// A patch keeps at least one change and never more than the diff has.
pub proof fn patches_keep_some_changes(lines: Seq<LineView>, k: Pick)
    ensures
        picked(lines, k) <= changes(lines),
        patch_of(lines, k) matches Some((p, n)) ==> 0 < n <= changes(lines),
{
    first_hunk_bounds(lines, 0);
    let p = |i: int, l: LineView| is_change(l.kind);
    lemma_count_split(lines, 0, first_hunk(lines), lines.len() as int, p);
    lemma_count_fewer(lines, first_hunk(lines), lines.len() as int, is_picked(k), p);
}

/// A selection without changes yields no patch.
pub proof fn no_changes_no_patch(lines: Seq<LineView>, k: Pick)
    requires
        forall|i: int|
            0 <= i < lines.len() && k.lo <= i <= k.hi ==> !is_change(#[trigger] lines[i].kind),
    ensures
        patch_of(lines, k) is None,
{
    first_hunk_bounds(lines, 0);
    let none = |i: int, l: LineView| false;
    lemma_same_lines(lines, first_hunk(lines), lines.len() as int, is_picked(k), none);
    lemma_count_none(lines, first_hunk(lines), lines.len() as int);
}

proof fn lemma_count_none(lines: Seq<LineView>, from: int, to: int)
    ensures
        count(lines, from, to, |i: int, l: LineView| false) == 0,
    decreases to - from,
{
    if from < to {
        lemma_count_none(lines, from, to - 1);
    }
}

proof fn lemma_count_fewer(
    lines: Seq<LineView>,
    from: int,
    to: int,
    p: spec_fn(int, LineView) -> bool,
    q: spec_fn(int, LineView) -> bool,
)
    requires
        forall|i: int| from <= i < to && p(i, #[trigger] lines[i]) ==> q(i, lines[i]),
    ensures
        count(lines, from, to, p) <= count(lines, from, to, q),
    decreases to - from,
{
    if from < to {
        lemma_count_fewer(lines, from, to - 1, p, q);
        assert(p(to - 1, lines[to - 1]) ==> q(to - 1, lines[to - 1]));
    }
}

proof fn first_hunk_bounds(lines: Seq<LineView>, i: int)
    requires
        0 <= i <= lines.len(),
    ensures
        i <= first_hunk_from(lines, i) <= lines.len(),
    decreases lines.len() - i,
{
    if i < lines.len() && lines[i].kind != LineKind::Hunk {
        first_hunk_bounds(lines, i + 1);
    }
}

// ---------------------------------------------------------------------------
// Headers read back
// ---------------------------------------------------------------------------

proof fn lemma_found(s: Seq<char>, pat: Seq<char>, from: int, p: int)
    requires
        0 <= from <= p,
        stands_at(s, pat, p),
        forall|i: int| from <= i < p ==> !stands_at(s, pat, i),
    ensures
        find_from(s, pat, from) == Some(p),
    decreases p - from,
{
    if from < p {
        lemma_found(s, pat, from + 1, p);
    }
}

/// Whether a text holds no white space.
spec fn solid(s: Seq<char>) -> bool {
    forall|i: int| 0 <= i < s.len() ==> !white(#[trigger] s[i])
}

proof fn lemma_one_word(s: Seq<char>)
    requires
        solid(s),
        s.len() > 0,
    ensures
        words(s) == seq![s],
    decreases s.len(),
{
    let before = s.drop_last();
    assert(!white(s[s.len() - 1]));
    assert(before.push(s.last()) =~= s);
    if before.len() > 0 {
        assert forall|i: int| 0 <= i < before.len() implies !white(#[trigger] before[i]) by {
            assert(!white(s[i]));
        }
        lemma_one_word(before);
        assert(!white(before[before.len() - 1]));
        assert(words(s) == grown(words(before), s.last()));
        assert(grown(words(before), s.last()) =~= seq![s]);
    } else {
        assert(words(before) =~= Seq::empty());
        assert(s =~= seq![s.last()]);
        assert(words(s) =~= seq![s]);
    }
}

proof fn lemma_two_words(a: Seq<char>, b: Seq<char>)
    requires
        solid(a),
        solid(b),
        a.len() > 0,
        b.len() > 0,
    ensures
        words(a.push(' ') + b) == seq![a, b],
    decreases b.len(),
{
    let s = a.push(' ') + b;
    let before = b.drop_last();
    assert(!white(b[b.len() - 1]));
    assert(s.last() == b.last());
    assert(s.drop_last() =~= a.push(' ') + before);
    assert(before.push(b.last()) =~= b);
    if before.len() > 0 {
        assert forall|i: int| 0 <= i < before.len() implies !white(#[trigger] before[i]) by {
            assert(!white(b[i]));
        }
        lemma_two_words(a, before);
        assert(s.drop_last().last() == before.last());
        assert(!white(before[before.len() - 1]));
        assert(words(s) == grown(words(s.drop_last()), s.last()));
        assert(grown(seq![a, before], s.last()) =~= seq![a, b]);
    } else {
        let c = a.push(' ');
        assert(s.drop_last() =~= c);
        assert(c.drop_last() =~= a);
        assert(c.last() == ' ');
        lemma_one_word(a);
        assert(words(c) == words(a));
        assert(b =~= seq![b.last()]);
        assert(words(s) =~= seq![a, b]);
    }
}

/// One range of a hunk header, `-a[,b]` or `+c[,d]`.
pub open spec fn range_text(sign: char, start: u64, n: Option<nat>) -> Seq<char> {
    seq![sign] + decimal(start as nat) + match n {
        Some(k) => seq![','] + decimal(k),
        None => Seq::empty(),
    }
}

/// A hunk header `@@ -a[,b] +c[,d] @@ ctx`, with or without each of its counts;
/// `ctx` is all that follows the second pair of signs.
pub open spec fn written_header(
    old_start: u64,
    old_count: Option<nat>,
    new_start: u64,
    new_count: Option<nat>,
    ctx: Seq<char>,
) -> Seq<char> {
    "@@ "@ + (range_text('-', old_start, old_count).push(' ') + range_text(
        '+',
        new_start,
        new_count,
    ) + " @@"@ + ctx)
}

proof fn lemma_not_found(s: Seq<char>, pat: Seq<char>, from: int)
    requires
        0 <= from,
        forall|i: int| from <= i ==> !stands_at(s, pat, i),
    ensures
        find_from(s, pat, from) is None,
    decreases s.len() - from + 1,
{
    if from + pat.len() <= s.len() {
        lemma_not_found(s, pat, from + 1);
    }
}

proof fn lemma_before_comma(a: Seq<char>, tail: Seq<char>)
    requires
        all_digits(a),
        tail.len() > 0 ==> tail[0] == ',',
    ensures
        before_comma(a + tail) == a,
{
    let s = a + tail;
    let comma = seq![','];
    assert forall|i: int| 0 <= i < a.len() implies !stands_at(s, comma, i) by {
        assert(digit_value(a[i]) is Some);
        if stands_at(s, comma, i) {
            assert(s.subrange(i, i + 1)[0] == a[i]);
        }
    }
    if tail.len() > 0 {
        assert(s.subrange(a.len() as int, a.len() as int + 1) =~= comma);
        lemma_found(s, comma, 0, a.len() as int);
        assert(s.take(a.len() as int) =~= a);
    } else {
        lemma_not_found(s, comma, 0);
        assert(s =~= a);
    }
}

proof fn lemma_range_text(sign: char, start: u64, n: Option<nat>)
    requires
        sign == '-' || sign == '+',
    ensures
        solid(range_text(sign, start, n)),
        range_text(sign, start, n).len() > 1,
        range_text(sign, start, n).first() == sign,
        parsed_u64(before_comma(range_text(sign, start, n).skip(1))) == Some(start),
{
    let s = range_text(sign, start, n);
    let a = decimal(start as nat);
    let tail = match n {
        Some(k) => seq![','] + decimal(k),
        None => Seq::empty(),
    };
    lemma_decimal(start as nat);
    if let Some(k) = n {
        lemma_decimal(k);
    }
    assert forall|i: int| 0 <= i < s.len() implies !white(#[trigger] s[i]) by {
        if 1 <= i <= a.len() {
            assert(digit_value(a[i - 1]) is Some);
            assert(s[i] == a[i - 1]);
        } else if i > a.len() + 1 {
            let b = decimal(n->0);
            assert(digit_value(b[i - a.len() - 2]) is Some);
            assert(s[i] == b[i - a.len() - 2]);
        }
    }
    assert(s.skip(1) =~= a + tail);
    lemma_before_comma(a, tail);
    decimal_reads_back(start);
}

proof fn lemma_header_shape(
    old_start: u64,
    old_count: nat,
    new_start: u64,
    new_count: nat,
    ctx: Seq<char>,
)
    ensures
        header_text(old_start, old_count, new_start, new_count, ctx).drop_last()
            == written_header(old_start, Some(old_count), new_start, Some(new_count), ctx),
{
    reveal_strlit("@@ -");
    reveal_strlit(",");
    reveal_strlit(" +");
    reveal_strlit("\n");
    reveal_strlit("@@ ");
    let a = decimal(old_start as nat);
    let b = decimal(old_count);
    let c = decimal(new_start as nat);
    let d = decimal(new_count);
    let e = " @@"@;
    let old_range = range_text('-', old_start, Some(old_count));
    let new_range = range_text('+', new_start, Some(new_count));
    assert("@@ -"@ =~= "@@ "@ + seq!['-']);
    assert(","@ =~= seq![',']);
    assert(" +"@ =~= seq![' ', '+']);
    let first = "@@ -"@ + a + ","@ + b;
    assert(first =~= "@@ "@ + old_range);
    let second = first + " +"@ + c + ","@ + d;
    assert(second =~= "@@ "@ + (old_range.push(' ') + new_range));
    assert((second + e + ctx + "\n"@).drop_last() =~= second + e + ctx);
    assert(second + e + ctx =~= "@@ "@ + (old_range.push(' ') + new_range + e + ctx));
}

proof fn lemma_header_end(a: Seq<char>, b: Seq<char>, ctx: Seq<char>)
    requires
        solid(a),
        solid(b),
        b.len() > 0,
        b[0] != '@',
    ensures
        find(a.push(' ') + b + " @@"@ + ctx, " @@"@) == Some((a.len() + 1 + b.len()) as int),
{
    reveal_strlit(" @@");
    let close = " @@"@;
    let nums = a.push(' ') + b;
    let after = nums + close + ctx;
    let p = nums.len() as int;
    assert(after.subrange(p, p + 3) =~= close);
    assert forall|i: int| 0 <= i < p implies !stands_at(after, close, i) by {
        if stands_at(after, close, i) {
            let w = after.subrange(i, i + 3);
            assert(w[0] == ' ' && w[1] == '@');
            assert(after[i] == ' ' && after[i + 1] == '@');
            if i < a.len() {
                assert(!white(a[i]));
            } else if i == a.len() {
                assert(after[i + 1] == b[0]);
            } else {
                assert(!white(b[i - a.len() - 1]));
            }
        }
    }
    lemma_found(after, close, 0, p);
}

/// A hunk header is read in each of its four forms, with or without each of its
/// counts: the start numbers and the context are those that it was written with.
pub proof fn headers_are_read_in_every_form(
    old_start: u64,
    old_count: Option<nat>,
    new_start: u64,
    new_count: Option<nat>,
    ctx: Seq<char>,
)
    ensures
        hunk_header(written_header(old_start, old_count, new_start, new_count, ctx)) == Some(
            (old_start, new_start, ctx),
        ),
{
    let text = written_header(old_start, old_count, new_start, new_count, ctx);
    let a = range_text('-', old_start, old_count);
    let b = range_text('+', new_start, new_count);
    lemma_range_text('-', old_start, old_count);
    lemma_range_text('+', new_start, new_count);
    lemma_header_end(a, b, ctx);
    lemma_two_words(a, b);
    reveal_strlit("@@ ");
    reveal_strlit(" @@");
    let nums = a.push(' ') + b;
    let after = nums + " @@"@ + ctx;
    let p = nums.len() as int;
    assert(text.skip(3) =~= after);
    assert(text.take(3) =~= "@@ "@);
    assert("@@ "@.is_prefix_of(text));
    assert(after.take(p) =~= nums);
    assert(after.skip(p + 3) =~= ctx);
    let tokens = seq![a, b];
    assert(tokens.drop_last() =~= seq![a]);
    assert(seq![a].drop_last() =~= Seq::<Seq<char>>::empty());
    assert(range_starts(seq![a].drop_last()) == Some((0u64, 0u64)));
    assert(seq![a].last() == a);
    assert(range_starts(seq![a]) == Some((old_start, 0u64)));
    assert(tokens.last() == b);
    assert(range_starts(tokens) == Some((old_start, new_start)));
}

/// The header that a partial patch gives a hunk reads back: its start numbers
/// and its context are those that it was made with.
pub proof fn headers_read_back(
    old_start: u64,
    old_count: nat,
    new_start: u64,
    new_count: nat,
    ctx: Seq<char>,
)
    ensures
        hunk_header(
            header_text(old_start, old_count, new_start, new_count, ctx).drop_last(),
        ) == Some((old_start, new_start, ctx)),
{
    lemma_header_shape(old_start, old_count, new_start, new_count, ctx);
    headers_are_read_in_every_form(
        old_start,
        Some(old_count),
        new_start,
        Some(new_count),
        ctx,
    );
}

// ---------------------------------------------------------------------------
// The hunk under the cursor, in terms of the lines alone
// ---------------------------------------------------------------------------

/// Whether the lines from `s` to `e` are one whole hunk: a hunk header, what
/// follows it, and no further than the next hunk or file header.
pub open spec fn one_hunk(lines: Seq<LineView>, s: int, e: int) -> bool {
    &&& 0 <= s <= e < lines.len()
    &&& lines[s].kind == LineKind::Hunk
    &&& forall|k: int|
        s < k <= e ==> (#[trigger] lines[k]).kind != LineKind::Hunk && lines[k].kind
            != LineKind::File
    &&& e + 1 < lines.len() ==> lines[e + 1].kind == LineKind::Hunk || lines[e + 1].kind
        == LineKind::File
}

/// The hunk under a cursor is found exactly where there is one: it is the one
/// whole hunk that holds the cursor.
pub proof fn the_hunk_found_is_the_one_around(lines: Seq<LineView>, i: int, s: int, e: int)
    ensures
        hunk_span(lines, i) == Some((s, e)) <==> one_hunk(lines, s, e) && s <= i <= e,
{
    if hunk_span(lines, i) == Some((s, e)) {
        hunk_span_encloses(lines, i);
        assert forall|k: int| s < k <= e implies (#[trigger] lines[k]).kind != LineKind::Hunk
            && lines[k].kind != LineKind::File by {
            assert(!is_break(lines[k].kind));
        }
    }
    if one_hunk(lines, s, e) && s <= i <= e {
        lemma_same_start(lines, s, i);
        lemma_same_end(lines, i + 1, e + 1);
    }
}

/// No hunk is found exactly where the cursor is in none: it is outside the
/// document, or a file header or nothing at all stands above it before a hunk
/// header does.
pub proof fn no_hunk_is_found_only_outside_hunks(lines: Seq<LineView>, i: int)
    ensures
        hunk_span(lines, i) is None <==> forall|s: int, e: int| s <= i <= e ==> !#[trigger] one_hunk(
            lines,
            s,
            e,
        ),
{
    if hunk_span(lines, i) is None {
        assert forall|s: int, e: int| s <= i <= e implies !#[trigger] one_hunk(lines, s, e) by {
            the_hunk_found_is_the_one_around(lines, i, s, e);
        }
    } else {
        let (s, e) = hunk_span(lines, i)->0;
        the_hunk_found_is_the_one_around(lines, i, s, e);
        assert(one_hunk(lines, s, e));
    }
}

// ---------------------------------------------------------------------------
// A partial patch, line by line
// ---------------------------------------------------------------------------

/// Whether no header stands between two lines, nor on the later of them.
pub open spec fn together(lines: Seq<LineView>, i: int, j: int) -> bool {
    forall|m: int|
        (i < m <= j || j < m <= i) ==> (#[trigger] lines[m]).kind != LineKind::Hunk && lines[m].kind
            != LineKind::File
}

/// Whether a line is an added or deleted one that was picked.
pub open spec fn taken(lines: Seq<LineView>, j: int, k: Pick) -> bool {
    &&& 0 <= j < lines.len()
    &&& lines[j].kind == LineKind::Add || lines[j].kind == LineKind::Del
    &&& k.lo <= j <= k.hi
}

/// Whether the hunk that a line belongs to has any change that was picked.
pub open spec fn in_active_hunk(lines: Seq<LineView>, i: int, k: Pick) -> bool {
    exists|j: int| #[trigger] taken(lines, j, k) && together(lines, i, j)
}

/// Whether a hunk header stands on a line or above it.
pub open spec fn past_a_header(lines: Seq<LineView>, i: int) -> bool {
    exists|j: int| 0 <= j <= i && j < lines.len() && (#[trigger] lines[j]).kind == LineKind::Hunk
}

/// Whether a line is part of the text on either side of a diff.
pub open spec fn is_text(l: LineView) -> bool {
    l.kind == LineKind::Add || l.kind == LineKind::Del || l.kind == LineKind::Ctx
}

/// Whether a line is left out of the patch: a change that was not picked and that
/// is not in the text which the patch is applied to.
pub open spec fn left_out(lines: Seq<LineView>, j: int, k: Pick) -> bool {
    &&& !(k.lo <= j <= k.hi)
    &&& lines[j].kind == (if k.unstage {
        LineKind::Del
    } else {
        LineKind::Add
    })
}

/// Whether the text line above a notice, the nearest in its hunk, is left out.
pub open spec fn orphaned(lines: Seq<LineView>, i: int, k: Pick) -> bool {
    exists|j: int|
        0 <= j < i && #[trigger] is_text(lines[j]) && together(lines, j, i) && left_out(lines, j, k)
            && forall|m: int| j < m < i ==> !#[trigger] is_text(lines[m])
}

/// Whether a line stands in the patch on the side it is applied to when it goes
/// forward.
pub open spec fn counts_as_old(l: LineView, selected: bool, unstage: bool) -> bool {
    ||| l.kind == LineKind::Ctx
    ||| l.kind == LineKind::Del && (selected || !unstage)
    ||| l.kind == LineKind::Add && !selected && unstage
}

/// Whether a line stands in the patch on the side that it leads to.
pub open spec fn counts_as_new(l: LineView, selected: bool, unstage: bool) -> bool {
    ||| l.kind == LineKind::Ctx
    ||| l.kind == LineKind::Add && (selected || unstage)
    ||| l.kind == LineKind::Del && !selected && !unstage
}

/// The positions from `from` to before `to` that satisfy `q`.
pub open spec fn among(from: int, to: int, q: spec_fn(int) -> bool) -> Seq<int> {
    Seq::new(
        if from <= to {
            (to - from) as nat
        } else {
            0
        },
        |j: int| from + j,
    ).filter(q)
}

/// The lines of the hunk with its header at `h` that its old side counts.
pub open spec fn old_lines(lines: Seq<LineView>, h: int, k: Pick) -> spec_fn(int) -> bool {
    |i: int| together(lines, h, i) && counts_as_old(lines[i], k.lo <= i <= k.hi, k.unstage)
}

/// The lines of the hunk with its header at `h` that its new side counts.
pub open spec fn new_lines(lines: Seq<LineView>, h: int, k: Pick) -> spec_fn(int) -> bool {
    |i: int| together(lines, h, i) && counts_as_new(lines[i], k.lo <= i <= k.hi, k.unstage)
}

/// What one line of a diff puts into the patch for what was picked.
pub open spec fn part(lines: Seq<LineView>, i: int, k: Pick) -> Seq<char> {
    let l = lines[i];
    let selected = k.lo <= i <= k.hi;
    let nothing = Seq::<char>::empty();
    if !past_a_header(lines, i) {
        if l.kind == LineKind::File {
            l.raw
        } else {
            nothing
        }
    } else if !in_active_hunk(lines, i, k) {
        nothing
    } else {
        match l.kind {
            LineKind::Ctx => seq![' '] + l.raw,
            LineKind::Add => if selected {
                seq!['+'] + l.raw
            } else if k.unstage {
                seq![' '] + l.raw
            } else {
                nothing
            },
            LineKind::Del => if selected {
                seq!['-'] + l.raw
            } else if k.unstage {
                nothing
            } else {
                seq![' '] + l.raw
            },
            LineKind::Meta => if orphaned(lines, i, k) {
                nothing
            } else {
                l.raw
            },
            LineKind::Msg => nothing,
            _ => {
                let (old_start, new_start, ctx) = hunk_header(l.text)->0;
                let n = lines.len() as int;
                seq!['@', '@', ' ', '-'] + decimal(old_start as nat) + seq![','] + decimal(
                    among(i + 1, n, old_lines(lines, i, k)).len(),
                ) + seq![' ', '+'] + decimal(new_start as nat) + seq![','] + decimal(
                    among(i + 1, n, new_lines(lines, i, k)).len(),
                ) + seq![' ', '@', '@'] + ctx + seq!['\n']
            },
        }
    }
}

/// The parts of the lines from `from` to before `to`, put together.
spec fn joint(lines: Seq<LineView>, from: int, to: int, k: Pick) -> Seq<char>
    decreases to - from,
{
    if to <= from {
        Seq::empty()
    } else {
        joint(lines, from, to - 1, k) + part(lines, to - 1, k)
    }
}

proof fn lemma_joint_split(lines: Seq<LineView>, from: int, mid: int, to: int, k: Pick)
    requires
        from <= mid <= to,
    ensures
        joint(lines, from, to, k) == joint(lines, from, mid, k) + joint(lines, mid, to, k),
    decreases to - mid,
{
    if mid < to {
        lemma_joint_split(lines, from, mid, to - 1, k);
        assert(joint(lines, from, to, k) =~= joint(lines, from, mid, k) + joint(
            lines,
            mid,
            to,
            k,
        ));
    } else {
        assert(joint(lines, from, to, k) =~= joint(lines, from, mid, k) + joint(
            lines,
            mid,
            to,
            k,
        ));
    }
}

proof fn lemma_joint_flat(lines: Seq<LineView>, n: nat, k: Pick)
    ensures
        joint(lines, 0, n as int, k) == Seq::new(n, |i: int| part(lines, i, k)).flatten(),
    decreases n,
{
    let parts = Seq::new(n, |i: int| part(lines, i, k));
    parts.lemma_flatten_and_flatten_alt_are_equivalent();
    if n > 0 {
        let m = (n - 1) as nat;
        lemma_joint_flat(lines, m, k);
        let less = Seq::new(m, |i: int| part(lines, i, k));
        less.lemma_flatten_and_flatten_alt_are_equivalent();
        assert(parts.drop_last() =~= less);
        assert(parts.last() == part(lines, n - 1, k));
    }
}

/// Whether the lines from `h` to before `e` are a header and what it heads.
spec fn headed(lines: Seq<LineView>, h: int, e: int) -> bool {
    &&& 0 <= h < e <= lines.len()
    &&& is_break(lines[h].kind)
    &&& forall|m: int| h < m < e ==> !is_break((#[trigger] lines[m]).kind)
    &&& e < lines.len() ==> is_break(lines[e].kind)
}

proof fn lemma_together(lines: Seq<LineView>, h: int, e: int, i: int, j: int)
    requires
        headed(lines, h, e),
        h <= i < e,
        0 <= j < lines.len(),
    ensures
        together(lines, i, j) <==> h <= j < e,
        together(lines, j, i) <==> h <= j < e,
{
    if h <= j < e {
        assert forall|m: int| (i < m <= j || j < m <= i) implies (#[trigger] lines[m]).kind
            != LineKind::Hunk && lines[m].kind != LineKind::File by {
            assert(!is_break(lines[m].kind));
        }
    } else if j < h {
        assert(is_break(lines[h].kind));
    } else {
        assert(is_break(lines[e].kind));
    }
}

proof fn lemma_count_holds(
    lines: Seq<LineView>,
    from: int,
    to: int,
    p: spec_fn(int, LineView) -> bool,
    i: int,
)
    requires
        from <= i < to,
        p(i, lines[i]),
    ensures
        count(lines, from, to, p) > 0,
    decreases to - from,
{
    if i < to - 1 {
        lemma_count_holds(lines, from, to - 1, p, i);
    }
}

proof fn lemma_count_found(
    lines: Seq<LineView>,
    from: int,
    to: int,
    p: spec_fn(int, LineView) -> bool,
) -> (i: int)
    requires
        count(lines, from, to, p) > 0,
    ensures
        from <= i < to,
        p(i, lines[i]),
    decreases to - from,
{
    if p(to - 1, lines[to - 1]) {
        to - 1
    } else {
        lemma_count_found(lines, from, to - 1, p)
    }
}

proof fn lemma_active(lines: Seq<LineView>, h: int, e: int, i: int, k: Pick)
    requires
        headed(lines, h, e),
        h <= i < e,
    ensures
        in_active_hunk(lines, i, k) <==> count(lines, h + 1, e, is_picked(k)) > 0,
{
    if in_active_hunk(lines, i, k) {
        let j = choose|j: int| #[trigger] taken(lines, j, k) && together(lines, i, j);
        lemma_together(lines, h, e, i, j);
        lemma_count_holds(lines, h + 1, e, is_picked(k), j);
    }
    if count(lines, h + 1, e, is_picked(k)) > 0 {
        let j = lemma_count_found(lines, h + 1, e, is_picked(k));
        lemma_together(lines, h, e, i, j);
        assert(taken(lines, j, k));
    }
}

proof fn lemma_among_grows(from: int, to: int, q: spec_fn(int) -> bool)
    requires
        from < to,
    ensures
        among(from, to, q) == (if q(to - 1) {
            among(from, to - 1, q).push(to - 1)
        } else {
            among(from, to - 1, q)
        }),
{
    reveal(Seq::filter);
    let all = Seq::new((to - from) as nat, |j: int| from + j);
    assert(all.drop_last() =~= Seq::new((to - 1 - from) as nat, |j: int| from + j));
    assert(all.last() == to - 1);
}

proof fn lemma_among_none(from: int, to: int, q: spec_fn(int) -> bool)
    requires
        to <= from,
    ensures
        among(from, to, q).len() == 0,
{
    reveal(Seq::filter);
}

proof fn lemma_count_among(
    lines: Seq<LineView>,
    from: int,
    to: int,
    p: spec_fn(int, LineView) -> bool,
    q: spec_fn(int) -> bool,
)
    requires
        forall|i: int| #![trigger lines[i]] from <= i < to ==> p(i, lines[i]) == q(i),
    ensures
        count(lines, from, to, p) == among(from, to, q).len(),
    decreases to - from,
{
    if from < to {
        lemma_count_among(lines, from, to - 1, p, q);
        lemma_among_grows(from, to, q);
        assert(p(to - 1, lines[to - 1]) == q(to - 1));
    } else {
        lemma_among_none(from, to, q);
    }
}

proof fn lemma_among_stops(from: int, mid: int, to: int, q: spec_fn(int) -> bool)
    requires
        from <= mid <= to,
        forall|i: int| mid <= i < to ==> !#[trigger] q(i),
    ensures
        among(from, to, q) == among(from, mid, q),
    decreases to - mid,
{
    if mid < to {
        lemma_among_stops(from, mid, to - 1, q);
        lemma_among_grows(from, to, q);
        assert(!q(to - 1));
    }
}

/// Counting lines is counting the positions at which they stand.
pub proof fn counting_lines_counts_positions(
    lines: Seq<LineView>,
    from: int,
    to: int,
    p: spec_fn(int, LineView) -> bool,
)
    ensures
        count(lines, from, to, p) == among(from, to, |i: int| p(i, lines[i])).len(),
{
    lemma_count_among(lines, from, to, p, |i: int| p(i, lines[i]));
}

/// The changes of a diff are its added and its deleted lines.
pub proof fn changes_are_added_and_deleted_lines(lines: Seq<LineView>)
    ensures
        changes(lines) == lines.filter(
            |l: LineView| l.kind == LineKind::Add || l.kind == LineKind::Del,
        ).len(),
    decreases lines.len(),
{
    reveal(Seq::filter);
    let p = |i: int, l: LineView| is_change(l.kind);
    if lines.len() > 0 {
        let init = lines.drop_last();
        changes_are_added_and_deleted_lines(init);
        lemma_count_prefix(lines, init, init.len() as int, p);
        assert(lines[lines.len() - 1] == lines.last());
    }
}

proof fn lemma_count_prefix(
    a: Seq<LineView>,
    b: Seq<LineView>,
    to: int,
    p: spec_fn(int, LineView) -> bool,
)
    requires
        to <= a.len(),
        to <= b.len(),
        forall|i: int| 0 <= i < to ==> #[trigger] a[i] == b[i],
    ensures
        count(a, 0, to, p) == count(b, 0, to, p),
    decreases to,
{
    if to > 0 {
        lemma_count_prefix(a, b, to - 1, p);
        assert(a[to - 1] == b[to - 1]);
    }
}

proof fn lemma_header_counts(lines: Seq<LineView>, h: int, e: int, k: Pick)
    requires
        headed(lines, h, e),
    ensures
        count(lines, h + 1, e, on_old_side(k)) == among(
            h + 1,
            lines.len() as int,
            old_lines(lines, h, k),
        ).len(),
        count(lines, h + 1, e, on_new_side(k)) == among(
            h + 1,
            lines.len() as int,
            new_lines(lines, h, k),
        ).len(),
{
    let n = lines.len() as int;
    let p = old_lines(lines, h, k);
    let q = new_lines(lines, h, k);
    assert forall|i: int| #![trigger lines[i]] h + 1 <= i < e implies on_old_side(k)(i, lines[i])
        == p(i) && on_new_side(k)(i, lines[i]) == q(i) by {
        lemma_together(lines, h, e, h, i);
    }
    assert forall|i: int| e <= i < n implies !#[trigger] p(i) by {
        lemma_together(lines, h, e, h, i);
    }
    assert forall|i: int| e <= i < n implies !#[trigger] q(i) by {
        lemma_together(lines, h, e, h, i);
    }
    lemma_count_among(lines, h + 1, e, on_old_side(k), p);
    lemma_count_among(lines, h + 1, e, on_new_side(k), q);
    lemma_among_stops(h + 1, e, n, p);
    lemma_among_stops(h + 1, e, n, q);
}

proof fn lemma_kept_or_orphaned(lines: Seq<LineView>, h: int, e: int, i: int, k: Pick)
    requires
        headed(lines, h, e),
        h < i < e,
    ensures
        last_text_kept(lines, h + 1, i, k) <==> !orphaned(lines, i, k),
    decreases i - h,
{
    let l = lines[i - 1];
    if i - 1 == h {
        assert(last_text_kept(lines, h + 1, i, k));
        assert forall|j: int|
            0 <= j < i && #[trigger] is_text(lines[j]) && together(lines, j, i) implies false by {
            lemma_together(lines, h, e, i, j);
        }
    } else if is_text(l) {
        lemma_together(lines, h, e, i, i - 1);
        assert(last_text_kept(lines, h + 1, i, k) <==> !left_out(lines, i - 1, k));
        if orphaned(lines, i, k) {
            let j = choose|j: int|
                0 <= j < i && #[trigger] is_text(lines[j]) && together(lines, j, i) && left_out(
                    lines,
                    j,
                    k,
                ) && forall|m: int| j < m < i ==> !#[trigger] is_text(lines[m]);
            assert(is_text(lines[i - 1]));
            assert(j == i - 1);
        }
        if left_out(lines, i - 1, k) {
            assert(is_text(lines[i - 1]));
            assert(orphaned(lines, i, k));
        }
    } else {
        lemma_kept_or_orphaned(lines, h, e, i - 1, k);
        if orphaned(lines, i, k) {
            let j = choose|j: int|
                0 <= j < i && #[trigger] is_text(lines[j]) && together(lines, j, i) && left_out(
                    lines,
                    j,
                    k,
                ) && forall|m: int| j < m < i ==> !#[trigger] is_text(lines[m]);
            lemma_together(lines, h, e, i, j);
            lemma_together(lines, h, e, i - 1, j);
            assert(j < i - 1);
            assert(orphaned(lines, i - 1, k));
        }
        if orphaned(lines, i - 1, k) {
            let j = choose|j: int|
                0 <= j < i - 1 && #[trigger] is_text(lines[j]) && together(lines, j, i - 1)
                    && left_out(lines, j, k) && forall|m: int|
                    j < m < i - 1 ==> !#[trigger] is_text(lines[m]);
            lemma_together(lines, h, e, i - 1, j);
            lemma_together(lines, h, e, i, j);
            assert forall|m: int| j < m < i implies !#[trigger] is_text(lines[m]) by {}
            assert(is_text(lines[j]));
            assert(orphaned(lines, i, k));
        }
    }
}

proof fn lemma_body_parts(lines: Seq<LineView>, h: int, e: int, to: int, k: Pick)
    requires
        headed(lines, h, e),
        past_a_header(lines, h),
        h < to <= e,
    ensures
        joint(lines, h + 1, to, k) == (if count(lines, h + 1, e, is_picked(k)) > 0 {
            body_text(lines, h + 1, to, k)
        } else {
            Seq::empty()
        }),
    decreases to - h,
{
    if h + 1 < to {
        let i = to - 1;
        lemma_body_parts(lines, h, e, i, k);
        lemma_active(lines, h, e, i, k);
        lemma_kept_or_orphaned(lines, h, e, i, k);
        lemma_past_below(lines, h, i);
        assert(!is_break(lines[i].kind));
        assert(joint(lines, h + 1, to, k) == joint(lines, h + 1, i, k) + part(lines, i, k));
        if count(lines, h + 1, e, is_picked(k)) > 0 {
            assert(part(lines, i, k) =~= line_text(lines, h + 1, i, k));
        } else {
            assert(part(lines, i, k) =~= Seq::empty());
            assert(joint(lines, h + 1, to, k) =~= Seq::empty());
        }
    }
}

proof fn lemma_past_below(lines: Seq<LineView>, h: int, i: int)
    requires
        past_a_header(lines, h),
        h <= i,
    ensures
        past_a_header(lines, i),
{
    let j = choose|j: int|
        0 <= j <= h && j < lines.len() && (#[trigger] lines[j]).kind == LineKind::Hunk;
    assert(0 <= j <= i && lines[j].kind == LineKind::Hunk);
}

proof fn lemma_hunk_part(lines: Seq<LineView>, h: int, k: Pick)
    requires
        0 <= h < lines.len(),
        is_break(lines[h].kind),
        past_a_header(lines, h),
    ensures
        h < body_end(lines, h + 1) <= lines.len(),
        headed(lines, h, body_end(lines, h + 1)),
        hunk_patch(lines, h, k) is None <==> in_active_hunk(lines, h, k) && hunk_header(
            lines[h].text,
        ) is None,
        hunk_patch(lines, h, k) is Some ==> hunk_patch(lines, h, k)->0 == joint(
            lines,
            h,
            body_end(lines, h + 1),
            k,
        ),
{
    let e = body_end(lines, h + 1);
    body_end_bounds(lines, h + 1);
    assert(headed(lines, h, e));
    lemma_active(lines, h, e, h, k);
    lemma_body_parts(lines, h, e, e, k);
    lemma_header_counts(lines, h, e, k);
    lemma_joint_split(lines, h, h + 1, e, k);
    assert(joint(lines, h, h, k) =~= Seq::empty());
    assert(joint(lines, h, h + 1, k) =~= part(lines, h, k));
    reveal_strlit("@@ -");
    reveal_strlit(",");
    reveal_strlit(" +");
    reveal_strlit(" @@");
    reveal_strlit("\n");
    assert("@@ -"@ =~= seq!['@', '@', ' ', '-']);
    assert(","@ =~= seq![',']);
    assert(" +"@ =~= seq![' ', '+']);
    assert(" @@"@ =~= seq![' ', '@', '@']);
    assert("\n"@ =~= seq!['\n']);
    if count(lines, h + 1, e, is_picked(k)) > 0 {
        if let Some((old_start, new_start, ctx)) = hunk_header(lines[h].text) {
            assert(part(lines, h, k) == header_text(
                old_start,
                count(lines, h + 1, e, on_old_side(k)),
                new_start,
                count(lines, h + 1, e, on_new_side(k)),
                ctx,
            ));
        }
    } else {
        assert(part(lines, h, k) =~= Seq::empty());
        assert(joint(lines, h, e, k) =~= Seq::empty());
    }
}

/// Whether a header at or behind `i` is needed in the patch and cannot be read.
pub open spec fn unreadable_from(lines: Seq<LineView>, i: int, k: Pick) -> bool {
    exists|h: int|
        i <= h < lines.len() && ((#[trigger] lines[h]).kind == LineKind::Hunk || lines[h].kind
            == LineKind::File) && past_a_header(lines, h) && in_active_hunk(lines, h, k)
            && hunk_header(lines[h].text) is None
}

proof fn lemma_hunks_parts(lines: Seq<LineView>, i: int, k: Pick)
    requires
        0 <= i <= lines.len(),
        i < lines.len() ==> is_break(lines[i].kind) && past_a_header(lines, i),
    ensures
        hunks_patch(lines, i, k) is None <==> unreadable_from(lines, i, k),
        hunks_patch(lines, i, k) is Some ==> hunks_patch(lines, i, k)->0 == joint(
            lines,
            i,
            lines.len() as int,
            k,
        ),
    decreases lines.len() - i,
{
    let n = lines.len() as int;
    if i < n {
        let e = body_end(lines, i + 1);
        lemma_hunk_part(lines, i, k);
        lemma_past_below(lines, i, e);
        lemma_hunks_parts(lines, e, k);
        lemma_joint_split(lines, i, e, n, k);
        if unreadable_from(lines, i, k) {
            let h = choose|h: int|
                i <= h < lines.len() && ((#[trigger] lines[h]).kind == LineKind::Hunk
                    || lines[h].kind == LineKind::File) && past_a_header(lines, h)
                    && in_active_hunk(lines, h, k) && hunk_header(lines[h].text) is None;
            if i < h {
                assert(is_break(lines[h].kind));
                assert(e <= h);
                assert(unreadable_from(lines, e, k));
            }
        }
        if unreadable_from(lines, e, k) {
            let h = choose|h: int|
                e <= h < lines.len() && ((#[trigger] lines[h]).kind == LineKind::Hunk
                    || lines[h].kind == LineKind::File) && past_a_header(lines, h)
                    && in_active_hunk(lines, h, k) && hunk_header(lines[h].text) is None;
            assert(lines[h].kind == LineKind::Hunk || lines[h].kind == LineKind::File);
            assert(unreadable_from(lines, i, k));
        }
        if hunk_patch(lines, i, k) is None {
            assert(lines[i].kind == LineKind::Hunk || lines[i].kind == LineKind::File);
            assert(unreadable_from(lines, i, k));
        }
    } else {
        assert(joint(lines, i, n, k) =~= Seq::empty());
        assert(hunks_patch(lines, i, k)->0 =~= joint(lines, i, n, k));
    }
}

proof fn lemma_first_hunk(lines: Seq<LineView>, i: int)
    requires
        0 <= i <= lines.len(),
    ensures
        i <= first_hunk_from(lines, i) <= lines.len(),
        first_hunk_from(lines, i) < lines.len() ==> lines[first_hunk_from(lines, i)].kind
            == LineKind::Hunk,
        forall|j: int|
            i <= j < first_hunk_from(lines, i) ==> (#[trigger] lines[j]).kind != LineKind::Hunk,
    decreases lines.len() - i,
{
    if i < lines.len() && lines[i].kind != LineKind::Hunk {
        lemma_first_hunk(lines, i + 1);
    }
}

proof fn lemma_past_first(lines: Seq<LineView>, i: int)
    requires
        0 <= i < lines.len(),
    ensures
        past_a_header(lines, i) <==> first_hunk(lines) <= i,
{
    lemma_first_hunk(lines, 0);
    let f = first_hunk(lines);
    if f <= i {
        assert(lines[f].kind == LineKind::Hunk);
    }
}

proof fn lemma_file_parts(lines: Seq<LineView>, to: int, k: Pick)
    requires
        0 <= to <= first_hunk(lines),
    ensures
        joint(lines, 0, to, k) == file_header(lines, to),
    decreases to,
{
    lemma_first_hunk(lines, 0);
    if to > 0 {
        lemma_file_parts(lines, to - 1, k);
        lemma_past_first(lines, to - 1);
        assert(joint(lines, 0, to, k) =~= file_header(lines, to));
    }
}

/// The picked changes that a patch can hold: those with a hunk header above.
pub open spec fn reached(lines: Seq<LineView>, k: Pick) -> spec_fn(int) -> bool {
    |j: int| taken(lines, j, k) && past_a_header(lines, j)
}

/// A partial patch is what every line of the diff puts into it, in order, and it
/// counts the picked changes; there is one exactly where any change was picked
/// and the header of each hunk with such a change can be read.
pub proof fn a_patch_is_made_line_by_line(lines: Seq<LineView>, k: Pick)
    ensures
        patch_of(lines, k) is Some <==> {
            &&& exists|j: int| #[trigger] taken(lines, j, k) && past_a_header(lines, j)
            &&& !unreadable_from(lines, 0, k)
        },
        patch_of(lines, k) matches Some((patch, n)) ==> {
            &&& patch == Seq::new(lines.len(), |i: int| part(lines, i, k)).flatten()
            &&& n == among(0, lines.len() as int, reached(lines, k)).len()
        },
{
    let n = lines.len() as int;
    let f = first_hunk(lines);
    let q = reached(lines, k);
    lemma_first_hunk(lines, 0);
    if f < n {
        lemma_past_first(lines, f);
    }
    lemma_hunks_parts(lines, f, k);
    lemma_file_parts(lines, f, k);
    lemma_joint_split(lines, 0, f, n, k);
    lemma_joint_flat(lines, lines.len(), k);
    assert forall|i: int| #![trigger lines[i]] 0 <= i < n implies q(i) == (f <= i && is_picked(
        k,
    )(i, lines[i])) by {
        lemma_past_first(lines, i);
    }
    lemma_count_among(lines, f, n, is_picked(k), q);
    let p = |i: int, l: LineView| f <= i && is_picked(k)(i, l);
    lemma_count_among(lines, 0, n, p, q);
    lemma_count_split(lines, 0, f, n, p);
    lemma_same_lines(lines, f, n, p, is_picked(k));
    let none = |i: int, l: LineView| false;
    lemma_same_lines(lines, 0, f, p, none);
    lemma_count_none(lines, 0, f);
    assert(count(lines, 0, f, p) == 0);
    if picked(lines, k) > 0 {
        let j = lemma_count_found(lines, f, n, is_picked(k));
        lemma_past_first(lines, j);
        assert(taken(lines, j, k) && past_a_header(lines, j));
    }
    if exists|j: int| #[trigger] taken(lines, j, k) && past_a_header(lines, j) {
        let j = choose|j: int| #[trigger] taken(lines, j, k) && past_a_header(lines, j);
        lemma_past_first(lines, j);
        lemma_count_holds(lines, f, n, is_picked(k), j);
    }
    if unreadable_from(lines, 0, k) {
        let h = choose|h: int|
            0 <= h < lines.len() && ((#[trigger] lines[h]).kind == LineKind::Hunk || lines[h].kind
                == LineKind::File) && past_a_header(lines, h) && in_active_hunk(lines, h, k)
                && hunk_header(lines[h].text) is None;
        lemma_past_first(lines, h);
        assert(unreadable_from(lines, f, k));
    }
    if unreadable_from(lines, f, k) {
        let h = choose|h: int|
            f <= h < lines.len() && ((#[trigger] lines[h]).kind == LineKind::Hunk || lines[h].kind
                == LineKind::File) && past_a_header(lines, h) && in_active_hunk(lines, h, k)
                && hunk_header(lines[h].text) is None;
        assert(0 <= h && (lines[h].kind == LineKind::Hunk || lines[h].kind == LineKind::File));
        assert(unreadable_from(lines, 0, k));
    }
}

/// Where one whole hunk is picked, the patch holds its added and deleted lines,
/// each behind its own sign and the lines between them as context, and nothing
/// of any other hunk.
pub proof fn picking_one_hunk_takes_no_other(
    lines: Seq<LineView>,
    s: int,
    e: int,
    unstage: bool,
    i: int,
)
    requires
        one_hunk(lines, s, e),
        0 <= i < lines.len(),
    ensures
        ({
            let k = Pick { lo: s, hi: e, unstage };
            let l = lines[i];
            &&& (i < s || i > e) && past_a_header(lines, i) ==> part(lines, i, k).len() == 0
            &&& s <= i <= e && l.kind == LineKind::Add ==> part(lines, i, k) == seq!['+'] + l.raw
            &&& s <= i <= e && l.kind == LineKind::Del ==> part(lines, i, k) == seq!['-'] + l.raw
            &&& taken(lines, i, k) <==> s <= i <= e && (l.kind == LineKind::Add || l.kind
                == LineKind::Del)
        }),
{
    let k = Pick { lo: s, hi: e, unstage };
    assert(lines[s].kind == LineKind::Hunk);
    assert forall|m: int| s < m < e + 1 implies !is_break((#[trigger] lines[m]).kind) by {}
    assert(headed(lines, s, e + 1));
    if s <= i <= e {
        assert(past_a_header(lines, i));
        if taken(lines, i, k) {
            assert(together(lines, i, i));
        }
    } else if in_active_hunk(lines, i, k) {
        let j = choose|j: int| #[trigger] taken(lines, j, k) && together(lines, i, j);
        assert(s <= j <= e);
        lemma_together(lines, s, e + 1, j, i);
    }
}

/// A pick spans the lines between its two ends, both of them in it, whichever is
/// given first.
pub proof fn a_pick_spans_both_ends(a: usize, b: usize, unstage: bool, i: int)
    ensures
        pick((a, b), unstage) == pick((b, a), unstage),
        pick((a, b), unstage).lo <= i <= pick((a, b), unstage).hi <==> a <= i <= b || b <= i <= a,
        pick((a, b), unstage).unstage == unstage,
{
}

/// Whether a line of a file header says that the file is new, or deleted.
pub open spec fn announces(l: LineView, w: WholeFile) -> bool {
    l.kind == LineKind::File && match w {
        WholeFile::New => "new file mode"@.is_prefix_of(l.text),
        WholeFile::Deleted => "deleted file mode"@.is_prefix_of(l.text),
    }
}

/// Whether the first line that says anything of the kind says `w`.
pub open spec fn first_announced(lines: Seq<LineView>, w: WholeFile) -> bool {
    exists|i: int|
        0 <= i < lines.len() && #[trigger] announces(lines[i], w) && forall|j: int|
            0 <= j < i ==> !announces(#[trigger] lines[j], WholeFile::New) && !announces(
                lines[j],
                WholeFile::Deleted,
            )
}

proof fn lemma_not_both(l: LineView)
    ensures
        !(announces(l, WholeFile::New) && announces(l, WholeFile::Deleted)),
{
    reveal_strlit("new file mode");
    reveal_strlit("deleted file mode");
    if announces(l, WholeFile::New) && announces(l, WholeFile::Deleted) {
        assert("new file mode"@[0] == l.text[0]);
        assert("deleted file mode"@[0] == l.text[0]);
    }
}

proof fn lemma_whole_file(lines: Seq<LineView>, i: int, w: WholeFile)
    requires
        0 <= i <= lines.len(),
        forall|j: int|
            0 <= j < i ==> !announces(#[trigger] lines[j], WholeFile::New) && !announces(
                lines[j],
                WholeFile::Deleted,
            ),
    ensures
        whole_file_from(lines, i) == Some(w) <==> first_announced(lines, w),
    decreases lines.len() - i,
{
    if i < lines.len() {
        lemma_not_both(lines[i]);
        if announces(lines[i], WholeFile::New) || announces(lines[i], WholeFile::Deleted) {
            if first_announced(lines, w) {
                let j = choose|j: int|
                    0 <= j < lines.len() && #[trigger] announces(lines[j], w) && forall|m: int|
                        0 <= m < j ==> !announces(#[trigger] lines[m], WholeFile::New)
                            && !announces(lines[m], WholeFile::Deleted);
                assert(announces(lines[j], w));
                assert(j == i);
            }
            if announces(lines[i], w) {
                assert(first_announced(lines, w));
            }
        } else {
            lemma_whole_file(lines, i + 1, w);
        }
    } else if first_announced(lines, w) {
        let j = choose|j: int| 0 <= j < lines.len() && #[trigger] announces(lines[j], w);
        assert(announces(lines[j], w));
    }
}

/// A diff creates or deletes its file outright exactly where the first line of a
/// file header that speaks of it says so.
pub proof fn whole_files_are_announced(lines: Seq<LineView>)
    ensures
        whole_file_from(lines, 0) == Some(WholeFile::New) <==> first_announced(
            lines,
            WholeFile::New,
        ),
        whole_file_from(lines, 0) == Some(WholeFile::Deleted) <==> first_announced(
            lines,
            WholeFile::Deleted,
        ),
        whole_file_from(lines, 0) is None <==> forall|i: int|
            0 <= i < lines.len() ==> !announces(#[trigger] lines[i], WholeFile::New) && !announces(
                lines[i],
                WholeFile::Deleted,
            ),
{
    lemma_whole_file(lines, 0, WholeFile::New);
    lemma_whole_file(lines, 0, WholeFile::Deleted);
    if whole_file_from(lines, 0) is None {
        lemma_none_announced(lines, 0);
    }
    if let Some(w) = whole_file_from(lines, 0) {
        let i = choose|i: int| 0 <= i < lines.len() && #[trigger] announces(lines[i], w);
        assert(announces(lines[i], w));
    }
}

proof fn lemma_none_announced(lines: Seq<LineView>, i: int)
    requires
        0 <= i <= lines.len(),
        whole_file_from(lines, i) is None,
    ensures
        forall|j: int|
            i <= j < lines.len() ==> !announces(#[trigger] lines[j], WholeFile::New) && !announces(
                lines[j],
                WholeFile::Deleted,
            ),
    decreases lines.len() - i,
{
    if i < lines.len() {
        lemma_none_announced(lines, i + 1);
    }
}

// ---------------------------------------------------------------------------
// Chunks and headers, in terms of their texts
// ---------------------------------------------------------------------------

/// A chunk of a file header becomes a file line for each of its pieces; a hunk
/// header, an added, a deleted and an unchanged line and a notice on a binary file
/// become one line of that kind, and anything else is the notice on a missing line
/// feed. Each holds its text to the letter, and shows it without its ending.
pub proof fn every_chunk_has_its_kind(origin: char, raw: Seq<char>, i: int)
    ensures
        ({
            let r = chunk_lines(origin, raw);
            let one = |kind: LineKind| seq![LineView { kind, text: without_eol(raw), raw }];
            &&& origin == 'F' ==> r.len() == pieces(raw).len()
            &&& origin == 'F' && 0 <= i < r.len() ==> r[i] == (LineView {
                kind: LineKind::File,
                text: without_eol(pieces(raw)[i]),
                raw: pieces(raw)[i],
            })
            &&& origin == 'H' ==> r == one(LineKind::Hunk)
            &&& origin == '+' ==> r == one(LineKind::Add)
            &&& origin == '-' ==> r == one(LineKind::Del)
            &&& origin == ' ' ==> r == one(LineKind::Ctx)
            &&& origin == 'B' ==> r == one(LineKind::Meta)
            &&& origin != 'F' && origin != 'H' && origin != '+' && origin != '-' && origin != ' '
                && origin != 'B' ==> r == seq![
                LineView { kind: LineKind::Meta, text: "\\ No newline at end of file"@, raw },
            ]
        }),
{
}

/// The lines of one chunk.
pub open spec fn lines_of_chunk() -> spec_fn(DiffChunk) -> Seq<LineView> {
    |c: DiffChunk| chunk_lines(c.origin, lossy(c.content@))
}

proof fn lemma_chunks_flat(chunks: Seq<DiffChunk>)
    ensures
        chunks_lines(chunks) == chunks.map_values(lines_of_chunk()).flatten(),
    decreases chunks.len(),
{
    let f = lines_of_chunk();
    let parts = chunks.map_values(f);
    parts.lemma_flatten_and_flatten_alt_are_equivalent();
    if chunks.len() > 0 {
        let init = chunks.drop_last();
        lemma_chunks_flat(init);
        init.map_values(f).lemma_flatten_and_flatten_alt_are_equivalent();
        assert(parts.drop_last() =~= init.map_values(f));
        assert(parts.last() == f(chunks.last()));
    }
}

/// A document is the lines of all the chunks, in their order; where there are
/// none, it says so in one line.
pub proof fn a_document_is_all_its_chunks(chunks: Seq<DiffChunk>)
    ensures
        ({
            let all = chunks.map_values(lines_of_chunk()).flatten();
            &&& all.len() > 0 ==> collected(chunks) == all
            &&& all.len() == 0 ==> collected(chunks) == seq![
                LineView { kind: LineKind::Meta, text: "(no changes)"@, raw: Seq::empty() },
            ]
        }),
{
    lemma_chunks_flat(chunks);
}

/// What stands before the first comma is all that stands before any.
pub proof fn commas_end_a_number(s: Seq<char>)
    ensures
        ({
            let b = before_comma(s);
            &&& b.len() <= s.len()
            &&& b == s.take(b.len() as int)
            &&& forall|i: int| 0 <= i < b.len() ==> #[trigger] b[i] != ','
            &&& b.len() < s.len() ==> s[b.len() as int] == ','
        }),
{
    let comma = seq![','];
    match find(s, comma) {
        Some(p) => {
            the_first_place_is_found(s, comma, p);
            assert(s.subrange(p, p + 1)[0] == ',');
            assert forall|i: int| 0 <= i < p implies #[trigger] s.take(p)[i] != ',' by {
                assert(s.subrange(i, i + 1) != comma);
                assert(s.subrange(i, i + 1) =~= seq![s[i]]);
            }
        },
        None => {
            the_first_place_is_found(s, comma, 0);
            assert(s.take(s.len() as int) =~= s);
            assert forall|i: int| 0 <= i < s.len() implies #[trigger] s[i] != ',' by {
                assert(s.subrange(i, i + 1) != comma);
                assert(s.subrange(i, i + 1) =~= seq![s[i]]);
            }
        },
    }
}

/// The number of a range of a header: what stands behind its sign and before any
/// comma.
pub open spec fn range_start(token: Seq<char>) -> Option<u64> {
    parsed_u64(before_comma(token.skip(1)))
}

/// Whether a word of a header is no range: without a sign, or without a number
/// behind it.
pub open spec fn no_range(token: Seq<char>) -> bool {
    !(token[0] == '-' || token[0] == '+') || range_start(token) is None
}

/// Whether a number is the start that the last range with a sign gives, or zero
/// where there is none.
pub open spec fn last_start(tokens: Seq<Seq<char>>, sign: char, n: u64) -> bool {
    ||| n == 0 && forall|i: int| 0 <= i < tokens.len() ==> (#[trigger] tokens[i])[0] != sign
    ||| exists|i: int|
        0 <= i < tokens.len() && (#[trigger] tokens[i])[0] == sign && range_start(tokens[i])
            == Some(n) && forall|j: int| i < j < tokens.len() ==> (#[trigger] tokens[j])[0] != sign
}

proof fn lemma_last_start(tokens: Seq<Seq<char>>, t: Seq<char>, sign: char, n: u64, m: u64)
    requires
        last_start(tokens, sign, n),
        t[0] != sign ==> m == n,
        t[0] == sign ==> range_start(t) == Some(m),
    ensures
        last_start(tokens.push(t), sign, m),
{
    let all = tokens.push(t);
    let k = tokens.len() as int;
    assert(all[k] == t);
    if t[0] == sign {
        assert(all[k][0] == sign);
    } else if exists|i: int|
        0 <= i < tokens.len() && (#[trigger] tokens[i])[0] == sign && range_start(tokens[i])
            == Some(n) && forall|j: int| i < j < tokens.len() ==> (#[trigger] tokens[j])[0]
            != sign {
        let i = choose|i: int|
            0 <= i < tokens.len() && (#[trigger] tokens[i])[0] == sign && range_start(tokens[i])
                == Some(n) && forall|j: int| i < j < tokens.len() ==> (#[trigger] tokens[j])[0]
                != sign;
        assert(all[i] == tokens[i]);
        assert forall|j: int| i < j < all.len() implies (#[trigger] all[j])[0] != sign by {
            if j < k {
                assert(all[j] == tokens[j]);
            }
        }
    } else {
        assert forall|i: int| 0 <= i < all.len() implies (#[trigger] all[i])[0] != sign by {
            if i < k {
                assert(all[i] == tokens[i]);
            }
        }
    }
}

proof fn lemma_range_starts(tokens: Seq<Seq<char>>)
    ensures
        range_starts(tokens) is None <==> exists|i: int|
            0 <= i < tokens.len() && no_range(#[trigger] tokens[i]),
        range_starts(tokens) matches Some((a, b)) ==> last_start(tokens, '-', a) && last_start(
            tokens,
            '+',
            b,
        ),
    decreases tokens.len(),
{
    if tokens.len() > 0 {
        let init = tokens.drop_last();
        let t = tokens.last();
        lemma_range_starts(init);
        assert(init.push(t) =~= tokens);
        assert(tokens[tokens.len() - 1] == t);
        if exists|i: int| 0 <= i < init.len() && no_range(#[trigger] init[i]) {
            let i = choose|i: int| 0 <= i < init.len() && no_range(#[trigger] init[i]);
            assert(no_range(tokens[i]));
        }
        if exists|i: int| 0 <= i < tokens.len() && no_range(#[trigger] tokens[i]) {
            let i = choose|i: int| 0 <= i < tokens.len() && no_range(#[trigger] tokens[i]);
            if i < init.len() {
                assert(no_range(init[i]));
            }
        }
        if let Some((a, b)) = range_starts(init) {
            if !no_range(t) {
                let n = range_start(t)->0;
                if t[0] == '-' {
                    lemma_last_start(init, t, '-', a, n);
                    lemma_last_start(init, t, '+', b, b);
                } else {
                    lemma_last_start(init, t, '-', a, a);
                    lemma_last_start(init, t, '+', b, n);
                }
            }
        }
    }
}

/// A hunk header is read exactly where it begins with its signs, has them again,
/// and holds nothing but ranges between. What is read of it are the starts of the
/// last range of each sign, and all that is behind the second pair of signs.
pub proof fn a_header_is_read_between_its_signs(text: Seq<char>)
    ensures
        ({
            let inner = text.skip(3);
            let close = find(inner, seq![' ', '@', '@']);
            let open = text.len() >= 3 && text.take(3) == seq!['@', '@', ' '];
            let tokens = words(inner.take(close->0));
            &&& hunk_header(text) is None <==> {
                ||| !open
                ||| close is None
                ||| exists|i: int| 0 <= i < tokens.len() && no_range(#[trigger] tokens[i])
            }
            &&& hunk_header(text) matches Some((a, b, ctx)) ==> {
                &&& last_start(tokens, '-', a)
                &&& last_start(tokens, '+', b)
                &&& ctx == inner.skip(close->0 + 3)
            }
        }),
{
    reveal_strlit("@@ ");
    reveal_strlit(" @@");
    assert("@@ "@ =~= seq!['@', '@', ' ']);
    assert(" @@"@ =~= seq![' ', '@', '@']);
    let inner = text.skip(3);
    if text.len() >= 3 {
        assert(text.take(3) =~= text.subrange(0, 3));
    }
    if let Some(end) = find(inner, " @@"@) {
        lemma_range_starts(words(inner.take(end)));
    }
}

} // verus!

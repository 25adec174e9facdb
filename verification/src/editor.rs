//! A small multi-line text editor: the buffer behind the commit-message popup.

use vstd::prelude::*;
use vstd::utf8::{
    encode_scalar, encode_utf8, encode_utf8_decode_utf8, encode_utf8_first_scalar,
    encode_utf8_valid_utf8, is_char_boundary, pop_first_scalar,
};

use crate::outside::columns;
#[allow(unused_imports)]
use crate::outside::width_of;
use crate::text::copy_of;
#[allow(unused_imports)]
use crate::text::texts;

verus! {

/// A list of lines plus a cursor at (row, col), where col counts *characters*.
pub struct Editor {
    pub lines: Vec<String>,
    pub row: usize,
    pub col: usize,
}

/// The contents of an editor.
#[verifier::ext_equal]
pub struct EditorView {
    pub lines: Seq<Seq<char>>,
    pub row: int,
    pub col: int,
}

impl View for Editor {
    type V = EditorView;

    open spec fn view(&self) -> EditorView {
        EditorView { lines: texts(self.lines@), row: self.row as int, col: self.col as int }
    }
}

// ---------------------------------------------------------------------------
// What the operations do
// ---------------------------------------------------------------------------

impl EditorView {
    /// The cursor stands in the text: on a line that is there, and no further
    /// than its end.
    pub open spec fn wf(self) -> bool {
        &&& 0 <= self.row < self.lines.len()
        &&& 0 <= self.col <= self.line().len()
    }

    /// The line that the cursor is on.
    pub open spec fn line(self) -> Seq<char> {
        self.lines[self.row]
    }

    /// Where in its line the cursor works: at `col`, or at the end of a
    /// shorter line.
    pub open spec fn at(self) -> int {
        if self.col <= self.line().len() {
            self.col
        } else {
            self.line().len() as int
        }
    }

    /// The line up to the cursor.
    pub open spec fn before(self) -> Seq<char> {
        self.line().take(self.at())
    }

    /// The line from the cursor on.
    pub open spec fn after(self) -> Seq<char> {
        self.line().skip(self.at())
    }

    /// The same buffer with another text in the cursor's line.
    pub open spec fn with_line(self, line: Seq<char>) -> EditorView {
        EditorView { lines: self.lines.update(self.row, line), ..self }
    }

    /// The same buffer with the cursor elsewhere.
    pub open spec fn with_cursor(self, row: int, col: int) -> EditorView {
        EditorView { row, col, ..self }
    }

    /// An empty buffer: one empty line.
    pub open spec fn blank() -> EditorView {
        EditorView { lines: seq![Seq::empty()], row: 0, col: 0 }
    }

    /// A character typed at the cursor.
    pub open spec fn inserted(self, c: char) -> EditorView {
        self.with_line(self.before().push(c) + self.after()).with_cursor(self.row, self.col + 1)
    }

    /// The line split in two at the cursor, which goes to the second part.
    pub open spec fn newlined(self) -> EditorView {
        EditorView {
            lines: self.lines.update(self.row, self.before()).insert(self.row + 1, self.after()),
            row: self.row + 1,
            col: 0,
        }
    }

    /// The line `i + 1` put at the end of the line `i`.
    pub open spec fn joined(self, i: int) -> Seq<Seq<char>> {
        self.lines.remove(i + 1).update(i, self.lines[i] + self.lines[i + 1])
    }

    /// The character before the cursor taken out; at the start of a line, the
    /// line joined onto the one above.
    pub open spec fn backspaced(self) -> EditorView {
        if self.col > 0 {
            self.with_line(self.line().remove(self.col - 1)).with_cursor(self.row, self.col - 1)
        } else if self.row > 0 {
            EditorView {
                lines: self.joined(self.row - 1),
                row: self.row - 1,
                col: self.lines[self.row - 1].len() as int,
            }
        } else {
            self
        }
    }

    /// The character under the cursor taken out; at the end of a line, the
    /// line below joined onto it.
    pub open spec fn deleted(self) -> EditorView {
        if self.col < self.line().len() {
            self.with_line(self.line().remove(self.col))
        } else if self.row < self.lines.len() - 1 {
            EditorView { lines: self.joined(self.row), ..self }
        } else {
            self
        }
    }

    /// The cursor one character back, over the start of a line too.
    pub open spec fn moved_left(self) -> EditorView {
        if self.col > 0 {
            self.with_cursor(self.row, self.col - 1)
        } else if self.row > 0 {
            self.with_cursor(self.row - 1, self.lines[self.row - 1].len() as int)
        } else {
            self
        }
    }

    /// The cursor one character on, over the end of a line too.
    pub open spec fn moved_right(self) -> EditorView {
        if self.col < self.line().len() {
            self.with_cursor(self.row, self.col + 1)
        } else if self.row < self.lines.len() - 1 {
            self.with_cursor(self.row + 1, 0)
        } else {
            self
        }
    }

    /// The cursor on the line `row`, as far right as it was or as that line goes.
    pub open spec fn on_row(self, row: int) -> EditorView {
        self.with_cursor(
            row,
            if self.col <= self.lines[row].len() {
                self.col
            } else {
                self.lines[row].len() as int
            },
        )
    }

    /// The cursor one line up.
    pub open spec fn moved_up(self) -> EditorView {
        if self.row > 0 {
            self.on_row(self.row - 1)
        } else {
            self
        }
    }

    /// The cursor one line down.
    pub open spec fn moved_down(self) -> EditorView {
        if self.row < self.lines.len() - 1 {
            self.on_row(self.row + 1)
        } else {
            self
        }
    }

    /// Where the word before the cursor, spaces behind it passed over, begins.
    pub open spec fn word_start(self) -> int {
        run_start(self.line(), run_start(self.line(), self.col, true), false)
    }

    /// The word before the cursor taken out, with the spaces behind it.
    pub open spec fn word_deleted(self) -> EditorView {
        let start = self.word_start();
        self.with_line(self.line().take(start) + self.line().skip(self.col)).with_cursor(
            self.row,
            start,
        )
    }

    /// The line from its start to the cursor taken out.
    pub open spec fn start_deleted(self) -> EditorView {
        self.with_line(self.after()).with_cursor(self.row, 0)
    }

    /// The whole text: the lines with a line feed between each two.
    pub open spec fn text(self) -> Seq<char> {
        joined_lines(self.lines)
    }
}

/// Where the run of spaces (or, with `spaces` unset, of other characters) that
/// ends at `end` begins.
pub open spec fn run_start(line: Seq<char>, end: int, spaces: bool) -> int
    decreases end,
{
    if end > 0 && (line[end - 1] == ' ') == spaces {
        run_start(line, end - 1, spaces)
    } else {
        end
    }
}

/// Lines put together with a line feed between each two.
pub open spec fn joined_lines(lines: Seq<Seq<char>>) -> Seq<char>
    decreases lines.len(),
{
    if lines.len() == 0 {
        Seq::empty()
    } else if lines.len() == 1 {
        lines[0]
    } else {
        joined_lines(lines.drop_last()).push('\n') + lines.last()
    }
}

// ---------------------------------------------------------------------------
// Characters and bytes of a line
// ---------------------------------------------------------------------------

/// Byte offset of the character `col` of `s`, or the length of `s` in bytes
/// when it has fewer characters.
fn byte_at(s: &str, col: usize) -> (b: usize)
    ensures
        col <= s@.len() ==> b == encode_utf8(s@.take(col as int)).len(),
        col > s@.len() ==> b == encode_utf8(s@).len(),
{
    if col < s.unicode_len() {
        let head = s.substring_char(0, col);
        assert(head@ =~= s@.take(col as int));
        let bytes = head.as_bytes();
        bytes.len()
    } else {
        assert(s@.take(s@.len() as int) =~= s@);
        let bytes = s.as_bytes();
        bytes.len()
    }
}

/// The bytes of a text are those of its first `k` characters and those of the
/// others, and a character begins where the two meet.
proof fn lemma_cut(s: Seq<char>, k: int)
    requires
        0 <= k <= s.len(),
    ensures
        encode_utf8(s) == encode_utf8(s.take(k)) + encode_utf8(s.skip(k)),
        is_char_boundary(encode_utf8(s), encode_utf8(s.take(k)).len() as int),
    decreases k,
{
    encode_utf8_valid_utf8(s);
    if k == 0 {
        assert(s.skip(0) =~= s);
        assert(encode_utf8(s.take(0)) =~= Seq::empty());
        assert(encode_utf8(s) =~= encode_utf8(s.take(0)) + encode_utf8(s.skip(0)));
    } else {
        let rest = s.drop_first();
        lemma_cut(rest, k - 1);
        assert(s.take(k).drop_first() =~= rest.take(k - 1));
        assert(s.skip(k) =~= rest.skip(k - 1));
        assert(s.take(k)[0] == s[0]);
        encode_utf8_first_scalar(s);
        let first = encode_scalar(s[0] as u32);
        assert(encode_utf8(s) =~= encode_utf8(s.take(k)) + encode_utf8(s.skip(k)));
        assert(pop_first_scalar(encode_utf8(s)) =~= encode_utf8(rest));
        assert(encode_utf8(s.take(k)).len() == first.len() + encode_utf8(rest.take(k - 1)).len());
    }
}

proof fn lemma_same_bytes(a: Seq<char>, b: Seq<char>)
    requires
        encode_utf8(a) == encode_utf8(b),
    ensures
        a == b,
{
    encode_utf8_decode_utf8(a);
    encode_utf8_decode_utf8(b);
}

/// A line cut in two at the character `col`, or at its end if it is shorter.
fn cut(s: &str, col: usize) -> (r: (&str, &str))
    ensures
        ({
            let k = if col <= s@.len() {
                col as int
            } else {
                s@.len() as int
            };
            r.0@ == s@.take(k) && r.1@ == s@.skip(k)
        }),
{
    let b: usize = byte_at(s, col);
    proof {
        let k = if col <= s@.len() {
            col as int
        } else {
            s@.len() as int
        };
        assert(s@.take(s@.len() as int) =~= s@);
        lemma_cut(s@, k);
    }
    let r = s.split_at(b);
    proof {
        let k = if col <= s@.len() {
            col as int
        } else {
            s@.len() as int
        };
        let (x, y) = (encode_utf8(s@.take(k)), encode_utf8(s@.skip(k)));
        assert((x + y).subrange(0, x.len() as int) =~= x);
        assert((x + y).subrange(x.len() as int, (x + y).len() as int) =~= y);
        lemma_same_bytes(r.0@, s@.take(k));
        lemma_same_bytes(r.1@, s@.skip(k));
    }
    r
}

// ---------------------------------------------------------------------------
// The operations
// ---------------------------------------------------------------------------

impl Editor {
    /// The cursor stands in the text.
    pub open spec fn wf(self) -> bool {
        self@.wf()
    }

    /// An empty editor.
    pub fn new() -> (e: Editor)
        ensures
            e@ == EditorView::blank(),
            e.wf(),
    {
        let mut lines: Vec<String> = Vec::new();
        lines.push(String::new());
        let e = Editor { lines, row: 0, col: 0 };
        assert(e@ =~= EditorView::blank());
        e
    }

    /// The line that the cursor is on.
    fn line(&self) -> (r: &str)
        requires
            self.row < self.lines@.len(),
        ensures
            r@ == self@.line(),
    {
        self.lines[self.row].as_str()
    }

    /// The length of the cursor's line in characters.
    fn line_chars(&self) -> (n: usize)
        requires
            self.row < self.lines@.len(),
        ensures
            n == self@.line().len(),
    {
        self.line().unicode_len()
    }

    /// Type a character at the cursor.
    pub fn insert(&mut self, c: char)
        requires
            old(self).row < old(self).lines@.len(),
            old(self)@.col <= old(self)@.line().len() || old(self).col < usize::MAX,
        ensures
            final(self)@ == old(self)@.inserted(c),
            old(self).wf() ==> final(self).wf(),
    {
        let (head, tail) = cut(self.line(), self.col);
        let mut line = copy_of(head);
        line.push(c);
        line.append(tail);
        // A line is never longer than a position can count, so the new column
        // fits.
        let n: usize = line.as_str().unicode_len();
        assert(self@.col <= self@.line().len() ==> self.col < n);
        let ghost was = self@;
        self.lines[self.row] = line;
        self.col += 1;
        assert(self@ =~= was.inserted(c));
    }

    /// Split the line at the cursor.
    pub fn newline(&mut self)
        requires
            old(self).row < old(self).lines@.len(),
        ensures
            final(self)@ == old(self)@.newlined(),
            final(self).wf(),
    {
        let (head, tail) = cut(self.line(), self.col);
        let head = copy_of(head);
        let rest = copy_of(tail);
        let ghost was = self@;
        self.lines[self.row] = head;
        let n: usize = self.lines.len();
        assert(self.row < n);
        self.lines.insert(self.row + 1, rest);
        self.row += 1;
        self.col = 0;
        assert(self@ =~= was.newlined());
    }

    /// Take out the character before the cursor; at the start of a line, join
    /// it onto the previous one.
    pub fn backspace(&mut self)
        requires
            old(self).row < old(self).lines@.len(),
            old(self).col > 0 ==> old(self)@.col <= old(self)@.line().len(),
        ensures
            final(self)@ == old(self)@.backspaced(),
            old(self).wf() ==> final(self).wf(),
    {
        let ghost was = self@;
        if self.col > 0 {
            let (head, _) = cut(self.line(), self.col - 1);
            let (_, tail) = cut(self.line(), self.col);
            let mut line = copy_of(head);
            line.append(tail);
            assert(line@ =~= was.line().remove(was.col - 1));
            self.lines[self.row] = line;
            self.col -= 1;
            assert(self@ =~= was.backspaced());
        } else if self.row > 0 {
            let cur = self.lines.remove(self.row);
            self.row -= 1;
            self.col = self.line_chars();
            let mut line = copy_of(self.line());
            line.append(cur.as_str());
            self.lines[self.row] = line;
            assert(self@ =~= was.backspaced());
        }
    }

    /// Take out the character under the cursor; at the end of a line, join the
    /// next one onto it.
    pub fn delete(&mut self)
        requires
            old(self).row < old(self).lines@.len(),
        ensures
            final(self)@ == old(self)@.deleted(),
            old(self).wf() ==> final(self).wf(),
    {
        let ghost was = self@;
        if self.col < self.line_chars() {
            let (head, _) = cut(self.line(), self.col);
            let (_, tail) = cut(self.line(), self.col + 1);
            let mut line = copy_of(head);
            line.append(tail);
            assert(line@ =~= was.line().remove(was.col));
            self.lines[self.row] = line;
            assert(self@ =~= was.deleted());
        } else if self.row < self.lines.len() - 1 {
            let next = self.lines.remove(self.row + 1);
            let mut line = copy_of(self.line());
            line.append(next.as_str());
            self.lines[self.row] = line;
            assert(self@ =~= was.deleted());
        }
    }

    /// Move the cursor one character back.
    pub fn left(&mut self)
        requires
            old(self).row < old(self).lines@.len(),
        ensures
            final(self)@ == old(self)@.moved_left(),
            old(self).wf() ==> final(self).wf(),
    {
        let ghost was = self@;
        if self.col > 0 {
            self.col -= 1;
        } else if self.row > 0 {
            self.row -= 1;
            self.col = self.line_chars();
        }
        assert(self@ =~= was.moved_left());
    }

    /// Move the cursor one character on.
    pub fn right(&mut self)
        requires
            old(self).row < old(self).lines@.len(),
        ensures
            final(self)@ == old(self)@.moved_right(),
            old(self).wf() ==> final(self).wf(),
    {
        let ghost was = self@;
        if self.col < self.line_chars() {
            self.col += 1;
        } else if self.row < self.lines.len() - 1 {
            self.row += 1;
            self.col = 0;
        }
        assert(self@ =~= was.moved_right());
    }

    /// Move the cursor one line up.
    pub fn up(&mut self)
        requires
            old(self).row < old(self).lines@.len(),
        ensures
            final(self)@ == old(self)@.moved_up(),
            old(self).wf() ==> final(self).wf(),
    {
        let ghost was = self@;
        if self.row > 0 {
            self.row -= 1;
            let n: usize = self.line_chars();
            if self.col > n {
                self.col = n;
            }
        }
        assert(self@ =~= was.moved_up());
    }

    /// Move the cursor one line down.
    pub fn down(&mut self)
        requires
            old(self).row < old(self).lines@.len(),
        ensures
            final(self)@ == old(self)@.moved_down(),
            old(self).wf() ==> final(self).wf(),
    {
        let ghost was = self@;
        if self.row < self.lines.len() - 1 {
            self.row += 1;
            let n: usize = self.line_chars();
            if self.col > n {
                self.col = n;
            }
        }
        assert(self@ =~= was.moved_down());
    }

    /// Move the cursor to the start of its line.
    pub fn home(&mut self)
        ensures
            final(self)@ == old(self)@.with_cursor(old(self)@.row, 0),
            old(self).wf() ==> final(self).wf(),
    {
        self.col = 0;
    }

    /// Move the cursor to the end of its line.
    pub fn end(&mut self)
        requires
            old(self).row < old(self).lines@.len(),
        ensures
            final(self)@ == old(self)@.with_cursor(
                old(self)@.row,
                old(self)@.line().len() as int,
            ),
            final(self).wf(),
    {
        self.col = self.line_chars();
    }

    /// Whether the character before the cursor is a space.
    fn prev_is_space(&self) -> (r: bool)
        requires
            self.row < self.lines@.len(),
            0 < self.col <= self@.line().len(),
        ensures
            r == (self@.line()[self@.col - 1] == ' '),
    {
        self.line().get_char(self.col - 1) == ' '
    }

    /// Ctrl+W: delete the word before the cursor, with the spaces behind it.
    pub fn delete_word_back(&mut self)
        requires
            old(self).row < old(self).lines@.len(),
            old(self).col > 0 ==> old(self)@.col <= old(self)@.line().len(),
        ensures
            final(self)@ == old(self)@.word_deleted(),
            old(self).wf() ==> final(self).wf(),
    {
        let ghost was = self@;
        let ghost line = was.line();
        let ghost gap = run_start(line, was.col, true);
        proof {
            lemma_run_start(line, was.col, true);
            lemma_run_start(line, gap, false);
            if was.col > 0 {
                assert(line.take(was.col) + line.skip(was.col) =~= line);
            } else {
                assert(line.take(0) + line.skip(0) =~= line);
            }
            assert(self@ =~= was.with_line(line.take(self@.col) + line.skip(was.col)).with_cursor(
                was.row,
                self@.col,
            ));
        }
        while self.col > 0 && self.prev_is_space()
            invariant
                0 <= self@.col <= was.col,
                0 <= was.row < was.lines.len(),
                line == was.line(),
                was.col > 0 ==> was.col <= line.len(),
                self.row < self.lines@.len(),
                self@ == was.with_line(line.take(self@.col) + line.skip(was.col)).with_cursor(
                    was.row,
                    self@.col,
                ),
                run_start(line, self@.col, true) == gap,
            decreases self.col,
        {
            let ghost now = self@;
            proof {
                assert(now.line() =~= line.take(now.col) + line.skip(was.col));
                assert(now.line()[now.col - 1] == line[now.col - 1]);
                assert(now.line().remove(now.col - 1) =~= line.take(now.col - 1) + line.skip(
                    was.col,
                ));
            }
            self.backspace();
            assert(self@ =~= was.with_line(line.take(self@.col) + line.skip(was.col)).with_cursor(
                was.row,
                self@.col,
            ));
        }
        proof {
            if self@.col > 0 {
                let now = self@;
                assert(now.line() =~= line.take(now.col) + line.skip(was.col));
                assert(now.line()[now.col - 1] == line[now.col - 1]);
            }
            assert(self@.col == gap);
        }
        let ghost start = run_start(line, gap, false);
        while self.col > 0 && !self.prev_is_space()
            invariant
                0 <= self@.col <= was.col,
                0 <= was.row < was.lines.len(),
                line == was.line(),
                was.col > 0 ==> was.col <= line.len(),
                self.row < self.lines@.len(),
                self@ == was.with_line(line.take(self@.col) + line.skip(was.col)).with_cursor(
                    was.row,
                    self@.col,
                ),
                run_start(line, self@.col, false) == start,
            decreases self.col,
        {
            let ghost now = self@;
            proof {
                assert(now.line() =~= line.take(now.col) + line.skip(was.col));
                assert(now.line()[now.col - 1] == line[now.col - 1]);
                assert(now.line().remove(now.col - 1) =~= line.take(now.col - 1) + line.skip(
                    was.col,
                ));
            }
            self.backspace();
            assert(self@ =~= was.with_line(line.take(self@.col) + line.skip(was.col)).with_cursor(
                was.row,
                self@.col,
            ));
        }
        proof {
            if self@.col > 0 {
                let now = self@;
                assert(now.line() =~= line.take(now.col) + line.skip(was.col));
                assert(now.line()[now.col - 1] == line[now.col - 1]);
            }
            assert(self@.col == start);
            assert(self@ =~= was.word_deleted());
        }
    }

    /// Ctrl+U: delete from the start of the line to the cursor.
    pub fn delete_to_start(&mut self)
        requires
            old(self).row < old(self).lines@.len(),
        ensures
            final(self)@ == old(self)@.start_deleted(),
            final(self).wf(),
    {
        let ghost was = self@;
        let (_, tail) = cut(self.line(), self.col);
        let line = copy_of(tail);
        self.lines[self.row] = line;
        self.col = 0;
        assert(self@ =~= was.start_deleted());
    }

    /// Display column of the cursor, for placing the terminal cursor and
    /// scrolling the view: the width of the line up to the cursor.
    pub fn display_col(&self) -> (w: usize)
        requires
            self.row < self.lines@.len(),
        ensures
            w == width_of(self@.before()),
    {
        let (head, _) = cut(self.line(), self.col);
        columns(head)
    }

    /// The whole text, its lines joined by line feeds.
    pub fn text(&self) -> (r: String)
        ensures
            r@ == self@.text(),
    {
        let mut r = String::new();
        let mut i: usize = 0;
        let ghost all = texts(self.lines@);
        assert(all.take(0).len() == 0);
        while i < self.lines.len()
            invariant
                i <= self.lines@.len(),
                all == texts(self.lines@),
                r@ == joined_lines(all.take(i as int)),
            decreases self.lines.len() - i,
        {
            let ghost was = r@;
            if i > 0 {
                r.push('\n');
            }
            r.append(self.lines[i].as_str());
            proof {
                assert(all.take(i + 1).drop_last() =~= all.take(i as int));
                assert(all[i as int] == self.lines@[i as int]@);
                if i == 0 {
                    assert(was =~= Seq::empty());
                    assert(r@ =~= all.take(1)[0]);
                }
                assert(r@ =~= joined_lines(all.take(i + 1)));
            }
            i += 1;
        }
        assert(all.take(i as int) =~= all);
        r
    }
}

proof fn lemma_run_start(line: Seq<char>, end: int, spaces: bool)
    requires
        0 <= end,
    ensures
        0 <= run_start(line, end, spaces) <= end,
    decreases end,
{
    if end > 0 && (line[end - 1] == ' ') == spaces {
        lemma_run_start(line, end - 1, spaces);
    }
}

// ---------------------------------------------------------------------------
// What the editor promises
// ---------------------------------------------------------------------------

/// Backspace takes back a typed character.
pub proof fn backspace_undoes_insert(e: EditorView, c: char)
    requires
        e.wf(),
    ensures
        e.inserted(c).backspaced() == e,
{
    let f = e.inserted(c);
    assert(f.line() =~= e.before().push(c) + e.after());
    assert(f.line().remove(f.col - 1) =~= e.line());
    assert(f.backspaced() =~= e);
}

/// Backspace at the start of a line that was just opened joins it back.
pub proof fn backspace_undoes_newline(e: EditorView)
    requires
        e.wf(),
    ensures
        e.newlined().backspaced() == e,
{
    let f = e.newlined();
    assert(f.lines[e.row] =~= e.before());
    assert(f.lines[e.row + 1] =~= e.after());
    assert(e.before() + e.after() =~= e.line());
    assert(f.backspaced().lines =~= e.lines);
    assert(f.backspaced() =~= e);
}

/// Backspace is a step left and a delete.
pub proof fn backspace_is_left_then_delete(e: EditorView)
    requires
        e.wf(),
        e.row > 0 || e.col > 0,
    ensures
        e.moved_left().deleted() == e.backspaced(),
{
    let f = e.moved_left();
    assert(f.deleted() =~= e.backspaced());
}

/// A step left and a step right lead back, over line boundaries too.
pub proof fn right_undoes_left(e: EditorView)
    requires
        e.wf(),
        e.row > 0 || e.col > 0,
    ensures
        e.moved_left().moved_right() == e,
{
    assert(e.moved_left().moved_right() =~= e);
}

/// A step right and a step left lead back, over line boundaries too.
pub proof fn left_undoes_right(e: EditorView)
    requires
        e.wf(),
        e.row + 1 < e.lines.len() || e.col < e.line().len(),
    ensures
        e.moved_right().moved_left() == e,
{
    assert(e.moved_right().moved_left() =~= e);
}

/// Whatever is done, the cursor stays in the text.
pub proof fn the_cursor_stays_in_the_text(e: EditorView, c: char)
    requires
        e.wf(),
    ensures
        e.inserted(c).wf(),
        e.newlined().wf(),
        e.backspaced().wf(),
        e.deleted().wf(),
        e.moved_left().wf(),
        e.moved_right().wf(),
        e.moved_up().wf(),
        e.moved_down().wf(),
        e.word_deleted().wf(),
        e.start_deleted().wf(),
{
    lemma_run_start(e.line(), e.col, true);
    lemma_run_start(e.line(), run_start(e.line(), e.col, true), false);
}

impl EditorView {
    /// How many characters of the whole text stand before the cursor.
    pub open spec fn offset(self) -> int {
        if self.row == 0 {
            self.col
        } else {
            joined_lines(self.lines.take(self.row)).len() + 1 + self.col
        }
    }

    /// The whole text before the cursor's line, with the line feed that ends it.
    spec fn above(self) -> Seq<char> {
        if self.row == 0 {
            Seq::empty()
        } else {
            joined_lines(self.lines.take(self.row)).push('\n')
        }
    }

    /// The whole text behind the cursor's line, with the line feed before it.
    spec fn below(self) -> Seq<char> {
        if self.row + 1 == self.lines.len() {
            Seq::empty()
        } else {
            seq!['\n'] + joined_lines(self.lines.skip(self.row + 1))
        }
    }
}

/// Joining a list of lines is joining its two parts.
proof fn lemma_join_split(a: Seq<Seq<char>>, b: Seq<Seq<char>>)
    requires
        a.len() > 0,
        b.len() > 0,
    ensures
        joined_lines(a + b) == joined_lines(a).push('\n') + joined_lines(b),
    decreases b.len(),
{
    assert((a + b).drop_last() =~= a + b.drop_last());
    if b.len() == 1 {
        assert(a + b.drop_last() =~= a);
        assert(joined_lines(a + b) =~= joined_lines(a).push('\n') + joined_lines(b));
    } else {
        lemma_join_split(a, b.drop_last());
        assert(joined_lines(a + b) =~= joined_lines(a).push('\n') + joined_lines(b));
    }
}

/// The text is what is above the cursor's line, the line, and what is below.
proof fn lemma_text_around(e: EditorView)
    requires
        0 <= e.row < e.lines.len(),
    ensures
        e.text() == e.above() + e.line() + e.below(),
        e.above().len() + e.col == e.offset(),
{
    let one = seq![e.line()];
    let up = e.lines.take(e.row);
    let down = e.lines.skip(e.row + 1);
    assert(joined_lines(one) == e.line());
    assert(e.lines =~= up + (one + down));
    if down.len() > 0 {
        lemma_join_split(one, down);
    } else {
        assert(one + down =~= one);
    }
    if up.len() > 0 {
        lemma_join_split(up, one + down);
    } else {
        assert(up + (one + down) =~= one + down);
    }
    assert(e.text() =~= e.above() + e.line() + e.below());
}

/// The cursor has a place in the whole text.
pub proof fn the_cursor_has_an_offset(e: EditorView)
    requires
        e.wf(),
    ensures
        0 <= e.offset() <= e.text().len(),
{
    lemma_text_around(e);
}

/// Typing a character puts it into the text where the cursor is.
pub proof fn insert_changes_the_text_at_the_cursor(e: EditorView, c: char)
    requires
        e.wf(),
    ensures
        e.inserted(c).text() == e.text().insert(e.offset(), c),
        e.inserted(c).offset() == e.offset() + 1,
{
    let f = e.inserted(c);
    lemma_text_around(e);
    lemma_text_around(f);
    assert(f.lines.take(f.row) =~= e.lines.take(e.row));
    assert(f.lines.skip(f.row + 1) =~= e.lines.skip(e.row + 1));
    assert(f.line() =~= e.before().push(c) + e.after());
    assert(e.line() =~= e.before() + e.after());
    assert(f.text() =~= e.text().insert(e.offset(), c));
}

/// Opening a line puts a line feed into the text where the cursor is.
pub proof fn newline_changes_the_text_at_the_cursor(e: EditorView)
    requires
        e.wf(),
    ensures
        e.newlined().text() == e.text().insert(e.offset(), '\n'),
        e.newlined().offset() == e.offset() + 1,
{
    let f = e.newlined();
    lemma_text_around(e);
    lemma_text_around(f);
    let up = e.lines.take(e.row);
    let one = seq![e.before()];
    assert(f.lines.take(f.row) =~= up + one);
    assert(joined_lines(one) == e.before());
    if up.len() > 0 {
        lemma_join_split(up, one);
    } else {
        assert(up + one =~= one);
    }
    assert(f.above() =~= (e.above() + e.before()).push('\n'));
    assert(f.line() =~= e.after());
    assert(f.lines.skip(f.row + 1) =~= e.lines.skip(e.row + 1));
    assert(f.below() =~= e.below());
    assert(e.line() =~= e.before() + e.after());
    assert(f.text() =~= e.text().insert(e.offset(), '\n'));
}

/// Backspace takes the character before the cursor, a line feed too, out of
/// the text.
pub proof fn backspace_changes_the_text_before_the_cursor(e: EditorView)
    requires
        e.wf(),
        e.row > 0 || e.col > 0,
    ensures
        0 < e.offset() <= e.text().len(),
        e.backspaced().text() == e.text().remove(e.offset() - 1),
        e.backspaced().offset() == e.offset() - 1,
{
    let f = e.backspaced();
    lemma_text_around(e);
    lemma_text_around(f);
    if e.col > 0 {
        assert(f.lines.take(f.row) =~= e.lines.take(e.row));
        assert(f.lines.skip(f.row + 1) =~= e.lines.skip(e.row + 1));
        assert(f.line() =~= e.line().remove(e.col - 1));
        assert(f.text() =~= e.text().remove(e.offset() - 1));
    } else {
        let up = e.lines.take(e.row - 1);
        let prev = e.lines[e.row - 1];
        let one = seq![prev];
        assert(e.lines.take(e.row) =~= up + one);
        assert(joined_lines(one) == prev);
        assert(f.lines.take(f.row) =~= up);
        if up.len() > 0 {
            lemma_join_split(up, one);
        } else {
            assert(up + one =~= one);
        }
        assert(f.line() =~= prev + e.line());
        assert(f.lines.skip(f.row + 1) =~= e.lines.skip(e.row + 1));
        assert(e.above() =~= (f.above() + prev).push('\n'));
        assert(f.below() =~= e.below());
        assert(f.text() =~= e.text().remove(e.offset() - 1));
    }
}

/// The cursor works at its column, or at the end of a line that is shorter.
pub proof fn the_cursor_works_in_its_line(e: EditorView)
    ensures
        0 <= e.col <= e.lines[e.row].len() ==> {
            &&& e.before() == e.lines[e.row].take(e.col)
            &&& e.after() == e.lines[e.row].skip(e.col)
        },
        e.col > e.lines[e.row].len() ==> {
            &&& e.before() == e.lines[e.row]
            &&& e.after().len() == 0
        },
{
    if e.col > e.lines[e.row].len() {
        assert(e.before() =~= e.lines[e.row]);
    }
}

/// Typing, and taking out a word or the start of a line, changes the cursor's
/// line only, and leaves the cursor on it.
pub proof fn the_other_lines_stay(e: EditorView, c: char, i: int)
    requires
        0 <= e.row < e.lines.len(),
        0 <= i < e.lines.len(),
        i != e.row,
    ensures
        e.inserted(c).lines.len() == e.lines.len(),
        e.inserted(c).lines[i] == e.lines[i],
        e.inserted(c).row == e.row,
        e.word_deleted().lines.len() == e.lines.len(),
        e.word_deleted().lines[i] == e.lines[i],
        e.word_deleted().row == e.row,
        e.start_deleted().lines.len() == e.lines.len(),
        e.start_deleted().lines[i] == e.lines[i],
        e.start_deleted().row == e.row,
{
}

/// A typed character stands where the cursor was, between what was before it and
/// what was behind it, and the cursor is behind it.
pub proof fn insert_puts_the_character_at_the_cursor(e: EditorView, c: char)
    requires
        e.wf(),
    ensures
        ({
            let line = e.lines[e.row];
            let f = e.inserted(c);
            &&& f.lines == e.lines.update(e.row, line.insert(e.col, c))
            &&& f.row == e.row
            &&& f.col == e.col + 1
        }),
{
    assert(e.before().push(c) + e.after() =~= e.lines[e.row].insert(e.col, c));
}

/// A new line splits the cursor's line in two and moves the lines below down by
/// one; the cursor is at the start of the second part.
pub proof fn newline_splits_the_line(e: EditorView, i: int)
    requires
        e.wf(),
        0 <= i <= e.lines.len(),
    ensures
        ({
            let f = e.newlined();
            &&& f.lines.len() == e.lines.len() + 1
            &&& i < e.row ==> f.lines[i] == e.lines[i]
            &&& i == e.row ==> f.lines[i] == e.lines[i].take(e.col)
            &&& i == e.row + 1 ==> f.lines[i] == e.lines[e.row].skip(e.col)
            &&& i > e.row + 1 ==> f.lines[i] == e.lines[i - 1]
            &&& f.row == e.row + 1
            &&& f.col == 0
        }),
{
}

/// Backspace at the start of the text, and delete at its end, do nothing.
pub proof fn nothing_is_taken_out_beyond_the_ends(e: EditorView)
    ensures
        e.row == 0 && e.col == 0 ==> e.backspaced() == e && e.moved_left() == e,
        e.wf() && e.row == e.lines.len() - 1 && e.col == e.lines[e.row].len() ==> e.deleted() == e
            && e.moved_right() == e,
{
}

/// The arrows to the left and to the right step through the text character by
/// character, a line feed too, and change nothing in it.
pub proof fn arrows_step_through_the_text(e: EditorView)
    requires
        e.wf(),
    ensures
        e.moved_left().lines == e.lines,
        e.moved_right().lines == e.lines,
        e.offset() > 0 ==> e.moved_left().offset() == e.offset() - 1,
        e.offset() < e.text().len() ==> e.moved_right().offset() == e.offset() + 1,
        e.offset() == 0 <==> e.row == 0 && e.col == 0,
        e.offset() == e.text().len() <==> e.row == e.lines.len() - 1 && e.col
            == e.lines[e.row].len(),
{
    lemma_text_around(e);
    let l = e.moved_left();
    let r = e.moved_right();
    lemma_text_around(l);
    lemma_text_around(r);
    if e.row > 0 && e.col == 0 {
        let up = e.lines.take(e.row - 1);
        let one = seq![e.lines[e.row - 1]];
        assert(e.lines.take(e.row) =~= up + one);
        assert(joined_lines(one) == e.lines[e.row - 1]);
        if up.len() > 0 {
            lemma_join_split(up, one);
        } else {
            assert(up + one =~= one);
        }
    }
    if e.row + 1 < e.lines.len() && e.col == e.line().len() {
        let up = e.lines.take(e.row);
        let one = seq![e.line()];
        assert(e.lines.take(e.row + 1) =~= up + one);
        assert(joined_lines(one) == e.line());
        if up.len() > 0 {
            lemma_join_split(up, one);
        } else {
            assert(up + one =~= one);
        }
    }
}

/// Delete takes the character behind the cursor, a line feed too, out of the
/// text, and leaves the cursor where it is.
pub proof fn delete_changes_the_text_behind_the_cursor(e: EditorView)
    requires
        e.wf(),
        e.row + 1 < e.lines.len() || e.col < e.line().len(),
    ensures
        0 <= e.offset() < e.text().len(),
        e.deleted().text() == e.text().remove(e.offset()),
        e.deleted().offset() == e.offset(),
        e.deleted().row == e.row,
        e.deleted().col == e.col,
{
    let r = e.moved_right();
    arrows_step_through_the_text(e);
    left_undoes_right(e);
    the_cursor_stays_in_the_text(e, ' ');
    backspace_is_left_then_delete(r);
    backspace_changes_the_text_before_the_cursor(r);
    the_cursor_has_an_offset(e);
    assert(e.deleted() == r.backspaced());
}

/// The arrows up and down go to the line above or below, if there is one, as far
/// to the right as the cursor was or as that line goes, and change nothing in the
/// text.
pub proof fn arrows_keep_the_column_where_they_can(e: EditorView)
    requires
        e.wf(),
    ensures
        e.moved_up().lines == e.lines,
        e.moved_down().lines == e.lines,
        e.row == 0 ==> e.moved_up() == e,
        e.row > 0 ==> {
            let above = e.lines[e.row - 1].len();
            &&& e.moved_up().row == e.row - 1
            &&& e.col <= above ==> e.moved_up().col == e.col
            &&& e.col > above ==> e.moved_up().col == above
        },
        e.row == e.lines.len() - 1 ==> e.moved_down() == e,
        e.row < e.lines.len() - 1 ==> {
            let below = e.lines[e.row + 1].len();
            &&& e.moved_down().row == e.row + 1
            &&& e.col <= below ==> e.moved_down().col == e.col
            &&& e.col > below ==> e.moved_down().col == below
        },
{
}

proof fn lemma_run(line: Seq<char>, end: int, spaces: bool)
    requires
        0 <= end <= line.len(),
    ensures
        0 <= run_start(line, end, spaces) <= end,
        forall|i: int|
            run_start(line, end, spaces) <= i < end ==> (#[trigger] line[i] == ' ') == spaces,
        run_start(line, end, spaces) > 0 ==> (line[run_start(line, end, spaces) - 1] == ' ')
            != spaces,
    decreases end,
{
    if end > 0 && (line[end - 1] == ' ') == spaces {
        lemma_run(line, end - 1, spaces);
    }
}

/// Taking out a word takes out the spaces right before the cursor, all of them,
/// and the word before those, all of it; the rest of the line stays, and the
/// cursor is where the word began. Returns where the spaces began.
pub proof fn a_word_goes_with_its_spaces(e: EditorView) -> (mid: int)
    requires
        e.wf(),
    ensures
        ({
            let line = e.lines[e.row];
            let f = e.word_deleted();
            let start = f.col;
            &&& f.lines[e.row] == line.take(start) + line.skip(e.col)
            &&& 0 <= start <= mid <= e.col
            &&& forall|i: int| mid <= i < e.col ==> #[trigger] line[i] == ' '
            &&& mid > 0 ==> line[mid - 1] != ' '
            &&& forall|i: int| start <= i < mid ==> #[trigger] line[i] != ' '
            &&& start > 0 ==> line[start - 1] == ' '
        }),
{
    let mid = run_start(e.line(), e.col, true);
    lemma_run(e.line(), e.col, true);
    lemma_run(e.line(), mid, false);
    mid
}

/// Deleting to the start of the line leaves what was behind the cursor.
pub proof fn the_start_of_the_line_goes(e: EditorView)
    requires
        e.wf(),
    ensures
        e.start_deleted().lines[e.row] == e.lines[e.row].skip(e.col),
        e.start_deleted().col == 0,
{
}

/// The text is the lines, in order, with a line feed between each two and
/// nowhere else; an empty buffer is one empty line.
pub proof fn the_text_is_the_lines(e: EditorView, a: Seq<Seq<char>>, b: Seq<Seq<char>>)
    requires
        a.len() > 0,
        b.len() > 0,
    ensures
        e.lines.len() == 0 ==> e.text().len() == 0,
        e.lines.len() == 1 ==> e.text() == e.lines[0],
        e.lines == a + b ==> e.text() == (EditorView { lines: a, ..e }).text() + seq!['\n']
            + (EditorView { lines: b, ..e }).text(),
        EditorView::blank().lines == seq![Seq::<char>::empty()],
        EditorView::blank().row == 0,
        EditorView::blank().col == 0,
{
    lemma_join_split(a, b);
    assert(joined_lines(a).push('\n') + joined_lines(b) =~= joined_lines(a) + seq!['\n']
        + joined_lines(b));
}

/// The contents of an editor are all that is in it.
pub proof fn the_contents_leave_nothing_out(e: Editor)
    ensures
        e@.lines.len() == e.lines@.len(),
        forall|i: int| 0 <= i < e.lines@.len() ==> #[trigger] e@.lines[i] == e.lines@[i]@,
        e@.row == e.row,
        e@.col == e.col,
{
}

} // verus!

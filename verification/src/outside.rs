//! The boundary: every function of the standard library and of other crates
//! that the verified code relies on beyond what `vstd` specifies, each with
//! the contract it is taken at.

use vstd::prelude::*;
use vstd::utf8::{decode_utf8, valid_utf8};

use crate::git::FileStatus;
use crate::ui::{Constraint, Rect};

verus! {

/// Appending one character to a `String` (`String::push`) makes it one
/// character longer and leaves what was there in place.
pub assume_specification[ std::string::String::push ](s: &mut String, c: char)
    ensures
        final(s)@ == old(s)@.push(c),
;

/// The text that `String::from_utf8_lossy` makes of some bytes.
pub uninterp spec fn lossy(bytes: Seq<u8>) -> Seq<char>;

/// Bytes as text, by `String::from_utf8_lossy`: the same bytes always give the
/// same text, and of valid UTF-8 it is the text they encode. What stands in
/// place of bytes that are not UTF-8 is not said.
#[verifier::external_body]
pub(crate) fn lossy_text(bytes: &Vec<u8>) -> (r: String)
    ensures
        r@ == lossy(bytes@),
        valid_utf8(bytes@) ==> r@ == decode_utf8(bytes@),
{
    String::from_utf8_lossy(bytes).into_owned()
}

/// The number of terminal columns that `unicode_width` gives a text.
pub uninterp spec fn width_of(s: Seq<char>) -> usize;

/// Terminal columns of a text, by `unicode_width::UnicodeWidthStr::width`: the
/// same text always has the same width. How wide a text is, is not said.
#[verifier::external_body]
pub(crate) fn columns(s: &str) -> (w: usize)
    ensures
        w == width_of(s@),
{
    unicode_width::UnicodeWidthStr::width(s)
}

/// A hexadecimal digit, in lower case.
pub open spec fn hex_digit(d: int) -> char {
    if d < 10 {
        (0x30 + d) as char
    } else {
        (0x57 + d) as char
    }
}

/// Bytes in hexadecimal, two digits each.
pub open spec fn hex(bytes: Seq<u8>) -> Seq<char> {
    Seq::new(
        2 * bytes.len(),
        |i: int|
            hex_digit(
                if i % 2 == 0 {
                    bytes[i / 2] as int / 16
                } else {
                    bytes[i / 2] as int % 16
                },
            ),
    )
}

/// An object id in hexadecimal, by the `Display` of `git2::Oid` on the id that
/// `git2::Oid::from_bytes` makes of its twenty bytes: lower case, two digits a
/// byte.
#[verifier::external_body]
pub(crate) fn oid_hex(bytes: &[u8; 20]) -> (r: String)
    ensures
        r@ == hex(bytes@),
{
    git2::Oid::from_bytes(bytes).unwrap().to_string()
}

/// Whether all the bits of `flag` are set in `bits`.
pub open spec fn has(bits: u32, flag: u32) -> bool {
    bits & flag == flag
}

/// The flags that the bits of a file's status stand for.
pub open spec fn status_of(bits: u32) -> FileStatus {
    FileStatus {
        index_new: has(bits, 1),
        index_modified: has(bits, 2),
        index_deleted: has(bits, 4),
        index_renamed: has(bits, 8),
        index_typechange: has(bits, 16),
        wt_new: has(bits, 128),
        wt_modified: has(bits, 256),
        wt_deleted: has(bits, 512),
        wt_typechange: has(bits, 1024),
        wt_renamed: has(bits, 2048),
    }
}

/// The flags of a file's status, by `git2::Status::contains` on the status
/// with those bits, for each of the flags that `git2` defines for the index
/// and the working tree: a flag counts when its bit is set.
#[verifier::external_body]
pub(crate) fn decode_status(bits: u32) -> (r: FileStatus)
    ensures
        r == status_of(bits),
{
    let s = git2::Status::from_bits_retain(bits);
    FileStatus {
        index_new: s.contains(git2::Status::INDEX_NEW),
        index_modified: s.contains(git2::Status::INDEX_MODIFIED),
        index_deleted: s.contains(git2::Status::INDEX_DELETED),
        index_renamed: s.contains(git2::Status::INDEX_RENAMED),
        index_typechange: s.contains(git2::Status::INDEX_TYPECHANGE),
        wt_new: s.contains(git2::Status::WT_NEW),
        wt_modified: s.contains(git2::Status::WT_MODIFIED),
        wt_deleted: s.contains(git2::Status::WT_DELETED),
        wt_typechange: s.contains(git2::Status::WT_TYPECHANGE),
        wt_renamed: s.contains(git2::Status::WT_RENAMED),
    }
}

/// The far end of a stretch from `start`, as far as a position can count.
pub open spec fn far_end(start: u16, len: u16) -> int {
    if start + len <= u16::MAX {
        start + len
    } else {
        u16::MAX as int
    }
}

/// Whether a rectangle is the part of another that a portion of its height is:
/// as wide as all of it.
pub open spec fn is_band(part: Rect, area: Rect, portion: (int, int)) -> bool {
    &&& part.x == area.x
    &&& part.width == area.width
    &&& part.y == area.y + portion.0
    &&& part.height == portion.1
}

/// Whether a rectangle is the part of another that a portion of its width is:
/// as high as all of it.
pub open spec fn is_column(part: Rect, area: Rect, portion: (int, int)) -> bool {
    &&& part.y == area.y
    &&& part.height == area.height
    &&& part.x == area.x + portion.0
    &&& part.width == portion.1
}

/// A share of a length in percent, rounded to the nearest whole.
pub open spec fn share(extent: int, percent: int) -> int {
    (extent * percent + 50) / 100
}

/// Where the parts of a length start and how long they are, for the lists of
/// constraints that leave no choice: a fixed length beside a part that fills,
/// or between two, which share the rest; a percentage beside a part that fills;
/// three percentages of no more than the whole.
pub open spec fn portions(wanted: Seq<Constraint>, extent: int) -> Option<Seq<(int, int)>> {
    if wanted.len() == 2 {
        match (wanted[0], wanted[1]) {
            (Constraint::Min(0), Constraint::Length(n)) => {
                let m = if n <= extent {
                    n as int
                } else {
                    extent
                };
                Some(seq![(0int, extent - m), (extent - m, m)])
            },
            (Constraint::Percentage(p), Constraint::Min(0)) => if p <= 100 {
                let a = share(extent, p as int);
                Some(seq![(0int, a), (a, extent - a)])
            } else {
                None
            },
            _ => None,
        }
    } else if wanted.len() == 3 {
        match (wanted[0], wanted[1], wanted[2]) {
            (Constraint::Min(0), Constraint::Length(n), Constraint::Min(0)) => {
                let m = if n <= extent {
                    n as int
                } else {
                    extent
                };
                let a = (extent - m + 1) / 2;
                Some(seq![(0int, a), (a, m), (a + m, extent - a - m)])
            },
            (Constraint::Percentage(p), Constraint::Percentage(q), Constraint::Percentage(r)) =>
                if p + q + r <= 100 {
                    let a = share(extent, p as int);
                    let b = share(extent, p + q);
                    let c = share(extent, p + q + r);
                    Some(seq![(0int, a), (a, b - a), (b, c - b)])
                } else {
                    None
                },
            _ => None,
        }
    } else {
        None
    }
}

/// An area split from top to bottom, by `ratatui::layout::Layout::vertical` and
/// `Layout::split`, for a list of constraints that leaves no choice: one part
/// for each constraint, as wide as the area, where `portions` puts it.
#[verifier::external_body]
pub(crate) fn split_vertical(constraints: &Vec<Constraint>, area: Rect) -> (parts: Vec<Rect>)
    requires
        portions(constraints@, far_end(area.y, area.height) - area.y) is Some,
    ensures
        parts@.len() == constraints@.len(),
        forall|i: int|
            0 <= i < parts@.len() ==> is_band(
                #[trigger] parts@[i],
                area,
                portions(constraints@, far_end(area.y, area.height) - area.y)->0[i],
            ),
{
    let wanted = constraints.iter().map(|c| match *c {
        Constraint::Min(n) => ratatui::layout::Constraint::Min(n),
        Constraint::Length(n) => ratatui::layout::Constraint::Length(n),
        Constraint::Percentage(n) => ratatui::layout::Constraint::Percentage(n),
    });
    let area = ratatui::layout::Rect { x: area.x, y: area.y, width: area.width, height: area.height };
    let split = ratatui::layout::Layout::vertical(wanted).split(area);
    split.iter().map(|r| Rect { x: r.x, y: r.y, width: r.width, height: r.height }).collect()
}

/// An area split from left to right, by `ratatui::layout::Layout::horizontal`
/// and `Layout::split`, for a list of constraints that leaves no choice: one
/// part for each constraint, as high as the area, where `portions` puts it.
#[verifier::external_body]
pub(crate) fn split_horizontal(constraints: &Vec<Constraint>, area: Rect) -> (parts: Vec<Rect>)
    requires
        portions(constraints@, far_end(area.x, area.width) - area.x) is Some,
    ensures
        parts@.len() == constraints@.len(),
        forall|i: int|
            0 <= i < parts@.len() ==> is_column(
                #[trigger] parts@[i],
                area,
                portions(constraints@, far_end(area.x, area.width) - area.x)->0[i],
            ),
{
    let wanted = constraints.iter().map(|c| match *c {
        Constraint::Min(n) => ratatui::layout::Constraint::Min(n),
        Constraint::Length(n) => ratatui::layout::Constraint::Length(n),
        Constraint::Percentage(n) => ratatui::layout::Constraint::Percentage(n),
    });
    let area = ratatui::layout::Rect { x: area.x, y: area.y, width: area.width, height: area.height };
    let split = ratatui::layout::Layout::horizontal(wanted).split(area);
    split.iter().map(|r| Rect { x: r.x, y: r.y, width: r.width, height: r.height }).collect()
}

} // verus!

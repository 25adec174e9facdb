//! Text primitives: character classes, trimming, line and word splitting,
//! substring search, and decimal numbers in both directions. Everything is
//! stated over `Seq<char>`, the view of `str` and `String`.

use vstd::prelude::*;

verus! {

// ---------------------------------------------------------------------------
// Strings and character vectors
// ---------------------------------------------------------------------------

/// The texts held by a sequence of strings.
pub open spec fn texts(v: Seq<String>) -> Seq<Seq<char>> {
    v.map_values(|s: String| s@)
}

/// The characters of a string, in order.
pub fn chars_of(s: &str) -> (r: Vec<char>)
    ensures
        r@ == s@,
{
    let mut r: Vec<char> = Vec::new();
    for c in it: s.chars()
        invariant
            r@ == it.seq().take(it.index()),
            it.seq() == s@,
    {
        r.push(c);
        assert(it.seq().take(it.index() + 1) =~= it.seq().take(it.index()).push(c));
    }
    assert(s@.take(s@.len() as int) =~= s@);
    r
}

/// The string made of the characters `from..to`.
pub fn string_of(chars: &Vec<char>, from: usize, to: usize) -> (r: String)
    requires
        from <= to <= chars@.len(),
    ensures
        r@ == chars@.subrange(from as int, to as int),
{
    let mut r = String::new();
    let mut i: usize = from;
    assert(r@ =~= chars@.subrange(from as int, from as int));
    while i < to
        invariant
            from <= i <= to <= chars@.len(),
            r@ == chars@.subrange(from as int, i as int),
        decreases to - i,
    {
        r.push(chars[i]);
        i += 1;
        assert(r@ =~= chars@.subrange(from as int, i as int));
    }
    r
}

/// A copy of a string.
pub fn copy_of(s: &str) -> (r: String)
    ensures
        r@ == s@,
{
    s.to_owned()
}

// ---------------------------------------------------------------------------
// Character classes
// ---------------------------------------------------------------------------

/// The characters with the Unicode `White_Space` property.
pub open spec fn white(c: char) -> bool {
    let u = c as u32;
    ||| 0x9 <= u <= 0xD
    ||| u == 0x20
    ||| u == 0x85
    ||| u == 0xA0
    ||| u == 0x1680
    ||| 0x2000 <= u <= 0x200A
    ||| u == 0x2028
    ||| u == 0x2029
    ||| u == 0x202F
    ||| u == 0x205F
    ||| u == 0x3000
}

/// Whether `c` is white space.
pub fn is_white(c: char) -> (r: bool)
    ensures
        r == white(c),
{
    let u: u32 = c as u32;
    (0x9 <= u && u <= 0xD) || u == 0x20 || u == 0x85 || u == 0xA0 || u == 0x1680 || (0x2000 <= u
        && u <= 0x200A) || u == 0x2028 || u == 0x2029 || u == 0x202F || u == 0x205F || u == 0x3000
}

/// The control characters (Unicode category `Cc`).
pub open spec fn control(c: char) -> bool {
    c as u32 <= 0x1F || 0x7F <= c as u32 <= 0x9F
}

/// Whether `c` is a control character.
pub fn is_control(c: char) -> (r: bool)
    ensures
        r == control(c),
{
    let u: u32 = c as u32;
    u <= 0x1F || (0x7F <= u && u <= 0x9F)
}

// ---------------------------------------------------------------------------
// Trimming
// ---------------------------------------------------------------------------

/// `s` without the run of `c` at its end.
pub open spec fn trim_end_char(s: Seq<char>, c: char) -> Seq<char>
    decreases s.len(),
{
    if s.len() > 0 && s.last() == c {
        trim_end_char(s.drop_last(), c)
    } else {
        s
    }
}

/// `s` without the white space at its end.
pub open spec fn trim_end(s: Seq<char>) -> Seq<char>
    decreases s.len(),
{
    if s.len() > 0 && white(s.last()) {
        trim_end(s.drop_last())
    } else {
        s
    }
}

/// `s` without the white space at its start.
pub open spec fn trim_start(s: Seq<char>) -> Seq<char>
    decreases s.len(),
{
    if s.len() > 0 && white(s.first()) {
        trim_start(s.drop_first())
    } else {
        s
    }
}

/// `s` without the white space at either end.
pub open spec fn trim(s: Seq<char>) -> Seq<char> {
    trim_end(trim_start(s))
}

/// Where the characters `0..end` stop once the run of `c` at their end is gone.
fn end_before_run(chars: &Vec<char>, end: usize, c: char) -> (r: usize)
    requires
        end <= chars@.len(),
    ensures
        r <= end,
        chars@.take(r as int) == trim_end_char(chars@.take(end as int), c),
{
    let mut r: usize = end;
    while r > 0 && chars[r - 1] == c
        invariant
            r <= end <= chars@.len(),
            trim_end_char(chars@.take(r as int), c) == trim_end_char(chars@.take(end as int), c),
        decreases r,
    {
        assert(chars@.take(r as int).drop_last() =~= chars@.take(r - 1));
        r -= 1;
    }
    r
}

/// Where the characters `0..end` stop once the white space at their end is gone.
fn end_before_white(chars: &Vec<char>, end: usize) -> (r: usize)
    requires
        end <= chars@.len(),
    ensures
        r <= end,
        chars@.take(r as int) == trim_end(chars@.take(end as int)),
{
    let mut r: usize = end;
    while r > 0 && is_white(chars[r - 1])
        invariant
            r <= end <= chars@.len(),
            trim_end(chars@.take(r as int)) == trim_end(chars@.take(end as int)),
        decreases r,
    {
        assert(chars@.take(r as int).drop_last() =~= chars@.take(r - 1));
        r -= 1;
    }
    r
}

/// A line without its ending: first the line feeds at the end go, then the
/// carriage returns.
pub open spec fn without_eol(s: Seq<char>) -> Seq<char> {
    trim_end_char(trim_end_char(s, '\n'), '\r')
}

/// `s` without the line ending at its end.
pub fn trim_eol(s: &str) -> (r: String)
    ensures
        r@ == without_eol(s@),
{
    let chars = chars_of(s);
    let n: usize = chars.len();
    assert(chars@.take(n as int) =~= chars@);
    let a: usize = end_before_run(&chars, n, '\n');
    let b: usize = end_before_run(&chars, a, '\r');
    let r = string_of(&chars, 0, b);
    assert(r@ =~= chars@.take(b as int));
    r
}

/// `s` without the white space at its end.
pub fn trimmed_end(s: &str) -> (r: String)
    ensures
        r@ == trim_end(s@),
{
    let chars = chars_of(s);
    let n: usize = chars.len();
    assert(chars@.take(n as int) =~= chars@);
    let b: usize = end_before_white(&chars, n);
    let r = string_of(&chars, 0, b);
    assert(r@ =~= chars@.take(b as int));
    r
}

/// `s` without the white space at either end.
pub fn trimmed(s: &str) -> (r: String)
    ensures
        r@ == trim(s@),
{
    let chars = chars_of(s);
    let n: usize = chars.len();
    let mut from: usize = 0;
    assert(chars@.skip(0) =~= chars@);
    while from < n && is_white(chars[from])
        invariant
            from <= n == chars@.len(),
            trim_start(chars@.skip(from as int)) == trim_start(chars@),
        decreases n - from,
    {
        assert(chars@.skip(from as int).drop_first() =~= chars@.skip(from + 1));
        from += 1;
    }
    let rest = string_of(&chars, from, n);
    assert(rest@ =~= chars@.skip(from as int));
    trimmed_end(rest.as_str())
}

/// Nothing remains of a text exactly when it holds white space only.
pub proof fn trim_is_empty_iff_all_white(s: Seq<char>)
    ensures
        trim(s).len() == 0 <==> forall|i: int| 0 <= i < s.len() ==> white(#[trigger] s[i]),
{
    lemma_trim_start(s);
    let t = trim_start(s);
    lemma_trim_end(t);
    if trim(s).len() == 0 {
        if t.len() > 0 {
            assert(white(t[0]));
            assert(t.first() == t[0]);
        }
    } else {
        assert(t.len() > 0);
        assert(t[0] == s[s.len() - t.len()]);
    }
}

/// A trimmed text neither starts nor ends with white space.
pub proof fn trim_has_no_white_ends(s: Seq<char>)
    ensures
        trim(s).len() > 0 ==> !white(trim(s).first()) && !white(trim(s).last()),
{
    lemma_trim_start(s);
    lemma_trim_end(trim_start(s));
    let t = trim_start(s);
    if trim(s).len() > 0 {
        assert(trim(s)[0] == t[0]);
    }
}

/// Trimming a trimmed text changes nothing.
pub proof fn trimming_twice_is_trimming_once(s: Seq<char>)
    ensures
        trim(trim(s)) == trim(s),
{
    trim_has_no_white_ends(s);
}

proof fn lemma_trim_start(s: Seq<char>)
    ensures
        trim_start(s).len() <= s.len(),
        trim_start(s) == s.skip(s.len() - trim_start(s).len()),
        forall|i: int| 0 <= i < s.len() - trim_start(s).len() ==> white(#[trigger] s[i]),
        trim_start(s).len() > 0 ==> !white(trim_start(s).first()),
    decreases s.len(),
{
    if s.len() > 0 && white(s.first()) {
        let d = s.drop_first();
        lemma_trim_start(d);
        assert(trim_start(s) == trim_start(d));
        assert(d.skip(d.len() - trim_start(d).len()) =~= s.skip(s.len() - trim_start(s).len()));
        assert forall|i: int| 0 <= i < s.len() - trim_start(s).len() implies white(
            #[trigger] s[i],
        ) by {
            if i > 0 {
                assert(s[i] == d[i - 1]);
            }
        }
    } else {
        assert(s.skip(0) =~= s);
    }
}

proof fn lemma_trim_end(s: Seq<char>)
    ensures
        trim_end(s).len() <= s.len(),
        trim_end(s) == s.take(trim_end(s).len() as int),
        forall|i: int| trim_end(s).len() <= i < s.len() ==> white(#[trigger] s[i]),
        trim_end(s).len() > 0 ==> !white(trim_end(s).last()),
    decreases s.len(),
{
    if s.len() > 0 && white(s.last()) {
        let d = s.drop_last();
        lemma_trim_end(d);
        assert(d.take(trim_end(d).len() as int) =~= s.take(trim_end(s).len() as int));
        assert forall|i: int| trim_end(s).len() <= i < s.len() implies white(#[trigger] s[i]) by {
            if i < s.len() - 1 {
                assert(s[i] == d[i]);
            }
        }
    } else {
        assert(s.take(s.len() as int) =~= s);
    }
}

// ---------------------------------------------------------------------------
// Splitting
// ---------------------------------------------------------------------------

/// All the parts of a text put back together.
pub open spec fn concat(parts: Seq<Seq<char>>) -> Seq<char>
    decreases parts.len(),
{
    if parts.len() == 0 {
        Seq::empty()
    } else {
        concat(parts.drop_last()) + parts.last()
    }
}

/// `s` cut after every line feed; a last part without one is a part too.
pub open spec fn pieces(s: Seq<char>) -> Seq<Seq<char>>
    decreases s.len(),
{
    if s.len() == 0 {
        Seq::empty()
    } else {
        let before = s.drop_last();
        if before.len() == 0 || before.last() == '\n' {
            pieces(before).push(seq![s.last()])
        } else {
            grown(pieces(before), s.last())
        }
    }
}

/// `parts` with `c` put at the end of the last part.
pub open spec fn grown(parts: Seq<Seq<char>>, c: char) -> Seq<Seq<char>> {
    parts.drop_last().push(parts.last().push(c))
}

/// The parts of a text, put back together, are the text.
pub proof fn pieces_concat(s: Seq<char>)
    ensures
        concat(pieces(s)) == s,
        s.len() > 0 ==> pieces(s).len() > 0,
    decreases s.len(),
{
    if s.len() > 0 {
        let before = s.drop_last();
        pieces_concat(before);
        let p = pieces(s);
        assert(before.push(s.last()) =~= s);
        if before.len() == 0 || before.last() == '\n' {
            assert(p.drop_last() =~= pieces(before));
            assert(concat(p) =~= s);
        } else {
            let q = pieces(before);
            assert(p.drop_last() =~= q.drop_last());
            assert(concat(p) =~= concat(q.drop_last()) + q.last().push(s.last()));
            assert(concat(p) =~= concat(q).push(s.last()));
        }
    }
}

/// `s` cut after every line feed.
pub fn split_pieces(s: &str) -> (r: Vec<String>)
    ensures
        texts(r@) == pieces(s@),
{
    let chars = chars_of(s);
    let n: usize = chars.len();
    let mut r: Vec<String> = Vec::new();
    let mut from: usize = 0;
    let mut i: usize = 0;
    assert(texts(r@) =~= pieces(chars@.take(0)));
    while i < n
        invariant
            from <= i <= n == chars@.len(),
            i < n || from <= i,
            i == 0 ==> from == 0,
            i > 0 ==> (from == i <==> chars@[i - 1] == '\n'),
            from < i ==> pieces(chars@.take(i as int)) == texts(r@).push(
                chars@.subrange(from as int, i as int),
            ),
            from == i ==> pieces(chars@.take(i as int)) == texts(r@),
        decreases n - i,
    {
        let c = chars[i];
        proof {
            let now = chars@.take(i + 1);
            assert(now.drop_last() =~= chars@.take(i as int));
            let part = chars@.subrange(from as int, i + 1);
            if from < i {
                let was = chars@.subrange(from as int, i as int);
                assert(texts(r@).push(was).drop_last() =~= texts(r@));
                assert(part =~= was.push(c));
            } else {
                assert(part =~= seq![c]);
            }
            assert(pieces(now) =~= texts(r@).push(part));
        }
        i += 1;
        if c == '\n' {
            let ghost was = r@;
            let part = string_of(&chars, from, i);
            r.push(part);
            assert(texts(r@) =~= texts(was).push(part@));
            from = i;
        }
    }
    if from < n {
        let ghost was = r@;
        let part = string_of(&chars, from, n);
        r.push(part);
        assert(texts(r@) =~= texts(was).push(part@));
    }
    assert(chars@.take(n as int) =~= s@);
    r
}

/// A piece without its line ending: a line feed, with the one carriage return
/// right before it. A piece that ends in no line feed is kept as it is.
pub open spec fn chomp(piece: Seq<char>) -> Seq<char> {
    if piece.len() > 0 && piece.last() == '\n' {
        let a = piece.drop_last();
        if a.len() > 0 && a.last() == '\r' {
            a.drop_last()
        } else {
            a
        }
    } else {
        piece
    }
}

/// The lines of a text, without their endings.
pub open spec fn lines_of(s: Seq<char>) -> Seq<Seq<char>> {
    pieces(s).map_values(|p: Seq<char>| chomp(p))
}

fn chomped(piece: &str) -> (r: String)
    ensures
        r@ == chomp(piece@),
{
    let chars = chars_of(piece);
    let n: usize = chars.len();
    let mut end: usize = n;
    if n > 0 && chars[n - 1] == '\n' {
        end = n - 1;
        if end > 0 && chars[end - 1] == '\r' {
            end = end - 1;
        }
    }
    let r = string_of(&chars, 0, end);
    assert(r@ =~= chomp(piece@));
    r
}

/// The lines of `s`, without their endings.
pub fn split_lines(s: &str) -> (r: Vec<String>)
    ensures
        texts(r@) == lines_of(s@),
{
    let parts = split_pieces(s);
    let mut r: Vec<String> = Vec::new();
    let mut i: usize = 0;
    while i < parts.len()
        invariant
            i <= parts@.len(),
            r@.len() == i,
            forall|j: int| 0 <= j < i ==> (#[trigger] r@[j])@ == chomp(parts@[j]@),
        decreases parts.len() - i,
    {
        let line = chomped(parts[i].as_str());
        r.push(line);
        i += 1;
    }
    assert forall|j: int| 0 <= j < r@.len() implies texts(r@)[j] == lines_of(s@)[j] by {
        assert(texts(parts@)[j] == parts@[j]@);
    }
    assert(texts(parts@).len() == pieces(s@).len());
    assert(texts(r@) =~= lines_of(s@));
    r
}

/// The words of a text: its longest runs of characters other than white space.
pub open spec fn words(s: Seq<char>) -> Seq<Seq<char>>
    decreases s.len(),
{
    if s.len() == 0 {
        Seq::empty()
    } else {
        let before = s.drop_last();
        if white(s.last()) {
            words(before)
        } else if before.len() == 0 || white(before.last()) {
            words(before).push(seq![s.last()])
        } else {
            grown(words(before), s.last())
        }
    }
}

/// The words of `s`.
pub fn split_words(s: &str) -> (r: Vec<String>)
    ensures
        texts(r@) == words(s@),
{
    let chars = chars_of(s);
    let n: usize = chars.len();
    let mut r: Vec<String> = Vec::new();
    let mut from: usize = 0;
    let mut i: usize = 0;
    assert(texts(r@) =~= words(chars@.take(0)));
    while i < n
        invariant
            from <= i <= n == chars@.len(),
            i > 0 ==> (from == i <==> white(chars@[i - 1])),
            from < i ==> words(chars@.take(i as int)) == texts(r@).push(
                chars@.subrange(from as int, i as int),
            ),
            from == i ==> words(chars@.take(i as int)) == texts(r@),
        decreases n - i,
    {
        let c = chars[i];
        proof {
            let now = chars@.take(i + 1);
            assert(now.drop_last() =~= chars@.take(i as int));
            let part = chars@.subrange(from as int, i + 1);
            if !white(c) {
                if from < i {
                    let was = chars@.subrange(from as int, i as int);
                    assert(texts(r@).push(was).drop_last() =~= texts(r@));
                    assert(part =~= was.push(c));
                } else {
                    assert(part =~= seq![c]);
                }
                assert(words(now) =~= texts(r@).push(part));
            }
        }
        if is_white(c) {
            if from < i {
                let ghost was = r@;
                let part = string_of(&chars, from, i);
                r.push(part);
                assert(texts(r@) =~= texts(was).push(part@));
            }
            from = i + 1;
        }
        i += 1;
    }
    if from < n {
        let ghost was = r@;
        let part = string_of(&chars, from, n);
        r.push(part);
        assert(texts(r@) =~= texts(was).push(part@));
    }
    assert(chars@.take(n as int) =~= s@);
    r
}

// ---------------------------------------------------------------------------
// Searching
// ---------------------------------------------------------------------------

/// Whether `pat` stands in `s` at position `i`.
pub open spec fn stands_at(s: Seq<char>, pat: Seq<char>, i: int) -> bool {
    0 <= i && i + pat.len() <= s.len() && s.subrange(i, i + pat.len()) == pat
}

/// The first position of `pat` in `s` at or after `i`.
pub open spec fn find_from(s: Seq<char>, pat: Seq<char>, i: int) -> Option<int>
    decreases s.len() - i + 1,
{
    if i < 0 || i + pat.len() > s.len() {
        None
    } else if stands_at(s, pat, i) {
        Some(i)
    } else {
        find_from(s, pat, i + 1)
    }
}

/// The first position of `pat` in `s`.
pub open spec fn find(s: Seq<char>, pat: Seq<char>) -> Option<int> {
    find_from(s, pat, 0)
}

fn matches_at(s: &Vec<char>, pat: &Vec<char>, at: usize) -> (r: bool)
    requires
        at + pat@.len() <= s@.len(),
    ensures
        r == stands_at(s@, pat@, at as int),
{
    let n: usize = s.len();
    let mut i: usize = 0;
    while i < pat.len()
        invariant
            i <= pat@.len(),
            at + pat@.len() <= s@.len() == n,
            forall|j: int| 0 <= j < i ==> s@[at + j] == pat@[j],
        decreases pat.len() - i,
    {
        if s[at + i] != pat[i] {
            assert(s@.subrange(at as int, at + pat@.len())[i as int] == s@[at + i]);
            return false;
        }
        i += 1;
    }
    assert(s@.subrange(at as int, at + pat@.len()) =~= pat@);
    true
}

/// The first position, in characters, of `pat` in `s`.
pub fn position_of(s: &str, pat: &str) -> (r: Option<usize>)
    ensures
        match r {
            Some(i) => find(s@, pat@) == Some(i as int),
            None => find(s@, pat@) is None,
        },
{
    let hay = chars_of(s);
    let needle = chars_of(pat);
    if needle.len() > hay.len() {
        return None;
    }
    let last: usize = hay.len() - needle.len();
    let mut i: usize = 0;
    loop
        invariant
            hay@ == s@,
            needle@ == pat@,
            i <= last,
            last + needle@.len() == hay@.len(),
            find(s@, pat@) == find_from(s@, pat@, i as int),
        decreases last - i,
    {
        if matches_at(&hay, &needle, i) {
            return Some(i);
        }
        if i == last {
            assert(find_from(s@, pat@, i + 1) is None);
            return None;
        }
        i += 1;
    }
}

/// Whether `s` begins with `prefix`.
pub fn starts_with(s: &str, prefix: &str) -> (r: bool)
    ensures
        r == prefix@.is_prefix_of(s@),
{
    let hay = chars_of(s);
    let needle = chars_of(prefix);
    if needle.len() > hay.len() {
        return false;
    }
    let r = matches_at(&hay, &needle, 0);
    assert(s@.subrange(0, prefix@.len() as int) =~= s@.take(prefix@.len() as int));
    r
}

/// Whether `s` ends with `suffix`.
pub fn ends_with(s: &str, suffix: &str) -> (r: bool)
    ensures
        r == suffix@.is_suffix_of(s@),
{
    let hay = chars_of(s);
    let needle = chars_of(suffix);
    if needle.len() > hay.len() {
        return false;
    }
    let r = matches_at(&hay, &needle, hay.len() - needle.len());
    r
}

// ---------------------------------------------------------------------------
// Decimal numbers
// ---------------------------------------------------------------------------

/// The character of a decimal digit.
pub open spec fn digit(d: int) -> char {
    (0x30 + d) as char
}

/// A number in decimal, without leading zeros.
pub open spec fn decimal(n: nat) -> Seq<char>
    decreases n,
{
    if n < 10 {
        seq![digit(n as int)]
    } else {
        decimal(n / 10).push(digit((n % 10) as int))
    }
}

/// `n` zeros.
pub open spec fn zeros(n: int) -> Seq<char> {
    Seq::new(if n > 0 { n as nat } else { 0 }, |i: int| '0')
}

/// A number in decimal, filled up with leading zeros to `width` digits.
pub open spec fn padded(n: nat, width: int) -> Seq<char> {
    zeros(width - decimal(n).len()) + decimal(n)
}

fn digit_char(d: u8) -> (c: char)
    requires
        d < 10,
    ensures
        c == digit(d as int),
{
    (0x30 + d) as char
}

/// A number in decimal.
pub fn to_decimal(n: u128) -> (r: String)
    ensures
        r@ == decimal(n as nat),
    decreases n,
{
    if n < 10 {
        let mut r = String::new();
        r.push(digit_char(n as u8));
        assert(r@ =~= seq![digit(n as int)]);
        r
    } else {
        let mut r = to_decimal(n / 10);
        r.push(digit_char((n % 10) as u8));
        r
    }
}

/// A number in decimal, with at least `width` digits.
pub fn to_padded(n: u128, width: usize) -> (r: String)
    ensures
        r@ == padded(n as nat, width as int),
{
    let body = to_decimal(n);
    let len: usize = body.as_str().unicode_len();
    let mut r = String::new();
    let mut k: usize = len;
    assert(r@ =~= zeros(0));
    while k < width
        invariant
            len <= k,
            len < width ==> k <= width,
            len >= width ==> k == len,
            r@ == zeros(k - len),
        decreases width - k,
    {
        r.push('0');
        k += 1;
        assert(r@ =~= zeros(k - len));
    }
    assert(zeros(k - len) =~= zeros(width - len));
    r.append(body.as_str());
    r
}

/// An integer in decimal.
pub open spec fn signed(n: int) -> Seq<char> {
    if n < 0 {
        seq!['-'] + decimal((-n) as nat)
    } else {
        decimal(n as nat)
    }
}

/// An integer in decimal.
pub fn to_signed(n: i64) -> (r: String)
    ensures
        r@ == signed(n as int),
{
    if n < 0 {
        let mut r = String::new();
        r.push('-');
        r.append(to_decimal((-(n as i128)) as u128).as_str());
        assert(r@ =~= signed(n as int));
        r
    } else {
        to_decimal(n as u128)
    }
}

// ---------------------------------------------------------------------------
// Joining
// ---------------------------------------------------------------------------

/// Texts put together with `sep` between each two.
pub open spec fn joined(parts: Seq<Seq<char>>, sep: Seq<char>) -> Seq<char>
    decreases parts.len(),
{
    if parts.len() == 0 {
        Seq::empty()
    } else if parts.len() == 1 {
        parts[0]
    } else {
        joined(parts.drop_last(), sep) + sep + parts.last()
    }
}

/// Texts put together with `sep` between each two.
pub fn join(parts: &Vec<String>, sep: &str) -> (r: String)
    ensures
        r@ == joined(texts(parts@), sep@),
{
    let ghost all = texts(parts@);
    let mut r = String::new();
    let mut i: usize = 0;
    assert(r@ =~= joined(all.take(0), sep@));
    while i < parts.len()
        invariant
            i <= parts@.len(),
            all == texts(parts@),
            r@ == joined(all.take(i as int), sep@),
        decreases parts.len() - i,
    {
        let ghost was = r@;
        if i > 0 {
            r.append(sep);
        }
        r.append(parts[i].as_str());
        proof {
            assert(all.take(i + 1).drop_last() =~= all.take(i as int));
            assert(all[i as int] == parts@[i as int]@);
            if i == 0 {
                assert(was =~= Seq::empty());
                assert(r@ =~= all[0]);
            }
            assert(r@ =~= joined(all.take(i + 1), sep@));
        }
        i += 1;
    }
    assert(all.take(i as int) =~= all);
    r
}

/// The text of a string, if there is one.
pub open spec fn maybe(s: Option<String>) -> Option<Seq<char>> {
    match s {
        Some(t) => Some(t@),
        None => None,
    }
}

/// A text, or another in its place.
pub open spec fn text_or(s: Option<Seq<char>>, other: Seq<char>) -> Seq<char> {
    match s {
        Some(t) => t,
        None => other,
    }
}

/// A copy of a string, or of another in its place.
pub fn copy_or(s: &Option<String>, other: &str) -> (r: String)
    ensures
        r@ == text_or(maybe(*s), other@),
{
    match s {
        Some(t) => copy_of(t.as_str()),
        None => copy_of(other),
    }
}

/// The digit a character stands for.
pub open spec fn digit_value(c: char) -> Option<nat> {
    if 0x30 <= c as u32 <= 0x39 {
        Some((c as u32 - 0x30) as nat)
    } else {
        None
    }
}

/// Whether a text is made of decimal digits only.
pub open spec fn all_digits(s: Seq<char>) -> bool {
    forall|i: int| 0 <= i < s.len() ==> digit_value(#[trigger] s[i]) is Some
}

/// The number that a text of decimal digits stands for.
pub open spec fn digits_value(s: Seq<char>) -> nat
    decreases s.len(),
{
    if s.len() == 0 {
        0
    } else {
        digits_value(s.drop_last()) * 10 + digit_value(s.last())->0
    }
}

/// A text read as an unsigned 64-bit number: at least one digit, an optional
/// plus sign before them, nothing else, and a value that fits.
pub open spec fn parsed_u64(s: Seq<char>) -> Option<u64> {
    let body = if s.len() > 0 && s[0] == '+' {
        s.skip(1)
    } else {
        s
    };
    if body.len() > 0 && all_digits(body) && digits_value(body) <= u64::MAX {
        Some(digits_value(body) as u64)
    } else {
        None
    }
}

proof fn lemma_digits_value_monotone(s: Seq<char>, k: int)
    requires
        0 <= k <= s.len(),
    ensures
        digits_value(s.take(k)) <= digits_value(s),
    decreases s.len() - k,
{
    if k < s.len() {
        lemma_digits_value_monotone(s, k + 1);
        assert(s.take(k + 1).drop_last() =~= s.take(k));
    } else {
        assert(s.take(k) =~= s);
    }
}

/// `s` read as an unsigned 64-bit number.
pub fn parse_u64(s: &str) -> (r: Option<u64>)
    ensures
        r == parsed_u64(s@),
{
    let chars = chars_of(s);
    let n: usize = chars.len();
    let from: usize = if n > 0 && chars[0] == '+' {
        1
    } else {
        0
    };
    let ghost body = chars@.skip(from as int);
    assert(from == 0 ==> body =~= s@);
    if from == n {
        return None;
    }
    let mut value: u64 = 0;
    let mut i: usize = from;
    assert(body.take(0).len() == 0);
    while i < n
        invariant
            from <= i <= n == chars@.len(),
            body == chars@.skip(from as int),
            body.len() > 0,
            parsed_u64(s@) == (if all_digits(body) && digits_value(body) <= u64::MAX {
                Some(digits_value(body) as u64)
            } else {
                None::<u64>
            }),
            value == digits_value(body.take(i - from)),
            forall|j: int| 0 <= j < i - from ==> digit_value(#[trigger] body[j]) is Some,
        decreases n - i,
    {
        let c = chars[i];
        let u: u32 = c as u32;
        assert(body[i - from] == c);
        if u < 0x30 || u > 0x39 {
            return None;
        }
        proof {
            assert(body.take(i - from + 1).drop_last() =~= body.take(i - from));
            lemma_digits_value_monotone(body, i - from + 1);
        }
        let d: u64 = (u - 0x30) as u64;
        match value.checked_mul(10) {
            None => { return None; },
            Some(tens) => match tens.checked_add(d) {
                None => { return None; },
                Some(v) => { value = v; },
            },
        }
        i += 1;
    }
    assert(body.take(n - from) =~= body);
    Some(value)
}

/// A number written in decimal reads back as itself.
pub proof fn decimal_reads_back(n: u64)
    ensures
        parsed_u64(decimal(n as nat)) == Some(n),
{
    lemma_decimal(n as nat);
    let s = decimal(n as nat);
    assert(digit_value(s[0]) is Some);
}

/// What is written in decimal are digits, at least one, of that value.
pub proof fn lemma_decimal(n: nat)
    ensures
        decimal(n).len() > 0,
        all_digits(decimal(n)),
        digits_value(decimal(n)) == n,
    decreases n,
{
    let s = decimal(n);
    if n < 10 {
        assert(s.drop_last().len() == 0);
        assert(digits_value(s.drop_last()) == 0);
    } else {
        lemma_decimal(n / 10);
        assert(s.drop_last() =~= decimal(n / 10));
        assert forall|i: int| 0 <= i < s.len() implies digit_value(#[trigger] s[i]) is Some by {
            if i < s.len() - 1 {
                assert(s[i] == decimal(n / 10)[i]);
            }
        }
    }
}

// ---------------------------------------------------------------------------
// What the pieces of a text are
// ---------------------------------------------------------------------------

/// White space is the ASCII kind, the next-line and the no-break space, and the
/// spaces and separators above Latin-1.
pub proof fn white_space_characters(c: char)
    ensures
        (c as u32) < 0x80 ==> (white(c) <==> c == ' ' || c == '\t' || c == '\n' || c == '\u{B}' || c
            == '\u{C}' || c == '\r'),
        0x80 <= c as u32 && (c as u32) < 0x1680 ==> (white(c) <==> c == '\u{85}' || c == '\u{A0}'),
        0x1680 <= c as u32 && (c as u32) < 0x2000 ==> (white(c) <==> c == '\u{1680}'),
        0x2000 <= c as u32 && c as u32 <= 0x200A ==> white(c),
        c as u32 > 0x200A ==> (white(c) <==> c == '\u{2028}' || c == '\u{2029}' || c == '\u{202F}'
            || c == '\u{205F}' || c == '\u{3000}'),
{
}

/// Trimming takes white space from the ends and nothing else: what is left stands
/// in the text between two runs of it. Returns how much went at the start.
pub proof fn trimming_takes_white_space_only(s: Seq<char>) -> (k: int)
    ensures
        0 <= k <= k + trim(s).len() <= s.len(),
        trim(s) == s.subrange(k, k + trim(s).len()),
        forall|i: int| 0 <= i < k ==> white(#[trigger] s[i]),
        forall|i: int| k + trim(s).len() <= i < s.len() ==> white(#[trigger] s[i]),
        trim(s).len() > 0 ==> !white(s[k]) && !white(s[k + trim(s).len() - 1]),
{
    lemma_trim_start(s);
    let t = trim_start(s);
    lemma_trim_end(t);
    let k = s.len() - t.len();
    let n = trim(s).len();
    assert(trim(s) =~= s.subrange(k, k + n));
    assert forall|i: int| k + n <= i < s.len() implies white(#[trigger] s[i]) by {
        assert(s[i] == t[i - k]);
    }
    if n > 0 {
        trim_has_no_white_ends(s);
        assert(trim(s)[0] == s[k]);
        assert(trim(s)[n - 1] == s[k + n - 1]);
    }
    k
}

/// Trimming the end takes the white space there, all of it, and nothing else.
pub proof fn trimming_the_end_takes_white_space_only(s: Seq<char>)
    ensures
        trim_end(s).len() <= s.len(),
        trim_end(s) == s.take(trim_end(s).len() as int),
        forall|i: int| trim_end(s).len() <= i < s.len() ==> white(#[trigger] s[i]),
        trim_end(s).len() > 0 ==> !white(s[trim_end(s).len() - 1]),
{
    lemma_trim_end(s);
}

proof fn lemma_trim_end_char(s: Seq<char>, c: char)
    ensures
        trim_end_char(s, c).len() <= s.len(),
        trim_end_char(s, c) == s.take(trim_end_char(s, c).len() as int),
        forall|i: int| trim_end_char(s, c).len() <= i < s.len() ==> #[trigger] s[i] == c,
        trim_end_char(s, c).len() > 0 ==> s[trim_end_char(s, c).len() - 1] != c,
    decreases s.len(),
{
    if s.len() > 0 && s.last() == c {
        let d = s.drop_last();
        lemma_trim_end_char(d, c);
        assert(d.take(trim_end_char(d, c).len() as int) =~= s.take(
            trim_end_char(s, c).len() as int,
        ));
        assert forall|i: int| trim_end_char(s, c).len() <= i < s.len() implies #[trigger] s[i]
            == c by {
            if i < s.len() - 1 {
                assert(s[i] == d[i]);
            }
        }
    } else {
        assert(s.take(s.len() as int) =~= s);
    }
}

/// A line without its ending is the line up to the carriage returns before the
/// line feeds at its end, all of them, and nothing else is taken. Returns where
/// the line feeds begin.
pub proof fn a_line_ending_is_taken_whole(s: Seq<char>) -> (k: int)
    ensures
        0 <= without_eol(s).len() <= k <= s.len(),
        without_eol(s) == s.take(without_eol(s).len() as int),
        forall|i: int| k <= i < s.len() ==> #[trigger] s[i] == '\n',
        k > 0 ==> s[k - 1] != '\n',
        forall|i: int| without_eol(s).len() <= i < k ==> #[trigger] s[i] == '\r',
        without_eol(s).len() > 0 ==> s[without_eol(s).len() - 1] != '\r',
{
    lemma_trim_end_char(s, '\n');
    let t = trim_end_char(s, '\n');
    lemma_trim_end_char(t, '\r');
    let k = t.len() as int;
    let n = without_eol(s).len() as int;
    assert(without_eol(s) =~= s.take(n));
    assert forall|i: int| n <= i < k implies #[trigger] s[i] == '\r' by {
        assert(s[i] == t[i]);
    }
    if n > 0 {
        assert(t[n - 1] == s[n - 1]);
    }
    k
}

/// Putting parts together is one after the other.
pub proof fn putting_together_is_flattening(parts: Seq<Seq<char>>)
    ensures
        concat(parts) == parts.flatten(),
    decreases parts.len(),
{
    parts.lemma_flatten_and_flatten_alt_are_equivalent();
    if parts.len() > 0 {
        let init = parts.drop_last();
        putting_together_is_flattening(init);
        init.lemma_flatten_and_flatten_alt_are_equivalent();
    }
}

/// The pieces of a text, put together, are the text; each has at least a
/// character, a line feed nowhere but at its end, and, unless it is the last, one
/// there.
pub proof fn pieces_end_in_line_feeds(s: Seq<char>)
    ensures
        pieces(s).flatten() == s,
        forall|i: int| 0 <= i < pieces(s).len() ==> (#[trigger] pieces(s)[i]).len() > 0,
        forall|i: int| 0 <= i < pieces(s).len() - 1 ==> (#[trigger] pieces(s)[i]).last() == '\n',
        forall|i: int, j: int|
            0 <= i < pieces(s).len() && 0 <= j < pieces(s)[i].len() - 1 ==> #[trigger] pieces(
                s,
            )[i][j] != '\n',
{
    pieces_concat(s);
    putting_together_is_flattening(pieces(s));
    lemma_pieces(s);
}

proof fn lemma_pieces(s: Seq<char>)
    ensures
        forall|i: int| 0 <= i < pieces(s).len() ==> (#[trigger] pieces(s)[i]).len() > 0,
        forall|i: int| 0 <= i < pieces(s).len() - 1 ==> (#[trigger] pieces(s)[i]).last() == '\n',
        s.len() > 0 ==> pieces(s).len() > 0 && pieces(s).last().last() == s.last(),
        forall|i: int, j: int|
            0 <= i < pieces(s).len() && 0 <= j < pieces(s)[i].len() - 1 ==> #[trigger] pieces(
                s,
            )[i][j] != '\n',
    decreases s.len(),
{
    if s.len() > 0 {
        let before = s.drop_last();
        lemma_pieces(before);
        let p = pieces(s);
        let q = pieces(before);
        if before.len() == 0 || before.last() == '\n' {
            assert(p == q.push(seq![s.last()]));
            assert forall|i: int| 0 <= i < p.len() - 1 implies (#[trigger] p[i]).last() == '\n' by {
                assert(p[i] == q[i]);
                if i == q.len() - 1 {
                    assert(q[i] == q.last());
                }
            }
        } else {
            assert(p == grown(q, s.last()));
            assert(p.last() == q.last().push(s.last()));
            assert forall|i: int| 0 <= i < p.len() - 1 implies (#[trigger] p[i]).last() == '\n' by {
                assert(p[i] == q[i]);
            }
            assert forall|i: int, j: int|
                0 <= i < p.len() && 0 <= j < p[i].len() - 1 implies #[trigger] p[i][j] != '\n' by {
                if i == p.len() - 1 {
                    assert(q[i] == q.last());
                    assert(p[i][j] == q[i][j]);
                    if j == q[i].len() - 1 {
                        assert(q[i][j] == before.last());
                    }
                } else {
                    assert(p[i] == q[i]);
                }
            }
        }
    }
}

/// Each line of a text is one of its pieces without its ending: a line feed, or a
/// line feed with the one carriage return before it, or nothing.
pub proof fn lines_are_pieces_without_endings(s: Seq<char>, i: int)
    requires
        0 <= i < pieces(s).len(),
    ensures
        lines_of(s).len() == pieces(s).len(),
        ({
            let p = pieces(s)[i];
            let l = lines_of(s)[i];
            let n = p.len() as int;
            &&& n == 0 || p[n - 1] != '\n' ==> l == p
            &&& n == 1 && p[n - 1] == '\n' ==> l.len() == 0
            &&& n > 1 && p[n - 1] == '\n' && p[n - 2] != '\r' ==> l == p.take(n - 1)
            &&& n > 1 && p[n - 1] == '\n' && p[n - 2] == '\r' ==> l == p.take(n - 2)
        }),
{
    let p = pieces(s)[i];
    let n = p.len() as int;
    if n > 0 && p[n - 1] == '\n' {
        assert(p.drop_last() =~= p.take(n - 1));
        if n > 1 && p[n - 2] == '\r' {
            assert(p.drop_last().drop_last() =~= p.take(n - 2));
        }
    }
}

proof fn lemma_some_word(s: Seq<char>)
    requires
        s.len() > 0,
        !white(s.last()),
    ensures
        words(s).len() > 0,
{
}

/// White space parts the words of a text: those before it and those behind it are
/// all there are.
pub proof fn white_space_parts_words(a: Seq<char>, w: char, b: Seq<char>)
    requires
        white(w),
    ensures
        words(a + seq![w] + b) == words(a) + words(b),
        words(Seq::empty()).len() == 0,
    decreases b.len(),
{
    let s = a + seq![w] + b;
    if b.len() == 0 {
        assert(s.drop_last() =~= a);
        assert(s.last() == w);
        assert(words(a) + words(b) =~= words(a));
    } else {
        let c = b.drop_last();
        white_space_parts_words(a, w, c);
        assert(s.drop_last() =~= a + seq![w] + c);
        assert(s.last() == b.last());
        if !white(b.last()) {
            if c.len() == 0 {
                assert(s.drop_last().last() == w);
            } else {
                assert(s.drop_last().last() == c.last());
                if !white(c.last()) {
                    lemma_some_word(c);
                    assert(grown(words(a) + words(c), b.last()) =~= words(a) + grown(
                        words(c),
                        b.last(),
                    ));
                }
            }
        }
        assert(words(s) =~= words(a) + words(b));
    }
}

/// A text without white space is one word, unless it is empty.
pub proof fn a_text_without_white_space_is_a_word(s: Seq<char>)
    requires
        s.len() > 0,
        forall|i: int| 0 <= i < s.len() ==> !white(#[trigger] s[i]),
    ensures
        words(s) == seq![s],
    decreases s.len(),
{
    let before = s.drop_last();
    assert(!white(s[s.len() - 1]));
    assert(before.push(s.last()) =~= s);
    if before.len() > 0 {
        a_text_without_white_space_is_a_word(before);
        assert(!white(s[before.len() - 1]));
        assert(grown(words(before), s.last()) =~= seq![s]);
    } else {
        assert(words(before) =~= Seq::empty());
        assert(s =~= seq![s.last()]);
        assert(words(s) =~= seq![s]);
    }
}

/// A text is found at its first place, and not found exactly where it has none.
pub proof fn the_first_place_is_found(s: Seq<char>, pat: Seq<char>, i: int)
    ensures
        find(s, pat) == Some(i) <==> {
            &&& 0 <= i <= s.len() - pat.len()
            &&& s.subrange(i, i + pat.len()) == pat
            &&& forall|j: int| 0 <= j < i ==> #[trigger] s.subrange(j, j + pat.len()) != pat
        },
        find(s, pat) is None <==> forall|j: int|
            0 <= j <= s.len() - pat.len() ==> #[trigger] s.subrange(j, j + pat.len()) != pat,
{
    lemma_first_place(s, pat, 0, i);
}

proof fn lemma_first_place(s: Seq<char>, pat: Seq<char>, from: int, i: int)
    requires
        0 <= from,
        forall|j: int| 0 <= j < from ==> #[trigger] s.subrange(j, j + pat.len()) != pat,
    ensures
        find_from(s, pat, from) == Some(i) <==> {
            &&& 0 <= i <= s.len() - pat.len()
            &&& s.subrange(i, i + pat.len()) == pat
            &&& forall|j: int| 0 <= j < i ==> #[trigger] s.subrange(j, j + pat.len()) != pat
        },
        find_from(s, pat, from) is None <==> forall|j: int|
            0 <= j <= s.len() - pat.len() ==> #[trigger] s.subrange(j, j + pat.len()) != pat,
    decreases s.len() - from + 1,
{
    if from + pat.len() > s.len() {
    } else if stands_at(s, pat, from) {
        assert(s.subrange(from, from + pat.len()) == pat);
    } else {
        assert(s.subrange(from, from + pat.len()) != pat);
        lemma_first_place(s, pat, from + 1, i);
    }
}

/// A number below ten is its digit; ten times a number and a digit is what the
/// number is, and the digit behind it.
pub proof fn decimals_are_written_digit_by_digit(n: nat, d: nat)
    requires
        d < 10,
    ensures
        decimal(d).len() == 1,
        decimal(d)[0] as u32 == 0x30 + d,
        n > 0 ==> decimal(10 * n + d) == decimal(n) + decimal(d),
{
    if n > 0 {
        let m: nat = 10 * n + d;
        assert(m / 10 == n && m % 10 == d);
        assert(decimal(m) =~= decimal(n) + decimal(d));
    }
}

/// A number filled up has the width asked for where it is shorter: zeros before
/// it, and nothing else.
pub proof fn numbers_are_filled_up_with_zeros(n: nat, width: int)
    ensures
        decimal(n).len() >= width ==> padded(n, width) == decimal(n),
        decimal(n).len() < width ==> {
            let k = width - decimal(n).len();
            &&& padded(n, width).len() == width
            &&& padded(n, width).skip(k) == decimal(n)
            &&& forall|i: int| 0 <= i < k ==> #[trigger] padded(n, width)[i] == '0'
        },
{
    let k = width - decimal(n).len();
    if k > 0 {
        assert(padded(n, width).skip(k) =~= decimal(n));
    } else {
        assert(padded(n, width) =~= decimal(n));
    }
}

/// A negative number is its opposite behind a minus sign.
pub proof fn negative_numbers_have_a_sign(n: nat)
    ensures
        signed(n as int) == decimal(n),
        n > 0 ==> signed(-n) == seq!['-'] + decimal(n),
{
}

/// Texts are joined with the separator between each two of them and nowhere else.
pub proof fn texts_are_joined_with_separators(
    a: Seq<Seq<char>>,
    b: Seq<Seq<char>>,
    t: Seq<char>,
    sep: Seq<char>,
)
    ensures
        joined(Seq::empty(), sep).len() == 0,
        joined(seq![t], sep) == t,
        a.len() > 0 && b.len() > 0 ==> joined(a + b, sep) == joined(a, sep) + sep + joined(b, sep),
    decreases b.len(),
{
    if a.len() > 0 && b.len() > 0 {
        let c = b.drop_last();
        assert((a + b).drop_last() =~= a + c);
        assert((a + b).last() == b.last());
        if c.len() > 0 {
            texts_are_joined_with_separators(a, c, t, sep);
            assert(joined(a + b, sep) =~= joined(a, sep) + sep + joined(b, sep));
        } else {
            assert(a + c =~= a);
            assert(joined(a + b, sep) =~= joined(a, sep) + sep + joined(b, sep));
        }
    }
}

/// A number is read digit by digit, as long as it fits; a plus sign before it is
/// passed over, and any other character, or none at all, is no number.
pub proof fn numbers_are_read_digit_by_digit(s: Seq<char>, d: char)
    requires
        s.len() > 0,
        s[0] != '+',
    ensures
        parsed_u64(Seq::empty()) is None,
        parsed_u64(seq!['+']) is None,
        parsed_u64(seq!['+'] + s) == parsed_u64(s),
        parsed_u64(s) is Some ==> forall|i: int|
            0 <= i < s.len() ==> 0x30 <= (#[trigger] s[i]) as u32 && s[i] as u32 <= 0x39,
        0x30 <= d as u32 && d as u32 <= 0x39 ==> {
            let n = d as u32 - 0x30;
            &&& parsed_u64(seq![d]) == Some(n as u64)
            &&& parsed_u64(s) matches Some(v) ==> parsed_u64(s.push(d)) == (if 10 * v + n
                <= u64::MAX {
                Some((10 * v + n) as u64)
            } else {
                None
            })
            &&& parsed_u64(s) is None ==> parsed_u64(s.push(d)) is None
        },
        !(0x30 <= d as u32 && d as u32 <= 0x39) ==> parsed_u64(s.push(d)) is None,
{
    let t = s.push(d);
    assert((seq!['+'] + s).skip(1) =~= s);
    assert(seq!['+'].skip(1) =~= Seq::empty());
    assert(t.drop_last() =~= s);
    assert(t[0] == s[0]);
    assert(t[s.len() as int] == d);
    assert(digit_value(t[s.len() as int]) == digit_value(d));
    assert forall|i: int| 0 <= i < s.len() implies digit_value(#[trigger] t[i]) == digit_value(
        s[i],
    ) by {}
    if all_digits(t) {
        assert forall|i: int| 0 <= i < s.len() implies digit_value(#[trigger] s[i]) is Some by {
            assert(digit_value(t[i]) is Some);
        }
    }
    if all_digits(s) && digit_value(d) is Some {
        assert forall|i: int| 0 <= i < t.len() implies digit_value(#[trigger] t[i]) is Some by {
            if i < s.len() {
                assert(digit_value(s[i]) is Some);
            }
        }
    }
    let one = seq![d];
    assert(one.drop_last() =~= Seq::empty());
    assert(digits_value(Seq::<char>::empty()) == 0);
    if 0x30 <= d as u32 && d as u32 <= 0x39 {
        assert(digit_value(one[0]) is Some);
        assert(all_digits(one));
        assert(digits_value(one) == d as u32 - 0x30);
    }
    if parsed_u64(s) is Some {
        assert forall|i: int| 0 <= i < s.len() implies 0x30 <= (#[trigger] s[i]) as u32
            && s[i] as u32 <= 0x39 by {
            assert(digit_value(s[i]) is Some);
        }
    }
}

/// A text that is missing is replaced, and no other is.
pub proof fn only_missing_texts_are_replaced(s: Option<String>, other: Seq<char>)
    ensures
        s matches Some(t) ==> text_or(maybe(s), other) == t@,
        s is None ==> text_or(maybe(s), other) == other,
{
}

} // verus!

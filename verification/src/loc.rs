//! Positions in a program's source text, and the excerpts that point at them.

use vstd::prelude::*;
use vstd::string::{StringSliceAdditionalSpecFns, StringExecFns};
use vstd::utf8::{
    encode_utf8, decode_utf8, is_char_boundary, encode_utf8_decode_utf8, encode_utf8_valid_utf8, valid_utf8_split,
    is_char_boundary_start_end_of_seq, is_char_boundary_iff_not_is_continuation_byte, valid_utf8,
    length_of_first_scalar, pop_first_scalar,
};
use crate::text::{lemma_num_digits_monotone, lemma_num_digits_lt_self, spec_num_digits, decimal, repeat_char, count_digits, push_repeat, push_decimal, push_char};

verus! {

/// The number of decimal digits of `n`; zero has one digit.
pub fn num_digits(n: usize) -> (r: usize)
    ensures
        r == spec_num_digits(n as nat),
        r >= 1,
{
    count_digits(n)
}

/// Byte offsets that follow each newline among the first `n` bytes, in order.
pub open spec fn newline_ends(b: Seq<u8>, n: nat) -> Seq<usize>
    decreases n,
{
    if n == 0 {
        seq![]
    } else {
        let prev = newline_ends(b, (n - 1) as nat);
        if b[n - 1] == 10u8 {
            prev.push(n as usize)
        } else {
            prev
        }
    }
}

/// The line table of a source: two zeros (lines are counted from one), the
/// offset after every newline, then the length of the source.
pub open spec fn line_table(b: Seq<u8>) -> Seq<usize> {
    seq![0usize, 0usize] + newline_ends(b, b.len()) + seq![b.len() as usize]
}

/// Every entry of the line table lies within the source.
pub proof fn lemma_line_table_bounded(b: Seq<u8>)
    requires
        b.len() <= usize::MAX,
    ensures
        forall|k: int| 0 <= k < line_table(b).len() ==> line_table(b)[k] <= b.len(),
{
    lemma_newline_ends_bounded(b, b.len());
}

proof fn lemma_newline_ends_bounded(b: Seq<u8>, n: nat)
    requires
        n <= b.len(),
        b.len() <= usize::MAX,
    ensures
        forall|k: int| 0 <= k < newline_ends(b, n).len() ==> newline_ends(b, n)[k] <= n,
    decreases n,
{
    if n > 0 {
        lemma_newline_ends_bounded(b, (n - 1) as nat);
        let prev = newline_ends(b, (n - 1) as nat);
        if b[n - 1] == 10u8 {
            assert(newline_ends(b, n) == prev.push(n as usize));
            assert forall|k: int| 0 <= k < newline_ends(b, n).len() implies newline_ends(b, n)[k] <= n by {
                if k < prev.len() {
                    assert(newline_ends(b, n)[k] == prev[k]);
                }
            }
        }
    }
}

/// The byte range `[first, end)` that line `line` covers: from its table entry up to
/// the next entry, without the newline that ends the line when there is one. `None`
/// for line zero and for lines past the table.
pub open spec fn line_range(b: Seq<u8>, line: int) -> Option<(int, int)> {
    let t = line_table(b);
    if line <= 0 || line + 1 >= t.len() {
        None
    } else {
        let first = t[line] as int;
        let next = t[line + 1] as int;
        Some((first, if first < next && b[next - 1] == 10u8 { next - 1 } else { next }))
    }
}

/// Taking line `line` out of the source does not fail: either there is no such
/// line, or its range is ordered and both ends fall on character boundaries.
pub open spec fn line_sliceable(b: Seq<u8>, line: int) -> bool {
    match line_range(b, line) {
        None => true,
        Some((first, end)) => 0 <= first <= end && is_char_boundary(b, first)
            && is_char_boundary(b, end),
    }
}

/// Where a line may start: at the start or end of the source, or after a newline.
pub open spec fn line_start_at(b: Seq<u8>, p: int) -> bool {
    p == 0 || p == b.len() || (1 <= p <= b.len() && b[p - 1] == 10u8)
}

proof fn lemma_newline_ends_marks(b: Seq<u8>, n: nat)
    requires
        n <= b.len(),
        b.len() <= usize::MAX,
    ensures
        forall|k: int|
            0 <= k < newline_ends(b, n).len() ==> 1 <= #[trigger] newline_ends(b, n)[k] <= n && b[newline_ends(b, n)[k]
                - 1] == 10u8,
        forall|k1: int, k2: int|
            0 <= k1 < k2 < newline_ends(b, n).len() ==> #[trigger] newline_ends(b, n)[k1] < #[trigger] newline_ends(
                b,
                n,
            )[k2],
    decreases n,
{
    if n > 0 {
        lemma_newline_ends_marks(b, (n - 1) as nat);
        let prev = newline_ends(b, (n - 1) as nat);
        let ne = newline_ends(b, n);
        if b[n - 1] == 10u8 {
            assert(ne == prev.push(n as usize));
            assert forall|k: int| 0 <= k < ne.len() implies 1 <= #[trigger] ne[k] <= n && b[ne[k] - 1] == 10u8 by {
                if k < prev.len() {
                    assert(ne[k] == prev[k]);
                }
            }
            assert forall|k1: int, k2: int| 0 <= k1 < k2 < ne.len() implies #[trigger] ne[k1] < #[trigger] ne[k2] by {
                assert(ne[k1] == prev[k1]);
                if k2 < prev.len() {
                    assert(ne[k2] == prev[k2]);
                }
            }
        } else {
            assert(ne == prev);
        }
    }
}

/// Every entry of the line table is where a line may start, and the entries never
/// decrease.
proof fn lemma_line_table_starts(b: Seq<u8>)
    requires
        b.len() <= usize::MAX,
    ensures
        forall|i: int| 0 <= i < line_table(b).len() ==> line_start_at(b, #[trigger] line_table(b)[i] as int),
        forall|i: int| 0 <= i < line_table(b).len() - 1 ==> #[trigger] line_table(b)[i] <= line_table(b)[i + 1],
{
    let ne = newline_ends(b, b.len());
    lemma_newline_ends_marks(b, b.len());
    lemma_newline_ends_bounded(b, b.len());
    let t = line_table(b);
    assert forall|i: int| 0 <= i < t.len() implies line_start_at(b, #[trigger] t[i] as int) by {
        if 2 <= i < 2 + ne.len() {
            assert(t[i] == ne[i - 2]);
        }
    }
    assert forall|i: int| 0 <= i < t.len() - 1 implies #[trigger] t[i] <= t[i + 1] by {
        if 2 <= i && i + 1 < 2 + ne.len() {
            assert(t[i] == ne[i - 2]);
            assert(t[i + 1] == ne[i - 1]);
        } else if i == 1 && ne.len() > 0 {
            assert(t[i + 1] == ne[0]);
        } else if 2 <= i {
            assert(t[i] == ne[i - 2]);
        }
    }
}

/// In valid UTF-8, the byte after an ASCII byte starts a character.
proof fn lemma_boundary_after_ascii(bytes: Seq<u8>, i: int)
    requires
        valid_utf8(bytes),
        0 < i <= bytes.len(),
        bytes[i - 1] <= 0x7f,
    ensures
        is_char_boundary(bytes, i),
    decreases bytes.len(),
{
    let l = length_of_first_scalar(bytes);
    let t = pop_first_scalar(bytes);
    assert(t.len() == bytes.len() - l);
    if i == l {
        assert(is_char_boundary(t, 0));
    } else if i > l {
        assert(t[i - l - 1] == bytes[i - 1]);
        lemma_boundary_after_ascii(t, i - l);
    } else {
        assert(false);
    }
}

/// Every line of a source in valid UTF-8 can be taken out of it.
pub proof fn lemma_lines_sliceable(b: Seq<u8>)
    requires
        valid_utf8(b),
        b.len() <= usize::MAX,
    ensures
        forall|line: int| line_sliceable(b, line),
{
    lemma_line_table_starts(b);
    is_char_boundary_start_end_of_seq(b);
    let t = line_table(b);
    assert forall|line: int| line_sliceable(b, line) by {
        if 0 < line && line + 1 < t.len() {
            let first = t[line] as int;
            let next = t[line + 1] as int;
            assert(line_start_at(b, first));
            assert(line_start_at(b, next));
            assert(first <= next);
            if 0 < first < b.len() {
                lemma_boundary_after_ascii(b, first);
            }
            if 0 < next < b.len() {
                lemma_boundary_after_ascii(b, next);
            }
            if first < next && b[next - 1] == 10u8 {
                is_char_boundary_iff_not_is_continuation_byte(b, next - 1);
            }
        }
    }
}

/// The text of line `line`, if there is one.
pub open spec fn line_text(b: Seq<u8>, line: int) -> Option<Seq<char>> {
    match line_range(b, line) {
        None => None,
        Some((first, end)) => Some(decode_utf8(b.subrange(first, end))),
    }
}

/// One line as an excerpt shows it: the line number right-aligned in a gutter of
/// `gutter` columns, `post`, a bar, `pre` and the line's text.
pub open spec fn spec_display(gutter: nat, num: nat, contents: Seq<char>, post: Seq<char>, pre: Seq<char>) -> Seq<char> {
    repeat_char(' ', (gutter - spec_num_digits(num)) as nat) + decimal(num) + post + seq![' ', '|', ' ']
        + pre + contents
}

/// Line `line` displayed with an empty `post`, or nothing when there is no such line.
pub open spec fn shown_line(b: Seq<u8>, line: int, gutter: nat, pre: Seq<char>) -> Seq<char> {
    match line_text(b, line) {
        None => seq![],
        Some(t) => spec_display(gutter, line as nat, t, seq![], pre),
    }
}

/// A program's source text together with the table of where its lines start.
#[derive(Debug)]
pub struct ProgramSrc {
    src: String,
    line_nums: Vec<usize>,
}

/// The part of `s` between two byte offsets that fall on character boundaries,
/// `&s[start..end]`.
pub(crate) fn str_range(s: &str, start: usize, end: usize) -> (r: &str)
    requires
        start <= end <= s.spec_bytes().len(),
        is_char_boundary(s.spec_bytes(), start as int),
        is_char_boundary(s.spec_bytes(), end as int),
    ensures
        r.spec_bytes() == s.spec_bytes().subrange(start as int, end as int),
{
    let ghost b = s.spec_bytes();
    proof {
        encode_utf8_valid_utf8(s@);
        valid_utf8_split(b, end as int);
    }
    let (head, _) = s.split_at(end);
    proof {
        let h = head.spec_bytes();
        assert(h =~= b.subrange(0, end as int));
        is_char_boundary_start_end_of_seq(h);
        if 0 < start < end {
            is_char_boundary_iff_not_is_continuation_byte(b, start as int);
            is_char_boundary_iff_not_is_continuation_byte(h, start as int);
            assert(h[start as int] == b[start as int]);
        }
    }
    let (_, r) = head.split_at(start);
    assert(r.spec_bytes() =~= b.subrange(start as int, end as int));
    r
}

/// Where a line that starts at `first` and runs to the next line's start `next`
/// ends: before the newline that ends it, if there is one.
fn line_end(s: &str, first: usize, next: usize) -> (r: usize)
    requires
        next <= s.spec_bytes().len(),
    ensures
        r == (if first < next && s.spec_bytes()[next - 1] == 10u8 { next - 1 } else { next as int }),
{
    if first < next && s.as_bytes()[next - 1] == 10u8 {
        next - 1
    } else {
        next
    }
}

impl ProgramSrc {
    #[verifier::type_invariant]
    spec fn inv(self) -> bool {
        self.line_nums@ == line_table(encode_utf8(self.src@))
    }

    /// The characters of the source.
    pub closed spec fn text(self) -> Seq<char> {
        self.src@
    }

    /// The UTF-8 bytes of the source.
    pub open spec fn bytes(self) -> Seq<u8> {
        encode_utf8(self.text())
    }

    /// Builds the line table of `src`.
    pub fn new(src: String) -> (r: Self)
        ensures
            r.text() == src@,
    {
        let line_nums = {
            let bytes = src.as_str().as_bytes();
            let ghost b = bytes@;
            let mut nums: Vec<usize> = Vec::new();
            nums.push(0);
            nums.push(0);
            let mut i: usize = 0;
            while i < bytes.len()
                invariant
                    b == bytes@,
                    i <= b.len(),
                    nums@ == seq![0usize, 0usize] + newline_ends(b, i as nat),
                decreases b.len() - i,
            {
                if bytes[i] == 10u8 {
                    nums.push(i + 1);
                }
                i = i + 1;
                assert(nums@ =~= seq![0usize, 0usize] + newline_ends(b, i as nat));
            }
            nums.push(bytes.len());
            assert(b == encode_utf8(src@));
            assert(nums@ =~= line_table(encode_utf8(src@)));
            nums
        };
        ProgramSrc { src, line_nums }
    }

    /// The bytes of the source, in order.
    pub fn stream(&self) -> (r: Vec<u8>)
        ensures
            r@ == self.bytes(),
    {
        let bytes = self.src.as_str().as_bytes();
        let mut out: Vec<u8> = Vec::new();
        let mut i: usize = 0;
        while i < bytes.len()
            invariant
                i <= bytes@.len(),
                out@ == bytes@.subrange(0, i as int),
            decreases bytes@.len() - i,
        {
            out.push(bytes[i]);
            i = i + 1;
            assert(out@ =~= bytes@.subrange(0, i as int));
        }
        assert(out@ =~= bytes@);
        out
    }

    /// Line `line` (counted from one) without the newline that ends it, or `None`
    /// when the table has no entry for it or the next line.
    pub fn get_line(&self, line: usize) -> (r: Option<ProgramLine<'_>>)
        ensures
            match r {
                None => line_text(self.bytes(), line as int) is None,
                Some(pl) => pl.num == line && line_text(self.bytes(), line as int) == Some(
                    pl.contents@,
                ),
            },
    {
        proof {
            use_type_invariant(self);
        }
        every_line_sliceable(self);
        assert(line_sliceable(self.bytes(), line as int));
        if line == 0 {
            return None;
        }
        if line >= self.line_nums.len() {
            return None;
        }
        let first = self.line_nums[line];
        if line + 1 >= self.line_nums.len() {
            return None;
        }
        let last = self.line_nums[line + 1];
        let s = self.src.as_str();
        let _n = s.as_bytes().len();
        proof {
            lemma_line_table_bounded(self.bytes());
            assert(self.line_nums@[line + 1] <= self.bytes().len());
        }
        let contents = str_range(s, first, line_end(s, first, last));
        proof {
            encode_utf8_decode_utf8(contents@);
        }
        Some(ProgramLine { contents, num: line })
    }
}

/// Every line of a source can be taken out of it.
fn every_line_sliceable(src: &ProgramSrc)
    ensures
        forall|l: int| line_sliceable(src.bytes(), l),
{
    proof {
        use_type_invariant(src);
    }
    let _n = src.src.as_str().as_bytes().len();
    proof {
        encode_utf8_valid_utf8(src.text());
        lemma_lines_sliceable(src.bytes());
    }
}

/// One line of a source, borrowed from it, with its line number.
#[derive(Debug)]
pub struct ProgramLine<'a> {
    pub contents: &'a str,
    pub num: usize,
}

impl ProgramLine<'_> {
    /// The line as an excerpt shows it; see [`spec_display`].
    pub fn display(&self, gutter_size: usize, post_gutter: &str, pre_line: &str) -> (r: String)
        requires
            gutter_size >= spec_num_digits(self.num as nat),
        ensures
            r@ == spec_display(gutter_size as nat, self.num as nat, self.contents@, post_gutter@, pre_line@),
    {
        let mut out = String::new();
        push_repeat(&mut out, ' ', gutter_size - num_digits(self.num));
        push_decimal(&mut out, self.num);
        out.append(post_gutter);
        push_char(&mut out, ' ');
        push_char(&mut out, '|');
        push_char(&mut out, ' ');
        out.append(pre_line);
        out.append(self.contents);
        assert(out@ =~= spec_display(gutter_size as nat, self.num as nat, self.contents@, post_gutter@, pre_line@));
        out
    }
}


/// Line `line`, displayed in a gutter of `gutter` columns after `pre`, or the empty
/// string when the source has no such line.
fn show_line(src: &ProgramSrc, line: usize, gutter: usize, pre: &str) -> (r: String)
    requires
        line_sliceable(src.bytes(), line as int),
        gutter >= spec_num_digits(line as nat),
    ensures
        r@ == shown_line(src.bytes(), line as int, gutter as nat, pre@),
{
    match src.get_line(line) {
        None => String::new(),
        Some(pl) => {
            let empty = "";
            proof {
                reveal_strlit("");
            }
            let r = pl.display(gutter, empty, pre);
            assert(empty@ =~= Seq::<char>::empty());
            r
        },
    }
}

/// A source position: a line and a column, both counted from one.
#[derive(Debug, Clone, Copy, PartialEq, Eq, Structural, PartialOrd, Ord)]
pub struct Loc {
    line: usize,
    col: usize,
}

/// The excerpt that points at column `col` of line `line` with `len` carets and
/// `message`: the lines before, at and after it in a gutter as wide as the numeral
/// of `line + 1`, with the underline below the line itself.
pub open spec fn spec_format_with_len(b: Seq<u8>, line: nat, col: nat, message: Seq<char>, len: nat) -> Seq<char> {
    let g = spec_num_digits(line + 1);
    shown_line(b, line - 1, g, seq![]) + seq!['\n'] + shown_line(b, line as int, g, seq![]) + seq!['\n']
        + repeat_char(' ', g + 1) + seq!['|'] + repeat_char(' ', col) + repeat_char('^', len) + seq![' ']
        + message + seq!['\n'] + shown_line(b, line + 1 as int, g, seq![])
}

/// Lines `from..=to`, each displayed after `pre`, joined by newlines.
pub open spec fn shown_lines(b: Seq<u8>, from: int, to: int, g: nat, pre: Seq<char>) -> Seq<char>
    decreases to - from,
{
    if to <= from {
        shown_line(b, from, g, pre)
    } else {
        shown_lines(b, from, to - 1, g, pre) + seq!['\n'] + shown_line(b, to, g, pre)
    }
}

impl Loc {
    #[verifier::type_invariant]
    spec fn inv(self) -> bool {
        self.line >= 1 && self.col >= 1
    }

    /// The line, counted from one.
    pub closed spec fn spec_line(self) -> nat {
        self.line as nat
    }

    /// The column, counted from one.
    pub closed spec fn spec_col(self) -> nat {
        self.col as nat
    }

    /// The position at line `line`, column `col`.
    pub closed spec fn mk(line: nat, col: nat) -> Loc {
        Loc { line: line as usize, col: col as usize }
    }

    pub proof fn lemma_mk(line: nat, col: nat)
        requires
            line <= usize::MAX,
            col <= usize::MAX,
        ensures
            #[trigger] Loc::mk(line, col).spec_line() == line,
            Loc::mk(line, col).spec_col() == col,
    {
    }

    pub proof fn lemma_fields(l: Loc)
        ensures
            l == Loc::mk(l.spec_line(), l.spec_col()),
    {
    }

    /// Source order: by line, then by column.
    pub open spec fn no_later_than(self, other: Loc) -> bool {
        self.spec_line() < other.spec_line() || (self.spec_line() == other.spec_line()
            && self.spec_col() <= other.spec_col())
    }

    /// The position at line `line`, column `col`; neither may be zero.
    pub fn new(line: usize, col: usize) -> (r: Self)
        requires
            line != 0,
            col != 0,
        ensures
            r.spec_line() == line,
            r.spec_col() == col,
            r == Loc::mk(line as nat, col as nat),
    {
        Loc { line, col }
    }

    /// The line, counted from one.
    pub fn line(&self) -> (r: usize)
        ensures
            r == self.spec_line(),
            r >= 1,
    {
        proof {
            use_type_invariant(self);
        }
        self.line
    }

    /// The column, counted from one.
    pub fn col(&self) -> (r: usize)
        ensures
            r == self.spec_col(),
            r >= 1,
    {
        proof {
            use_type_invariant(self);
        }
        self.col
    }

    /// Whether `self` comes no later than `other`.
    pub fn is_le(&self, other: &Loc) -> (r: bool)
        ensures
            r == self.no_later_than(*other),
    {
        self.line < other.line || (self.line == other.line && self.col <= other.col)
    }

    /// The excerpt of `src` around this position with `len` carets under it and
    /// `message` after them; see [`spec_format_with_len`].
    pub fn format_with_len(&self, src: &ProgramSrc, message: &str, len: usize) -> (r: String)
        requires
            self.spec_line() + 1 <= usize::MAX,
        ensures
            r@ == spec_format_with_len(src.bytes(), self.spec_line(), self.spec_col(), message@, len as nat),
    {
        proof {
            use_type_invariant(self);
        }
        every_line_sliceable(src);
        let line = self.line;
        let gutter_size = num_digits(line + 1);
        proof {
            lemma_num_digits_monotone((line - 1) as nat, (line + 1) as nat);
            lemma_num_digits_monotone(line as nat, (line + 1) as nat);
            lemma_num_digits_lt_self((line + 1) as nat);
            assert(line_sliceable(src.bytes(), line - 1));
            assert(line_sliceable(src.bytes(), line as int));
            assert(line_sliceable(src.bytes(), line + 1));
        }
        let empty = "";
        proof {
            reveal_strlit("");
        }
        let prev_fmt = show_line(src, line - 1, gutter_size, empty);
        let this_fmt = show_line(src, line, gutter_size, empty);
        let next_fmt = show_line(src, line + 1, gutter_size, empty);
        let mut out = prev_fmt;
        push_char(&mut out, '\n');
        out.append(this_fmt.as_str());
        push_char(&mut out, '\n');
        push_repeat(&mut out, ' ', gutter_size + 1);
        push_char(&mut out, '|');
        push_repeat(&mut out, ' ', self.col);
        push_repeat(&mut out, '^', len);
        push_char(&mut out, ' ');
        out.append(message);
        push_char(&mut out, '\n');
        out.append(next_fmt.as_str());
        assert(empty@ =~= Seq::<char>::empty());
        assert(out@ =~= spec_format_with_len(src.bytes(), self.spec_line(), self.spec_col(), message@, len as nat));
        out
    }

    /// The excerpt of `src` around this position with one caret under it.
    pub fn format(&self, src: &ProgramSrc, message: &str) -> (r: String)
        requires
            self.spec_line() + 1 <= usize::MAX,
        ensures
            r@ == spec_format_with_len(src.bytes(), self.spec_line(), self.spec_col(), message@, 1),
    {
        self.format_with_len(src, message, 1)
    }
}


/// A stretch of source from `start` to `end`, both inclusive, with `start` no later
/// than `end`.
#[derive(Debug, Clone, Copy, PartialEq, Eq, Structural)]
pub struct Span {
    start: Loc,
    end: Loc,
}

/// The excerpt for a span over several lines: the line before, the first line, a
/// rule under it up to the start column, the following lines up to the last one
/// behind a bar, a rule up to the end column with `message`, and the line after.
pub open spec fn spec_span_format(b: Seq<u8>, start: Loc, end: Loc, message: Seq<char>) -> Seq<char> {
    if start.spec_line() == end.spec_line() {
        spec_format_with_len(b, start.spec_line(), start.spec_col(), message, (end.spec_col() - start.spec_col()) as nat)
    } else {
        spec_multiline_format(b, start, end, message)
    }
}

/// A rule under a span: spaces over the gutter, a bar, two marker characters,
/// `len` underscores and a caret.
pub open spec fn spec_rule(g: nat, a: char, b: char, len: nat) -> Seq<char> {
    repeat_char(' ', g + 1) + seq!['|', a, b] + repeat_char('_', len) + seq!['^']
}

/// The multi-line case of [`spec_span_format`].
pub open spec fn spec_multiline_format(b: Seq<u8>, start: Loc, end: Loc, message: Seq<char>) -> Seq<char> {
    let g = spec_num_digits(end.spec_line() + 1);
    let sp = seq![' ', ' '];
    let prev = shown_line(b, start.spec_line() - 1, g, sp);
    let first = shown_line(b, start.spec_line() as int, g, sp);
    let middle = shown_lines(b, start.spec_line() + 1 as int, end.spec_line() as int, g, seq!['|', ' ']);
    let next = shown_line(b, end.spec_line() + 1 as int, g, sp);
    let p1 = prev.push('\n') + first;
    let p2 = p1.push('\n') + spec_rule(g, ' ', ' ', start.spec_col());
    let p3 = p2.push('\n') + middle;
    let p4 = p3.push('\n') + spec_rule(g, ' ', '|', end.spec_col());
    let p5 = p4.push(' ') + message;
    p5.push('\n') + next
}

/// A rule under a span: spaces over the gutter, a bar, two marker characters,
/// `len` underscores and a caret.
fn rule(gutter: usize, a: char, b: char, len: usize) -> (r: String)
    requires
        gutter < usize::MAX,
    ensures
        r@ == spec_rule(gutter as nat, a, b, len as nat),
{
    let mut out = String::new();
    push_repeat(&mut out, ' ', gutter + 1);
    push_char(&mut out, '|');
    push_char(&mut out, a);
    push_char(&mut out, b);
    push_repeat(&mut out, '_', len);
    push_char(&mut out, '^');
    assert(out@ =~= spec_rule(gutter as nat, a, b, len as nat));
    out
}

/// Lines `from..=to` of `src`, each displayed after `pre`, joined by newlines.
fn show_lines(src: &ProgramSrc, from: usize, to: usize, gutter: usize, pre: &str) -> (r: String)
    requires
        from <= to,
        forall|l: int| from <= l <= to ==> line_sliceable(src.bytes(), l),
        gutter >= spec_num_digits(to as nat),
    ensures
        r@ == shown_lines(src.bytes(), from as int, to as int, gutter as nat, pre@),
{
    proof {
        lemma_num_digits_monotone(from as nat, to as nat);
    }
    let mut out = show_line(src, from, gutter, pre);
    let mut i = from;
    while i < to
        invariant
            from <= i <= to,
            gutter >= spec_num_digits(to as nat),
            forall|l: int| from <= l <= to ==> line_sliceable(src.bytes(), l),
            out@ == shown_lines(src.bytes(), from as int, i as int, gutter as nat, pre@),
        decreases to - i,
    {
        i = i + 1;
        proof {
            lemma_num_digits_monotone(i as nat, to as nat);
        }
        push_char(&mut out, '\n');
        out.append(show_line(src, i, gutter, pre).as_str());
        assert(out@ =~= shown_lines(src.bytes(), from as int, i as int, gutter as nat, pre@));
    }
    out
}

/// The smallest span that covers both `a` and `b`.
pub open spec fn joined(a: Span, b: Span) -> Span {
    Span::mk(
        if a.spec_start().no_later_than(b.spec_start()) {
            a.spec_start()
        } else {
            b.spec_start()
        },
        if b.spec_end().no_later_than(a.spec_end()) {
            a.spec_end()
        } else {
            b.spec_end()
        },
    )
}

impl Span {
    #[verifier::type_invariant]
    spec fn inv(self) -> bool {
        self.start.no_later_than(self.end)
    }

    /// The span from `start` to `end`.
    pub closed spec fn mk(start: Loc, end: Loc) -> Span {
        Span { start, end }
    }

    pub proof fn lemma_mk(start: Loc, end: Loc)
        ensures
            #[trigger] Span::mk(start, end).spec_start() == start,
            Span::mk(start, end).spec_end() == end,
    {
    }

    /// Where the span starts.
    pub closed spec fn spec_start(self) -> Loc {
        self.start
    }

    /// Where the span ends.
    pub closed spec fn spec_end(self) -> Loc {
        self.end
    }

    /// The span from `start` to `end`; `end` may not come before `start`.
    pub fn new(start: Loc, end: Loc) -> (r: Self)
        requires
            start.no_later_than(end),
        ensures
            r.spec_start() == start,
            r.spec_end() == end,
            r == Span::mk(start, end),
    {
        Span { start, end }
    }

    /// The span of the single position `loc`.
    pub fn at(loc: Loc) -> (r: Self)
        ensures
            r.spec_start() == loc,
            r.spec_end() == loc,
            r == Span::mk(loc, loc),
    {
        Span { start: loc, end: loc }
    }

    /// The span from `start` to `end`: two positions in source order.
    pub fn between(start: Loc, end: Loc) -> (r: Self)
        requires
            start.no_later_than(end),
        ensures
            r.spec_start() == start,
            r.spec_end() == end,
            r == Span::mk(start, end),
    {
        Span { start, end }
    }

    /// Where the span starts.
    pub fn start(&self) -> (r: Loc)
        ensures
            r == self.spec_start(),
    {
        self.start
    }

    /// Where the span ends.
    pub fn end(&self) -> (r: Loc)
        ensures
            r == self.spec_end(),
    {
        self.end
    }

    /// The smallest span that covers both `self` and `other`.
    pub fn join(self, other: Span) -> (r: Span)
        ensures
            r == joined(self, other),
            r.spec_start() == (if self.spec_start().no_later_than(other.spec_start()) {
                self.spec_start()
            } else {
                other.spec_start()
            }),
            r.spec_end() == (if other.spec_end().no_later_than(self.spec_end()) {
                self.spec_end()
            } else {
                other.spec_end()
            }),
    {
        proof {
            use_type_invariant(&self);
            use_type_invariant(&other);
            use_type_invariant(&self.start);
            use_type_invariant(&self.end);
            use_type_invariant(&other.start);
            use_type_invariant(&other.end);
        }
        let start = if self.start.is_le(&other.start) { self.start } else { other.start };
        let end = if other.end.is_le(&self.end) { self.end } else { other.end };
        Span { start, end }
    }

    /// The excerpt of `src` that marks this span with `message`; see [`spec_span_format`].
    pub fn format(&self, src: &ProgramSrc, message: &str) -> (r: String)
        requires
            self.spec_end().spec_line() + 1 <= usize::MAX,
        ensures
            r@ == spec_span_format(src.bytes(), self.spec_start(), self.spec_end(), message@),
    {
        proof {
            use_type_invariant(self);
            use_type_invariant(&self.start);
            use_type_invariant(&self.end);
        }
        every_line_sliceable(src);
        let sl = self.start.line();
        let el = self.end.line();
        if sl == el {
            return self.start.format_with_len(src, message, self.end.col() - self.start.col());
        }
        self.format_multiline(src, message)
    }

    fn format_multiline(&self, src: &ProgramSrc, message: &str) -> (r: String)
        requires
            self.spec_start().spec_line() != self.spec_end().spec_line(),
            self.spec_end().spec_line() + 1 <= usize::MAX,
            forall|l: int|
                self.spec_start().spec_line() - 1 <= l <= self.spec_end().spec_line() + 1 ==> line_sliceable(
                    src.bytes(),
                    l,
                ),
        ensures
            r@ == spec_multiline_format(src.bytes(), self.spec_start(), self.spec_end(), message@),
    {
        proof {
            use_type_invariant(self);
            use_type_invariant(&self.start);
            use_type_invariant(&self.end);
        }
        let sl = self.start.line();
        let el = self.end.line();
        let num_space = num_digits(el + 1);
        proof {
            lemma_num_digits_monotone((sl - 1) as nat, (el + 1) as nat);
            lemma_num_digits_monotone(sl as nat, (el + 1) as nat);
            lemma_num_digits_lt_self((el + 1) as nat);
            assert(line_sliceable(src.bytes(), sl - 1));
            assert(line_sliceable(src.bytes(), sl as int));
            assert(line_sliceable(src.bytes(), el + 1));
            reveal_strlit("  ");
            reveal_strlit("| ");
        }
        let sp = "  ";
        let bar = "| ";
        assert(sp@ =~= seq![' ', ' ']);
        assert(bar@ =~= seq!['|', ' ']);
        let prev_fmt = show_line(src, sl - 1, num_space, sp);
        let start_fmt = show_line(src, sl, num_space, sp);
        let start_underline = rule(num_space, ' ', ' ', self.start.col());
        proof {
            lemma_num_digits_monotone(el as nat, (el + 1) as nat);
        }
        let middle = show_lines(src, sl + 1, el, num_space, bar);
        let end_underline = rule(num_space, ' ', '|', self.end.col());
        let next_fmt = show_line(src, el + 1, num_space, sp);
        let mut out = prev_fmt;
        push_char(&mut out, '\n');
        out.append(start_fmt.as_str());
        push_char(&mut out, '\n');
        out.append(start_underline.as_str());
        push_char(&mut out, '\n');
        out.append(middle.as_str());
        push_char(&mut out, '\n');
        out.append(end_underline.as_str());
        push_char(&mut out, ' ');
        out.append(message);
        push_char(&mut out, '\n');
        out.append(next_fmt.as_str());
        assert(out@ == spec_multiline_format(src.bytes(), self.spec_start(), self.spec_end(), message@));
        out
    }
}

/// A span on one line is shown as its start position is, with as many carets as
/// the span's end column is past its start column.
pub proof fn law_span_format_one_line(b: Seq<u8>, start: Loc, end: Loc, message: Seq<char>)
    requires
        start.spec_line() == end.spec_line(),
    ensures
        spec_span_format(b, start, end, message) == spec_format_with_len(
            b,
            start.spec_line(),
            start.spec_col(),
            message,
            (end.spec_col() - start.spec_col()) as nat,
        ),
{
}

/// A joined span covers both spans it joins: it starts no later and ends no
/// earlier than either of them.
pub proof fn law_join_covers(a: Span, b: Span)
    ensures
        joined(a, b).spec_start().no_later_than(a.spec_start()),
        joined(a, b).spec_start().no_later_than(b.spec_start()),
        a.spec_end().no_later_than(joined(a, b).spec_end()),
        b.spec_end().no_later_than(joined(a, b).spec_end()),
{
}

/// Joining does not depend on the order of the two spans, and a span joined with
/// itself is the same span.
pub proof fn law_join_symmetric(a: Span, b: Span)
    ensures
        joined(a, b) == joined(b, a),
        joined(a, a) == a,
{
    Loc::lemma_fields(a.spec_start());
    Loc::lemma_fields(b.spec_start());
    Loc::lemma_fields(a.spec_end());
    Loc::lemma_fields(b.spec_end());
}

} // verus!

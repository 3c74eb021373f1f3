//! Source locations: from line and column to byte offsets and source slices.
use vstd::prelude::*;

use crate::text;

verus! {

/// A line, counted from 1, and a column in characters, counted from 0.
#[derive(Debug, Clone, Copy, PartialEq, Eq, Structural)]
pub struct LineColumn {
    pub line: usize,
    pub column: usize,
}

/// The bytes of a character in UTF-8.
pub open spec fn char_width(c: char) -> nat {
    if c as u32 <= 0x7F {
        1
    } else if c as u32 <= 0x7FF {
        2
    } else if c as u32 <= 0xFFFF {
        3
    } else {
        4
    }
}

/// The bytes of a text in UTF-8.
pub open spec fn byte_len(s: Seq<char>) -> nat
    decreases s.len(),
{
    if s.len() == 0 {
        0
    } else {
        byte_len(s.drop_last()) + char_width(s.last())
    }
}

/// The index after the line break at or after `i`, or the end of the text.
pub open spec fn line_end(s: Seq<char>, i: int) -> int
    decreases s.len() - i,
{
    if i >= s.len() {
        s.len() as int
    } else if s[i] == '\n' {
        i + 1
    } else {
        line_end(s, i + 1)
    }
}

/// The index of the first character of a line. The text's end starts one last,
/// empty line.
pub open spec fn line_start(s: Seq<char>, line: int) -> Option<int>
    decreases line,
{
    if line <= 0 {
        None
    } else if line == 1 {
        Some(0)
    } else {
        match line_start(s, line - 1) {
            Some(i) => if i < s.len() {
                Some(line_end(s, i))
            } else {
                None
            },
            None => None,
        }
    }
}

/// The character index of a line and column: the column counts from the start of
/// the line, up to and with the end of its text.
pub open spec fn index_at(s: Seq<char>, line: int, column: int) -> Option<int> {
    match line_start(s, line) {
        Some(i) => if i + column <= line_end(s, i) {
            Some(i + column)
        } else {
            None
        },
        None => None,
    }
}

/// The character index of a location.
pub open spec fn char_index(s: Seq<char>, loc: LineColumn) -> Option<int> {
    index_at(s, loc.line as int, loc.column as int)
}

/// A text's length in bytes is that of its UTF-8 encoding.
pub proof fn byte_len_is_the_encoded_length(s: Seq<char>)
    ensures
        byte_len(s) == vstd::utf8::encode_utf8(s).len(),
    decreases s.len(),
{
    if s.len() > 0 {
        lemma_byte_len_front(s);
        byte_len_is_the_encoded_length(s.drop_first());
        vstd::utf8::char_is_scalar(s[0]);
        assert(vstd::utf8::encode_scalar(s[0] as u32).len() == char_width(s[0]));
    }
}

proof fn lemma_byte_len_front(s: Seq<char>)
    requires
        s.len() > 0,
    ensures
        byte_len(s) == char_width(s[0]) + byte_len(s.drop_first()),
    decreases s.len(),
{
    if s.len() == 1 {
        assert(s.drop_last() =~= Seq::empty());
        assert(s.drop_first() =~= Seq::empty());
    } else {
        lemma_byte_len_front(s.drop_last());
        assert(s.drop_last().drop_first() =~= s.drop_first().drop_last());
    }
}

proof fn lemma_byte_len_grows(s: Seq<char>, i: int, j: int)
    requires
        0 <= i <= j <= s.len(),
    ensures
        byte_len(s.take(i)) <= byte_len(s.take(j)),
        i < j ==> byte_len(s.take(i)) < byte_len(s.take(j)),
    decreases j,
{
    if i < j {
        lemma_byte_len_grows(s, i, j - 1);
        assert(s.take(j).drop_last() =~= s.take(j - 1));
    }
}

proof fn lemma_line_end(s: Seq<char>, i: int)
    requires
        0 <= i <= s.len(),
    ensures
        i <= line_end(s, i) <= s.len(),
        i < s.len() ==> i < line_end(s, i),
    decreases s.len() - i,
{
    if i < s.len() && s[i] != '\n' {
        lemma_line_end(s, i + 1);
    }
}

proof fn lemma_line_start(s: Seq<char>, line: int)
    ensures
        line_start(s, line) matches Some(i) ==> 0 <= i <= s.len(),
    decreases line,
{
    if line > 1 {
        lemma_line_start(s, line - 1);
        if line_start(s, line - 1) is Some {
            lemma_line_end(s, line_start(s, line - 1)->0);
        }
    }
}

/// The index after the line break at or after `from`, or the end of the text.
fn find_line_end(chars: &Vec<char>, from: usize) -> (r: usize)
    requires
        from <= chars@.len(),
    ensures
        r == line_end(chars@, from as int),
        from <= r <= chars@.len(),
{
    let mut i: usize = from;
    proof {
        lemma_line_end(chars@, from as int);
    }
    while i < chars.len() && chars[i] != '\n'
        invariant
            from <= i <= chars@.len(),
            line_end(chars@, from as int) == line_end(chars@, i as int),
        decreases chars.len() - i,
    {
        i += 1;
    }
    if i < chars.len() {
        i + 1
    } else {
        i
    }
}

/// The character index of a location.
fn find_char_index(chars: &Vec<char>, loc: LineColumn) -> (r: Option<usize>)
    ensures
        match char_index(chars@, loc) {
            Some(i) => r matches Some(k) && k == i && i <= chars@.len(),
            None => r is None,
        },
{
    if loc.line == 0 {
        return None;
    }
    let mut line: usize = 1;
    let mut start: usize = 0;
    while line < loc.line
        invariant
            1 <= line <= loc.line,
            start <= chars@.len(),
            line_start(chars@, line as int) == Some(start as int),
        decreases loc.line - line,
    {
        if start >= chars.len() {
            proof {
                lemma_no_later_line(chars@, line + 1, loc.line as int);
            }
            return None;
        }
        start = find_line_end(chars, start);
        line += 1;
    }
    let end = find_line_end(chars, start);
    if loc.column <= end - start {
        Some(start + loc.column)
    } else {
        None
    }
}

proof fn lemma_no_later_line(s: Seq<char>, m: int, n: int)
    requires
        1 <= m <= n,
        line_start(s, m) is None,
    ensures
        line_start(s, n) is None,
    decreases n,
{
    if m < n {
        lemma_no_later_line(s, m, n - 1);
    }
}

/// The bytes before character `k`.
fn bytes_before(chars: &Vec<char>, k: usize) -> (r: usize)
    requires
        k <= chars@.len(),
        byte_len(chars@) <= usize::MAX,
    ensures
        r == byte_len(chars@.take(k as int)),
{
    let mut i: usize = 0;
    let mut bytes: usize = 0;
    while i < k
        invariant
            i <= k <= chars@.len(),
            byte_len(chars@) <= usize::MAX,
            bytes == byte_len(chars@.take(i as int)),
        decreases k - i,
    {
        let c = chars[i] as u32;
        proof {
            lemma_byte_len_grows(chars@, i + 1, chars@.len() as int);
            assert(chars@.take(chars@.len() as int) =~= chars@);
            assert(chars@.take(i + 1).drop_last() =~= chars@.take(i as int));
        }
        let width: usize = if c <= 0x7F {
            1
        } else if c <= 0x7FF {
            2
        } else if c <= 0xFFFF {
            3
        } else {
            4
        };
        bytes = bytes + width;
        i += 1;
    }
    bytes
}

/// The byte offset of a column of a line: none past its last character.
pub fn byte_offset_for_char_column(line: &str, column: usize) -> (r: Option<usize>)
    ensures
        if column <= line@.len() {
            r matches Some(offset) && offset == byte_len(line@.take(column as int))
        } else {
            r is None
        },
{
    let chars = text::chars_of(line);
    let bytes = line.as_bytes().len();
    proof {
        byte_len_is_the_encoded_length(line@);
    }
    if column <= chars.len() {
        Some(bytes_before(&chars, column))
    } else {
        None
    }
}

/// The byte offset of a location in a source text, if it has that location.
pub fn line_column_to_offset(source: &str, loc: LineColumn) -> (r: Option<usize>)
    ensures
        match char_index(source@, loc) {
            Some(i) => r matches Some(offset) && offset == byte_len(source@.take(i)),
            None => r is None,
        },
{
    let chars = text::chars_of(source);
    let bytes = source.as_bytes().len();
    proof {
        byte_len_is_the_encoded_length(source@);
    }
    match find_char_index(&chars, loc) {
        Some(i) => Some(bytes_before(&chars, i)),
        None => None,
    }
}

/// The source text between two locations, if both exist in order.
pub fn source_slice(source: &str, start: LineColumn, end: LineColumn) -> (r: Option<String>)
    ensures
        match (char_index(source@, start), char_index(source@, end)) {
            (Some(a), Some(b)) => if a <= b {
                r matches Some(t) && t@ == source@.subrange(a, b)
            } else {
                r is None
            },
            _ => r is None,
        },
{
    let chars = text::chars_of(source);
    match (find_char_index(&chars, start), find_char_index(&chars, end)) {
        (Some(a), Some(b)) => if a <= b {
            Some(source.substring_char(a, b).to_owned())
        } else {
            None
        },
        _ => None,
    }
}

/// The text that a module is captured as: that of its span, else the slice of its
/// file, else its tokens.
pub fn captured_source(
    span_text: Option<String>,
    file_slice: Option<String>,
    tokens: String,
) -> (r: String)
    ensures
        r@ == (match (span_text, file_slice) {
            (Some(t), _) => t@,
            (None, Some(t)) => t@,
            (None, None) => tokens@,
        }),
{
    match span_text {
        Some(t) => t,
        None => match file_slice {
            Some(t) => t,
            None => tokens,
        },
    }
}

/// A slice is as long, in bytes, as its offsets are apart.
pub proof fn a_slice_spans_its_offsets(source: Seq<char>, a: int, b: int)
    requires
        0 <= a <= b <= source.len(),
    ensures
        byte_len(source.take(b)) == byte_len(source.take(a)) + byte_len(source.subrange(a, b)),
    decreases b - a,
{
    if a == b {
        assert(source.subrange(a, b) =~= Seq::empty());
    } else {
        a_slice_spans_its_offsets(source, a, b - 1);
        assert(source.take(b).drop_last() =~= source.take(b - 1));
        assert(source.subrange(a, b).drop_last() =~= source.subrange(a, b - 1));
    }
}

/// Offsets are ordered as the character indices they belong to.
pub proof fn offsets_are_ordered_as_indices(source: Seq<char>, a: int, b: int)
    requires
        0 <= a <= source.len(),
        0 <= b <= source.len(),
    ensures
        byte_len(source.take(a)) <= byte_len(source.take(b)) <==> a <= b,
{
    if a <= b {
        lemma_byte_len_grows(source, a, b);
    } else {
        lemma_byte_len_grows(source, b, a);
    }
}

proof fn lemma_slice_line_end(s: Seq<char>, a: int, b: int, j: int)
    requires
        0 <= a <= b <= s.len(),
        0 <= j <= b - a,
    ensures
        a + line_end(s.subrange(a, b), j) <= line_end(s, a + j),
        line_end(s.subrange(a, b), j) < b - a ==> a + line_end(s.subrange(a, b), j) == line_end(
            s,
            a + j,
        ),
    decreases b - a - j,
{
    let t = s.subrange(a, b);
    if j < t.len() {
        assert(t[j] == s[a + j]);
        if t[j] != '\n' {
            lemma_slice_line_end(s, a, b, j + 1);
        }
    } else {
        lemma_line_end(s, a + j);
    }
}

proof fn lemma_slice_line_start(s: Seq<char>, a: int, b: int, line: int, first: int, start: int)
    requires
        0 <= a <= b <= s.len(),
        line >= 2,
        first >= 1,
        line_start(s, first) == Some(start),
        0 <= start <= a < line_end(s, start),
        line_start(s.subrange(a, b), line) is Some,
        line_start(s.subrange(a, b), line)->0 < b - a,
    ensures
        line_start(s, first + line - 1) == Some(a + line_start(s.subrange(a, b), line)->0),
    decreases line,
{
    let t = s.subrange(a, b);
    lemma_line_start(t, line - 1);
    let j = line_start(t, line - 1)->0;
    lemma_line_end(t, j);
    lemma_slice_line_end(s, a, b, j);
    if line == 2 {
        lemma_same_line(s, start, a);
    } else {
        lemma_slice_line_start(s, a, b, line - 1, first, start);
    }
}

/// Two places of one line have one line end.
proof fn lemma_same_line(s: Seq<char>, i: int, k: int)
    requires
        0 <= i <= k < line_end(s, i),
    ensures
        line_end(s, k) == line_end(s, i),
    decreases k - i,
{
    if i < k {
        lemma_same_line(s, i + 1, k);
    }
}

/// A location of a slice that was captured from a character at `base` resolves to
/// a place in the file: lines count from the slice's first line, and only on that
/// line columns count from the slice's first column. Every character of the slice
/// is found at its own place in the file.
pub proof fn slice_locations_resolve_in_the_file(
    source: Seq<char>,
    base: LineColumn,
    end: int,
    line: int,
    column: int,
)
    requires
        char_index(source, base) is Some,
        char_index(source, base)->0 < line_end(source, line_start(source, base.line as int)->0),
        char_index(source, base)->0 <= end <= source.len(),
        column >= 0,
        ({
            let slice = source.subrange(char_index(source, base)->0, end);
            index_at(slice, line, column) is Some && index_at(slice, line, column)->0 < slice.len()
        }),
    ensures
        ({
            let start = char_index(source, base)->0;
            let slice = source.subrange(start, end);
            let absolute = if line == 1 {
                base.column + column
            } else {
                column
            };
            index_at(source, base.line + line - 1, absolute) == Some(
                start + index_at(slice, line, column)->0,
            )
        }),
{
    let start = char_index(source, base)->0;
    let slice = source.subrange(start, end);
    let first = line_start(source, base.line as int)->0;
    lemma_line_start(source, base.line as int);
    lemma_line_start(slice, line);
    let j = line_start(slice, line)->0;
    lemma_slice_line_end(source, start, end, j);
    lemma_line_end(source, first);
    if line == 1 {
        lemma_same_line(source, first, start);
    } else {
        lemma_slice_line_start(source, start, end, line, base.line as int, first);
    }
}

/// Lines follow one another: the first starts with the text, and the next starts after
/// the line break of the one before. A last line without a line break is followed by an
/// empty one at the end of the text, which nothing follows.
pub proof fn lines_follow_one_another(s: Seq<char>, line: int, i: int, j: int)
    requires
        line_start(s, line) == Some(i),
        i <= j <= s.len(),
        j < s.len() ==> s[j] == '\n',
        forall|k: int| i <= k < j ==> #[trigger] s[k] != '\n',
    ensures
        line_start(s, 0) is None,
        line_start(s, 1) == Some(0int),
        i < s.len() ==> line_start(s, line + 1) == Some(
            if j < s.len() {
                j + 1
            } else {
                j
            },
        ),
        i >= s.len() ==> line_start(s, line + 1) is None,
{
    lemma_line_start(s, line);
    lemma_break_found(s, i, j);
}

/// A column is found on a line up to the end of the line, its line break included.
pub proof fn columns_reach_to_the_end_of_the_line(
    s: Seq<char>,
    line: int,
    i: int,
    j: int,
    column: int,
)
    requires
        line_start(s, line) == Some(i),
        i <= j <= s.len(),
        j < s.len() ==> s[j] == '\n',
        forall|k: int| i <= k < j ==> #[trigger] s[k] != '\n',
        column >= 0,
    ensures
        index_at(s, line, column) is Some <==> i + column <= if j < s.len() {
            j + 1
        } else {
            j
        },
        index_at(s, line, column) matches Some(index) ==> index == i + column,
{
    lemma_line_start(s, line);
    lemma_break_found(s, i, j);
}

proof fn lemma_break_found(s: Seq<char>, i: int, j: int)
    requires
        0 <= i <= j <= s.len(),
        j < s.len() ==> s[j] == '\n',
        forall|k: int| i <= k < j ==> #[trigger] s[k] != '\n',
    ensures
        line_end(s, i) == if j < s.len() {
            j + 1
        } else {
            j
        },
    decreases j - i,
{
    if i < j {
        assert(s[i] != '\n');
        lemma_break_found(s, i + 1, j);
    }
}

/// A location is found by its line and its column; a line that does not exist has none.
pub proof fn a_location_is_a_line_and_a_column(s: Seq<char>, loc: LineColumn)
    ensures
        char_index(s, loc) == index_at(s, loc.line as int, loc.column as int),
        line_start(s, loc.line as int) is None ==> char_index(s, loc) is None,
{
}

} // verus!

//! Fixed-width text: cutting a column range out of an ASCII line and removing
//! the blanks that pad it.

use vstd::prelude::*;
use vstd::string::*;

verus! {

/// The characters that trimming removes: space, tab, line feed, vertical tab,
/// form feed and carriage return.
pub open spec fn is_blank(c: char) -> bool {
    c == ' ' || ('\t' <= c && c <= '\r')
}

/// `s` without its leading blanks.
pub open spec fn trim_start(s: Seq<char>) -> Seq<char>
    decreases s.len(),
{
    if s.len() > 0 && is_blank(s[0]) {
        trim_start(s.drop_first())
    } else {
        s
    }
}

/// `s` without its trailing blanks.
pub open spec fn trim_end(s: Seq<char>) -> Seq<char>
    decreases s.len(),
{
    if s.len() > 0 && is_blank(s.last()) {
        trim_end(s.drop_last())
    } else {
        s
    }
}

/// `s` without its leading and trailing blanks.
pub open spec fn trim(s: Seq<char>) -> Seq<char> {
    trim_end(trim_start(s))
}

/// Whether the byte `b` of an ASCII text stands for a blank.
fn is_blank_byte(b: u8) -> (blank: bool)
    ensures
        blank == (b == 32 || (9 <= b && b <= 13)),
{
    b == 32 || (9 <= b && b <= 13)
}

/// The character at `at` of an ASCII line, as a blank or not.
fn blank_at(line: &str, at: usize) -> (blank: bool)
    requires
        is_ascii(line),
        at < line@.len(),
    ensures
        blank == is_blank(line@[at as int]),
{
    let b = line.get_ascii(at);
    proof {
        let c = line@[at as int];
        assert('\0' <= c && c <= '\u{7f}');
        assert(c as u8 == b);
    }
    is_blank_byte(b)
}

/// Columns `from..to` of an ASCII line, as they stand.
pub(crate) fn section(line: &str, from: usize, to: usize) -> (out: String)
    requires
        is_ascii(line),
        from <= to <= line@.len(),
    ensures
        out@ == line@.subrange(from as int, to as int),
{
    line.substring_ascii(from, to).to_owned()
}

/// Columns `from..to` of an ASCII line without their leading blanks.
pub(crate) fn section_trimmed_start(line: &str, from: usize, to: usize) -> (out: String)
    requires
        is_ascii(line),
        from <= to <= line@.len(),
    ensures
        out@ == trim_start(line@.subrange(from as int, to as int)),
{
    let start = skip_blanks(line, from, to);
    line.substring_ascii(start, to).to_owned()
}

/// Columns `from..to` of an ASCII line without their leading and trailing
/// blanks.
pub(crate) fn section_trimmed(line: &str, from: usize, to: usize) -> (out: String)
    requires
        is_ascii(line),
        from <= to <= line@.len(),
    ensures
        out@ == trim(line@.subrange(from as int, to as int)),
{
    let start = skip_blanks(line, from, to);
    let end = drop_blanks(line, start, to);
    line.substring_ascii(start, end).to_owned()
}

/// First column in `from..to` that holds no blank, or `to`.
fn skip_blanks(line: &str, from: usize, to: usize) -> (start: usize)
    requires
        is_ascii(line),
        from <= to <= line@.len(),
    ensures
        from <= start <= to,
        line@.subrange(start as int, to as int) == trim_start(
            line@.subrange(from as int, to as int),
        ),
{
    let mut start: usize = from;
    while start < to && blank_at(line, start)
        invariant
            is_ascii(line),
            from <= start <= to <= line@.len(),
            trim_start(line@.subrange(start as int, to as int)) == trim_start(
                line@.subrange(from as int, to as int),
            ),
        decreases to - start,
    {
        proof {
            let here = line@.subrange(start as int, to as int);
            assert(here[0] == line@[start as int]);
            assert(here.drop_first() == line@.subrange(start as int + 1, to as int));
        }
        start = start + 1;
    }
    proof {
        let here = line@.subrange(start as int, to as int);
        if start < to {
            assert(here[0] == line@[start as int]);
        }
    }
    start
}

/// One past the last column in `from..to` that holds no blank, or `from`.
fn drop_blanks(line: &str, from: usize, to: usize) -> (end: usize)
    requires
        is_ascii(line),
        from <= to <= line@.len(),
    ensures
        from <= end <= to,
        line@.subrange(from as int, end as int) == trim_end(
            line@.subrange(from as int, to as int),
        ),
{
    let mut end: usize = to;
    while end > from && blank_at(line, end - 1)
        invariant
            is_ascii(line),
            from <= end <= to <= line@.len(),
            trim_end(line@.subrange(from as int, end as int)) == trim_end(
                line@.subrange(from as int, to as int),
            ),
        decreases end - from,
    {
        proof {
            let here = line@.subrange(from as int, end as int);
            assert(here.last() == line@[end as int - 1]);
            assert(here.drop_last() == line@.subrange(from as int, end as int - 1));
        }
        end = end - 1;
    }
    proof {
        let here = line@.subrange(from as int, end as int);
        if end > from {
            assert(here.last() == line@[end as int - 1]);
        }
    }
    end
}

/// A text without its leading and trailing blanks.
pub fn trimmed(text: &str) -> (out: String)
    ensures
        out@ == trim(text@),
{
    if text.is_ascii() {
        proof {
            is_ascii_spec_bytes(text);
            assert(text.spec_bytes().len() == text@.len());
            assert(text@.subrange(0, text@.len() as int) == text@);
        }
        return section_trimmed(text, 0, text.as_bytes().len());
    }
    let length = text.unicode_len();
    let mut start: usize = 0;
    proof {
        assert(text@.subrange(0, length as int) == text@);
    }
    while start < length && is_blank_char(text.get_char(start))
        invariant
            start <= length,
            length == text@.len(),
            trim_start(text@.subrange(start as int, length as int)) == trim_start(text@),
        decreases length - start,
    {
        proof {
            let here = text@.subrange(start as int, length as int);
            assert(here[0] == text@[start as int]);
            assert(here.drop_first() == text@.subrange(start as int + 1, length as int));
        }
        start = start + 1;
    }
    proof {
        let here = text@.subrange(start as int, length as int);
        if start < length {
            assert(here[0] == text@[start as int]);
        }
    }
    let mut end: usize = length;
    while end > start && is_blank_char(text.get_char(end - 1))
        invariant
            start <= end <= length,
            length == text@.len(),
            trim_end(text@.subrange(start as int, end as int)) == trim_end(
                text@.subrange(start as int, length as int),
            ),
        decreases end - start,
    {
        proof {
            let here = text@.subrange(start as int, end as int);
            assert(here.last() == text@[end as int - 1]);
            assert(here.drop_last() == text@.subrange(start as int, end as int - 1));
        }
        end = end - 1;
    }
    proof {
        let here = text@.subrange(start as int, end as int);
        if end > start {
            assert(here.last() == text@[end as int - 1]);
        }
    }
    text.substring_char(start, end).to_owned()
}

/// Whether a character is a blank.
fn is_blank_char(c: char) -> (blank: bool)
    ensures
        blank == is_blank(c),
{
    c == ' ' || ('\t' <= c && c <= '\r')
}

/// Where the first line feed of a text stands, or the length of the text
/// when it has none.
pub open spec fn first_line_feed(text: Seq<char>) -> int
    decreases text.len(),
{
    if text.len() == 0 || text[0] == '\n' {
        0
    } else {
        1 + first_line_feed(text.drop_first())
    }
}

/// A line without the carriage return that may end it.
pub open spec fn without_carriage_return(line: Seq<char>) -> Seq<char> {
    if line.len() > 0 && line.last() == '\r' {
        line.drop_last()
    } else {
        line
    }
}

/// The lines of a text. A line ends with a line feed, or with a carriage
/// return and a line feed; neither belongs to the line. The last line needs
/// no line ending, and after a final line ending no empty line follows.
pub open spec fn lines_of(text: Seq<char>) -> Seq<Seq<char>>
    decreases text.len(),
{
    if text.len() == 0 {
        Seq::empty()
    } else {
        let end = first_line_feed(text);
        if 0 <= end < text.len() {
            seq![without_carriage_return(text.take(end))] + lines_of(text.skip(end + 1))
        } else {
            seq![text]
        }
    }
}

/// `str::lines`: the lines of a text, each as a text of its own. As the
/// standard library documents it, lines end at `\n` or `\r\n`, the line
/// ending is not part of the line, and a final line ending adds no line.
#[verifier::external_body]
pub(crate) fn split_lines(text: &str) -> (lines: Vec<String>)
    ensures
        lines@.map_values(|l: String| l@) == lines_of(text@),
{
    text.lines().map(|line| line.to_owned()).collect()
}

} // verus!

//! Lines of pipe tables.

use vstd::prelude::*;
use vstd::string::*;
use crate::text::{
    append_chars, chars_of, copy_range, is_white_space, join_text, string_of, trim_chars,
    trim_text, white_space,
};

verus! {

/// The number of pipe characters in `text`.
pub open spec fn pipe_count(text: Seq<char>) -> nat
    decreases text.len(),
{
    if text.len() == 0 {
        0
    } else if text.last() == '|' {
        pipe_count(text.drop_last()) + 1
    } else {
        pipe_count(text.drop_last())
    }
}

/// Whether a line, white space at its ends apart, begins with a pipe or holds
/// two pipes or more.
pub open spec fn is_table_row(line: Seq<char>) -> bool {
    let trimmed = trim_text(line);
    (trimmed.len() > 0 && trimmed[0] == '|') || pipe_count(trimmed) >= 2
}

/// Whether `line` may be a row of a pipe table.
pub fn looks_like_table_row(line: &str) -> (out: bool)
    ensures
        out == is_table_row(line@),
{
    let chars = chars_of(line);
    let text = trim_chars(&chars);
    let len: usize = text.len();
    if len > 0 && text[0] == '|' {
        return true;
    }
    let mut pipes: usize = 0;
    let mut i: usize = 0;
    while i < len
        invariant
            i <= len,
            len == text@.len(),
            pipes == pipe_count(text@.take(i as int)),
            pipes <= i,
        decreases len - i,
    {
        proof {
            assert(text@.take(i + 1).drop_last() =~= text@.take(i as int));
        }
        if text[i] == '|' {
            pipes += 1;
        }
        i += 1;
    }
    proof {
        assert(text@.take(i as int) =~= text@);
    }
    pipes >= 2
}

/// How a column is aligned, as its cell of the delimiter row says.
#[derive(Clone, Copy, PartialEq, Eq, Debug)]
pub enum Alignment {
    /// To the left, by default (`---`).
    Left,
    /// To the left, as asked for (`:---`).
    ExplicitLeft,
    /// Centred (`:---:`).
    Center,
    /// To the right (`---:`).
    Right,
}

/// The texts that a vector of character vectors holds.
pub open spec fn rows_of(rows: Seq<Vec<char>>) -> Seq<Seq<char>> {
    rows.map_values(|row: Vec<char>| row@)
}

/// The cells that a vector of rows holds.
pub open spec fn cells_of(rows: Seq<Vec<Vec<char>>>) -> Seq<Seq<Seq<char>>> {
    rows.map_values(|row: Vec<Vec<char>>| rows_of(row@))
}

/// A line without the carriage return at its end, if it has one.
pub open spec fn without_return(line: Seq<char>) -> Seq<char> {
    if line.len() > 0 && line.last() == '\r' {
        line.drop_last()
    } else {
        line
    }
}

/// The lines of `text` from index `i` on, where the current line began at
/// `start`.
pub open spec fn lines_from(text: Seq<char>, start: int, i: int) -> Seq<Seq<char>>
    decreases text.len() - i,
{
    if i >= text.len() {
        if start < text.len() {
            seq![text.subrange(start, text.len() as int)]
        } else {
            Seq::empty()
        }
    } else if text[i] == '\n' {
        seq![without_return(text.subrange(start, i))] + lines_from(text, i + 1, i + 1)
    } else {
        lines_from(text, start, i + 1)
    }
}

/// The lines of `text`. A line ends at a line feed, or at a carriage return
/// with a line feed behind it; neither belongs to the line. After the last
/// line feed no empty line follows.
pub open spec fn lines_text(text: Seq<char>) -> Seq<Seq<char>> {
    lines_from(text, 0, 0)
}

/// The parts of `input` from index `i` on, where the current part began at
/// `start`.
pub open spec fn split_from(input: Seq<char>, start: int, i: int) -> Seq<Seq<char>>
    decreases input.len() - i,
{
    if i >= input.len() {
        seq![input.subrange(start, input.len() as int)]
    } else if input[i] == '\\' {
        split_from(input, start, if i + 2 <= input.len() { i + 2 } else { input.len() as int })
    } else if input[i] == '|' {
        seq![input.subrange(start, i)] + split_from(input, i + 1, i + 1)
    } else {
        split_from(input, start, i + 1)
    }
}

/// The parts between the pipes of `input`. A pipe behind a backslash divides
/// nothing: the backslash takes the character after it along.
pub open spec fn split_text(input: Seq<char>) -> Seq<Seq<char>> {
    split_from(input, 0, 0)
}

/// `text` without one `c` at its start and, then, without one `c` at its end.
pub open spec fn strip_ends(text: Seq<char>, c: char) -> Seq<char> {
    let rest = if text.len() > 0 && text[0] == c {
        text.drop_first()
    } else {
        text
    };
    if rest.len() > 0 && rest.last() == c {
        rest.drop_last()
    } else {
        rest
    }
}

/// The cells of a row: the line is trimmed, loses one pipe at either end, and
/// is split at its pipes; each cell is trimmed.
pub open spec fn row_cells(line: Seq<char>) -> Seq<Seq<char>> {
    split_text(strip_ends(trim_text(line), '|')).map_values(|cell: Seq<char>| trim_text(cell))
}

/// Whether a cell is one of a delimiter row: dashes, one at least, with at
/// most one colon before and one behind them.
pub open spec fn is_delimiter_cell(cell: Seq<char>) -> bool {
    let inner = strip_ends(trim_text(cell), ':');
    inner.len() > 0 && forall|i: int| 0 <= i < inner.len() ==> inner[i] == '-'
}

/// Whether a row is a delimiter row: it has a cell, and each of its cells is
/// a delimiter cell.
pub open spec fn is_delimiter_cells(cells: Seq<Seq<char>>) -> bool {
    cells.len() > 0 && forall|i: int| 0 <= i < cells.len() ==> is_delimiter_cell(#[trigger] cells[i])
}

/// The alignment that a cell of the delimiter row asks for, by the colons at
/// its ends.
pub open spec fn alignment_of(cell: Seq<char>) -> Alignment {
    let trimmed = trim_text(cell);
    let left = trimmed.len() > 0 && trimmed[0] == ':';
    let right = trimmed.len() > 0 && trimmed.last() == ':';
    if left && right {
        Alignment::Center
    } else if right {
        Alignment::Right
    } else if left {
        Alignment::ExplicitLeft
    } else {
        Alignment::Left
    }
}

/// The lines of `text`.
pub fn split_lines(text: &Vec<char>) -> (out: Vec<Vec<char>>)
    ensures
        rows_of(out@) == lines_text(text@),
{
    let mut out: Vec<Vec<char>> = Vec::new();
    let mut start: usize = 0;
    let mut i: usize = 0;
    proof {
        assert(rows_of(out@) + lines_from(text@, 0, 0) =~= lines_text(text@));
    }
    while i < text.len()
        invariant
            start <= i <= text.len(),
            rows_of(out@) + lines_from(text@, start as int, i as int) == lines_text(text@),
        decreases text.len() - i,
    {
        if text[i] == '\n' {
            let mut end: usize = i;
            if end > start && text[end - 1] == '\r' {
                end -= 1;
            }
            let line = copy_range(text, start, end);
            let ghost before = rows_of(out@);
            out.push(line);
            proof {
                let whole = text@.subrange(start as int, i as int);
                if whole.len() > 0 && whole.last() == '\r' {
                    assert(whole.drop_last() =~= text@.subrange(start as int, i - 1));
                }
                assert(line@ == without_return(whole));
                assert(rows_of(out@) =~= before.push(line@));
                assert(before.push(line@) + lines_from(text@, i + 1, i + 1) =~= before + (seq![
                    line@,
                ] + lines_from(text@, i + 1, i + 1)));
            }
            start = i + 1;
        }
        i += 1;
    }
    if start < text.len() {
        let line = copy_range(text, start, text.len());
        let ghost before = rows_of(out@);
        out.push(line);
        proof {
            assert(rows_of(out@) =~= before + seq![line@]);
        }
    } else {
        proof {
            assert(rows_of(out@) + Seq::<Seq<char>>::empty() =~= rows_of(out@));
        }
    }
    out
}

/// The parts between the pipes of `input` that no backslash stands before.
pub fn split_on_unescaped_pipe(input: &Vec<char>) -> (out: Vec<Vec<char>>)
    ensures
        rows_of(out@) == split_text(input@),
{
    let mut out: Vec<Vec<char>> = Vec::new();
    let mut start: usize = 0;
    let mut i: usize = 0;
    let len: usize = input.len();
    proof {
        assert(rows_of(out@) + split_from(input@, 0, 0) =~= split_text(input@));
    }
    while i < len
        invariant
            start <= i <= len,
            len == input.len(),
            rows_of(out@) + split_from(input@, start as int, i as int) == split_text(input@),
        decreases len - i,
    {
        if input[i] == '\\' {
            if len - i >= 2 {
                i += 2;
            } else {
                i = len;
            }
        } else {
            if input[i] == '|' {
                let part = copy_range(input, start, i);
                let ghost before = rows_of(out@);
                out.push(part);
                proof {
                    assert(rows_of(out@) =~= before.push(part@));
                    assert(before.push(part@) + split_from(input@, i + 1, i + 1) =~= before + (
                    seq![part@] + split_from(input@, i + 1, i + 1)));
                }
                start = i + 1;
            }
            i += 1;
        }
    }
    let part = copy_range(input, start, len);
    let ghost before = rows_of(out@);
    out.push(part);
    proof {
        assert(rows_of(out@) =~= before + seq![part@]);
    }
    out
}

/// The range of `text` that is left without one `c` at its start and, then,
/// without one `c` at its end.
fn strip_range(text: &Vec<char>, c: char) -> (out: (usize, usize))
    ensures
        out.0 <= out.1 <= text.len(),
        text@.subrange(out.0 as int, out.1 as int) == strip_ends(text@, c),
{
    let mut from: usize = 0;
    let mut to: usize = text.len();
    if to > 0 && text[0] == c {
        from = 1;
    }
    proof {
        assert(text@.subrange(0, to as int) =~= text@);
        assert(text@.subrange(1, to as int) =~= text@.drop_first());
    }
    if to > from && text[to - 1] == c {
        proof {
            assert(text@.subrange(from as int, to as int).drop_last() =~= text@.subrange(
                from as int,
                to - 1,
            ));
        }
        to -= 1;
    }
    (from, to)
}

/// The cells of a row of a table.
pub fn parse_row(line: &Vec<char>) -> (out: Vec<Vec<char>>)
    ensures
        rows_of(out@) == row_cells(line@),
{
    let trimmed = trim_chars(line);
    let (from, to) = strip_range(&trimmed, '|');
    let inner = copy_range(&trimmed, from, to);
    let parts = split_on_unescaped_pipe(&inner);
    let mut out: Vec<Vec<char>> = Vec::new();
    let mut i: usize = 0;
    while i < parts.len()
        invariant
            i <= parts.len(),
            rows_of(parts@) == split_text(inner@),
            out@.len() == i,
            forall|j: int| 0 <= j < i ==> (#[trigger] out@[j])@ == trim_text(parts@[j]@),
        decreases parts.len() - i,
    {
        out.push(trim_chars(&parts[i]));
        i += 1;
    }
    proof {
        assert(rows_of(out@) =~= row_cells(line@));
    }
    out
}

/// Whether a cell is one of a delimiter row.
pub fn is_delimiter(cell: &Vec<char>) -> (out: bool)
    ensures
        out == is_delimiter_cell(cell@),
{
    let trimmed = trim_chars(cell);
    let (from, to) = strip_range(&trimmed, ':');
    if from == to {
        return false;
    }
    let ghost inner = trimmed@.subrange(from as int, to as int);
    let mut i: usize = from;
    while i < to
        invariant
            from <= i <= to <= trimmed.len(),
            inner == trimmed@.subrange(from as int, to as int),
            inner == strip_ends(trim_text(cell@), ':'),
            forall|j: int| 0 <= j < i - from ==> inner[j] == '-',
        decreases to - i,
    {
        if trimmed[i] != '-' {
            proof {
                assert(inner[i - from] == trimmed@[i as int]);
            }
            return false;
        }
        i += 1;
    }
    true
}

/// Whether every cell of the row is a delimiter cell, and there is one.
pub fn is_delimiter_row(cells: &Vec<Vec<char>>) -> (out: bool)
    ensures
        out == is_delimiter_cells(rows_of(cells@)),
{
    if cells.len() == 0 {
        return false;
    }
    let mut i: usize = 0;
    while i < cells.len()
        invariant
            i <= cells.len(),
            forall|j: int| 0 <= j < i ==> is_delimiter_cell(#[trigger] rows_of(cells@)[j]),
        decreases cells.len() - i,
    {
        if !is_delimiter(&cells[i]) {
            proof {
                assert(!is_delimiter_cell(rows_of(cells@)[i as int]));
            }
            return false;
        }
        i += 1;
    }
    true
}

/// The alignment that a cell of the delimiter row asks for.
pub fn parse_alignment(cell: &Vec<char>) -> (out: Alignment)
    ensures
        out == alignment_of(cell@),
{
    let trimmed = trim_chars(cell);
    let len: usize = trimmed.len();
    let left = len > 0 && trimmed[0] == ':';
    let right = len > 0 && trimmed[len - 1] == ':';
    if left && right {
        Alignment::Center
    } else if right {
        Alignment::Right
    } else if left {
        Alignment::ExplicitLeft
    } else {
        Alignment::Left
    }
}


/// The number of columns that a text takes when it is displayed: what
/// `UnicodeWidthStr::width` gives for it.
pub uninterp spec fn width_text(text: Seq<char>) -> usize;

/// `UnicodeWidthStr::width` of the crate `unicode-width`: the displayed
/// width of the text made of the characters, called `width_text`.
#[verifier::external_body]
pub(crate) fn display_width(text: &Vec<char>) -> (out: usize)
    ensures
        out == width_text(text@),
{
    let shown: String = text.iter().collect();
    unicode_width::UnicodeWidthStr::width(shown.as_str())
}

/// The character `c`, `n` times.
pub open spec fn repeated(c: char, n: nat) -> Seq<char> {
    Seq::new(n, |i: int| c)
}

/// `content`, which is `content_width` columns wide, filled up with spaces
/// to `width` columns as the alignment asks; content as wide as that or
/// wider stays as it is. Centred content gets the odd space on its right.
pub open spec fn pad_text(
    content: Seq<char>,
    content_width: usize,
    width: usize,
    alignment: Alignment,
) -> Seq<char> {
    if content_width >= width {
        content
    } else {
        let padding: nat = (width - content_width) as nat;
        match alignment {
            Alignment::Left | Alignment::ExplicitLeft => content + repeated(' ', padding),
            Alignment::Right => repeated(' ', padding) + content,
            Alignment::Center => repeated(' ', padding / 2) + content + repeated(
                ' ',
                (padding - padding / 2) as nat,
            ),
        }
    }
}

/// The cell of the delimiter row for a column of `width`: dashes, and the
/// colons of the alignment in place of the outermost dashes.
pub open spec fn dashes_text(width: usize, alignment: Alignment) -> Seq<char> {
    match alignment {
        Alignment::Left => repeated('-', width as nat),
        Alignment::ExplicitLeft => seq![':'] + repeated('-', if width >= 1 {
            (width - 1) as nat
        } else {
            0
        }),
        Alignment::Center => seq![':'] + repeated('-', if width >= 2 {
            (width - 2) as nat
        } else {
            0
        }) + seq![':'],
        Alignment::Right => repeated('-', if width >= 1 {
            (width - 1) as nat
        } else {
            0
        }) + seq![':'],
    }
}

/// The alignment of column `j`: to the left where the delimiter row has no
/// such column.
pub open spec fn alignment_at(alignments: Seq<Alignment>, j: int) -> Alignment {
    if 0 <= j < alignments.len() {
        alignments[j]
    } else {
        Alignment::Left
    }
}

/// The cell of column `j`: empty where the row has no such column.
pub open spec fn cell_at(cells: Seq<Seq<char>>, j: int) -> Seq<char> {
    if 0 <= j < cells.len() {
        cells[j]
    } else {
        Seq::empty()
    }
}

/// A row as it is written: the indent, then the parts between pipes, with a
/// space on either side of each pipe.
pub open spec fn framed_text(indent: Seq<char>, parts: Seq<Seq<char>>) -> Seq<char> {
    indent + seq!['|', ' '] + join_text(parts, seq![' ', '|', ' ']) + seq![' ', '|']
}

/// The delimiter row for columns of these widths.
pub open spec fn delimiter_row_text(
    widths: Seq<usize>,
    alignments: Seq<Alignment>,
    indent: Seq<char>,
) -> Seq<char> {
    framed_text(
        indent,
        Seq::new(widths.len(), |j: int| dashes_text(widths[j], alignment_at(alignments, j))),
    )
}

/// A row of content for columns of these widths: each cell padded to its
/// column, and an empty cell where the row is short of one.
pub open spec fn content_row_text(
    cells: Seq<Seq<char>>,
    widths: Seq<usize>,
    alignments: Seq<Alignment>,
    indent: Seq<char>,
) -> Seq<char> {
    framed_text(
        indent,
        Seq::new(
            widths.len(),
            |j: int|
                pad_text(
                    cell_at(cells, j),
                    width_text(cell_at(cells, j)),
                    widths[j],
                    alignment_at(alignments, j),
                ),
        ),
    )
}

fn push_repeated(out: &mut Vec<char>, c: char, n: usize)
    ensures
        final(out)@ == old(out)@ + repeated(c, n as nat),
{
    let mut i: usize = 0;
    while i < n
        invariant
            i <= n,
            out@ == old(out)@ + repeated(c, i as nat),
        decreases n - i,
    {
        out.push(c);
        proof {
            assert(out@ =~= old(out)@ + repeated(c, (i + 1) as nat));
        }
        i += 1;
    }
}

/// Joins the parts, with `sep` between each two neighbours.
pub fn join_chars(parts: &Vec<Vec<char>>, sep: &Vec<char>) -> (out: Vec<char>)
    ensures
        out@ == join_text(rows_of(parts@), sep@),
{
    let mut out: Vec<char> = Vec::new();
    let mut i: usize = 0;
    while i < parts.len()
        invariant
            i <= parts.len(),
            out@ == join_text(rows_of(parts@).take(i as int), sep@),
        decreases parts.len() - i,
    {
        proof {
            let all = rows_of(parts@);
            assert(all.take(i + 1).drop_last() =~= all.take(i as int));
            assert(all.take(i + 1).last() == parts@[i as int]@);
        }
        let ghost before = out@;
        if i > 0 {
            append_chars(&mut out, sep);
        }
        append_chars(&mut out, &parts[i]);
        proof {
            if i == 0 {
                assert(out@ =~= parts@[i as int]@);
            } else {
                assert(out@ =~= before + sep@ + parts@[i as int]@);
            }
        }
        i += 1;
    }
    proof {
        assert(rows_of(parts@).take(i as int) =~= rows_of(parts@));
    }
    out
}

fn frame_row(parts: &Vec<Vec<char>>, indent: &Vec<char>) -> (out: Vec<char>)
    ensures
        out@ == framed_text(indent@, rows_of(parts@)),
{
    let sep: Vec<char> = vec![' ', '|', ' '];
    let joined = join_chars(parts, &sep);
    let mut out: Vec<char> = Vec::new();
    append_chars(&mut out, indent);
    out.push('|');
    out.push(' ');
    append_chars(&mut out, &joined);
    out.push(' ');
    out.push('|');
    proof {
        assert(sep@ =~= seq![' ', '|', ' ']);
        assert(out@ =~= framed_text(indent@, rows_of(parts@)));
    }
    out
}

/// Pads content whose displayed width is `content_width` to `width` columns.
pub fn pad_to(content: &Vec<char>, content_width: usize, width: usize, alignment: Alignment) -> (out:
    Vec<char>)
    ensures
        out@ == pad_text(content@, content_width, width, alignment),
{
    let mut out: Vec<char> = Vec::new();
    if content_width >= width {
        append_chars(&mut out, content);
        proof {
            assert(out@ =~= content@);
        }
        return out;
    }
    let padding: usize = width - content_width;
    match alignment {
        Alignment::Left | Alignment::ExplicitLeft => {
            append_chars(&mut out, content);
            push_repeated(&mut out, ' ', padding);
            proof {
                assert(out@ =~= content@ + repeated(' ', padding as nat));
            }
        },
        Alignment::Right => {
            push_repeated(&mut out, ' ', padding);
            append_chars(&mut out, content);
            proof {
                assert(out@ =~= repeated(' ', padding as nat) + content@);
            }
        },
        Alignment::Center => {
            let left_pad: usize = padding / 2;
            let right_pad: usize = padding - left_pad;
            push_repeated(&mut out, ' ', left_pad);
            append_chars(&mut out, content);
            push_repeated(&mut out, ' ', right_pad);
            proof {
                assert(out@ =~= repeated(' ', left_pad as nat) + content@ + repeated(
                    ' ',
                    right_pad as nat,
                ));
            }
        },
    }
    out
}

/// Pads a cell to the width of its column.
pub fn pad_cell(content: &Vec<char>, width: usize, alignment: Alignment) -> (out: Vec<char>)
    ensures
        out@ == pad_text(content@, width_text(content@), width, alignment),
{
    pad_to(content, display_width(content), width, alignment)
}

fn dashes(width: usize, alignment: Alignment) -> (out: Vec<char>)
    ensures
        out@ == dashes_text(width, alignment),
{
    let mut out: Vec<char> = Vec::new();
    match alignment {
        Alignment::Left => {
            push_repeated(&mut out, '-', width);
            proof {
                assert(out@ =~= repeated('-', width as nat));
            }
        },
        Alignment::ExplicitLeft => {
            out.push(':');
            push_repeated(&mut out, '-', width.saturating_sub(1));
            proof {
                assert(out@ =~= dashes_text(width, alignment));
            }
        },
        Alignment::Center => {
            out.push(':');
            push_repeated(&mut out, '-', width.saturating_sub(2));
            out.push(':');
            proof {
                assert(out@ =~= dashes_text(width, alignment));
            }
        },
        Alignment::Right => {
            push_repeated(&mut out, '-', width.saturating_sub(1));
            out.push(':');
            proof {
                assert(out@ =~= dashes_text(width, alignment));
            }
        },
    }
    out
}

fn alignment_in(alignments: &Vec<Alignment>, j: usize) -> (out: Alignment)
    ensures
        out == alignment_at(alignments@, j as int),
{
    if j < alignments.len() {
        alignments[j]
    } else {
        Alignment::Left
    }
}

/// The delimiter row, with dashes and the colons of each alignment.
pub fn format_delimiter_row(widths: &Vec<usize>, alignments: &Vec<Alignment>, indent: &Vec<char>) -> (out:
    Vec<char>)
    ensures
        out@ == delimiter_row_text(widths@, alignments@, indent@),
{
    let mut parts: Vec<Vec<char>> = Vec::new();
    let mut j: usize = 0;
    while j < widths.len()
        invariant
            j <= widths.len(),
            parts@.len() == j,
            forall|k: int|
                0 <= k < j ==> (#[trigger] parts@[k])@ == dashes_text(
                    widths@[k],
                    alignment_at(alignments@, k),
                ),
        decreases widths.len() - j,
    {
        parts.push(dashes(widths[j], alignment_in(alignments, j)));
        j += 1;
    }
    proof {
        assert(rows_of(parts@) =~= Seq::new(
            widths@.len(),
            |k: int| dashes_text(widths@[k], alignment_at(alignments@, k)),
        ));
    }
    frame_row(&parts, indent)
}

/// A row of content, each cell padded to the width of its column.
pub fn format_content_row(
    cells: &Vec<Vec<char>>,
    widths: &Vec<usize>,
    alignments: &Vec<Alignment>,
    indent: &Vec<char>,
) -> (out: Vec<char>)
    ensures
        out@ == content_row_text(rows_of(cells@), widths@, alignments@, indent@),
{
    let empty: Vec<char> = Vec::new();
    let mut parts: Vec<Vec<char>> = Vec::new();
    let mut j: usize = 0;
    while j < widths.len()
        invariant
            j <= widths.len(),
            parts@.len() == j,
            empty@ == Seq::<char>::empty(),
            forall|k: int|
                0 <= k < j ==> (#[trigger] parts@[k])@ == pad_text(
                    cell_at(rows_of(cells@), k),
                    width_text(cell_at(rows_of(cells@), k)),
                    widths@[k],
                    alignment_at(alignments@, k),
                ),
        decreases widths.len() - j,
    {
        let cell = if j < cells.len() {
            &cells[j]
        } else {
            &empty
        };
        proof {
            assert(cell@ == cell_at(rows_of(cells@), j as int));
        }
        parts.push(pad_cell(cell, widths[j], alignment_in(alignments, j)));
        j += 1;
    }
    proof {
        assert(rows_of(parts@) =~= Seq::new(
            widths@.len(),
            |k: int|
                pad_text(
                    cell_at(rows_of(cells@), k),
                    width_text(cell_at(rows_of(cells@), k)),
                    widths@[k],
                    alignment_at(alignments@, k),
                ),
        ));
    }
    frame_row(&parts, indent)
}


/// The number of bytes that a character takes in UTF-8.
pub open spec fn char_bytes(c: char) -> nat {
    let code: u32 = c as u32;
    if code < 0x80 {
        1
    } else if code < 0x800 {
        2
    } else if code < 0x10000 {
        3
    } else {
        4
    }
}

/// `acc` and the bytes of the white space with which `line` goes on at `i`.
pub open spec fn leading_from(line: Seq<char>, i: int, acc: nat) -> nat
    decreases line.len() - i,
{
    if 0 <= i < line.len() && white_space(line[i]) {
        leading_from(line, i + 1, acc + char_bytes(line[i]))
    } else {
        acc
    }
}

/// The number of bytes of white space at the start of a line: its indent.
pub open spec fn leading_bytes(line: Seq<char>) -> nat {
    leading_from(line, 0, 0)
}

/// The least indent among `best` and the lines from `i` on that are not blank.
pub open spec fn least_indent_from(lines: Seq<Seq<char>>, i: int, best: Option<nat>) -> Option<nat>
    decreases lines.len() - i,
{
    if i < 0 || i >= lines.len() {
        best
    } else if trim_text(lines[i]).len() == 0 {
        least_indent_from(lines, i + 1, best)
    } else {
        let here: nat = leading_bytes(lines[i]);
        let least = match best {
            Some(b) => if b <= here {
                b
            } else {
                here
            },
            None => here,
        };
        least_indent_from(lines, i + 1, Some(least))
    }
}

/// The indent that the lines share, in bytes: the least indent of a line that
/// is not blank, and none where every line is blank.
pub open spec fn common_indent(lines: Seq<Seq<char>>) -> nat {
    match least_indent_from(lines, 0, None) {
        Some(n) => n,
        None => 0,
    }
}

/// The number of characters of `line`, `k` and more, that take `n` bytes
/// together with the `acc` bytes before them.
pub open spec fn cut_from(line: Seq<char>, n: nat, k: int, acc: nat) -> Option<int>
    decreases line.len() - k,
{
    if acc == n {
        Some(k)
    } else if k < 0 || k >= line.len() || acc > n {
        None
    } else {
        cut_from(line, n, k + 1, acc + char_bytes(line[k]))
    }
}

/// The number of characters at the start of `line` that take exactly `n`
/// bytes; none where the line is shorter, or where `n` bytes end inside a
/// character.
pub open spec fn cut_index(line: Seq<char>, n: nat) -> Option<int> {
    cut_from(line, n, 0, 0)
}

/// Whether each line can be cut behind the common indent.
pub open spec fn indent_fits(lines: Seq<Seq<char>>) -> bool {
    forall|i: int|
        0 <= i < lines.len() ==> cut_index(#[trigger] lines[i], common_indent(lines)) is Some
}

/// The index of the first delimiter row from row `i` on.
pub open spec fn delimiter_from(rows: Seq<Seq<Seq<char>>>, i: int) -> Option<int>
    decreases rows.len() - i,
{
    if i < 0 || i >= rows.len() {
        None
    } else if is_delimiter_cells(rows[i]) {
        Some(i)
    } else {
        delimiter_from(rows, i + 1)
    }
}

/// The greatest number of cells among `best` and the rows from `i` on.
pub open spec fn columns_from(rows: Seq<Seq<Seq<char>>>, i: int, best: nat) -> nat
    decreases rows.len() - i,
{
    if i < 0 || i >= rows.len() {
        best
    } else {
        columns_from(rows, i + 1, if rows[i].len() > best {
            rows[i].len()
        } else {
            best
        })
    }
}

/// The displayed width of each cell of the rows.
pub open spec fn measures_of(rows: Seq<Seq<Seq<char>>>) -> Seq<Seq<usize>> {
    rows.map_values(|row: Seq<Seq<char>>| row.map_values(|cell: Seq<char>| width_text(cell)))
}

/// The widths that a vector of rows of widths holds.
pub open spec fn widths_of(rows: Seq<Vec<usize>>) -> Seq<Seq<usize>> {
    rows.map_values(|row: Vec<usize>| row@)
}

/// The greatest among `best` and the widths of column `j` in the rows from
/// `i` on, the row `skip` left out.
pub open spec fn width_from(measures: Seq<Seq<usize>>, skip: int, j: int, i: int, best: usize) -> usize
    decreases measures.len() - i,
{
    if i < 0 || i >= measures.len() {
        best
    } else if i != skip && 0 <= j < measures[i].len() && measures[i][j] > best {
        width_from(measures, skip, j, i + 1, measures[i][j])
    } else {
        width_from(measures, skip, j, i + 1, best)
    }
}

/// The widths of `columns` columns whose cells are as wide as `measures`
/// says: each as wide as its widest cell outside the row `skip`, and three
/// at least.
pub open spec fn column_widths_of(measures: Seq<Seq<usize>>, skip: int, columns: nat) -> Seq<usize> {
    Seq::new(columns, |j: int| width_from(measures, skip, j, 0, 3))
}

/// The width of column `j`: that of its widest cell outside the delimiter
/// row, and three at least.
pub open spec fn column_width(rows: Seq<Seq<Seq<char>>>, skip: int, j: int) -> usize {
    width_from(measures_of(rows), skip, j, 0, 3)
}

/// The table that `rows` make, written with `indent` before each line: the
/// first delimiter row gives the alignments and is written as dashes, every
/// other row is padded to the columns' widths. There is none without a
/// delimiter row.
pub open spec fn rows_text(rows: Seq<Seq<Seq<char>>>, indent: Seq<char>) -> Option<Seq<char>> {
    match delimiter_from(rows, 0) {
        None => None,
        Some(d) => {
            let alignments = rows[d].map_values(|cell: Seq<char>| alignment_of(cell));
            let columns: nat = columns_from(rows, 0, 0);
            if columns == 0 {
                None
            } else {
                let widths = Seq::new(columns, |j: int| column_width(rows, d, j));
                Some(
                    join_text(
                        Seq::new(
                            rows.len(),
                            |i: int|
                                if i == d {
                                    delimiter_row_text(widths, alignments, indent)
                                } else {
                                    content_row_text(rows[i], widths, alignments, indent)
                                },
                        ),
                        seq!['\n'],
                    ),
                )
            }
        },
    }
}

/// The indent of a table: the start of its first line, as many bytes as all
/// lines share.
pub open spec fn indent_text(lines: Seq<Seq<char>>) -> Seq<char> {
    match cut_index(lines[0], common_indent(lines)) {
        Some(k) => lines[0].take(k),
        None => Seq::empty(),
    }
}

/// The table of `input` with its columns aligned. There is none where the
/// input has fewer than two lines, or no delimiter row.
pub open spec fn table_text(input: Seq<char>) -> Option<Seq<char>> {
    let lines = lines_text(input);
    if lines.len() < 2 {
        None
    } else {
        rows_text(lines.map_values(|line: Seq<char>| row_cells(line)), indent_text(lines))
    }
}

/// Whether `input` can be formatted: with two lines or more, each line must
/// have room for the indent that the lines share.
pub open spec fn can_format_text(input: Seq<char>) -> bool {
    lines_text(input).len() >= 2 ==> indent_fits(lines_text(input))
}

fn char_len(c: char) -> (n: u128)
    ensures
        n == char_bytes(c),
{
    let code: u32 = c as u32;
    if code < 0x80 {
        1
    } else if code < 0x800 {
        2
    } else if code < 0x10000 {
        3
    } else {
        4
    }
}

fn leading_len(line: &Vec<char>) -> (n: u128)
    ensures
        n == leading_bytes(line@),
{
    let mut i: usize = 0;
    let mut acc: u128 = 0;
    while i < line.len() && is_white_space(line[i])
        invariant
            i <= line.len(),
            acc <= 4 * i,
            leading_from(line@, i as int, acc as nat) == leading_bytes(line@),
        decreases line.len() - i,
    {
        acc = acc + char_len(line[i]);
        i += 1;
    }
    acc
}

fn least_indent(lines: &Vec<Vec<char>>) -> (n: u128)
    ensures
        n == common_indent(rows_of(lines@)),
{
    let mut best: Option<u128> = None;
    let mut i: usize = 0;
    while i < lines.len()
        invariant
            i <= lines.len(),
            least_indent_from(
                rows_of(lines@),
                i as int,
                match best {
                    Some(b) => Some(b as nat),
                    None => None,
                },
            ) == least_indent_from(rows_of(lines@), 0, None),
        decreases lines.len() - i,
    {
        let trimmed = trim_chars(&lines[i]);
        if trimmed.len() != 0 {
            let here: u128 = leading_len(&lines[i]);
            best = match best {
                Some(b) => if b <= here {
                    Some(b)
                } else {
                    Some(here)
                },
                None => Some(here),
            };
        }
        i += 1;
    }
    match best {
        Some(b) => b,
        None => 0,
    }
}

fn cut(line: &Vec<char>, n: u128) -> (out: Option<usize>)
    ensures
        match out {
            Some(k) => k <= line.len() && cut_index(line@, n as nat) == Some(k as int),
            None => cut_index(line@, n as nat) is None,
        },
{
    let mut k: usize = 0;
    let mut acc: u128 = 0;
    loop
        invariant
            k <= line.len(),
            acc <= 4 * k,
            cut_from(line@, n as nat, k as int, acc as nat) == cut_index(line@, n as nat),
        decreases line.len() - k,
    {
        if acc == n {
            return Some(k);
        }
        if k >= line.len() || acc > n {
            return None;
        }
        acc = acc + char_len(line[k]);
        k += 1;
    }
}

fn first_delimiter(rows: &Vec<Vec<Vec<char>>>) -> (out: Option<usize>)
    ensures
        match out {
            Some(d) => d < rows.len() && delimiter_from(cells_of(rows@), 0) == Some(d as int),
            None => delimiter_from(cells_of(rows@), 0) is None,
        },
{
    let mut i: usize = 0;
    while i < rows.len()
        invariant
            i <= rows.len(),
            delimiter_from(cells_of(rows@), i as int) == delimiter_from(cells_of(rows@), 0),
        decreases rows.len() - i,
    {
        if is_delimiter_row(&rows[i]) {
            return Some(i);
        }
        i += 1;
    }
    None
}

fn column_count(rows: &Vec<Vec<Vec<char>>>) -> (out: usize)
    ensures
        out == columns_from(cells_of(rows@), 0, 0),
{
    let mut best: usize = 0;
    let mut i: usize = 0;
    while i < rows.len()
        invariant
            i <= rows.len(),
            columns_from(cells_of(rows@), i as int, best as nat) == columns_from(
                cells_of(rows@),
                0,
                0,
            ),
        decreases rows.len() - i,
    {
        if rows[i].len() > best {
            best = rows[i].len();
        }
        i += 1;
    }
    best
}

fn measure_row(row: &Vec<Vec<char>>) -> (out: Vec<usize>)
    ensures
        out@ == rows_of(row@).map_values(|cell: Seq<char>| width_text(cell)),
{
    let mut out: Vec<usize> = Vec::new();
    let mut j: usize = 0;
    while j < row.len()
        invariant
            j <= row.len(),
            out@.len() == j,
            forall|k: int| 0 <= k < j ==> #[trigger] out@[k] == width_text(row@[k]@),
        decreases row.len() - j,
    {
        out.push(display_width(&row[j]));
        j += 1;
    }
    proof {
        assert(out@ =~= rows_of(row@).map_values(|cell: Seq<char>| width_text(cell)));
    }
    out
}

fn measure_rows(rows: &Vec<Vec<Vec<char>>>) -> (out: Vec<Vec<usize>>)
    ensures
        widths_of(out@) == measures_of(cells_of(rows@)),
{
    let mut out: Vec<Vec<usize>> = Vec::new();
    let mut i: usize = 0;
    while i < rows.len()
        invariant
            i <= rows.len(),
            out@.len() == i,
            forall|k: int|
                0 <= k < i ==> (#[trigger] out@[k])@ == rows_of(rows@[k]@).map_values(
                    |cell: Seq<char>| width_text(cell),
                ),
        decreases rows.len() - i,
    {
        out.push(measure_row(&rows[i]));
        i += 1;
    }
    proof {
        assert(widths_of(out@) =~= measures_of(cells_of(rows@)));
    }
    out
}

/// The widths of `columns` columns, from the widths of the cells: each column
/// as wide as its widest cell outside the row `skip`, and three at least.
pub fn column_widths(measures: &Vec<Vec<usize>>, skip: usize, columns: usize) -> (out: Vec<usize>)
    ensures
        out@ == column_widths_of(widths_of(measures@), skip as int, columns as nat),
{
    let mut out: Vec<usize> = Vec::new();
    let mut j: usize = 0;
    while j < columns
        invariant
            j <= columns,
            out@.len() == j,
            forall|k: int|
                0 <= k < j ==> #[trigger] out@[k] == width_from(
                    widths_of(measures@),
                    skip as int,
                    k,
                    0,
                    3,
                ),
        decreases columns - j,
    {
        let mut best: usize = 3;
        let mut i: usize = 0;
        while i < measures.len()
            invariant
                i <= measures.len(),
                width_from(widths_of(measures@), skip as int, j as int, i as int, best)
                    == width_from(widths_of(measures@), skip as int, j as int, 0, 3),
            decreases measures.len() - i,
        {
            proof {
                assert(widths_of(measures@)[i as int] == measures@[i as int]@);
            }
            if i != skip && j < measures[i].len() && measures[i][j] > best {
                best = measures[i][j];
            }
            i += 1;
        }
        out.push(best);
        j += 1;
    }
    proof {
        assert(out@ =~= column_widths_of(widths_of(measures@), skip as int, columns as nat));
    }
    out
}

/// The table that the rows make, written with `indent` before each line.
pub fn format_rows(rows: &Vec<Vec<Vec<char>>>, indent: &Vec<char>) -> (out: Option<Vec<char>>)
    ensures
        match rows_text(cells_of(rows@), indent@) {
            Some(text) => out matches Some(table) && table@ == text,
            None => out is None,
        },
{
    let d: usize = match first_delimiter(rows) {
        Some(d) => d,
        None => {
            return None;
        },
    };
    let ghost all = cells_of(rows@);
    let mut alignments: Vec<Alignment> = Vec::new();
    let mut j: usize = 0;
    while j < rows[d].len()
        invariant
            d < rows.len(),
            j <= rows[d as int].len(),
            alignments@.len() == j,
            forall|k: int| 0 <= k < j ==> #[trigger] alignments@[k] == alignment_of(rows@[d as int]@[k]@),
        decreases rows[d as int].len() - j,
    {
        alignments.push(parse_alignment(&rows[d][j]));
        j += 1;
    }
    proof {
        assert(alignments@ =~= all[d as int].map_values(|cell: Seq<char>| alignment_of(cell)));
    }
    let columns: usize = column_count(rows);
    if columns == 0 {
        return None;
    }
    let measures = measure_rows(rows);
    let widths = column_widths(&measures, d, columns);
    proof {
        assert(widths@ =~= Seq::new(columns as nat, |k: int| column_width(all, d as int, k)));
    }
    let mut lines: Vec<Vec<char>> = Vec::new();
    let mut i: usize = 0;
    while i < rows.len()
        invariant
            i <= rows.len(),
            lines@.len() == i,
            all == cells_of(rows@),
            forall|k: int|
                0 <= k < i ==> (#[trigger] lines@[k])@ == if k == d {
                    delimiter_row_text(widths@, alignments@, indent@)
                } else {
                    content_row_text(all[k], widths@, alignments@, indent@)
                },
        decreases rows.len() - i,
    {
        if i == d {
            lines.push(format_delimiter_row(&widths, &alignments, indent));
        } else {
            lines.push(format_content_row(&rows[i], &widths, &alignments, indent));
        }
        i += 1;
    }
    let sep: Vec<char> = vec!['\n'];
    proof {
        assert(sep@ =~= seq!['\n']);
        assert(rows_of(lines@) =~= Seq::new(
            all.len(),
            |k: int|
                if k == d {
                    delimiter_row_text(widths@, alignments@, indent@)
                } else {
                    content_row_text(all[k], widths@, alignments@, indent@)
                },
        ));
    }
    Some(join_chars(&lines, &sep))
}

fn parse_rows(lines: &Vec<Vec<char>>) -> (out: Vec<Vec<Vec<char>>>)
    ensures
        cells_of(out@) == rows_of(lines@).map_values(|line: Seq<char>| row_cells(line)),
{
    let mut out: Vec<Vec<Vec<char>>> = Vec::new();
    let mut i: usize = 0;
    while i < lines.len()
        invariant
            i <= lines.len(),
            out@.len() == i,
            forall|k: int| 0 <= k < i ==> rows_of((#[trigger] out@[k])@) == row_cells(lines@[k]@),
        decreases lines.len() - i,
    {
        out.push(parse_row(&lines[i]));
        i += 1;
    }
    proof {
        assert(cells_of(out@) =~= rows_of(lines@).map_values(|line: Seq<char>| row_cells(line)));
    }
    out
}

fn lines_fit(lines: &Vec<Vec<char>>, indent: u128) -> (out: bool)
    ensures
        out == forall|i: int|
            0 <= i < lines.len() ==> cut_index(#[trigger] rows_of(lines@)[i], indent as nat) is Some,
{
    let mut i: usize = 0;
    while i < lines.len()
        invariant
            i <= lines.len(),
            forall|k: int|
                0 <= k < i ==> cut_index(#[trigger] rows_of(lines@)[k], indent as nat) is Some,
        decreases lines.len() - i,
    {
        if cut(&lines[i], indent).is_none() {
            proof {
                assert(cut_index(rows_of(lines@)[i as int], indent as nat) is None);
            }
            return false;
        }
        i += 1;
    }
    true
}

/// Whether `format_markdown_table` takes `input`.
pub fn can_format(input: &str) -> (out: bool)
    ensures
        out == can_format_text(input@),
{
    let chars = chars_of(input);
    let lines = split_lines(&chars);
    if lines.len() < 2 {
        return true;
    }
    lines_fit(&lines, least_indent(&lines))
}

/// Formats a pipe table so that its columns are aligned. Gives nothing where
/// the input is no table: fewer than two lines, or no delimiter row.
pub fn format_markdown_table(input: &str) -> (out: Option<String>)
    requires
        can_format_text(input@),
    ensures
        match table_text(input@) {
            Some(text) => out matches Some(table) && table@ == text,
            None => out is None,
        },
{
    let chars = chars_of(input);
    let lines = split_lines(&chars);
    if lines.len() < 2 {
        return None;
    }
    let shared: u128 = least_indent(&lines);
    proof {
        assert(rows_of(lines@)[0] == lines@[0]@);
    }
    let indent = match cut(&lines[0], shared) {
        Some(k) => copy_range(&lines[0], 0, k),
        None => Vec::new(),
    };
    let rows = parse_rows(&lines);
    match format_rows(&rows, &indent) {
        Some(table) => Some(string_of(&table)),
        None => None,
    }
}


/// Why a text cannot be formatted as a table: one of its lines has no room
/// for the indent that the lines share.
#[derive(Debug, Clone, Copy, PartialEq, Eq)]
pub struct UnevenIndent;

/// Formats a pipe table where `input` can be formatted, and says so where it
/// cannot.
pub fn try_format_markdown_table(input: &str) -> (out: Result<Option<String>, UnevenIndent>)
    ensures
        can_format_text(input@) ==> out is Ok && match table_text(input@) {
            Some(text) => out matches Ok(Some(table)) && table@ == text,
            None => out matches Ok(None),
        },
        !can_format_text(input@) ==> out is Err,
{
    if can_format(input) {
        Ok(format_markdown_table(input))
    } else {
        Err(UnevenIndent)
    }
}

} // verus!

//! Lays out rows of text as a table with aligned columns.

use vstd::prelude::*;
use vstd::string::StrSliceExecFns;
use vstd::string::StringExecFns;

verus! {

/// How the text of a column is placed within the column's width.
#[derive(Clone, Copy, Debug, PartialEq, Eq, Structural)]
pub enum Alignment {
    Left,
    Center,
    Right,
}

/// The number of blanks that follow every column.
pub const COLUMN_GAP: usize = 4;

/// `n` blanks.
pub open spec fn blanks(n: nat) -> Seq<char> {
    Seq::new(n, |k: int| ' ')
}

/// The length of a text in bytes.
pub open spec fn byte_len(text: Seq<char>) -> nat {
    vstd::utf8::encode_utf8(text).len()
}

/// The largest length in bytes of column `i` in the first `upto` rows.
pub open spec fn widest<const N: usize>(rows: Seq<[String; N]>, i: int, upto: int) -> nat
    decreases upto,
{
    if upto <= 0 {
        0
    } else {
        let before = widest(rows, i, upto - 1);
        let here = byte_len(rows[upto - 1]@[i]@);
        if here > before {
            here
        } else {
            before
        }
    }
}

/// The width of column `i`: the largest length in bytes of its title and of its cells.
pub open spec fn column_width<const N: usize>(
    titles: [&str; N],
    rows: Seq<[String; N]>,
    i: int,
) -> nat {
    let body = widest(rows, i, rows.len() as int);
    if byte_len(titles@[i]@) > body {
        byte_len(titles@[i]@)
    } else {
        body
    }
}

/// A text filled up with blanks to `width` characters; one that is longer is left as it
/// is. The blanks follow the text, precede it, or are divided between both sides, the
/// smaller half first.
pub open spec fn padded(text: Seq<char>, width: nat, alignment: Alignment) -> Seq<char> {
    let fill = if width > text.len() {
        (width - text.len()) as nat
    } else {
        0nat
    };
    match alignment {
        Alignment::Left => text + blanks(fill),
        Alignment::Right => blanks(fill) + text,
        Alignment::Center => blanks(fill / 2) + text + blanks((fill - fill / 2) as nat),
    }
}

/// Appends `n` blanks to `text`.
pub fn push_blanks(text: &mut String, n: usize)
    ensures
        final(text)@ == old(text)@ + blanks(n as nat),
{
    let ghost start = text@;
    let mut k: usize = 0;
    while k < n
        invariant
            k <= n,
            text@ == start + blanks(k as nat),
        decreases n - k,
    {
        proof {
            reveal_strlit(" ");
        }
        text.append(" ");
        k += 1;
    }
}

/// Appends `cell` to `text`, filled up with blanks to `width` characters.
pub fn push_padded(text: &mut String, cell: &str, width: usize, alignment: Alignment)
    ensures
        final(text)@ == old(text)@ + padded(cell@, width as nat, alignment),
{
    let length = cell.unicode_len();
    let fill = if width > length {
        width - length
    } else {
        0
    };
    match alignment {
        Alignment::Left => {
            text.append(cell);
            push_blanks(text, fill);
        },
        Alignment::Right => {
            push_blanks(text, fill);
            text.append(cell);
        },
        Alignment::Center => {
            push_blanks(text, fill / 2);
            text.append(cell);
            push_blanks(text, fill - fill / 2);
        },
    }
}

/// The widths of the columns.
pub fn column_widths<const N: usize>(titles: [&str; N], rows: &Vec<[String; N]>) -> (widths: Vec<
    usize,
>)
    ensures
        widths.len() == N,
        forall|i: int| 0 <= i < N ==> widths[i] == column_width(titles, rows@, i),
{
    let mut widths: Vec<usize> = Vec::new();
    let mut i: usize = 0;
    while i < N
        invariant
            i <= N,
            widths.len() == i,
            forall|k: int| 0 <= k < i ==> widths[k] == column_width(titles, rows@, k),
        decreases N - i,
    {
        let mut width: usize = 0;
        let mut r: usize = 0;
        while r < rows.len()
            invariant
                r <= rows.len(),
                i < N,
                width == widest(rows@, i as int, r as int),
            decreases rows.len() - r,
        {
            let here = rows[r][i].as_str().as_bytes().len();
            if here > width {
                width = here;
            }
            r += 1;
        }
        let title = titles[i].as_bytes().len();
        if title > width {
            width = title;
        }
        widths.push(width);
        i += 1;
    }
    widths
}

/// The first `upto` columns of the line of titles: each title filled up to the width of
/// its column, the blanks after it, and followed by the gap.
pub open spec fn title_line<const N: usize>(
    titles: [&str; N],
    rows: Seq<[String; N]>,
    upto: int,
) -> Seq<char>
    decreases upto,
{
    if upto <= 0 {
        Seq::empty()
    } else {
        title_line(titles, rows, upto - 1) + padded(
            titles@[upto - 1]@,
            column_width(titles, rows, upto - 1),
            Alignment::Left,
        ) + blanks(COLUMN_GAP as nat)
    }
}

/// The first `upto` columns of the line of row `r`: each cell filled up to the width of
/// its column as the column is aligned, and followed by the gap.
pub open spec fn row_line<const N: usize>(
    titles: [&str; N],
    alignments: [Alignment; N],
    rows: Seq<[String; N]>,
    r: int,
    upto: int,
) -> Seq<char>
    decreases upto,
{
    if upto <= 0 {
        Seq::empty()
    } else {
        row_line(titles, alignments, rows, r, upto - 1) + padded(
            rows[r]@[upto - 1]@,
            column_width(titles, rows, upto - 1),
            alignments@[upto - 1],
        ) + blanks(COLUMN_GAP as nat)
    }
}

/// The line of titles and the lines of the first `upto` rows, each ended by a line feed.
pub open spec fn table_text<const N: usize>(
    titles: [&str; N],
    alignments: [Alignment; N],
    rows: Seq<[String; N]>,
    upto: int,
) -> Seq<char>
    decreases upto,
{
    if upto <= 0 {
        title_line(titles, rows, N as int) + seq!['\n']
    } else {
        table_text(titles, alignments, rows, upto - 1) + row_line(
            titles,
            alignments,
            rows,
            upto - 1,
            N as int,
        ) + seq!['\n']
    }
}

/// Lays out a table: a line of titles and a line for every row, the columns as wide as
/// their widest text and aligned as `alignments` says. The text is handed back for the
/// caller to write.
pub fn print_table<const N: usize>(
    titles: [&str; N],
    alignments: [Alignment; N],
    rows: &Vec<[String; N]>,
) -> (text: String)
    ensures
        text@ == table_text(titles, alignments, rows@, rows.len() as int),
{
    let widths = column_widths(titles, rows);
    let mut text = String::new();
    let mut i: usize = 0;
    while i < N
        invariant
            i <= N,
            widths.len() == N,
            forall|k: int| 0 <= k < N ==> widths[k] == column_width(titles, rows@, k),
            text@ == title_line(titles, rows@, i as int),
        decreases N - i,
    {
        push_padded(&mut text, titles[i], widths[i], Alignment::Left);
        push_blanks(&mut text, COLUMN_GAP);
        i += 1;
    }
    proof {
        reveal_strlit("\n");
    }
    text.append("\n");
    let mut r: usize = 0;
    while r < rows.len()
        invariant
            r <= rows.len(),
            widths.len() == N,
            forall|k: int| 0 <= k < N ==> widths[k] == column_width(titles, rows@, k),
            text@ == table_text(titles, alignments, rows@, r as int),
        decreases rows.len() - r,
    {
        let ghost start = text@;
        let mut i: usize = 0;
        while i < N
            invariant
                i <= N,
                r < rows.len(),
                widths.len() == N,
                forall|k: int| 0 <= k < N ==> widths[k] == column_width(titles, rows@, k),
                text@ == start + row_line(titles, alignments, rows@, r as int, i as int),
            decreases N - i,
        {
            push_padded(&mut text, rows[r][i].as_str(), widths[i], alignments[i]);
            push_blanks(&mut text, COLUMN_GAP);
            i += 1;
        }
        proof {
            reveal_strlit("\n");
        }
        text.append("\n");
        r += 1;
    }
    text
}

} // verus!

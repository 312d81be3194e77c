//! Turning spreadsheets into Markdown tables for the agent: every sheet
//! becomes a `## <sheet>` section whose first row is the table header.

use vstd::prelude::*;

use crate::paths::{file_name, file_name_of};
use crate::text::{append_str, chars_of, join, owned, string_of, texts};

verus! {

/// One cell as table text: `|` is escaped, line breaks become spaces, so
/// that the Markdown table keeps its shape.
pub open spec fn escape_char(c: char) -> Seq<char> {
    if c == '|' {
        seq!['\\', '|']
    } else if c == '\n' || c == '\r' {
        seq![' ']
    } else {
        seq![c]
    }
}

pub open spec fn escape(s: Seq<char>) -> Seq<char>
    decreases s.len(),
{
    if s.len() == 0 {
        Seq::empty()
    } else {
        escape(s.drop_last()) + escape_char(s.last())
    }
}

/// Escapes the text of a cell for a Markdown table.
pub fn escape_cell(s: &str) -> (r: String)
    ensures
        r@ == escape(s@),
{
    let v = chars_of(s);
    let mut out: Vec<char> = Vec::new();
    let mut i: usize = 0;
    while i < v.len()
        invariant
            i <= v@.len(),
            v@ == s@,
            out@ == escape(v@.take(i as int)),
        decreases v.len() - i,
    {
        assert(v@.take(i + 1).drop_last() == v@.take(i as int));
        assert(v@.take(i + 1).last() == v@[i as int]);
        let c = v[i];
        let ghost before = out@;
        if c == '|' {
            out.push('\\');
            out.push('|');
        } else if c == '\n' || c == '\r' {
            out.push(' ');
        } else {
            out.push(c);
        }
        assert(out@ =~= before + escape_char(c));
        i += 1;
    }
    assert(v@.take(v@.len() as int) == v@);
    string_of(&out)
}

/// The escaped cells of a row.
pub open spec fn escaped_row(row: Seq<String>) -> Seq<Seq<char>> {
    Seq::new(row.len(), |i: int| escape(row[i]@))
}

/// `| a | b | c |` and a line break.
pub open spec fn row_line(cells: Seq<Seq<char>>) -> Seq<char> {
    "| "@ + join(cells, " | "@) + " |\n"@
}

/// The rows after the header.
pub open spec fn body_lines(rows: Seq<Vec<String>>) -> Seq<char>
    decreases rows.len(),
{
    if rows.len() == 0 {
        Seq::empty()
    } else {
        body_lines(rows.drop_last()) + row_line(escaped_row(rows.last()@))
    }
}

/// The section of one sheet: its title, the header row with its rule, the
/// other rows, and a blank line; an empty sheet has just title and blank line.
pub open spec fn sheet_text(name: Seq<char>, rows: Seq<Vec<String>>) -> Seq<char> {
    "## "@ + name + "\n\n"@ + (if rows.len() > 0 {
        row_line(escaped_row(rows[0]@)) + row_line(Seq::new(rows[0]@.len(), |i: int| "---"@)) + body_lines(rows.drop_first())
    } else {
        Seq::empty()
    }) + "\n"@
}

/// All sheets, in workbook order.
pub open spec fn sheets_text(sheets: Seq<(String, Vec<Vec<String>>)>) -> Seq<char>
    decreases sheets.len(),
{
    if sheets.len() == 0 {
        Seq::empty()
    } else {
        sheets_text(sheets.drop_last()) + sheet_text(sheets.last().0@, sheets.last().1@)
    }
}

fn push_row(v: &mut Vec<char>, row: &Vec<String>)
    ensures
        final(v)@ == old(v)@ + row_line(escaped_row(row@)),
{
    let mut cells: Vec<String> = Vec::new();
    let mut i: usize = 0;
    while i < row.len()
        invariant
            i <= row@.len(),
            cells@.len() == i,
            forall|j: int| 0 <= j < i ==> #[trigger] cells@[j]@ == escape(row@[j]@),
        decreases row.len() - i,
    {
        cells.push(escape_cell(row[i].as_str()));
        i += 1;
    }
    assert(texts(cells@) =~= escaped_row(row@));
    let ghost start = v@;
    append_str(v, "| ");
    crate::text::append_joined(v, &cells, " | ");
    append_str(v, " |\n");
    assert(v@ =~= start + row_line(escaped_row(row@)));
}

fn push_rule(v: &mut Vec<char>, n: usize)
    ensures
        final(v)@ == old(v)@ + row_line(Seq::new(n as nat, |i: int| "---"@)),
{
    let mut cells: Vec<String> = Vec::new();
    let mut i: usize = 0;
    while i < n
        invariant
            i <= n,
            cells@.len() == i,
            forall|j: int| 0 <= j < i ==> #[trigger] cells@[j]@ == "---"@,
        decreases n - i,
    {
        cells.push(owned("---"));
        i += 1;
    }
    assert(texts(cells@) =~= Seq::new(n as nat, |i: int| "---"@));
    let ghost start = v@;
    append_str(v, "| ");
    crate::text::append_joined(v, &cells, " | ");
    append_str(v, " |\n");
    assert(v@ =~= start + row_line(Seq::new(n as nat, |i: int| "---"@)));
}

fn push_sheet(v: &mut Vec<char>, name: &String, rows: &Vec<Vec<String>>)
    ensures
        final(v)@ == old(v)@ + sheet_text(name@, rows@),
{
    let ghost start = v@;
    append_str(v, "## ");
    append_str(v, name.as_str());
    append_str(v, "\n\n");
    let ghost mid = v@;
    if rows.len() > 0 {
        push_row(v, &rows[0]);
        push_rule(v, rows[0].len());
        let ghost rest = rows@.drop_first();
        let ghost body_start = v@;
        let mut i: usize = 1;
        while i < rows.len()
            invariant
                1 <= i <= rows@.len(),
                rest == rows@.drop_first(),
                v@ == body_start + body_lines(rest.take(i - 1)),
            decreases rows.len() - i,
        {
            assert(rest.take(i as int).drop_last() == rest.take(i - 1));
            assert(rest.take(i as int).last() == rows@[i as int]);
            push_row(v, &rows[i]);
            i += 1;
        }
        assert(rest.take(rows@.len() - 1) == rest);
    }
    append_str(v, "\n");
    assert(v@ =~= start + sheet_text(name@, rows@));
}

/// Renders the sheets of a workbook, given as names and rows of cell texts,
/// as Markdown tables.
pub fn render_sheets(sheets: &Vec<(String, Vec<Vec<String>>)>) -> (s: String)
    ensures
        s@ == sheets_text(sheets@),
{
    let mut v: Vec<char> = Vec::new();
    let mut i: usize = 0;
    while i < sheets.len()
        invariant
            i <= sheets@.len(),
            v@ == sheets_text(sheets@.take(i as int)),
        decreases sheets.len() - i,
    {
        assert(sheets@.take(i + 1).drop_last() == sheets@.take(i as int));
        assert(sheets@.take(i + 1).last() == sheets@[i as int]);
        push_sheet(&mut v, &sheets[i].0, &sheets[i].1);
        i += 1;
    }
    assert(sheets@.take(sheets@.len() as int) == sheets@);
    string_of(&v)
}

/// `Path::extension`: the text after the last `.` of the file name, unless
/// the name has no `.` or its only `.` starts it.
pub open spec fn extension_of(path: Seq<char>) -> Option<Seq<char>> {
    match file_name_of(path) {
        Some(n) => {
            let i = crate::text::find_last_char(n, '.');
            if i <= 0 {
                None
            } else {
                Some(n.skip(i + 1))
            }
        },
        None => None,
    }
}

/// The extension of a path's file name.
pub fn extension(path: &str) -> (r: Option<String>)
    ensures
        match r {
            Some(e) => extension_of(path@) == Some(e@),
            None => extension_of(path@) is None,
        },
{
    match file_name(path) {
        Some(n) => {
            let v = chars_of(n.as_str());
            match crate::text::rfind_char(&v, '.') {
                Some(i) => {
                    if i == 0 {
                        None
                    } else {
                        let e = crate::text::string_slice(&v, i + 1, v.len());
                        assert(v@.subrange(i + 1, v@.len() as int) == v@.skip(i + 1));
                        Some(e)
                    }
                },
                None => None,
            }
        },
        None => None,
    }
}

/// The formats `parse` reads: `.xlsx` only; any other extension (or none, as
/// the empty text) is refused.
pub fn check_format(path: &str) -> (r: Result<(), String>)
    ensures
        extension_of(path@) == Some("xlsx"@) ==> r is Ok,
        extension_of(path@) != Some("xlsx"@) ==> (r matches Err(e) && e@ == match extension_of(path@) {
            Some(x) => x,
            None => Seq::empty(),
        }),
{
    match extension(path) {
        Some(e) => {
            if crate::text::str_eq(e.as_str(), "xlsx") {
                Ok(())
            } else {
                Err(e)
            }
        },
        None => Err(String::new()),
    }
}

} // verus!

//! Batch excerpt notes: each block starts with a line `@@ <control-id>` and
//! runs until the next such line; its text becomes that control's body.

use vstd::prelude::*;

use crate::compliance::control::{ControlFrontmatter, ExcerptStatus};
use crate::model::Date;
use crate::text::{
    chars_of, has_prefix, is_ws, join, join_chars, lines, lines_of, slice_chars, string_of, trim,
    trim_chars, views,
};

verus! {

/// The control id of a delimiter line `@@ <id>`: `@@` must be followed by
/// whitespace or the end of the line (so `@@@` is text), and the trimmed
/// rest must be non-empty.
pub open spec fn delim(line: Seq<char>) -> Option<Seq<char>> {
    if !has_prefix(line, "@@"@) {
        None
    } else {
        let rest = line.skip(2);
        if rest.len() > 0 && !is_ws(rest[0]) {
            None
        } else if trim(rest).len() == 0 {
            None
        } else {
            Some(trim(rest))
        }
    }
}

/// If the line is a `@@ <control-id>` delimiter, the id it names.
pub fn delim_id(line: &str) -> (r: Option<String>)
    ensures
        match r {
            Some(s) => delim(line@) == Some(s@),
            None => delim(line@) is None,
        },
{
    let v = chars_of(line);
    proof {
        reveal_strlit("@@");
    }
    if v.len() < 2 || v[0] != '@' || v[1] != '@' {
        assert(!has_prefix(line@, "@@"@)) by {
            if has_prefix(line@, "@@"@) {
                assert(line@.take(2)[0] == '@' && line@.take(2)[1] == '@');
            }
        }
        return None;
    }
    assert(line@.take(2) =~= "@@"@);
    let rest = slice_chars(&v, 2, v.len());
    assert(rest@ == line@.skip(2));
    if rest.len() > 0 && !crate::text::is_whitespace(rest[0]) {
        return None;
    }
    let id = trim_chars(&rest);
    if id.len() == 0 {
        None
    } else {
        Some(string_of(&id))
    }
}

/// The state of the note reader after some lines: the finished blocks and
/// the open block with its lines.
pub open spec fn notes_state(ls: Seq<Seq<char>>) -> (Seq<(Seq<char>, Seq<char>)>, Option<(Seq<char>, Seq<Seq<char>>)>)
    decreases ls.len(),
{
    if ls.len() == 0 {
        (Seq::empty(), None)
    } else {
        let (done, open) = notes_state(ls.drop_last());
        let line = ls.last();
        match delim(line) {
            Some(id) => (match open {
                Some((pid, body)) => done.push((pid, join(body, "\n"@))),
                None => done,
            }, Some((id, Seq::empty()))),
            None => (done, match open {
                Some((pid, body)) => Some((pid, body.push(line))),
                None => None,
            }),
        }
    }
}

/// The blocks of a text of notes: `(control id, body)` in order, the body
/// being the block's lines joined by `\n`; text before the first delimiter
/// belongs to no block.
pub open spec fn note_blocks(content: Seq<char>) -> Seq<(Seq<char>, Seq<char>)> {
    let (done, open) = notes_state(lines(content));
    match open {
        Some((id, body)) => done.push((id, join(body, "\n"@))),
        None => done,
    }
}

/// The views of a list of `(String, String)` pairs.
pub open spec fn pair_views(ps: Seq<(String, String)>) -> Seq<(Seq<char>, Seq<char>)> {
    Seq::new(ps.len(), |i: int| (ps[i].0@, ps[i].1@))
}

/// Splits notes into `(control id, body)` blocks.
pub fn parse_notes(content: &str) -> (blocks: Vec<(String, String)>)
    ensures
        pair_views(blocks@) == note_blocks(content@),
{
    let v = chars_of(content);
    let ls = lines_of(&v);
    let ghost lv = lines(content@);
    let mut blocks: Vec<(String, String)> = Vec::new();
    let mut current: Option<String> = None;
    let mut body: Vec<Vec<char>> = Vec::new();
    let nl = chars_of("\n");
    let mut i: usize = 0;
    assert(lv.take(0) =~= Seq::<Seq<char>>::empty());
    while i < ls.len()
        invariant
            i <= ls@.len(),
            ls@.len() == lv.len(),
            lv == lines(content@),
            nl@ == "\n"@,
            forall|j: int| 0 <= j < ls@.len() ==> #[trigger] ls@[j]@ == lv[j],
            ({
                let (done, open) = notes_state(lv.take(i as int));
                &&& pair_views(blocks@) == done
                &&& match open {
                    Some((pid, b)) => current matches Some(c) && c@ == pid && views(body@) == b,
                    None => current is None,
                }
            }),
        decreases ls.len() - i,
    {
        assert(lv.take(i + 1).drop_last() == lv.take(i as int));
        assert(lv.take(i + 1).last() == lv[i as int]);
        let line = string_of(&ls[i]);
        match delim_id(line.as_str()) {
            Some(id) => {
                match current {
                    Some(prev) => {
                        let joined = join_chars(&body, &nl);
                        blocks.push((prev, string_of(&joined)));
                        assert(pair_views(blocks@) =~= notes_state(lv.take(i + 1)).0);
                    },
                    None => {
                        assert(pair_views(blocks@) =~= notes_state(lv.take(i + 1)).0);
                    },
                }
                current = Some(id);
                body = Vec::new();
                assert(views(body@) =~= Seq::<Seq<char>>::empty());
            },
            None => {
                match &current {
                    Some(_) => {
                        let ghost b0 = views(body@);
                        body.push(ls[i].clone());
                        assert(views(body@) =~= b0.push(lv[i as int]));
                    },
                    None => {},
                }
            },
        }
        i += 1;
    }
    assert(lv.take(ls@.len() as int) == lv);
    match current {
        Some(id) => {
            let joined = join_chars(&body, &nl);
            blocks.push((id, string_of(&joined)));
            assert(pair_views(blocks@) =~= note_blocks(content@));
        },
        None => {},
    }
    blocks
}

/// The body a note gives a control: the control's title heading and the
/// trimmed note text.
pub open spec fn note_body(title: Seq<char>, body: Seq<char>) -> Seq<char> {
    "# "@ + title + "\n\n"@ + trim(body) + "\n"@
}

/// Applies a note block to a control: the excerpt becomes partial, the review
/// date is today; returns the new body.
pub fn apply_note(fm: &mut ControlFrontmatter, title: &str, body: &str, today: Date) -> (b: String)
    ensures
        final(fm).excerpt_status == ExcerptStatus::Partial,
        final(fm).last_reviewed == Some(today),
        final(fm).id == old(fm).id && final(fm).title == old(fm).title && final(fm).ingest == old(fm).ingest,
        final(fm).expected_evidence == old(fm).expected_evidence && final(fm).levels == old(fm).levels,
        b@ == note_body(title@, body@),
{
    fm.excerpt_status = ExcerptStatus::Partial;
    fm.last_reviewed = Some(today);
    let t = crate::text::trim_str(body);
    let mut v = chars_of("# ");
    crate::text::append_str(&mut v, title);
    crate::text::append_str(&mut v, "\n\n");
    crate::text::append_str(&mut v, t.as_str());
    crate::text::append_str(&mut v, "\n");
    string_of(&v)
}

} // verus!

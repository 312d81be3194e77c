//! Markdown documents with a YAML frontmatter:
//!
//! ```text
//! ---
//! <yaml>
//! ---
//! <markdown body>
//! ```
//!
//! The fences are handled here; the YAML text itself is read and written by
//! the caller.

use vstd::prelude::*;

use crate::text::{
    append_chars, append_str, chars_of, chars_eq, join, views, join_chars, lines, lines_of, string_of,
    trim, trim_chars, trim_end,
};

verus! {

/// A parsed document: the frontmatter data and the Markdown body.
pub struct Document<T> {
    pub data: T,
    pub body: String,
}

/// Why a document has no usable frontmatter.
#[derive(Debug, Clone, Copy, PartialEq, Eq, Structural)]
pub enum FrontmatterError {
    /// The first line is not `---`.
    Missing,
    /// No closing `---` or `...` line.
    Unclosed,
}

/// The text without one leading byte-order mark.
pub open spec fn strip_bom(s: Seq<char>) -> Seq<char> {
    if s.len() > 0 && s[0] == '\u{feff}' {
        s.drop_first()
    } else {
        s
    }
}

/// A line that closes the frontmatter: `---` or `...` up to whitespace.
pub open spec fn is_fence(line: Seq<char>) -> bool {
    trim(line) == "---"@ || trim(line) == "..."@
}

/// The first fence line at or after `from`, or -1.
pub open spec fn find_fence(ls: Seq<Seq<char>>, from: int) -> int
    decreases ls.len() - from,
{
    if from < 0 || from >= ls.len() {
        -1
    } else if is_fence(ls[from]) {
        from
    } else {
        find_fence(ls, from + 1)
    }
}

/// `str::trim_start_matches('\n')`.
pub open spec fn trim_newlines_start(s: Seq<char>) -> Seq<char>
    decreases s.len(),
{
    if s.len() > 0 && s[0] == '\n' {
        trim_newlines_start(s.drop_first())
    } else {
        s
    }
}

/// Reading a document: the first line must be `---` (after an optional BOM);
/// the YAML is every line up to the first later `---`/`...` line; the body is
/// the remaining lines without leading blank lines.
pub open spec fn parse_document(content: Seq<char>) -> Result<(Seq<char>, Seq<char>), FrontmatterError> {
    let ls = lines(strip_bom(content));
    if ls.len() == 0 || trim(ls[0]) != "---"@ {
        Err(FrontmatterError::Missing)
    } else {
        let close = find_fence(ls, 1);
        if close < 0 {
            Err(FrontmatterError::Unclosed)
        } else {
            Ok((join(ls.subrange(1, close), "\n"@), trim_newlines_start(join(ls.skip(close + 1), "\n"@))))
        }
    }
}

proof fn lemma_find_fence(ls: Seq<Seq<char>>, from: int)
    requires
        0 <= from,
    ensures
        find_fence(ls, from) == -1 || (from <= find_fence(ls, from) < ls.len() && is_fence(
            ls[find_fence(ls, from)],
        )),
        find_fence(ls, from) >= 0 ==> forall|j: int| from <= j < find_fence(ls, from) ==> !is_fence(
            #[trigger] ls[j],
        ),
        find_fence(ls, from) == -1 ==> forall|j: int| from <= j < ls.len() ==> !is_fence(#[trigger] ls[j]),
    decreases ls.len() - from,
{
    if from < ls.len() && !is_fence(ls[from]) {
        lemma_find_fence(ls, from + 1);
    }
}

fn fence_line(line: &Vec<char>) -> (b: bool)
    ensures
        b == is_fence(line@),
{
    let t = trim_chars(line);
    let dashes = chars_of("---");
    let dots = chars_of("...");
    chars_eq(&t, &dashes) || chars_eq(&t, &dots)
}

fn trim_newlines(v: &Vec<char>) -> (r: Vec<char>)
    ensures
        r@ == trim_newlines_start(v@),
{
    let mut i: usize = 0;
    assert(v@.skip(0) == v@);
    while i < v.len() && v[i] == '\n'
        invariant
            i <= v@.len(),
            trim_newlines_start(v@) == trim_newlines_start(v@.skip(i as int)),
        decreases v.len() - i,
    {
        assert(v@.skip(i as int).drop_first() == v@.skip(i + 1));
        i += 1;
    }
    assert(v@.skip(0) == v@);
    crate::text::slice_chars(v, i, v.len())
}

fn clone_range(ls: &Vec<Vec<char>>, from: usize, to: usize) -> (r: Vec<Vec<char>>)
    requires
        from <= to <= ls@.len(),
    ensures
        views(r@) == views(ls@).subrange(from as int, to as int),
{
    let mut r: Vec<Vec<char>> = Vec::new();
    let mut i = from;
    while i < to
        invariant
            from <= i <= to,
            to <= ls@.len(),
            r@.len() == i - from,
            forall|k: int| 0 <= k < r@.len() ==> #[trigger] r@[k]@ == ls@[from + k]@,
        decreases to - i,
    {
        let piece = crate::text::slice_chars(&ls[i], 0, ls[i].len());
        assert(ls@[i as int]@.subrange(0, ls@[i as int]@.len() as int) == ls@[i as int]@);
        r.push(piece);
        i += 1;
    }
    assert(views(r@) =~= views(ls@).subrange(from as int, to as int));
    r
}

/// Splits a document into its frontmatter YAML text and its Markdown body.
pub fn parse(content: &str) -> (r: Result<Document<String>, FrontmatterError>)
    ensures
        r matches Ok(d) ==> parse_document(content@) == Ok::<(Seq<char>, Seq<char>), FrontmatterError>(
            (d.data@, d.body@),
        ),
        r matches Err(e) ==> parse_document(content@) == Err::<(Seq<char>, Seq<char>), FrontmatterError>(e),
{
    let raw = chars_of(content);
    let v = if raw.len() > 0 && raw[0] == '\u{feff}' {
        crate::text::slice_chars(&raw, 1, raw.len())
    } else {
        raw
    };
    assert(v@ == strip_bom(content@)) by {
        if content@.len() > 0 && content@[0] == '\u{feff}' {
            assert(content@.subrange(1, content@.len() as int) == content@.drop_first());
        }
    }
    let ls = lines_of(&v);
    let ghost gl = lines(v@);
    assert(views(ls@) =~= gl);
    if ls.len() == 0 {
        return Err(FrontmatterError::Missing);
    }
    let first = trim_chars(&ls[0]);
    let dashes = chars_of("---");
    if !chars_eq(&first, &dashes) {
        return Err(FrontmatterError::Missing);
    }
    proof {
        lemma_find_fence(gl, 1);
    }
    let mut idx: usize = 1;
    while idx < ls.len() && !fence_line(&ls[idx])
        invariant
            1 <= idx <= ls@.len(),
            ls@.len() == gl.len(),
            forall|j: int| 0 <= j < ls@.len() ==> #[trigger] ls@[j]@ == gl[j],
            forall|j: int| 1 <= j < idx ==> !is_fence(#[trigger] gl[j]),
            find_fence(gl, 1) == -1 || (1 <= find_fence(gl, 1) < gl.len() && is_fence(gl[find_fence(gl, 1)])),
            find_fence(gl, 1) >= 0 ==> forall|j: int| 1 <= j < find_fence(gl, 1) ==> !is_fence(#[trigger] gl[j]),
            find_fence(gl, 1) == -1 ==> forall|j: int| 1 <= j < gl.len() ==> !is_fence(#[trigger] gl[j]),
        decreases ls.len() - idx,
    {
        idx += 1;
    }
    if idx == ls.len() {
        assert(find_fence(gl, 1) == -1) by {
            if find_fence(gl, 1) >= 0 {
                let k = find_fence(gl, 1);
                assert(!is_fence(gl[k]));
            }
        }
        return Err(FrontmatterError::Unclosed);
    }
    assert(find_fence(gl, 1) == idx) by {
        assert(is_fence(gl[idx as int]));
        if find_fence(gl, 1) == -1 {
        } else if find_fence(gl, 1) < idx {
            let k = find_fence(gl, 1);
            assert(!is_fence(gl[k]));
        } else if find_fence(gl, 1) > idx {
            assert(!is_fence(gl[idx as int]));
        }
    }
    let yaml_lines = clone_range(&ls, 1, idx);
    let nl = chars_of("\n");
    let yaml = join_chars(&yaml_lines, &nl);
    let body_lines = clone_range(&ls, idx + 1, ls.len());
    let joined = join_chars(&body_lines, &nl);
    let body = trim_newlines(&joined);
    proof {
        assert(gl.subrange(idx + 1, gl.len() as int) == gl.skip(idx + 1));
    }
    Ok(Document { data: string_of(&yaml), body: string_of(&body) })
}

/// Strips the YAML writer's document markers (a leading `---\n` and a trailing
/// `...\n`) and trailing whitespace.
pub open spec fn normalize_yaml(yaml: Seq<char>) -> Seq<char> {
    let a = if crate::text::has_prefix(yaml, "---\n"@) { yaml.skip(4) } else { yaml };
    let b = if crate::text::has_suffix(a, "...\n"@) { a.take(a.len() - 4) } else { a };
    trim_end(b)
}

/// Writing a document: `---`, the normalized YAML, `---`, a blank line, the body.
pub open spec fn serialize_document(yaml: Seq<char>, body: Seq<char>) -> Seq<char> {
    "---\n"@ + normalize_yaml(yaml) + "\n---\n\n"@ + body
}

/// Wraps YAML text and a Markdown body into a frontmatter document.
pub fn serialize(yaml: &str, body: &str) -> (r: String)
    ensures
        r@ == serialize_document(yaml@, body@),
{
    let v = chars_of(yaml);
    let open_marker = chars_of("---\n");
    proof {
        reveal_strlit("---\n");
        reveal_strlit("...\n");
    }
    let a = if crate::text::starts_with(&v, &open_marker) {
        crate::text::slice_chars(&v, 4, v.len())
    } else {
        v
    };
    proof {
        reveal_strlit("---\n");
        if crate::text::has_prefix(yaml@, "---\n"@) {
            assert(yaml@.subrange(4, yaml@.len() as int) == yaml@.skip(4));
        }
    }
    let close_marker = chars_of("...\n");
    let b = if crate::text::ends_with(&a, &close_marker) {
        crate::text::slice_chars(&a, 0, a.len() - 4)
    } else {
        a
    };
    proof {
        reveal_strlit("...\n");
        if crate::text::has_suffix(a@, "...\n"@) {
            assert(a@.subrange(0, a@.len() - 4) == a@.take(a@.len() - 4));
        }
    }
    let t = crate::text::trim_end_chars(&b);
    let mut out = chars_of("---\n");
    append_chars(&mut out, &t);
    append_str(&mut out, "\n---\n\n");
    append_str(&mut out, body);
    string_of(&out)
}


proof fn lemma_find_fence_at(ls: Seq<Seq<char>>, from: int, k: int)
    requires
        0 <= from <= k < ls.len(),
        is_fence(ls[k]),
        forall|j: int| from <= j < k ==> !is_fence(#[trigger] ls[j]),
    ensures
        find_fence(ls, from) == k,
    decreases k - from,
{
    if from < k {
        lemma_find_fence_at(ls, from + 1, k);
    }
}

/// The lines that a normalized YAML text contributes to a written document.
proof fn lemma_yaml_lines(y: Seq<char>)
    requires
        y == trim_end(y),
    ensures
        y.len() == 0 ==> lines(y + seq!['\n']) == seq![Seq::<char>::empty()],
        y.len() > 0 ==> lines(y + seq!['\n']) == lines(y),
        join(lines(y + seq!['\n']), seq!['\n']) == join(lines(y), seq!['\n']),
{
    if y.len() == 0 {
        assert(!y.contains('\n'));
        crate::text::lemma_lines_single(y);
        assert(crate::text::strip_cr(y) == Seq::<char>::empty());
        assert(lines(y) =~= Seq::<Seq<char>>::empty()) by {
            assert(crate::text::split_on(y, '\n') == seq![Seq::<char>::empty()]);
        }
    } else {
        assert(!crate::text::is_ws(y.last())) by {
            if crate::text::is_ws(y.last()) {
                assert(trim_end(y) == trim_end(y.drop_last()));
                assert(trim_end(y.drop_last()).len() <= y.drop_last().len()) by {
                    lemma_trim_end_shorter(y.drop_last());
                }
            }
        }
        let sp = crate::text::split_on(y, '\n');
        crate::text::lemma_split_last(y, '\n');
        assert((y + seq!['\n']).drop_last() == y);
        assert(crate::text::split_on(y + seq!['\n'], '\n') == sp.push(Seq::<char>::empty()));
        let f = |x: Seq<char>| crate::text::strip_cr(x);
        assert(sp.push(Seq::<char>::empty()).drop_last() == sp);
        assert(sp.last().last() == y.last());
        assert(crate::text::strip_cr(sp.last()) == sp.last());
        assert(sp.map_values(f) =~= sp.drop_last().map_values(f).push(sp.last()));
    }
}

proof fn lemma_trim_end_shorter(s: Seq<char>)
    ensures
        trim_end(s).len() <= s.len(),
    decreases s.len(),
{
    if s.len() > 0 && crate::text::is_ws(s.last()) {
        lemma_trim_end_shorter(s.drop_last());
    }
}

proof fn lemma_trim_end_idem(s: Seq<char>)
    ensures
        trim_end(trim_end(s)) == trim_end(s),
    decreases s.len(),
{
    if s.len() > 0 && crate::text::is_ws(s.last()) {
        lemma_trim_end_idem(s.drop_last());
    }
}

/// Writing a document and reading it back gives the YAML lines and the body
/// lines that were written, provided no YAML line is itself a fence; the body
/// comes back without leading blank lines.
#[verifier::rlimit(40)]
pub proof fn lemma_serialize_then_parse(yaml: Seq<char>, body: Seq<char>)
    requires
        forall|i: int|
            0 <= i < lines(normalize_yaml(yaml)).len() ==> !is_fence(#[trigger] lines(normalize_yaml(yaml))[i]),
    ensures
        parse_document(serialize_document(yaml, body)) == Ok::<(Seq<char>, Seq<char>), FrontmatterError>(
            (join(lines(normalize_yaml(yaml)), "\n"@), trim_newlines_start(join(lines(body), "\n"@))),
        ),
{
    reveal_strlit("---\n");
    reveal_strlit("\n---\n\n");
    reveal_strlit("\n");
    reveal_strlit("---");
    reveal_strlit("...");
    let y = normalize_yaml(yaml);
    lemma_trim_end_idem(if crate::text::has_suffix(
        if crate::text::has_prefix(yaml, "---\n"@) { yaml.skip(4) } else { yaml },
        "...\n"@,
    ) {
        let a = if crate::text::has_prefix(yaml, "---\n"@) { yaml.skip(4) } else { yaml };
        a.take(a.len() - 4)
    } else {
        if crate::text::has_prefix(yaml, "---\n"@) { yaml.skip(4) } else { yaml }
    });
    assert(y == trim_end(y));
    lemma_yaml_lines(y);
    let dash = seq!['-', '-', '-'];
    let nl = seq!['\n'];
    assert("---\n"@ == dash + nl);
    assert("\n"@ == nl);
    let p1 = dash + nl;
    let p2 = y + nl;
    let p3 = dash + nl;
    let p4 = nl;
    let out = serialize_document(yaml, body);
    assert(out =~= p1 + (p2 + (p3 + (p4 + body))));
    assert(!dash.contains('\n'));
    assert(!Seq::<char>::empty().contains('\n'));
    crate::text::lemma_lines_single(dash);
    crate::text::lemma_lines_single(Seq::<char>::empty());
    assert(Seq::<char>::empty() + nl == nl);
    assert(crate::text::strip_cr(dash) == dash);
    assert(crate::text::strip_cr(Seq::<char>::empty()) == Seq::<char>::empty());
    crate::text::lemma_lines_concat(p4, body);
    crate::text::lemma_lines_concat(p3, p4 + body);
    crate::text::lemma_lines_concat(p2, p3 + (p4 + body));
    crate::text::lemma_lines_concat(p1, p2 + (p3 + (p4 + body)));
    let ly = lines(p2);
    let lb = lines(body);
    let ls = seq![dash] + (ly + (seq![dash] + (seq![Seq::<char>::empty()] + lb)));
    assert(lines(out) == ls);
    assert(out[0] == '-');
    assert(strip_bom(out) == out);
    assert(trim(dash) == dash) by {
        assert(!crate::text::is_ws('-'));
        assert(crate::text::trim_start(dash) == dash);
        assert(trim_end(dash) == dash);
    }
    assert(dash == "---"@);
    assert(ls[0] == dash);
    let k: int = (ly.len() + 1) as int;
    assert(ls[k] == dash);
    assert(is_fence(ls[k]));
    assert forall|j: int| 1 <= j < k implies !is_fence(#[trigger] ls[j]) by {
        assert(ls[j] == ly[j - 1]);
        if y.len() > 0 {
            assert(ly == lines(y));
        } else {
            assert(ly[j - 1] == Seq::<char>::empty());
            assert(trim(Seq::<char>::empty()) == Seq::<char>::empty());
            assert(Seq::<char>::empty() != "---"@);
            assert(Seq::<char>::empty() != "..."@);
        }
    }
    lemma_find_fence_at(ls, 1, k);
    assert(ls.subrange(1, k) =~= ly);
    assert(ls.skip(k + 1) =~= seq![Seq::<char>::empty()] + lb);
    crate::text::lemma_join_cons(Seq::<char>::empty(), lb, nl);
    if lb.len() > 0 {
        let j = join(lb, nl);
        assert(Seq::<char>::empty() + nl + j =~= nl + j);
        assert((nl + j).drop_first() =~= j);
        assert(trim_newlines_start(nl + j) == trim_newlines_start(j));
    }
}

proof fn lemma_trim_end_last(s: Seq<char>)
    ensures
        trim_end(s).len() == 0 || !crate::text::is_ws(trim_end(s).last()),
    decreases s.len(),
{
    if s.len() > 0 && crate::text::is_ws(s.last()) {
        lemma_trim_end_last(s.drop_last());
    }
}

/// A document written with a frontmatter reads back as exactly what was
/// written: the normalized YAML and the body, provided no YAML line is a
/// fence, neither part holds a carriage return, and the body neither starts
/// nor ends with a line break.
pub proof fn lemma_document_roundtrip(yaml: Seq<char>, body: Seq<char>)
    requires
        forall|i: int|
            0 <= i < lines(normalize_yaml(yaml)).len() ==> !is_fence(#[trigger] lines(normalize_yaml(yaml))[i]),
        !normalize_yaml(yaml).contains('\r'),
        !body.contains('\r'),
        body.len() == 0 || (body[0] != '\n' && body.last() != '\n'),
    ensures
        parse_document(serialize_document(yaml, body)) == Ok::<(Seq<char>, Seq<char>), FrontmatterError>(
            (normalize_yaml(yaml), body),
        ),
{
    lemma_serialize_then_parse(yaml, body);
    let y = normalize_yaml(yaml);
    let a = if crate::text::has_prefix(yaml, "---\n"@) { yaml.skip(4) } else { yaml };
    let b = if crate::text::has_suffix(a, "...\n"@) { a.take(a.len() - 4) } else { a };
    assert(y == trim_end(b));
    lemma_trim_end_last(b);
    assert(y.len() == 0 || y.last() != '\n');
    lemma_lines_join_identity(y);
    lemma_lines_join_identity(body);
    assert(trim_newlines_start(body) == body);
}

/// A text without carriage returns that does not end in a line break is its
/// own lines joined with line breaks.
pub proof fn lemma_lines_join_identity(s: Seq<char>)
    requires
        !s.contains('\r'),
        s.len() == 0 || s.last() != '\n',
    ensures
        join(lines(s), "\n"@) == s,
{
    reveal_strlit("\n");
    assert("\n"@ == seq!['\n']);
    let sp = crate::text::split_on(s, '\n');
    crate::text::lemma_split_last(s, '\n');
    crate::text::lemma_join_split(s, '\n');
    if s.len() == 0 {
        assert(lines(s) =~= Seq::<Seq<char>>::empty());
    } else {
        assert forall|i: int| 0 <= i < sp.len() implies crate::text::strip_cr(#[trigger] sp[i]) == sp[i] by {
            lemma_split_piece_from(s, '\n', i);
            if sp[i].len() > 0 && sp[i].last() == '\r' {
                assert(s.contains('\r'));
            }
        }
        assert(lines(s) =~= sp);
    }
}

/// Every character of a piece of a split is a character of the text.
proof fn lemma_split_piece_from(s: Seq<char>, sep: char, i: int)
    requires
        0 <= i < crate::text::split_on(s, sep).len(),
    ensures
        forall|j: int| 0 <= j < crate::text::split_on(s, sep)[i].len() ==> s.contains(
            #[trigger] crate::text::split_on(s, sep)[i][j],
        ),
    decreases s.len(),
{
    crate::text::lemma_split_on_nonempty(s, sep);
    if s.len() > 0 {
        let rest = crate::text::split_on(s.drop_last(), sep);
        crate::text::lemma_split_on_nonempty(s.drop_last(), sep);
        assert forall|j: int| 0 <= j < crate::text::split_on(s, sep)[i].len() implies s.contains(
            #[trigger] crate::text::split_on(s, sep)[i][j],
        ) by {
            let c = crate::text::split_on(s, sep)[i][j];
            if i < rest.len() && !(s.last() != sep && i == rest.len() - 1 && j == rest[i].len()) {
                lemma_split_piece_from(s.drop_last(), sep, i);
                assert(rest[i][j] == c);
                assert(s.drop_last().contains(c));
                let k = choose|k: int| 0 <= k < s.drop_last().len() && s.drop_last()[k] == c;
                assert(s[k] == c);
            } else {
                assert(c == s.last());
                assert(s[s.len() - 1] == c);
            }
        }
    }
}

} // verus!

//! Storage paths: the knowledge-base root, safe path segments derived from
//! external identifiers, and stored relative paths that must stay below
//! their root.
//!
//! Paths are handled as text in the Unix form that `std::path::Path` reads.

use vstd::prelude::*;
use vstd::string::StringSliceAdditionalSpecFns;

use crate::digest::{sha256, sha256_digest};
use crate::text::{
    append_chars, append_str, chars_eq, chars_of, hex_chars, hex_of, is_ascii_alnum, owned,
    split_chars, split_on, string_of,
};

verus! {

/// One component of a path, as `Path::components` yields it.
pub enum Comp {
    Root,
    Cur,
    Parent,
    Normal(Seq<char>),
}

/// How one `/`-separated piece reads after the first: empty pieces and `.`
/// vanish, `..` is the parent directory, anything else a normal name.
pub open spec fn classify(p: Seq<char>) -> Option<Comp> {
    if p.len() == 0 || p == seq!['.'] {
        None
    } else if p == seq!['.', '.'] {
        Some(Comp::Parent)
    } else {
        Some(Comp::Normal(p))
    }
}

/// The components of a run of pieces.
pub open spec fn piece_components(ps: Seq<Seq<char>>) -> Seq<Comp>
    decreases ps.len(),
{
    if ps.len() == 0 {
        Seq::<Comp>::empty()
    } else {
        piece_components(ps.drop_last()) + match classify(ps.last()) {
            Some(c) => seq![c],
            None => Seq::<Comp>::empty(),
        }
    }
}

/// `Path::components` on Unix: a leading `/` is the root, a leading `.` the
/// current directory; repeated separators and other `.` pieces vanish.
pub open spec fn components(s: Seq<char>) -> Seq<Comp> {
    let ps = split_on(s, '/');
    if s.len() == 0 {
        Seq::<Comp>::empty()
    } else if s[0] == '/' {
        seq![Comp::Root] + piece_components(ps.drop_first())
    } else if ps[0] == seq!['.'] {
        seq![Comp::Cur] + piece_components(ps.drop_first())
    } else {
        piece_components(ps)
    }
}

/// Whether a path is exactly one normal component (a single safe segment).
pub open spec fn is_single_normal(s: Seq<char>) -> bool {
    components(s).len() == 1 && components(s)[0] is Normal
}

/// Whether a path is non-empty and made of normal components only, so that
/// joined to a root it stays below that root.
pub open spec fn is_safe_relative(s: Seq<char>) -> bool {
    s.len() > 0 && forall|i: int| 0 <= i < components(s).len() ==> #[trigger] components(s)[i] is Normal
}

/// `PathBuf::push` of a relative path: a separator is added unless the base
/// is empty or already ends with one.
pub open spec fn path_join(root: Seq<char>, rel: Seq<char>) -> Seq<char> {
    if root.len() == 0 {
        rel
    } else if root.last() == '/' {
        root + rel
    } else {
        root + seq!['/'] + rel
    }
}

/// The kinds of path components, as `Path::components` yields them.
pub enum PathComponent {
    RootDir,
    CurDir,
    ParentDir,
    Normal(Vec<char>),
}

impl View for PathComponent {
    type V = Comp;

    open spec fn view(&self) -> Comp {
        match self {
            PathComponent::RootDir => Comp::Root,
            PathComponent::CurDir => Comp::Cur,
            PathComponent::ParentDir => Comp::Parent,
            PathComponent::Normal(v) => Comp::Normal(v@),
        }
    }
}

fn classify_piece(p: &Vec<char>) -> (r: Option<PathComponent>)
    ensures
        r matches Some(c) ==> classify(p@) == Some(c@),
        r is None ==> classify(p@) is None,
{
    if p.len() == 0 || (p.len() == 1 && p[0] == '.') {
        assert(p@.len() == 1 && p@[0] == '.' ==> p@ == seq!['.']);
        None
    } else if p.len() == 2 && p[0] == '.' && p[1] == '.' {
        assert(p@ == seq!['.', '.']);
        Some(PathComponent::ParentDir)
    } else {
        assert(p@ != seq!['.']) by {
            if p@ == seq!['.'] {
                assert(p@.len() == 1);
            }
        }
        assert(p@ != seq!['.', '.']) by {
            if p@ == seq!['.', '.'] {
                assert(p@.len() == 2 && p@[0] == '.' && p@[1] == '.');
            }
        }
        Some(PathComponent::Normal(p.clone()))
    }
}

/// The components of a path.
pub fn path_components(path: &str) -> (r: Vec<PathComponent>)
    ensures
        r@.len() == components(path@).len(),
        forall|i: int| 0 <= i < r@.len() ==> #[trigger] r@[i]@ == components(path@)[i],
{
    let v = chars_of(path);
    let ps = split_chars(&v, '/');
    let ghost sp = split_on(v@, '/');
    proof {
        crate::text::lemma_split_on_nonempty(v@, '/');
    }
    let mut r: Vec<PathComponent> = Vec::new();
    if v.len() == 0 {
        return r;
    }
    let mut start: usize = 0;
    if v[0] == '/' {
        r.push(PathComponent::RootDir);
        start = 1;
    } else if ps[0].len() == 1 && ps[0][0] == '.' {
        assert(ps@[0]@ == seq!['.']);
        r.push(PathComponent::CurDir);
        start = 1;
    } else {
        assert(ps@[0]@ != seq!['.']) by {
            if ps@[0]@ == seq!['.'] {
                assert(ps@[0]@.len() == 1);
            }
        }
    }
    let ghost head: Seq<Comp> = if start == 0 { Seq::<Comp>::empty() } else if v@[0] == '/' {
        seq![Comp::Root]
    } else {
        seq![Comp::Cur]
    };
    let ghost mut acc: Seq<Comp> = head;
    assert(sp.subrange(start as int, start as int) =~= Seq::<Seq<char>>::empty());
    assert(acc == head + piece_components(sp.subrange(start as int, start as int)));
    let mut i: usize = start;
    while i < ps.len()
        invariant
            start <= i <= ps@.len(),
            start <= 1,
            ps@.len() == sp.len(),
            forall|j: int| 0 <= j < ps@.len() ==> #[trigger] ps@[j]@ == sp[j],
            r@.len() == acc.len(),
            forall|k: int| 0 <= k < r@.len() ==> #[trigger] r@[k]@ == acc[k],
            acc == head + piece_components(sp.subrange(start as int, i as int)),
        decreases ps.len() - i,
    {
        let c = classify_piece(&ps[i]);
        assert(sp.subrange(start as int, i + 1).drop_last() == sp.subrange(start as int, i as int));
        assert(sp.subrange(start as int, i + 1).last() == sp[i as int]);
        match c {
            Some(comp) => {
                proof {
                    acc = acc.push(comp@);
                }
                r.push(comp);
            },
            None => {},
        }
        assert(acc =~= head + piece_components(sp.subrange(start as int, i + 1)));
        i += 1;
    }
    proof {
        assert(sp.subrange(start as int, sp.len() as int) == if start == 0 { sp } else { sp.drop_first() });
        assert(acc =~= components(path@));
    }
    r
}

/// Whether a path is a single normal component.
pub fn single_normal_component(path: &str) -> (b: bool)
    ensures
        b == is_single_normal(path@),
{
    let cs = path_components(path);
    if cs.len() != 1 {
        return false;
    }
    let b = match &cs[0] {
        PathComponent::Normal(_) => true,
        _ => false,
    };
    assert(cs@[0]@ == components(path@)[0]);
    assert(b == (cs@[0]@ is Normal));
    b
}

/// Whether a path is non-empty and has normal components only.
pub fn safe_relative(path: &str) -> (b: bool)
    ensures
        b == is_safe_relative(path@),
{
    let cs = path_components(path);
    let chars = chars_of(path);
    if chars.len() == 0 {
        return false;
    }
    let mut i: usize = 0;
    while i < cs.len()
        invariant
            i <= cs@.len(),
            cs@.len() == components(path@).len(),
            forall|k: int| 0 <= k < cs@.len() ==> #[trigger] cs@[k]@ == components(path@)[k],
            forall|k: int| 0 <= k < i ==> #[trigger] components(path@)[k] is Normal,
        decreases cs.len() - i,
    {
        let ok = match &cs[i] {
            PathComponent::Normal(_) => true,
            _ => false,
        };
        assert(cs@[i as int]@ == components(path@)[i as int]);
        assert(ok == (cs@[i as int]@ is Normal));
        if !ok {
            return false;
        }
        i += 1;
    }
    true
}

/// Appends a relative path to a base path.
pub fn join(root: &str, rel: &str) -> (r: String)
    ensures
        r@ == path_join(root@, rel@),
{
    let mut v = chars_of(root);
    if v.len() > 0 && v[v.len() - 1] != '/' {
        v.push('/');
    }
    append_str(&mut v, rel);
    string_of(&v)
}

/// Errors in resolving paths.
#[derive(Debug, Clone, PartialEq, Eq)]
pub enum PathError {
    /// Neither `COMPLAI_KB_DIR` nor `HOME` is set.
    HomeUnset,
    /// A stored relative path that could leave its root.
    UnsafeStoredPath(String),
    /// A framework name that is not one safe path segment.
    UnsafeFramework(String),
}

/// The knowledge-base root: `COMPLAI_KB_DIR` when set, else `$HOME/.complai/kb`.
pub fn kb_root(kb_dir: Option<&str>, home: Option<&str>) -> (r: Result<String, PathError>)
    ensures
        kb_dir matches Some(d) ==> (r matches Ok(p) && p@ == d@),
        kb_dir is None ==> (home matches Some(h) ==> (r matches Ok(p) && p@ == path_join(
            path_join(h@, ".complai"@),
            "kb"@,
        ))),
        kb_dir is None && home is None ==> r == Err::<String, PathError>(PathError::HomeUnset),
{
    match kb_dir {
        Some(d) => Ok(owned(d)),
        None => match home {
            Some(h) => {
                let base = join(h, ".complai");
                Ok(join(base.as_str(), "kb"))
            },
            None => Err(PathError::HomeUnset),
        },
    }
}

/// Joins a path kept in an index to its root, refusing any path that is empty,
/// absolute, or holds `.`/`..` components that could leave the root.
pub fn join_stored_path(root: &str, value: &str) -> (r: Result<String, PathError>)
    ensures
        is_safe_relative(value@) ==> (r matches Ok(p) && p@ == path_join(root@, value@)),
        !is_safe_relative(value@) ==> (r matches Err(e) && (e matches PathError::UnsafeStoredPath(v)
            && v@ == value@)),
{
    if safe_relative(value) {
        Ok(join(root, value))
    } else {
        Err(PathError::UnsafeStoredPath(owned(value)))
    }
}

/// Characters kept as they are in a storage segment.
pub open spec fn is_segment_char(c: char) -> bool {
    is_ascii_alnum(c) || c == '.' || c == '-' || c == '_'
}

/// Whether an identifier can serve as a storage segment unchanged.
pub open spec fn directly_safe(v: Seq<char>) -> bool {
    &&& v.len() > 0
    &&& v != seq!['.']
    &&& v != seq!['.', '.']
    &&& forall|i: int| 0 <= i < v.len() ==> is_segment_char(#[trigger] v[i])
}

/// Each character kept when safe, `_` otherwise.
pub open spec fn sanitize(v: Seq<char>) -> Seq<char> {
    v.map_values(|c: char| if is_segment_char(c) { c } else { '_' })
}

/// At most the first `n` elements (`Iterator::take`).
pub open spec fn at_most(s: Seq<char>, n: nat) -> Seq<char> {
    if s.len() <= n {
        s
    } else {
        s.take(n as int)
    }
}

/// The characters that `trim_matches(['.', '_', '-'])` removes.
pub open spec fn is_trim_mark(c: char) -> bool {
    c == '.' || c == '_' || c == '-'
}

pub open spec fn trim_marks_start(s: Seq<char>) -> Seq<char>
    decreases s.len(),
{
    if s.len() > 0 && is_trim_mark(s[0]) {
        trim_marks_start(s.drop_first())
    } else {
        s
    }
}

pub open spec fn trim_marks_end(s: Seq<char>) -> Seq<char>
    decreases s.len(),
{
    if s.len() > 0 && is_trim_mark(s.last()) {
        trim_marks_end(s.drop_last())
    } else {
        s
    }
}

/// A stable, single-segment storage name for an external identifier: the
/// identifier itself when it is plainly safe and at most 120 long, else its
/// sanitized first 80 characters (trimmed of `._-`, or `item` when nothing
/// is left), a `-`, and the first 12 hex digits of its SHA-256.
pub open spec fn safe_segment(value: Seq<char>, bytes: Seq<u8>) -> Seq<char> {
    if directly_safe(value) && value.len() <= 120 {
        value
    } else {
        let normalized = trim_marks_end(trim_marks_start(at_most(sanitize(value), 80)));
        let prefix = if normalized.len() == 0 { "item"@ } else { normalized };
        prefix + seq!['-'] + at_most(hex_of(sha256_digest(bytes)), 12)
    }
}

proof fn lemma_trim_marks_start_skip(s: Seq<char>, i: int)
    requires
        0 <= i <= s.len(),
        forall|j: int| 0 <= j < i ==> is_trim_mark(#[trigger] s[j]),
    ensures
        trim_marks_start(s) == trim_marks_start(s.skip(i)),
    decreases i,
{
    if i > 0 {
        lemma_trim_marks_start_skip(s.drop_first(), i - 1);
        assert(s.drop_first().skip(i - 1) == s.skip(i));
    } else {
        assert(s.skip(0) == s);
    }
}

proof fn lemma_trim_marks_end_take(s: Seq<char>, k: int)
    requires
        0 <= k <= s.len(),
        forall|j: int| k <= j < s.len() ==> is_trim_mark(#[trigger] s[j]),
    ensures
        trim_marks_end(s) == trim_marks_end(s.take(k)),
    decreases s.len() - k,
{
    if k < s.len() {
        lemma_trim_marks_end_take(s.drop_last(), k);
        assert(s.drop_last().take(k) == s.take(k));
    } else {
        assert(s.take(k) == s);
    }
}

fn segment_char(c: char) -> (b: bool)
    ensures
        b == is_segment_char(c),
{
    crate::text::ascii_alnum(c) || c == '.' || c == '-' || c == '_'
}

fn trim_mark(c: char) -> (b: bool)
    ensures
        b == is_trim_mark(c),
{
    c == '.' || c == '_' || c == '-'
}

fn normalize_segment(v: &Vec<char>) -> (r: Vec<char>)
    ensures
        r@ == trim_marks_end(trim_marks_start(at_most(sanitize(v@), 80))),
{
    let ghost s = at_most(sanitize(v@), 80);
    let limit: usize = if v.len() < 80 { v.len() } else { 80 };
    let mut n: Vec<char> = Vec::new();
    let mut i: usize = 0;
    while i < limit
        invariant
            i <= limit,
            limit <= v@.len(),
            limit == s.len(),
            s == at_most(sanitize(v@), 80),
            n@ == s.take(i as int),
        decreases limit - i,
    {
        let c = v[i];
        let m = if segment_char(c) { c } else { '_' };
        assert(s[i as int] == m);
        n.push(m);
        assert(s.take(i + 1) == s.take(i as int).push(m));
        i += 1;
    }
    assert(n@ == s);
    let mut a: usize = 0;
    while a < n.len() && trim_mark(n[a])
        invariant
            a <= n@.len(),
            forall|j: int| 0 <= j < a ==> is_trim_mark(#[trigger] n@[j]),
        decreases n.len() - a,
    {
        a += 1;
    }
    proof {
        lemma_trim_marks_start_skip(n@, a as int);
        if a < n@.len() {
            assert(!is_trim_mark(n@.skip(a as int)[0]));
        }
    }
    let ghost t = n@.skip(a as int);
    assert(trim_marks_start(n@) == t);
    let mut b: usize = n.len();
    while b > a && trim_mark(n[b - 1])
        invariant
            a <= b <= n@.len(),
            forall|j: int| b <= j < n@.len() ==> is_trim_mark(#[trigger] n@[j]),
        decreases b,
    {
        b -= 1;
    }
    let r = crate::text::slice_chars(&n, a, b);
    proof {
        let kk = (b - a) as int;
        assert forall|j: int| kk <= j < t.len() implies is_trim_mark(#[trigger] t[j]) by {
            assert(t[j] == n@[j + a]);
        }
        lemma_trim_marks_end_take(t, kk);
        assert(t.take(kk) == n@.subrange(a as int, b as int));
        if kk > 0 {
            assert(t.take(kk).last() == n@[b - 1]);
        }
    }
    r
}

fn directly_safe_chars(v: &Vec<char>) -> (b: bool)
    ensures
        b == directly_safe(v@),
{
    if v.len() == 0 {
        return false;
    }
    if v.len() == 1 && v[0] == '.' {
        assert(v@ =~= seq!['.']);
        return false;
    }
    if v.len() == 2 && v[0] == '.' && v[1] == '.' {
        assert(v@ =~= seq!['.', '.']);
        return false;
    }
    assert(v@ != seq!['.']) by {
        if v@ == seq!['.'] {
            assert(v@.len() == 1 && v@[0] == '.');
        }
    }
    assert(v@ != seq!['.', '.']) by {
        if v@ == seq!['.', '.'] {
            assert(v@.len() == 2 && v@[0] == '.' && v@[1] == '.');
        }
    }
    let mut i: usize = 0;
    while i < v.len()
        invariant
            i <= v@.len(),
            forall|j: int| 0 <= j < i ==> is_segment_char(#[trigger] v@[j]),
        decreases v.len() - i,
    {
        if !segment_char(v[i]) {
            return false;
        }
        i += 1;
    }
    true
}

/// Turns an external identifier into a stable storage segment; the identifier
/// itself is kept in the structured data.
pub fn safe_path_component(value: &str) -> (r: String)
    ensures
        r@ == safe_segment(value@, value.spec_bytes()),
{
    let v = chars_of(value);
    if directly_safe_chars(&v) && v.len() <= 120 {
        return owned(value);
    }
    let normalized = normalize_segment(&v);
    let mut out: Vec<char> = if normalized.len() == 0 { chars_of("item") } else { normalized };
    out.push('-');
    let digest = sha256(value.as_bytes());
    let hex = hex_chars(digest.as_slice());
    let head = crate::text::slice_chars(&hex, 0, 12);
    assert(hex@.subrange(0, 12) == at_most(hex@, 12));
    append_chars(&mut out, &head);
    string_of(&out)
}


proof fn lemma_split_without_sep(s: Seq<char>, sep: char)
    requires
        !s.contains(sep),
    ensures
        split_on(s, sep) == seq![s],
    decreases s.len(),
{
    if s.len() > 0 {
        assert(!s.drop_last().contains(sep)) by {
            if s.drop_last().contains(sep) {
                let k = choose|k: int| 0 <= k < s.drop_last().len() && s.drop_last()[k] == sep;
                assert(s[k] == sep);
            }
        }
        lemma_split_without_sep(s.drop_last(), sep);
        assert(s.last() != sep) by {
            assert(s[s.len() - 1] == s.last());
        }
        assert(s.drop_last().push(s.last()) == s);
    } else {
        assert(s == Seq::<char>::empty());
    }
}

/// A non-empty name with no `/` that is neither `.` nor `..` is one normal component.
pub proof fn lemma_plain_name_is_single_component(s: Seq<char>)
    requires
        s.len() > 0,
        !s.contains('/'),
        s != seq!['.'],
        s != seq!['.', '.'],
    ensures
        is_single_normal(s),
        components(s) == seq![Comp::Normal(s)],
{
    lemma_split_without_sep(s, '/');
    assert(s[0] != '/');
    let ps = seq![s];
    assert(ps.drop_last() == Seq::<Seq<char>>::empty());
    assert(ps.last() == s);
    assert(classify(s) == Some(Comp::Normal(s)));
    assert(piece_components(ps.drop_last()) == Seq::<Comp>::empty());
    assert(piece_components(ps) =~= seq![Comp::Normal(s)]);
}

proof fn lemma_hex_of(b: Seq<u8>)
    ensures
        hex_of(b).len() == 2 * b.len(),
        forall|i: int| 0 <= i < hex_of(b).len() ==> #[trigger] hex_of(b)[i] != '/' && hex_of(b)[i] != '.',
        forall|i: int| 0 <= i < hex_of(b).len() ==> is_ascii_alnum(#[trigger] hex_of(b)[i]),
    decreases b.len(),
{
    if b.len() > 0 {
        lemma_hex_of(b.drop_last());
    }
}

proof fn lemma_trim_marks_subseq(s: Seq<char>)
    ensures
        forall|i: int| 0 <= i < trim_marks_end(trim_marks_start(s)).len() ==> s.contains(
            #[trigger] trim_marks_end(trim_marks_start(s))[i],
        ),
{
    lemma_trim_marks_start_sub(s);
    lemma_trim_marks_end_sub(trim_marks_start(s));
    let t = trim_marks_start(s);
    assert forall|i: int| 0 <= i < trim_marks_end(t).len() implies s.contains(#[trigger] trim_marks_end(t)[i]) by {
        assert(t.contains(trim_marks_end(t)[i]));
        let k = choose|k: int| 0 <= k < t.len() && t[k] == trim_marks_end(t)[i];
        assert(s.contains(t[k]));
    }
}

proof fn lemma_trim_marks_start_sub(s: Seq<char>)
    ensures
        forall|i: int| 0 <= i < trim_marks_start(s).len() ==> s.contains(#[trigger] trim_marks_start(s)[i]),
    decreases s.len(),
{
    if s.len() > 0 && is_trim_mark(s[0]) {
        lemma_trim_marks_start_sub(s.drop_first());
        assert(trim_marks_start(s) == trim_marks_start(s.drop_first()));
        assert forall|i: int| 0 <= i < trim_marks_start(s).len() implies s.contains(#[trigger] trim_marks_start(s)[i]) by {
            let c = trim_marks_start(s)[i];
            assert(s.drop_first().contains(c));
            let k = choose|k: int| 0 <= k < s.drop_first().len() && s.drop_first()[k] == c;
            assert(s[k + 1] == c);
        }
    } else {
        assert forall|i: int| 0 <= i < trim_marks_start(s).len() implies s.contains(#[trigger] trim_marks_start(s)[i]) by {
            assert(s[i] == trim_marks_start(s)[i]);
        }
    }
}

proof fn lemma_trim_marks_end_sub(s: Seq<char>)
    ensures
        forall|i: int| 0 <= i < trim_marks_end(s).len() ==> s.contains(#[trigger] trim_marks_end(s)[i]),
    decreases s.len(),
{
    if s.len() > 0 && is_trim_mark(s.last()) {
        lemma_trim_marks_end_sub(s.drop_last());
        assert(trim_marks_end(s) == trim_marks_end(s.drop_last()));
        assert forall|i: int| 0 <= i < trim_marks_end(s).len() implies s.contains(#[trigger] trim_marks_end(s)[i]) by {
            let c = trim_marks_end(s)[i];
            assert(s.drop_last().contains(c));
            let k = choose|k: int| 0 <= k < s.drop_last().len() && s.drop_last()[k] == c;
            assert(s[k] == c);
        }
    } else {
        assert forall|i: int| 0 <= i < trim_marks_end(s).len() implies s.contains(#[trigger] trim_marks_end(s)[i]) by {
            assert(s[i] == trim_marks_end(s)[i]);
        }
    }
}

/// A storage segment derived from any identifier is exactly one normal path
/// component: it never holds a separator and is never `.` or `..`.
pub proof fn lemma_safe_segment_is_one_component(value: Seq<char>, bytes: Seq<u8>)
    ensures
        is_single_normal(safe_segment(value, bytes)),
{
    let r = safe_segment(value, bytes);
    if directly_safe(value) && value.len() <= 120 {
        assert(!value.contains('/')) by {
            if value.contains('/') {
                let k = choose|k: int| 0 <= k < value.len() && value[k] == '/';
                assert(is_segment_char(value[k]));
            }
        }
        lemma_plain_name_is_single_component(value);
    } else {
        let san = at_most(sanitize(value), 80);
        let normalized = trim_marks_end(trim_marks_start(san));
        let prefix = if normalized.len() == 0 { "item"@ } else { normalized };
        reveal_strlit("item");
        lemma_trim_marks_subseq(san);
        assert forall|i: int| 0 <= i < san.len() implies #[trigger] san[i] != '/' by {
            assert(san[i] == sanitize(value)[i]);
        }
        assert forall|i: int| 0 <= i < prefix.len() implies #[trigger] prefix[i] != '/' by {
            if normalized.len() > 0 {
                assert(san.contains(normalized[i]));
            }
        }
        let d = sha256_digest(bytes);
        let h = hex_of(d);
        lemma_hex_of(d);
        let tail = seq!['-'] + at_most(h, 12);
        assert(r == prefix + tail);
        assert(!r.contains('/')) by {
            if r.contains('/') {
                let k = choose|k: int| 0 <= k < r.len() && r[k] == '/';
                if k < prefix.len() {
                    assert(prefix[k] == '/');
                } else if k == prefix.len() {
                    assert(r[k] == '-');
                } else {
                    assert(r[k] == at_most(h, 12)[k - prefix.len() - 1]);
                    assert(at_most(h, 12)[k - prefix.len() - 1] == h[k - prefix.len() - 1]);
                }
            }
        }
        assert(r.len() >= 2);
        assert(r != seq!['.']);
        assert(r != seq!['.', '.']) by {
            if r == seq!['.', '.'] {
                if prefix.len() >= 2 {
                } else {
                    assert(r[prefix.len() as int] == '-');
                }
            }
        }
        lemma_plain_name_is_single_component(r);
    }
}

/// `<a>/<b>` with two plain names stays below any root it is joined to.
pub proof fn lemma_nested_name_is_safe_relative(a: Seq<char>, b: Seq<char>)
    requires
        a.len() > 0 && !a.contains('/') && a != seq!['.'] && a != seq!['.', '.'],
        b.len() > 0 && !b.contains('/') && b != seq!['.'] && b != seq!['.', '.'],
    ensures
        is_safe_relative(a + seq!['/'] + b),
        components(a + seq!['/'] + b) == seq![Comp::Normal(a), Comp::Normal(b)],
{
    let a1 = a + seq!['/'];
    let s = a1 + b;
    lemma_split_without_sep(a, '/');
    lemma_split_without_sep(b, '/');
    assert(a1.drop_last() == a);
    assert(split_on(a1, '/') == split_on(a, '/').push(Seq::<char>::empty()));
    crate::text::lemma_split_on_concat(a1, b, '/');
    let ps = split_on(s, '/');
    assert(ps =~= seq![a, b]);
    assert(s[0] == a[0]);
    assert(a[0] != '/') by {
        assert(a.contains(a[0]));
    }
    assert(ps.drop_last() =~= seq![a]);
    let p1 = seq![a];
    assert(p1.drop_last() == Seq::<Seq<char>>::empty());
    assert(p1.last() == a);
    assert(classify(a) == Some(Comp::Normal(a)));
    assert(classify(b) == Some(Comp::Normal(b)));
    assert(piece_components(p1.drop_last()) == Seq::<Comp>::empty());
    assert(piece_components(p1) =~= seq![Comp::Normal(a)]);
    assert(ps.drop_last() == p1);
    assert(ps.last() == b);
    assert(piece_components(ps) =~= seq![Comp::Normal(a), Comp::Normal(b)]);
}

/// What `safe_path_component` returns is always usable as a segment as it
/// stands: non-empty, neither `.` nor `..`, and made only of ASCII letters,
/// digits, `.`, `-` and `_`; an identifier that already is such a segment, of
/// at most 120 characters, is returned unchanged.
pub proof fn lemma_safe_segment_shape(value: Seq<char>, bytes: Seq<u8>)
    ensures
        directly_safe(safe_segment(value, bytes)),
        directly_safe(value) && value.len() <= 120 ==> safe_segment(value, bytes) == value,
{
    let r = safe_segment(value, bytes);
    if !(directly_safe(value) && value.len() <= 120) {
        let san = at_most(sanitize(value), 80);
        let normalized = trim_marks_end(trim_marks_start(san));
        let prefix = if normalized.len() == 0 { "item"@ } else { normalized };
        reveal_strlit("item");
        lemma_trim_marks_subseq(san);
        assert forall|i: int| 0 <= i < san.len() implies is_segment_char(#[trigger] san[i]) by {
            assert(san[i] == sanitize(value)[i]);
        }
        assert forall|i: int| 0 <= i < prefix.len() implies is_segment_char(#[trigger] prefix[i]) by {
            if normalized.len() > 0 {
                assert(san.contains(normalized[i]));
                let k = choose|k: int| 0 <= k < san.len() && san[k] == normalized[i];
                assert(is_segment_char(san[k]));
            }
        }
        let d = sha256_digest(bytes);
        let h = hex_of(d);
        lemma_hex_of(d);
        let tail = seq!['-'] + at_most(h, 12);
        assert(r == prefix + tail);
        assert forall|k: int| 0 <= k < r.len() implies is_segment_char(#[trigger] r[k]) by {
            if k < prefix.len() {
                assert(r[k] == prefix[k]);
            } else if k == prefix.len() {
                assert(r[k] == '-');
            } else {
                assert(r[k] == at_most(h, 12)[k - prefix.len() - 1]);
                assert(at_most(h, 12)[k - prefix.len() - 1] == h[k - prefix.len() - 1]);
            }
        }
        assert(r.len() >= 2);
        assert(r != seq!['.']);
        assert(r != seq!['.', '.']) by {
            if r == seq!['.', '.'] {
                if prefix.len() >= 2 {
                } else {
                    assert(r[prefix.len() as int] == '-');
                }
            }
        }
    }
}

/// `Path::file_name`: the last component when it is a normal name.
pub open spec fn file_name_of(s: Seq<char>) -> Option<Seq<char>> {
    let cs = components(s);
    if cs.len() > 0 {
        match cs.last() {
            Comp::Normal(n) => Some(n),
            _ => None,
        }
    } else {
        None
    }
}

/// The last component of a path when it is a normal name.
pub fn file_name(path: &str) -> (r: Option<String>)
    ensures
        opt_view(r) == file_name_of(path@),
{
    let cs = path_components(path);
    if cs.len() == 0 {
        return None;
    }
    let n = cs.len() - 1;
    assert(cs@[n as int]@ == components(path@).last());
    match &cs[n] {
        PathComponent::Normal(v) => Some(string_of(v)),
        _ => None,
    }
}

/// The text of an optional string.
pub open spec fn opt_view(o: Option<String>) -> Option<Seq<char>> {
    match o {
        Some(s) => Some(s@),
        None => None,
    }
}

/// The storage segment of a text, from its characters and their UTF-8 bytes.
pub open spec fn segment_of(v: Seq<char>) -> Seq<char> {
    safe_segment(v, vstd::utf8::encode_utf8(v))
}

} // verus!

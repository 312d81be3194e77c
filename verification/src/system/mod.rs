//! The shared system knowledge base: facts about audited systems, stored by
//! system slug and reused across projects.

pub mod fact;

use vstd::prelude::*;

use crate::paths::{join, path_join};
use crate::text::{chars_of, is_ascii_alnum, owned};

verus! {

/// Why a system cannot be addressed.
#[derive(Debug, Clone, PartialEq, Eq)]
pub enum SystemError {
    /// A slug that is not portable ASCII kebab-case.
    InvalidSlug(String),
}

/// A slug is both a stable reference and a directory name: non-empty ASCII
/// letters, digits and inner hyphens.
pub open spec fn valid_slug(s: Seq<char>) -> bool {
    &&& s.len() > 0
    &&& forall|i: int| 0 <= i < s.len() ==> is_ascii_alnum(#[trigger] s[i]) || s[i] == '-'
    &&& is_ascii_alnum(s[0])
    &&& is_ascii_alnum(s.last())
}

/// A valid slug is exactly one normal path component, so a system directory
/// never leaves the system root.
pub proof fn lemma_valid_slug_is_single_component(slug: Seq<char>)
    requires
        valid_slug(slug),
    ensures
        crate::paths::is_single_normal(slug),
{
    assert(!slug.contains('/')) by {
        if slug.contains('/') {
            let i = choose|i: int| 0 <= i < slug.len() && slug[i] == '/';
            assert(is_ascii_alnum(slug[i]) || slug[i] == '-');
        }
    }
    assert(slug != seq!['.']) by {
        if slug == seq!['.'] {
            assert(is_ascii_alnum(slug[0]));
        }
    }
    assert(slug != seq!['.', '.']) by {
        if slug == seq!['.', '.'] {
            assert(is_ascii_alnum(slug[0]));
        }
    }
    crate::paths::lemma_plain_name_is_single_component(slug);
}

/// Checks that a slug is one portable path segment.
pub fn validate_slug(slug: &str) -> (r: Result<(), SystemError>)
    ensures
        r is Ok <==> valid_slug(slug@),
        r matches Err(SystemError::InvalidSlug(s)) ==> s@ == slug@,
{
    let v = chars_of(slug);
    if v.len() == 0 {
        return Err(SystemError::InvalidSlug(owned(slug)));
    }
    let mut i: usize = 0;
    while i < v.len()
        invariant
            i <= v@.len(),
            v@ == slug@,
            forall|j: int| 0 <= j < i ==> is_ascii_alnum(#[trigger] v@[j]) || v@[j] == '-',
        decreases v.len() - i,
    {
        let c = v[i];
        if !(crate::text::ascii_alnum(c) || c == '-') {
            return Err(SystemError::InvalidSlug(owned(slug)));
        }
        i += 1;
    }
    if !crate::text::ascii_alnum(v[0]) || !crate::text::ascii_alnum(v[v.len() - 1]) {
        return Err(SystemError::InvalidSlug(owned(slug)));
    }
    Ok(())
}

/// The root of the system knowledge base: `<kb_root>/system`.
pub fn system_root(kb_root: &str) -> (r: String)
    ensures
        r@ == path_join(kb_root@, "system"@),
{
    join(kb_root, "system")
}

/// The directory of one system: `<kb_root>/system/<slug>`.
pub fn system_dir(kb_root: &str, slug: &str) -> (r: Result<String, SystemError>)
    ensures
        valid_slug(slug@) ==> (r matches Ok(p) && p@ == path_join(path_join(kb_root@, "system"@), slug@)),
        !valid_slug(slug@) ==> (r matches Err(SystemError::InvalidSlug(s)) && s@ == slug@),
{
    match validate_slug(slug) {
        Err(e) => Err(e),
        Ok(()) => {
            let root = system_root(kb_root);
            Ok(join(root.as_str(), slug))
        },
    }
}

/// The system an operation targets: the explicit one when given, else the
/// one of the current project.
pub fn resolve_slug(explicit: Option<&str>, current: Option<String>) -> (r: Option<String>)
    ensures
        explicit matches Some(s) ==> (r matches Some(x) && x@ == s@),
        explicit is None ==> r == current,
{
    match explicit {
        Some(s) => Some(owned(s)),
        None => current,
    }
}

} // verus!

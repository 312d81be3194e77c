//! The compliance knowledge base: framework controls shared by all projects.

pub mod indexing;
pub mod query;
pub mod scaffold;
pub mod control;

use vstd::prelude::*;

use crate::paths::{is_single_normal, join, path_join, single_normal_component, PathError};
use crate::text::owned;

verus! {

/// The directory of a framework: `<kb_root>/compliance/<framework>`; the
/// framework name must be one normal path segment.
pub fn framework_dir(kb_root: &str, framework: &str) -> (r: Result<String, PathError>)
    ensures
        is_single_normal(framework@) ==> (r matches Ok(p) && p@ == path_join(
            path_join(kb_root@, "compliance"@),
            framework@,
        )),
        !is_single_normal(framework@) ==> (r matches Err(PathError::UnsafeFramework(f)) && f@
            == framework@),
{
    if !single_normal_component(framework) {
        return Err(PathError::UnsafeFramework(owned(framework)));
    }
    let base = join(kb_root, "compliance");
    Ok(join(base.as_str(), framework))
}

} // verus!

//! The notes workflow of the knowledge base: batches of excerpt notes split
//! into per-control bodies.

pub mod ingest;

use vstd::prelude::*;

use crate::paths::{join, path_join};

verus! {

/// The directory of a framework, `<kb_root>/compliance/<framework>`, as the
/// notes workflow addresses it.
pub fn framework_dir(kb_root: &str, framework: &str) -> (r: String)
    ensures
        r@ == path_join(path_join(kb_root@, "compliance"@), framework@),
{
    let base = join(kb_root, "compliance");
    join(base.as_str(), framework)
}

} // verus!

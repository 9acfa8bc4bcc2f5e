//! What the rest of the library reads of a policy.

use vstd::prelude::*;

verus! {

/// The policy of a project.
#[derive(Debug)]
pub struct Policy {
    pub notify: Option<Notify>,
}

/// The `notify:` section: where notifications go, and for which decisions.
#[derive(Debug)]
pub struct Notify {
    pub webhook: String,
    pub on: Vec<String>,
}

} // verus!

//! The taxonomy of destructive intents.

use vstd::prelude::*;

verus! {

/// The rule an entry is matched to when the circuit breaker escalated it.
pub const BREAKER_RULE: &'static str = "circuit-breaker";

/// What a destructive command is after.
#[derive(Clone, Copy, PartialEq, Eq, Structural, Debug)]
pub enum Intent {
    FileDelete,
    DbDestroy,
    GitDestructive,
    InfraDestroy,
}

/// The label of an intent in the audit log.
pub open spec fn label_text(intent: Intent) -> Seq<char> {
    match intent {
        Intent::FileDelete => "file-delete"@,
        Intent::DbDestroy => "db-destroy"@,
        Intent::GitDestructive => "git-destructive"@,
        Intent::InfraDestroy => "infra-destroy"@,
    }
}

impl Intent {
    /// The label of the intent in the audit log.
    pub fn label(self) -> (r: &'static str)
        ensures
            r@ == label_text(self),
    {
        match self {
            Intent::FileDelete => "file-delete",
            Intent::DbDestroy => "db-destroy",
            Intent::GitDestructive => "git-destructive",
            Intent::InfraDestroy => "infra-destroy",
        }
    }
}

} // verus!

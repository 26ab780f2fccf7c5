pub mod aggregate;
pub mod dispatch;
pub mod enumerate;
pub mod event;
pub mod order;
pub mod output;
pub mod parse;
pub mod text;

use vstd::prelude::*;

verus! {

/// Which of the two aggregate derived tables a run produces.
#[derive(Debug, Clone)]
pub enum ProcessingMode {
    CommitterCount,
    RepoMapping,
}

/// Process-wide configuration, resolved once at startup and passed by value
/// into the components that need it.
#[derive(Debug, Clone)]
pub struct JobConfig {
    pub source_bucket: String,
    pub dest_bucket: String,
    pub year: i64,
    pub hours_to_process: usize,
    pub dry_run: bool,
    pub mode: ProcessingMode,
}

/// Events archived before this year use the legacy record shape.
pub const MODERN_SCHEMA_FIRST_YEAR: i64 = 2015;

pub open spec fn spec_uses_legacy_schema(year: i64) -> bool {
    year < MODERN_SCHEMA_FIRST_YEAR
}

/// Selects the schema era for a processing year.
pub fn uses_legacy_schema(year: i64) -> (r: bool)
    ensures
        r == spec_uses_legacy_schema(year),
{
    year < MODERN_SCHEMA_FIRST_YEAR
}

} // verus!

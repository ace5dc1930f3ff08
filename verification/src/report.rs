//! What a run leaves behind: a manifest for the run and a result for each scenario.
use crate::sorting::{sort_by_name, sorted_by_name, under_name, Named};
use vstd::prelude::*;

verus! {

/// The result of one scenario.
#[derive(Clone, Debug)]
pub struct ScenarioResult {
    pub name: String,
    /// One of `passed`, `failed`, `errored`, `blocked`.
    pub status: String,
    pub error: Option<String>,
    /// Path of the directory with what the scenario left behind.
    pub diag_dir: String,
    /// How long the scenario took, in seconds, as the text of a decimal number.
    pub duration_secs: String,
}

/// What was run, and where.
#[derive(Clone, Debug)]
pub struct RunManifest {
    pub timestamp_utc: String,
    pub host_os: &'static str,
    pub git_sha: Option<String>,
    pub project_name: String,
    pub scenario_count_total: usize,
    pub scenario_count_runnable: usize,
}

/// The results of a run.
#[derive(Clone, Debug)]
pub struct RunReport {
    pub manifest: RunManifest,
    pub results: Vec<ScenarioResult>,
}

impl Named for ScenarioResult {
    open spec fn key(self) -> Seq<char> {
        self.name@
    }

    fn name(&self) -> (name: &str) {
        self.name.as_str()
    }
}

/// The results in the order of their names. Results with the same name keep
/// their order.
pub fn ordered_results(results: Vec<ScenarioResult>) -> (ordered: Vec<ScenarioResult>)
    ensures
        sorted_by_name(ordered@),
        ordered@.to_multiset() == results@.to_multiset(),
        forall|name: Seq<char>| #[trigger]
            under_name(ordered@, name) == under_name(results@, name),
{
    sort_by_name(results)
}

/// A result is sorted by the name of its scenario.
pub proof fn law_result_key(result: ScenarioResult)
    ensures
        result.key() == result.name@,
{
}

} // verus!

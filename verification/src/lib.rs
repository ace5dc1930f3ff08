//! Runner library of a filesystem test harness.
//!
//! - [`Harness`]: the loaded `harness.toml` and matrix.
//! - [`Scenario`], [`Step`]: what the matrix declares.
//! - [`Substitution`]: the template language of ops.
//! - [`dispatch`]: what each step of a recipe runs, and what comes of it.
//! - [`runner`]: which scenarios run, how often, and what is reported.
//! - [`Adapter`]: behaviour of ops that Rust code supplies, with [`TomlAdapter`]
//!   as the one that `harness.toml` alone configures.
pub mod config;
pub mod dispatch;
pub mod invocation;
pub mod json;
pub mod matrix;
pub mod numeral;
pub mod outcome;
pub mod paths;
pub mod report;
pub mod runner;
pub mod sorting;
pub mod string_map;
pub mod substitution;
pub mod template;
pub mod text;
pub mod toml_adapter;
pub mod vocab;

pub use config::{HarnessConfig, MaxParallel, OpDef, OpHost, VmSection};
pub use dispatch::{run_recipe, RecipeResult, StepResult};
pub use matrix::{Matrix, MountSpec, OpSpec, PostVerifySpec, Scenario, ScenarioMap, Step};
pub use report::{RunReport, ScenarioResult};
pub use substitution::Substitution;
pub use toml_adapter::TomlAdapter;

use json::JsonValue;
use vstd::prelude::*;

verus! {

/// The loaded view of `harness.toml` and the matrix file that it names.
#[derive(Debug)]
pub struct Harness {
    pub config: HarnessConfig,
    pub matrix: Matrix,
    /// Path of `harness.toml`.
    pub config_path: String,
    /// Path of the matrix file.
    pub matrix_path: String,
    /// Path of the directory that holds `harness.toml`.
    pub consumer_root: String,
}

impl Harness {
    /// The scenarios by name, in the order of their declaration.
    pub fn scenarios(&self) -> (scenarios: &ScenarioMap)
        ensures
            *scenarios == self.matrix.scenarios,
    {
        &self.matrix.scenarios
    }
}

/// What came of a single op.
#[derive(Clone, Debug)]
pub struct OpResult {
    pub ok: bool,
    pub error: Option<String>,
    pub output: JsonValue,
    pub duration_ms: u64,
}

/// The behaviour of the ops of a scenario.
///
/// A project whose driver is a command-line program needs none of its own:
/// [`TomlAdapter`] is enough. One that runs its ops in process implements this.
pub trait Adapter {
    /// Called once before the ops of `scenario` run.
    fn pre_fixture(&self, scenario: &Scenario, diag_dir: &str) -> (r: Result<(), String>)
        default_ensures
            r is Ok,
    {
        Ok(())
    }

    /// Runs a single op of `scenario`. What it leaves behind goes under `diag_dir`.
    fn run_op(&self, scenario: &Scenario, op: &OpSpec, diag_dir: &str) -> (r: Result<
        OpResult,
        String,
    >);

    /// Called once after the ops of `scenario` succeeded.
    fn post_verify(&self, scenario: &Scenario, diag_dir: &str) -> (r: Result<(), String>)
        default_ensures
            r is Ok,
    {
        Ok(())
    }
}

} // verus!

//! The dispatcher of recipes.
//!
//! A recipe is a sequence of steps. Each names an op, which says where the step
//! runs, on the orchestrator host or on the VM, and by what command. This module
//! decides what a step runs and what comes of it. The caller runs the commands:
//! [`run_recipe`] begins a [`RecipeRun`], which tells the command of each step
//! and takes what came of it, until the recipe is over.
use crate::config::{exit_or_zero, expected_exit, HarnessConfig, OpDef, OpHost};
use crate::invocation::{
    copy_invocation, effective_setting, law_copy_goes_from_source_to_target,
    law_local_command_is_one_argument, law_remote_command_comes_last, local_call, local_invocation, scp_call, scp_invocation,
    setting, ssh_call, ssh_invocation, Environment, Invocation, InvocationRecord,
};
use crate::json::{jsons, string_field, Json, JsonValue};
use crate::matrix::{law_unknown_fields_kept, Scenario};
use crate::numeral::{decimal, write_decimal};
use crate::string_map::StringMap;
use crate::substitution::{
    expansion, law_dotted_paths_walk, predicate_holds, resolve, texts, walk, Context, Substitution,
};
use crate::text::{lemma_split_on_single, opt_text, str_eq};
use crate::vocab::{build_flat_vocab, effective_key, key_may_be, vocab_may_be};
use vstd::prelude::*;

verus! {

// ---------------------------------------------------------------------------
// Results
// ---------------------------------------------------------------------------

/// What came of a step.
#[derive(Clone, Debug)]
pub struct StepResult {
    /// The place of the step in the recipe.
    pub index: usize,
    /// The op.
    pub op: String,
    /// Where the step ran: `host` or `vm`.
    pub host: &'static str,
    /// The command with all placeholders substituted; empty where the step was skipped.
    pub command: String,
    /// The exit code of the command, where it ended with one.
    pub exit_code: Option<i32>,
    /// The exit code that was expected.
    pub expected_exit: i32,
    /// How long the command took.
    pub duration_ms: u128,
    /// Whether the step was skipped.
    pub skipped: bool,
    /// Why the step was skipped.
    pub skip_reason: Option<String>,
    /// Why the command could not be run.
    pub error: Option<String>,
}

/// What came of a recipe.
#[derive(Clone, Debug)]
pub struct RecipeResult {
    /// The results of the steps that were reached, in their order.
    pub steps: Vec<StepResult>,
    /// Whether the recipe is over and no step failed.
    pub overall_passed: bool,
}

/// The model of a step's result.
#[verifier::ext_equal]
pub struct StepRecord {
    pub index: int,
    pub op: Seq<char>,
    pub host: Seq<char>,
    pub command: Seq<char>,
    pub exit_code: Option<i32>,
    pub expected_exit: i32,
    pub duration_ms: u128,
    pub skipped: bool,
    pub skip_reason: Option<Seq<char>>,
    pub error: Option<Seq<char>>,
}

impl View for StepResult {
    type V = StepRecord;

    open spec fn view(&self) -> StepRecord {
        StepRecord {
            index: self.index as int,
            op: self.op@,
            host: self.host@,
            command: self.command@,
            exit_code: self.exit_code,
            expected_exit: self.expected_exit,
            duration_ms: self.duration_ms,
            skipped: self.skipped,
            skip_reason: opt_text(self.skip_reason),
            error: opt_text(self.error),
        }
    }
}

impl StepRecord {
    /// Whether the step did not fail: it was skipped, or its command ran and ended
    /// with the expected exit code.
    pub open spec fn passed(self) -> bool {
        self.skipped || (self.error is None && self.exit_code == Some(self.expected_exit))
    }
}

/// The models of a list of results.
pub open spec fn records(results: Seq<StepResult>) -> Seq<StepRecord> {
    results.map_values(|r: StepResult| r@)
}

/// Whether the command of a step ended with the expected exit code.
pub fn exit_matches(result: &StepResult) -> (r: bool)
    ensures
        r == (result.exit_code == Some(result.expected_exit)),
{
    match result.exit_code {
        Some(code) => code == result.expected_exit,
        None => false,
    }
}

/// Whether a step did not fail.
pub fn step_passed(result: &StepResult) -> (r: bool)
    ensures
        r == result@.passed(),
        r <==> result.skipped || (result.error is None && result.exit_code == Some(
            result.expected_exit,
        )),
{
    result.skipped || (result.error.is_none() && exit_matches(result))
}

// ---------------------------------------------------------------------------
// Steps
// ---------------------------------------------------------------------------

/// All that the steps of a recipe depend on.
pub struct Setup {
    /// The name of the scenario.
    pub scenario_name: Seq<char>,
    /// The scenario as JSON.
    pub scenario: Json,
    /// The steps.
    pub recipe: Seq<Json>,
    /// The flat tokens.
    pub flat: Map<Seq<char>, Seq<char>>,
    /// The declared ops.
    pub ops: Map<Seq<char>, OpDef>,
    /// `user@host` of the VM.
    pub vm_host: Option<Seq<char>>,
    /// Path of the private key for the VM.
    pub ssh_key: Option<Seq<char>>,
    /// Whether the orchestrator runs on Windows.
    pub windows: bool,
}

/// A step that runs a command.
#[derive(Clone, Debug)]
pub struct StepPlan {
    /// The place of the step in the recipe.
    pub index: usize,
    /// The op.
    pub op: String,
    /// Where the step runs: `host` or `vm`.
    pub host: &'static str,
    /// The command with all placeholders substituted.
    pub command: String,
    /// The exit code that is expected.
    pub expected_exit: i32,
    /// What to start.
    pub invocation: Invocation,
}

/// The model of a step that runs a command.
#[verifier::ext_equal]
pub struct PlanRecord {
    pub index: int,
    pub op: Seq<char>,
    pub host: Seq<char>,
    pub command: Seq<char>,
    pub expected_exit: i32,
    pub invocation: InvocationRecord,
}

impl View for StepPlan {
    type V = PlanRecord;

    open spec fn view(&self) -> PlanRecord {
        PlanRecord {
            index: self.index as int,
            op: self.op@,
            host: self.host@,
            command: self.command@,
            expected_exit: self.expected_exit,
            invocation: self.invocation@,
        }
    }
}

/// What came of starting a program: its exit code, none where a signal ended it,
/// or why it could not be started.
pub type Outcome = Result<Option<i32>, String>;

impl PlanRecord {
    /// The result of the step where its command ended with `exit_code`, or did not
    /// run because of `error`.
    pub open spec fn result(
        self,
        exit_code: Option<i32>,
        error: Option<Seq<char>>,
        duration_ms: u128,
    ) -> StepRecord {
        StepRecord {
            index: self.index,
            op: self.op,
            host: self.host,
            command: self.command,
            exit_code,
            expected_exit: self.expected_exit,
            duration_ms,
            skipped: false,
            skip_reason: None,
            error,
        }
    }

    /// The result of the step where its command came out as `outcome`.
    pub open spec fn came_out(self, outcome: Outcome, duration_ms: u128) -> StepRecord {
        match outcome {
            Ok(exit_code) => self.result(exit_code, None, duration_ms),
            Err(error) => self.result(None, Some(error@), duration_ms),
        }
    }
}

impl StepPlan {
    /// The result of the step where its command came out as `outcome`.
    pub fn into_result(self, outcome: Outcome, duration_ms: u128) -> (result: StepResult)
        ensures
            result@ == self@.came_out(outcome, duration_ms),
    {
        let (exit_code, error) = match outcome {
            Ok(exit_code) => (exit_code, None),
            Err(error) => (None, Some(error)),
        };
        StepResult {
            index: self.index,
            op: self.op,
            host: self.host,
            command: self.command,
            exit_code,
            expected_exit: self.expected_exit,
            duration_ms,
            skipped: false,
            skip_reason: None,
            error,
        }
    }
}

/// What is to be done for a step.
#[derive(Debug)]
pub enum Planned {
    /// Nothing: the result is known without running a command.
    Settled(StepResult),
    /// A command is to be run.
    Command(StepPlan),
}

/// The model of what is to be done for a step.
#[verifier::ext_equal]
pub enum PlannedRecord {
    Settled(StepRecord),
    Command(PlanRecord),
}

impl View for Planned {
    type V = PlannedRecord;

    open spec fn view(&self) -> PlannedRecord {
        match self {
            Planned::Settled(result) => PlannedRecord::Settled(result@),
            Planned::Command(plan) => PlannedRecord::Command(plan@),
        }
    }
}

/// The op that a step names, in its `op` field or else in its `type` field.
pub open spec fn op_name(step: Json) -> Option<Seq<char>> {
    match string_field(step, "op"@) {
        Some(name) => Some(name),
        None => string_field(step, "type"@),
    }
}

/// Where a step runs: as its `host` field says, else where its op does.
pub open spec fn step_host(step: Json, default: OpHost) -> OpHost {
    match string_field(step, "host"@) {
        Some(host) => if host == "host"@ {
            OpHost::Host
        } else if host == "vm"@ {
            OpHost::Vm
        } else {
            default
        },
        None => default,
    }
}

/// The name of the place where a step runs.
pub open spec fn host_text(host: OpHost) -> Seq<char> {
    match host {
        OpHost::Host => "host"@,
        OpHost::Vm => "vm"@,
    }
}

/// The name of the place where a step runs.
pub fn host_name(host: OpHost) -> (name: &'static str)
    ensures
        name@ == host_text(host),
{
    match host {
        OpHost::Host => "host",
        OpHost::Vm => "vm",
    }
}

/// Whether `op` copies between the host and the VM. Such an op needs no declaration.
pub open spec fn is_ship(op: Seq<char>) -> bool {
    op == "ship-to-vm"@ || op == "ship-to-host"@
}

/// The message for a step that names no op.
pub open spec fn no_op_message(scenario_name: Seq<char>, index: int) -> Seq<char> {
    "scenario '"@ + scenario_name + "' step "@ + decimal(index as nat)
        + ": missing 'op' or 'type' field"@
}

/// The message for a step whose op is not declared.
pub open spec fn undeclared_op_message(
    scenario_name: Seq<char>,
    index: int,
    op: Seq<char>,
) -> Seq<char> {
    "scenario '"@ + scenario_name + "' step "@ + decimal(index as nat) + ": op '"@ + op
        + "' not declared in harness.toml [ops]"@
}

/// The message for a step that copies and lacks something.
pub open spec fn ship_message(index: int, op: Seq<char>, what: Seq<char>) -> Seq<char> {
    "step "@ + decimal(index as nat) + ": '"@ + op + "' requires "@ + what
}

/// The error of a step on the VM where no VM is given.
pub open spec fn no_vm_error() -> Seq<char> {
    "vm-step requires VM_HOST env or harness.toml [vm].host"@
}

/// Why a step was skipped.
pub open spec fn skip_text(when: Seq<char>) -> Seq<char> {
    "when="@ + when + " false"@
}

impl Setup {
    /// What the placeholders of a step are looked up in.
    pub open spec fn context(self, step: Json) -> Context {
        Context { flat: self.flat, scenario: self.scenario, step }
    }

    /// What is to be done for a step that copies, or why it cannot be done.
    pub open spec fn planned_ship(self, index: int, step: Json, op: Seq<char>) -> Result<
        PlannedRecord,
        Seq<char>,
    > {
        match (string_field(step, "src"@), string_field(step, "dest"@), self.vm_host) {
            (None, _, _) => Err(ship_message(index, op, "a 'src' field"@)),
            (_, None, _) => Err(ship_message(index, op, "a 'dest' field"@)),
            (_, _, None) => Err(
                ship_message(index, op, "VM_HOST env or harness.toml [vm].host"@),
            ),
            (Some(src), Some(dest), Some(vm)) => {
                let from = expansion(self.context(step), src);
                let to = expansion(self.context(step), dest);
                let (source, target) = if op == "ship-to-vm"@ {
                    (from, vm + ":"@ + to)
                } else {
                    (vm + ":"@ + from, to)
                };
                Ok(
                    PlannedRecord::Command(
                        PlanRecord {
                            index,
                            op,
                            host: "host"@,
                            command: "scp "@ + source + " "@ + target,
                            expected_exit: 0,
                            invocation: scp_call(self.ssh_key, source, target),
                        },
                    ),
                )
            },
        }
    }

    /// What is to be done for a step with the declared op `op`.
    pub open spec fn planned_op(
        self,
        index: int,
        step: Json,
        op: Seq<char>,
        def: OpDef,
    ) -> PlannedRecord {
        let host = step_host(step, def.host);
        let command = expansion(self.context(step), def.command@);
        let local = PlanRecord {
            index,
            op,
            host: host_text(host),
            command,
            expected_exit: exit_or_zero(def.expect_exit),
            invocation: local_call(self.windows, command),
        };
        if def.when is Some && !predicate_holds(self.context(step), def.when->Some_0@) {
            PlannedRecord::Settled(
                StepRecord {
                    command: Seq::empty(),
                    skipped: true,
                    skip_reason: Some(skip_text(def.when->Some_0@)),
                    ..local.result(None, None, 0)
                },
            )
        } else {
            match (host, self.vm_host) {
                (OpHost::Host, _) => PlannedRecord::Command(local),
                (OpHost::Vm, Some(vm)) => PlannedRecord::Command(
                    PlanRecord {
                        invocation: ssh_call(10, 15, 4, self.ssh_key, vm, command),
                        ..local
                    },
                ),
                (OpHost::Vm, None) => PlannedRecord::Settled(
                    local.result(None, Some(no_vm_error()), 0),
                ),
            }
        }
    }

    /// What is to be done for the step at `index`, or why it cannot be done.
    pub open spec fn planned(self, index: int) -> Result<PlannedRecord, Seq<char>> {
        let step = self.recipe[index];
        match op_name(step) {
            None => Err(no_op_message(self.scenario_name, index)),
            Some(op) => if is_ship(op) {
                self.planned_ship(index, step, op)
            } else if self.ops.contains_key(op) {
                Ok(self.planned_op(index, step, op, self.ops[op]))
            } else {
                Err(undeclared_op_message(self.scenario_name, index, op))
            },
        }
    }
}

// ---------------------------------------------------------------------------
// Recipes
// ---------------------------------------------------------------------------

/// What the steps of the recipe of `scenario` depend on, where the private key has
/// the path `ssh_key` and the flat tokens are `flat`.
pub open spec fn recipe_setup(
    scenario_name: Seq<char>,
    scenario: Scenario,
    config: HarnessConfig,
    environment: Environment,
    ssh_key: Option<Seq<char>>,
    flat: Map<Seq<char>, Seq<char>>,
) -> Setup {
    Setup {
        scenario_name,
        scenario: scenario.json(),
        recipe: jsons(scenario.recipe@),
        flat,
        ops: config.ops@,
        vm_host: setting(environment.vm_host, config.vm.host),
        ssh_key,
        windows: environment.windows,
    }
}

/// Whether `record` is a result that the step at `index` can have.
pub open spec fn explains(setup: Setup, index: int, record: StepRecord) -> bool {
    match setup.planned(index) {
        Ok(PlannedRecord::Settled(settled)) => record == settled,
        Ok(PlannedRecord::Command(plan)) => exists|outcome: Outcome, duration_ms: u128|
            record == #[trigger] plan.came_out(outcome, duration_ms),
        Err(_) => false,
    }
}

/// Whether `results` can be those of the steps of a recipe so far: one for each
/// step from the first on, of which none but the last failed.
pub open spec fn follows(setup: Setup, results: Seq<StepRecord>) -> bool {
    &&& results.len() <= setup.recipe.len()
    &&& forall|i: int| 0 <= i < results.len() ==> explains(setup, i, #[trigger] results[i])
    &&& forall|i: int| 0 <= i < results.len() - 1 ==> (#[trigger] results[i]).passed()
}

/// Whether a recipe with these results is over: a step failed, or none is left.
pub open spec fn is_over(setup: Setup, results: Seq<StepRecord>) -> bool {
    results.len() >= setup.recipe.len() || (results.len() > 0 && !results.last().passed())
}

/// Whether no step failed.
pub open spec fn all_passed(results: Seq<StepRecord>) -> bool {
    forall|i: int| 0 <= i < results.len() ==> (#[trigger] results[i]).passed()
}

/// A recipe that is being run.
#[derive(Debug)]
pub struct RecipeRun<'a> {
    scenario_name: String,
    scenario: JsonValue,
    recipe: &'a Vec<JsonValue>,
    flat: StringMap<String>,
    ops: &'a StringMap<OpDef>,
    vm_host: Option<String>,
    ssh_key: Option<String>,
    windows: bool,
    results: Vec<StepResult>,
    pending: Option<StepPlan>,
}

/// What the caller has to do next.
#[derive(Debug)]
pub enum Action {
    /// Nothing: the recipe is over.
    Finish,
    /// Nothing for this step, whose result is known.
    Proceed,
    /// Start this program, and tell what came of it.
    Run(Invocation),
}

impl<'a> RecipeRun<'a> {
    #[verifier::type_invariant]
    spec fn consistent(self) -> bool {
        &&& follows(self.setup(), self.results())
        &&& self.pending matches Some(plan) ==> !is_over(self.setup(), self.results())
            && self.setup().planned(self.results().len() as int) == Ok::<_, Seq<char>>(
            PlannedRecord::Command(plan@),
        )
    }

    /// What the steps depend on.
    pub closed spec fn setup(self) -> Setup {
        Setup {
            scenario_name: self.scenario_name@,
            scenario: self.scenario@,
            recipe: jsons(self.recipe@),
            flat: texts(self.flat@),
            ops: self.ops@,
            vm_host: opt_text(self.vm_host),
            ssh_key: opt_text(self.ssh_key),
            windows: self.windows,
        }
    }

    /// The results of the steps so far.
    pub closed spec fn results(self) -> Seq<StepRecord> {
        records(self.results@)
    }

    /// The step whose command is running.
    pub closed spec fn pending(self) -> Option<PlanRecord> {
        match self.pending {
            Some(plan) => Some(plan@),
            None => None,
        }
    }

    fn substitution(&self, step: &JsonValue) -> (substitution: Substitution)
        ensures
            substitution@ == self.setup().context(step@),
    {
        Substitution {
            flat: self.flat.copy(),
            scenario: self.scenario.clone(),
            step: step.clone(),
        }
    }

    /// Plans a step that copies between the host and the VM.
    fn plan_builtin_ship(&self, index: usize, step: &JsonValue, op: &str) -> (planned: Result<
        Planned,
        String,
    >)
        ensures
            match planned {
                Ok(planned) => self.setup().planned_ship(index as int, step@, op@) == Ok::<_, Seq<char>>(
                    planned@,
                ),
                Err(message) => self.setup().planned_ship(index as int, step@, op@) == Err::<
                    PlannedRecord,
                    _,
                >(message@),
            },
    {
        let substitution = self.substitution(step);
        let src = match step.str_field("src") {
            Some(src) => substitution.expand(src),
            None => return Err(write_ship_message(index, op, "a 'src' field")),
        };
        let dest = match step.str_field("dest") {
            Some(dest) => substitution.expand(dest),
            None => return Err(write_ship_message(index, op, "a 'dest' field")),
        };
        let vm = match &self.vm_host {
            Some(vm) => vm,
            None => return Err(
                write_ship_message(index, op, "VM_HOST env or harness.toml [vm].host"),
            ),
        };
        let to_vm = str_eq(op, "ship-to-vm");
        let mut remote = vm.clone();
        remote.append(":");
        let (source, target) = if to_vm {
            remote.append(dest.as_str());
            (src, remote)
        } else {
            remote.append(src.as_str());
            (remote, dest)
        };
        let mut command = "scp ".to_string();
        command.append(source.as_str());
        command.append(" ");
        command.append(target.as_str());
        Ok(
            Planned::Command(
                StepPlan {
                    index,
                    op: op.to_string(),
                    host: "host",
                    command,
                    expected_exit: 0,
                    invocation: scp_invocation(&self.ssh_key, source.as_str(), target.as_str()),
                },
            ),
        )
    }

    /// Plans a step with the declared op `op`.
    fn plan_op(&self, index: usize, step: &JsonValue, op: &str, def: &OpDef) -> (planned: Planned)
        ensures
            planned@ == self.setup().planned_op(index as int, step@, op@, *def),
    {
        let host = match step.str_field("host") {
            Some(host) => if str_eq(host, "host") {
                OpHost::Host
            } else if str_eq(host, "vm") {
                OpHost::Vm
            } else {
                def.host
            },
            None => def.host,
        };
        let expected_exit = expected_exit(&def.expect_exit);
        let substitution = self.substitution(step);
        if let Some(when) = &def.when {
            if !substitution.evaluate_when(when.as_str()) {
                let mut reason = "when=".to_string();
                reason.append(when.as_str());
                reason.append(" false");
                return Planned::Settled(
                    StepResult {
                        index,
                        op: op.to_string(),
                        host: host_name(host),
                        command: String::new(),
                        exit_code: None,
                        expected_exit,
                        duration_ms: 0,
                        skipped: true,
                        skip_reason: Some(reason),
                        error: None,
                    },
                );
            }
        }
        let command = substitution.expand(def.command.as_str());
        let invocation = match host {
            OpHost::Host => local_invocation(self.windows, command.as_str()),
            OpHost::Vm => match &self.vm_host {
                Some(vm) => ssh_invocation(
                    10,
                    15,
                    4,
                    &self.ssh_key,
                    vm.as_str(),
                    command.as_str(),
                ),
                None => {
                    return Planned::Settled(
                        StepResult {
                            index,
                            op: op.to_string(),
                            host: host_name(host),
                            command,
                            exit_code: None,
                            expected_exit,
                            duration_ms: 0,
                            skipped: false,
                            skip_reason: None,
                            error: Some(
                                "vm-step requires VM_HOST env or harness.toml [vm].host".to_string(),
                            ),
                        },
                    );
                },
            },
        };
        Planned::Command(
            StepPlan {
                index,
                op: op.to_string(),
                host: host_name(host),
                command,
                expected_exit,
                invocation,
            },
        )
    }

    /// What is to be done for the step at `index`, or why it cannot be done.
    pub fn plan_step(&self, index: usize) -> (planned: Result<Planned, String>)
        requires
            index < self.setup().recipe.len(),
        ensures
            match planned {
                Ok(planned) => self.setup().planned(index as int) == Ok::<_, Seq<char>>(planned@),
                Err(message) => self.setup().planned(index as int) == Err::<PlannedRecord, _>(
                    message@,
                ),
            },
    {
        let step = &self.recipe[index];
        assert(step@ == self.setup().recipe[index as int]);
        let op = match named_op(step) {
            Some(op) => op,
            None => {
                let mut message = step_text(self.scenario_name.as_str(), index);
                message.append(": missing 'op' or 'type' field");
                return Err(message);
            },
        };
        if str_eq(op, "ship-to-vm") || str_eq(op, "ship-to-host") {
            return self.plan_builtin_ship(index, step, op);
        }
        match self.ops.get(op) {
            Some(def) => Ok(self.plan_op(index, step, op, def)),
            None => {
                let mut message = step_text(self.scenario_name.as_str(), index);
                message.append(": op '");
                message.append(op);
                message.append("' not declared in harness.toml [ops]");
                Err(message)
            },
        }
    }

    /// Whether the recipe is over: a step failed, or none is left.
    pub fn is_finished(&self) -> (r: bool)
        ensures
            r == is_over(self.setup(), self.results()),
            follows(self.setup(), self.results()),
    {
        proof {
            use_type_invariant(self);
        }
        let done: usize = self.results.len();
        if done >= self.recipe.len() {
            return true;
        }
        if done > 0 {
            assert(self.results().last() == self.results@[done - 1]@);
            !step_passed(&self.results[done - 1])
        } else {
            false
        }
    }

    /// Turns to the next step. Where its result is known without running a command,
    /// it is recorded; else [`end_step`](Self::end_step) takes what came of the
    /// command. A step that cannot be planned changes nothing.
    pub fn begin_step(&mut self) -> (action: Result<Action, String>)
        ensures
            final(self).setup() == old(self).setup(),
            is_over(old(self).setup(), old(self).results()) ==> {
                &&& action == Ok::<_, String>(Action::Finish)
                &&& final(self).results() == old(self).results()
                &&& final(self).pending() is None
            },
            !is_over(old(self).setup(), old(self).results()) ==> match old(self).setup().planned(
                old(self).results().len() as int,
            ) {
                Ok(PlannedRecord::Settled(result)) => {
                    &&& action == Ok::<_, String>(Action::Proceed)
                    &&& final(self).results() == old(self).results().push(result)
                    &&& final(self).pending() is None
                },
                Ok(PlannedRecord::Command(plan)) => {
                    &&& action matches Ok(Action::Run(invocation)) && invocation@ == plan.invocation
                    &&& final(self).results() == old(self).results()
                    &&& final(self).pending() == Some(plan)
                },
                Err(message) => {
                    &&& action matches Err(text) && text@ == message
                    &&& final(self).results() == old(self).results()
                    &&& final(self).pending() is None
                },
            },
    {
        proof {
            use_type_invariant(&*self);
        }
        self.pending = None;
        if self.is_finished() {
            return Ok(Action::Finish);
        }
        match self.plan_step(self.results.len()) {
            Err(message) => Err(message),
            Ok(Planned::Settled(result)) => {
                assert(explains(self.setup(), self.results().len() as int, result@));
                self.record(result);
                Ok(Action::Proceed)
            },
            Ok(Planned::Command(plan)) => {
                let invocation = copy_invocation(&plan.invocation);
                self.pending = Some(plan);
                Ok(Action::Run(invocation))
            },
        }
    }

    /// Records the result of the next step.
    fn record(&mut self, result: StepResult)
        requires
            !is_over(old(self).setup(), old(self).results()),
            explains(old(self).setup(), old(self).results().len() as int, result@),
        ensures
            final(self).setup() == old(self).setup(),
            final(self).results() == old(self).results().push(result@),
            final(self).pending() is None,
    {
        proof {
            use_type_invariant(&*self);
        }
        self.pending = None;
        let ghost before = self.results();
        let ghost added = result@;
        let mut results: Vec<StepResult> = Vec::new();
        assert(records(results@) =~= Seq::<StepRecord>::empty());
        std::mem::swap(&mut results, &mut self.results);
        results.push(result);
        proof {
            assert(records(results@) =~= before.push(added));
            assert forall|i: int| 0 <= i < before.push(added).len() implies explains(
                self.setup(),
                i,
                #[trigger] before.push(added)[i],
            ) by {
                if i < before.len() {
                    assert(before.push(added)[i] == before[i]);
                }
            }
            assert forall|i: int| 0 <= i < before.push(added).len() - 1 implies (
            #[trigger] before.push(added)[i]).passed() by {
                assert(before.push(added)[i] == before[i]);
                if i == before.len() - 1 {
                    assert(before.last().passed());
                }
            }
        }
        self.results = results;
    }

    /// Takes what came of the command of the current step. Without such a step it
    /// changes nothing.
    pub fn end_step(&mut self, outcome: Outcome, duration_ms: u128)
        ensures
            final(self).setup() == old(self).setup(),
            final(self).pending() is None,
            match old(self).pending() {
                Some(plan) => final(self).results() == old(self).results().push(
                    plan.came_out(outcome, duration_ms),
                ),
                None => final(self).results() == old(self).results(),
            },
    {
        proof {
            use_type_invariant(&*self);
        }
        let mut pending: Option<StepPlan> = None;
        std::mem::swap(&mut pending, &mut self.pending);
        if let Some(plan) = pending {
            let ghost planned = plan@;
            let result = plan.into_result(outcome, duration_ms);
            assert(result@ == planned.came_out(outcome, duration_ms));
            self.record(result);
        }
    }

    /// The result of the last step that was reached.
    pub fn last_result(&self) -> (result: Option<&StepResult>)
        ensures
            match result {
                Some(result) => self.results().len() > 0 && result@ == self.results().last(),
                None => self.results().len() == 0,
            },
    {
        let done: usize = self.results.len();
        if done > 0 {
            assert(self.results().last() == self.results@[done - 1]@);
            Some(&self.results[done - 1])
        } else {
            None
        }
    }

    /// The op that the next step names; none where the recipe is over or the step
    /// names none.
    pub fn next_op(&self) -> (op: Option<String>)
        ensures
            opt_text(op) == if is_over(self.setup(), self.results()) {
                None
            } else {
                op_name(self.setup().recipe[self.results().len() as int])
            },
    {
        if self.is_finished() {
            return None;
        }
        let step = &self.recipe[self.results.len()];
        assert(step@ == self.setup().recipe[self.results().len() as int]);
        match named_op(step) {
            Some(op) => Some(op.to_string()),
            None => None,
        }
    }

    /// What came of the recipe. One that is not over has not passed.
    pub fn finish(self) -> (result: RecipeResult)
        ensures
            records(result.steps@) == self.results(),
            result.overall_passed == (is_over(self.setup(), self.results()) && all_passed(
                self.results(),
            )),
            follows(self.setup(), self.results()),
            result.overall_passed <==> result.steps@.len() == self.setup().recipe.len() && forall|
                i: int,
            |
                0 <= i < result.steps@.len() ==> (#[trigger] result.steps@[i]).skipped || (
                result.steps@[i].error is None && result.steps@[i].exit_code == Some(
                    result.steps@[i].expected_exit,
                )),
    {
        let over = self.is_finished();
        let last_passed = match self.last_result() {
            Some(result) => step_passed(result),
            None => true,
        };
        proof {
            let results = self.results();
            if results.len() > 0 {
                assert(results[results.len() - 1] == results.last());
            }
            let steps = self.results@;
            assert forall|i: int| 0 <= i < steps.len() implies (results[i].passed() <==> (
            #[trigger] steps[i]).skipped || (steps[i].error is None && steps[i].exit_code == Some(
                steps[i].expected_exit,
            ))) by {
                assert(results[i] == steps[i]@);
                law_step_verdict(steps[i]);
            }
            if results.len() == self.setup().recipe.len() && forall|i: int|
                0 <= i < steps.len() ==> (#[trigger] steps[i]).skipped || (steps[i].error is None
                    && steps[i].exit_code == Some(steps[i].expected_exit)) {
                assert forall|i: int| 0 <= i < results.len() implies (
                #[trigger] results[i]).passed() by {
                    assert(steps[i].skipped || steps[i].error is None);
                }
            }
            if all_passed(results) {
                assert forall|i: int| 0 <= i < steps.len() implies (#[trigger] steps[i]).skipped
                    || (steps[i].error is None && steps[i].exit_code == Some(
                    steps[i].expected_exit,
                )) by {
                    assert(results[i].passed());
                }
            }
        }
        RecipeResult { steps: self.results, overall_passed: over && last_passed }
    }
}

/// The op that a step names.
fn named_op(step: &JsonValue) -> (op: Option<&str>)
    ensures
        match op {
            Some(op) => op_name(step@) == Some(op@),
            None => op_name(step@) is None,
        },
{
    match step.str_field("op") {
        Some(op) => Some(op),
        None => step.str_field("type"),
    }
}

fn step_text(scenario_name: &str, index: usize) -> (text: String)
    ensures
        text@ == "scenario '"@ + scenario_name@ + "' step "@ + decimal(index as nat),
{
    let mut text = "scenario '".to_string();
    text.append(scenario_name);
    text.append("' step ");
    text.append(write_decimal(index as u64).as_str());
    text
}

fn write_ship_message(index: usize, op: &str, what: &str) -> (message: String)
    ensures
        message@ == ship_message(index as int, op@, what@),
{
    let mut message = "step ".to_string();
    message.append(write_decimal(index as u64).as_str());
    message.append(": '");
    message.append(op);
    message.append("' requires ");
    message.append(what);
    message
}

/// Begins to run the recipe of `scenario` with the private key `ssh_key`, if one is
/// given, and the flat tokens `flat`.
pub fn begin_recipe<'a>(
    scenario_name: &str,
    scenario: &'a Scenario,
    config: &'a HarnessConfig,
    environment: &Environment,
    ssh_key: Option<String>,
    flat: StringMap<String>,
) -> (run: Result<RecipeRun<'a>, String>)
    ensures
        run is Err <==> scenario.recipe@.len() == 0,
        match run {
            Ok(run) => {
                &&& run.setup() == recipe_setup(
                    scenario_name@,
                    *scenario,
                    *config,
                    *environment,
                    opt_text(ssh_key),
                    texts(flat@),
                )
                &&& run.results() == Seq::<StepRecord>::empty()
                &&& run.pending() is None
            },
            Err(message) => message@ == "run_recipe called with empty recipe"@,
        },
{
    if scenario.recipe.len() == 0 {
        return Err("run_recipe called with empty recipe".to_string());
    }
    let results: Vec<StepResult> = Vec::new();
    assert(records(results@) =~= Seq::<StepRecord>::empty());
    Ok(
        RecipeRun {
            scenario_name: scenario_name.to_string(),
            scenario: scenario.to_value(),
            recipe: &scenario.recipe,
            flat,
            ops: &config.ops,
            vm_host: effective_setting(&environment.vm_host, &config.vm.host),
            ssh_key,
            windows: environment.windows,
            results,
            pending: None,
        },
    )
}

/// Begins to run the recipe of `scenario`. The directory `consumer_root` holds
/// `harness.toml`, and `binary` is the path of the binary, if one is configured.
pub fn run_recipe<'a>(
    scenario_name: &str,
    scenario: &'a Scenario,
    config: &'a HarnessConfig,
    environment: &Environment,
    consumer_root: &str,
    binary: &Option<String>,
) -> (run: Result<RecipeRun<'a>, String>)
    ensures
        run is Err <==> scenario.recipe@.len() == 0,
        match run {
            Ok(run) => {
                &&& vocab_may_be(
                    *config,
                    *environment,
                    consumer_root@,
                    opt_text(*binary),
                    run.setup().flat,
                )
                &&& key_may_be(config.vm, *environment, consumer_root@, run.setup().ssh_key)
                &&& run.setup() == recipe_setup(
                    scenario_name@,
                    *scenario,
                    *config,
                    *environment,
                    run.setup().ssh_key,
                    run.setup().flat,
                )
                &&& run.results() == Seq::<StepRecord>::empty()
                &&& run.pending() is None
            },
            Err(message) => message@ == "run_recipe called with empty recipe"@,
        },
{
    let flat = build_flat_vocab(config, environment, consumer_root, binary);
    let ssh_key = effective_key(&config.vm, environment, consumer_root);
    begin_recipe(scenario_name, scenario, config, environment, ssh_key, flat)
}

// ---------------------------------------------------------------------------
// Laws
// ---------------------------------------------------------------------------

/// Each result tells the place of its step: the first is that of the first step,
/// and so on, without a gap.
pub proof fn law_results_in_order(setup: Setup, results: Seq<StepRecord>, i: int)
    requires
        follows(setup, results),
        0 <= i < results.len(),
    ensures
        results[i].index == i,
{
    assert(explains(setup, i, results[i]));
}

/// A recipe stops at the first step that fails: no step behind it has a result.
pub proof fn law_fail_fast(setup: Setup, results: Seq<StepRecord>, i: int)
    requires
        follows(setup, results),
        0 <= i < results.len(),
        !results[i].passed(),
    ensures
        results.len() == i + 1,
        is_over(setup, results),
{
    assert(results[i] == results.last());
}

/// A recipe that is over and in which no step failed has gone through all its steps.
pub proof fn law_passed_recipe_is_complete(setup: Setup, results: Seq<StepRecord>)
    requires
        follows(setup, results),
        is_over(setup, results),
        all_passed(results),
    ensures
        results.len() == setup.recipe.len(),
{
    if results.len() > 0 {
        assert(results[results.len() - 1].passed());
    }
}

/// How far a recipe gets depends on what comes of its steps alone: of two runs
/// that are over, neither goes on where the other, with the same results so far,
/// has stopped.
pub proof fn law_stopping_point_determined(
    setup: Setup,
    a: Seq<StepRecord>,
    b: Seq<StepRecord>,
)
    requires
        follows(setup, a),
        follows(setup, b),
        is_over(setup, a),
        is_over(setup, b),
        forall|i: int| 0 <= i < a.len() && i < b.len() ==> #[trigger] a[i] == #[trigger] b[i],
    ensures
        a == b,
{
    if a.len() < b.len() {
        if a.len() > 0 {
            assert(a[a.len() - 1] == b[a.len() - 1]);
            assert(b[a.len() - 1].passed());
        }
        assert(false);
    }
    if b.len() < a.len() {
        if b.len() > 0 {
            assert(a[b.len() - 1] == b[b.len() - 1]);
            assert(a[b.len() - 1].passed());
        }
        assert(false);
    }
    assert(a =~= b);
}

/// A step whose op is skipped by its predicate runs nothing and does not fail.
pub proof fn law_false_predicate_skips(setup: Setup, index: int, op: Seq<char>)
    requires
        op_name(setup.recipe[index]) == Some(op),
        !is_ship(op),
        setup.ops.contains_key(op),
        setup.ops[op].when matches Some(when) && !predicate_holds(
            setup.context(setup.recipe[index]),
            when@,
        ),
    ensures
        setup.planned(index) matches Ok(PlannedRecord::Settled(result)) && result.skipped
            && result.passed(),
{
}

/// The ops that copy need no declaration, and none changes what they do.
pub proof fn law_ship_needs_no_declaration(
    setup: Setup,
    ops: Map<Seq<char>, OpDef>,
    index: int,
    op: Seq<char>,
)
    requires
        op_name(setup.recipe[index]) == Some(op),
        is_ship(op),
    ensures
        (Setup { ops, ..setup }).planned(index) == setup.planned(index),
{
}

/// Any other op has to be declared.
pub proof fn law_other_ops_are_declared(setup: Setup, index: int)
    requires
        setup.planned(index) is Ok,
    ensures
        op_name(setup.recipe[index]) matches Some(op) && (is_ship(op) || setup.ops.contains_key(
            op,
        )),
{
}

/// The `host` field of a step goes before the place that its op declares.
pub proof fn law_step_host_overrides(step: Json, default: OpHost)
    ensures
        string_field(step, "host"@) == Some("host"@) ==> step_host(step, default) == OpHost::Host,
        string_field(step, "host"@) == Some("vm"@) ==> step_host(step, default) == OpHost::Vm,
        string_field(step, "host"@) is None ==> step_host(step, default) == default,
{
    reveal_strlit("host");
    reveal_strlit("vm");
    assert("host"@.len() != "vm"@.len());
}

/// The copy of a file to the VM and the copy back name the VM on opposite sides.
pub proof fn law_ship_directions(setup: Setup, index: int, step: Json, vm: Seq<char>)
    requires
        setup.vm_host == Some(vm),
        string_field(step, "src"@) is Some,
        string_field(step, "dest"@) is Some,
    ensures
        ({
            let src = expansion(setup.context(step), string_field(step, "src"@)->Some_0);
            let dest = expansion(setup.context(step), string_field(step, "dest"@)->Some_0);
            &&& setup.planned_ship(index, step, "ship-to-vm"@) matches Ok(
                PlannedRecord::Command(plan),
            ) && plan.invocation == scp_call(setup.ssh_key, src, vm + ":"@ + dest)
            &&& setup.planned_ship(index, step, "ship-to-host"@) matches Ok(
                PlannedRecord::Command(plan),
            ) && plan.invocation == scp_call(setup.ssh_key, vm + ":"@ + src, dest)
        }),
{
    reveal_strlit("ship-to-vm");
    reveal_strlit("ship-to-host");
    assert("ship-to-vm"@.len() != "ship-to-host"@.len());
}

/// What a step does depends on no other step, but for what the scenario's JSON
/// tells of it.
pub proof fn law_steps_stand_alone(setup: Setup, recipe: Seq<Json>, index: int)
    requires
        recipe[index] == setup.recipe[index],
    ensures
        (Setup { recipe, ..setup }).planned(index) == setup.planned(index),
{
}

/// `{scenario.<name>}` reaches every field that the harness does not know.
pub proof fn law_unknown_fields_reached(
    scenario: Scenario,
    flat: Map<Seq<char>, Seq<char>>,
    step: Json,
    name: Seq<char>,
)
    requires
        scenario.extra@.contains_key(name),
        !name.contains('.'),
    ensures
        resolve(
            Context { flat, scenario: scenario.json(), step },
            "scenario"@.push('.') + name,
        ) == Some(scenario.extra@[name]@),
{
    let context = Context { flat, scenario: scenario.json(), step };
    law_dotted_paths_walk(context, name);
    lemma_split_on_single(name, '.');
    law_unknown_fields_kept(scenario, name);
    reveal_with_fuel(walk, 2);
    assert(seq![name].drop_first() =~= Seq::<Seq<char>>::empty());
}

/// A step has not failed if and only if it was skipped, or its command could be run and
/// ended with the very exit code that was expected.
pub proof fn law_step_verdict(result: StepResult)
    ensures
        result@.passed() <==> result.skipped || (result.error is None && result.exit_code == Some(
            result.expected_exit,
        )),
{
}

/// A step whose command ended with another exit code than the expected one, or with
/// none, or could not be run, has failed.
pub proof fn law_other_exit_code_fails(record: StepRecord)
    requires
        !record.skipped,
        record.exit_code != Some(record.expected_exit) || record.error is Some,
    ensures
        !record.passed(),
{
}

/// In a recipe, every step but the last that was reached was skipped, or ended with the
/// exit code that was expected; and the recipe is over if and only if no step is left or
/// the last one did not.
pub proof fn law_recipe_stops_at_first_failure(setup: Setup, results: Seq<StepRecord>)
    requires
        follows(setup, results),
    ensures
        results.len() <= setup.recipe.len(),
        forall|i: int|
            0 <= i < results.len() - 1 ==> (#[trigger] results[i]).skipped || (
            results[i].error is None && results[i].exit_code == Some(results[i].expected_exit)),
        is_over(setup, results) <==> results.len() == setup.recipe.len() || (results.len() > 0
            && !results.last().skipped && (results.last().error is Some || results.last().exit_code
            != Some(results.last().expected_exit))),
        all_passed(results) <==> forall|i: int|
            0 <= i < results.len() ==> (#[trigger] results[i]).skipped || (results[i].error is None
                && results[i].exit_code == Some(results[i].expected_exit)),
{
    assert forall|i: int| 0 <= i < results.len() - 1 implies (#[trigger] results[i]).skipped || (
    results[i].error is None && results[i].exit_code == Some(results[i].expected_exit)) by {
        assert(results[i].passed());
    }
    if all_passed(results) {
        assert forall|i: int| 0 <= i < results.len() implies (#[trigger] results[i]).skipped || (
        results[i].error is None && results[i].exit_code == Some(results[i].expected_exit)) by {
            assert(results[i].passed());
        }
    }
}

/// The model of a result holds what the result holds.
pub proof fn law_result_model(result: StepResult)
    ensures
        result@.index == result.index,
        result@.op == result.op@,
        result@.host == result.host@,
        result@.command == result.command@,
        result@.exit_code == result.exit_code,
        result@.expected_exit == result.expected_exit,
        result@.duration_ms == result.duration_ms,
        result@.skipped == result.skipped,
        result.skip_reason is None ==> result@.skip_reason is None,
        result.skip_reason matches Some(text) ==> result@.skip_reason == Some(text@),
        result.error is None ==> result@.error is None,
        result.error matches Some(text) ==> result@.error == Some(text@),
{
}

/// What came of the command of a step is recorded as it came: the exit code of one that
/// ran, the error of one that did not, and what was planned beside it.
pub proof fn law_outcome_is_recorded(
    plan: PlanRecord,
    exit_code: Option<i32>,
    error: String,
    duration_ms: u128,
)
    ensures
        ({
            let ran = plan.came_out(Ok(exit_code), duration_ms);
            let not = plan.came_out(Err(error), duration_ms);
            &&& ran.exit_code == exit_code && ran.error is None
            &&& not.exit_code is None && not.error == Some(error@)
            &&& !ran.skipped && !not.skipped && ran.skip_reason is None && not.skip_reason is None
            &&& ran.duration_ms == duration_ms && not.duration_ms == duration_ms
            &&& ran.index == plan.index && not.index == plan.index
            &&& ran.op == plan.op && not.op == plan.op
            &&& ran.host == plan.host && not.host == plan.host
            &&& ran.command == plan.command && not.command == plan.command
            &&& ran.expected_exit == plan.expected_exit && not.expected_exit == plan.expected_exit
        }),
{
}

/// The op of a step is what its `op` field names, or else what its `type` field names.
pub proof fn law_op_name(step: Json, name: Seq<char>)
    ensures
        string_field(step, "op"@) == Some(name) ==> op_name(step) == Some(name),
        string_field(step, "op"@) is None ==> op_name(step) == string_field(step, "type"@),
{
}

/// The scenario, the step and the flat tokens are what templates are looked up in.
pub proof fn law_step_context(setup: Setup, step: Json)
    ensures
        setup.context(step).flat == setup.flat,
        setup.context(step).scenario == setup.scenario,
        setup.context(step).step == step,
{
}

/// Whether a step of an op that is declared to run at `default` runs on the host.
pub open spec fn runs_on_host(step: Json, default: OpHost) -> bool {
    let asked = string_field(step, "host"@);
    asked == Some("host"@) || (asked != Some("vm"@) && default == OpHost::Host)
}

/// The step of a declared op runs the op's command, with all placeholders replaced,
/// where it has to run, if the op has no predicate or its predicate holds; and it is
/// skipped if the op has a predicate that does not hold, and only then. Without a VM to
/// run it on, it fails.
pub proof fn law_declared_op(setup: Setup, index: int, op: Seq<char>)
    requires
        op_name(setup.recipe[index]) == Some(op),
        op != "ship-to-vm"@,
        op != "ship-to-host"@,
        setup.ops.contains_key(op),
    ensures
        ({
            let step = setup.recipe[index];
            let def = setup.ops[op];
            let context = Context { flat: setup.flat, scenario: setup.scenario, step };
            let command = expansion(context, def.command@);
            let expected: i32 = if def.expect_exit is Some {
                def.expect_exit->Some_0
            } else {
                0
            };
            let gated = def.when is Some && !predicate_holds(context, def.when->Some_0@);
            let local = runs_on_host(step, def.host);
            let place = if local {
                "host"@
            } else {
                "vm"@
            };
            match setup.planned(index) {
                Ok(PlannedRecord::Command(plan)) => {
                    &&& !gated
                    &&& local || setup.vm_host is Some
                    &&& plan.index == index && plan.op == op && plan.host == place
                    &&& plan.command == command && plan.expected_exit == expected
                    &&& local && !setup.windows ==> plan.invocation.program == "sh"@
                        && plan.invocation.args == seq!["-c"@, command]
                    &&& local && setup.windows ==> plan.invocation.program == "cmd.exe"@
                        && plan.invocation.args == seq!["/C"@, command]
                    &&& !local ==> {
                        let n = plan.invocation.args.len();
                        &&& plan.invocation == ssh_call(
                            10,
                            15,
                            4,
                            setup.ssh_key,
                            setup.vm_host->Some_0,
                            command,
                        )
                        &&& plan.invocation.program == "ssh"@
                        &&& n >= 2
                        &&& plan.invocation.args[n - 2] == setup.vm_host->Some_0
                        &&& plan.invocation.args[n - 1] == command
                    }
                },
                Ok(PlannedRecord::Settled(result)) => {
                    &&& result.index == index && result.op == op && result.host == place
                    &&& result.exit_code is None && result.expected_exit == expected
                    &&& result.duration_ms == 0
                    &&& result.skipped <==> gated
                    &&& gated ==> result.command.len() == 0 && result.error is None
                        && result.skip_reason == Some("when="@ + def.when->Some_0@ + " false"@)
                    &&& !gated ==> !local && setup.vm_host is None && result.command == command
                        && result.skip_reason is None && result.error == Some(
                        "vm-step requires VM_HOST env or harness.toml [vm].host"@,
                    )
                },
                Err(_) => false,
            }
        }),
{
    reveal_strlit("host");
    reveal_strlit("vm");
    assert("host"@.len() != "vm"@.len());
    let step = setup.recipe[index];
    let def = setup.ops[op];
    let command = expansion(setup.context(step), def.command@);
    law_local_command_is_one_argument(command);
    if setup.vm_host is Some {
        let vm = setup.vm_host->Some_0;
        let key = if setup.ssh_key is Some {
            setup.ssh_key->Some_0
        } else {
            Seq::empty()
        };
        law_remote_command_comes_last(10, 15, 4, key, vm, command);
    }
}

/// A step that copies runs `scp` on the host, from the source to the target, of which the
/// VM's has the VM and a colon in front; it needs a `src`, a `dest` and a VM, and says
/// which is missing first.
pub proof fn law_copy_step(setup: Setup, index: int, op: Seq<char>)
    requires
        op_name(setup.recipe[index]) == Some(op),
        op == "ship-to-vm"@ || op == "ship-to-host"@,
    ensures
        ({
            let step = setup.recipe[index];
            let context = Context { flat: setup.flat, scenario: setup.scenario, step };
            let src = string_field(step, "src"@);
            let dest = string_field(step, "dest"@);
            let from = expansion(context, src->Some_0);
            let to = expansion(context, dest->Some_0);
            let vm = setup.vm_host->Some_0;
            let source = if op == "ship-to-vm"@ {
                from
            } else {
                vm + ":"@ + from
            };
            let target = if op == "ship-to-vm"@ {
                vm + ":"@ + to
            } else {
                to
            };
            let lead = "step "@ + decimal(index as nat) + ": '"@ + op + "' requires "@;
            if src is None {
                setup.planned(index) == Err::<PlannedRecord, _>(lead + "a 'src' field"@)
            } else if dest is None {
                setup.planned(index) == Err::<PlannedRecord, _>(lead + "a 'dest' field"@)
            } else if setup.vm_host is None {
                setup.planned(index) == Err::<PlannedRecord, _>(
                    lead + "VM_HOST env or harness.toml [vm].host"@,
                )
            } else {
                setup.planned(index) matches Ok(PlannedRecord::Command(plan)) && {
                    let n = plan.invocation.args.len();
                    &&& plan.index == index && plan.op == op && plan.host == "host"@
                    &&& plan.command == "scp "@ + source + " "@ + target
                    &&& plan.expected_exit == 0
                    &&& plan.invocation.program == "scp"@
                    &&& n >= 7
                    &&& plan.invocation.args[n - 3] == "-r"@
                    &&& plan.invocation.args[n - 2] == source
                    &&& plan.invocation.args[n - 1] == target
                    &&& plan.invocation == scp_call(setup.ssh_key, source, target)
                }
            }
        }),
{
    let step = setup.recipe[index];
    let src = string_field(step, "src"@);
    let dest = string_field(step, "dest"@);
    if src is Some && dest is Some && setup.vm_host is Some {
        let from = expansion(setup.context(step), src->Some_0);
        let to = expansion(setup.context(step), dest->Some_0);
        let vm = setup.vm_host->Some_0;
        law_copy_goes_from_source_to_target(setup.ssh_key, from, vm + ":"@ + to);
        law_copy_goes_from_source_to_target(setup.ssh_key, vm + ":"@ + from, to);
    }
}

/// A step that names no op, or one that is neither declared nor a copy, cannot be planned,
/// and the message says which step of which scenario it is.
pub proof fn law_unplannable_steps(setup: Setup, index: int, op: Seq<char>)
    ensures
        op_name(setup.recipe[index]) is None ==> setup.planned(index) == Err::<PlannedRecord, _>(
            "scenario '"@ + setup.scenario_name + "' step "@ + decimal(index as nat)
                + ": missing 'op' or 'type' field"@,
        ),
        op_name(setup.recipe[index]) == Some(op) && op != "ship-to-vm"@ && op != "ship-to-host"@
            && !setup.ops.contains_key(op) ==> setup.planned(index) == Err::<PlannedRecord, _>(
            "scenario '"@ + setup.scenario_name + "' step "@ + decimal(index as nat) + ": op '"@
                + op + "' not declared in harness.toml [ops]"@,
        ),
{
}

/// A result that a step can have is the one that was settled for it, or what came of the
/// command that was planned for it.
pub proof fn law_results_are_of_their_steps(
    setup: Setup,
    index: int,
    plan: PlanRecord,
    settled: StepRecord,
    record: StepRecord,
)
    requires
        explains(setup, index, record),
    ensures
        setup.planned(index) is Ok,
        setup.planned(index) == Ok::<_, Seq<char>>(PlannedRecord::Settled(settled)) ==> record
            == settled,
        setup.planned(index) == Ok::<_, Seq<char>>(PlannedRecord::Command(plan)) ==> record.index
            == plan.index && record.op == plan.op && record.host == plan.host && record.command
            == plan.command && record.expected_exit == plan.expected_exit && !record.skipped
            && record.skip_reason is None && (record.error is Some ==> record.exit_code is None),
{
}

/// The recipe of a scenario runs with that scenario's steps, its JSON, the declared ops and
/// the settings of the machine.
pub proof fn law_recipe_setup(
    scenario_name: Seq<char>,
    scenario: Scenario,
    config: HarnessConfig,
    environment: Environment,
    ssh_key: Option<Seq<char>>,
    flat: Map<Seq<char>, Seq<char>>,
)
    ensures
        ({
            let setup = recipe_setup(scenario_name, scenario, config, environment, ssh_key, flat);
            &&& setup.scenario_name == scenario_name
            &&& setup.scenario == scenario.json()
            &&& setup.recipe.len() == scenario.recipe@.len()
            &&& forall|i: int|
                0 <= i < scenario.recipe@.len() ==> #[trigger] setup.recipe[i]
                    == scenario.recipe@[i]@
            &&& setup.flat == flat
            &&& setup.ops == config.ops@
            &&& setup.vm_host == setting(environment.vm_host, config.vm.host)
            &&& setup.ssh_key == ssh_key
            &&& setup.windows == environment.windows
        }),
{
}

/// The models of plans and of what is to be done hold what these hold.
pub proof fn law_plan_models(plan: StepPlan, result: StepResult)
    ensures
        plan@.index == plan.index,
        plan@.op == plan.op@,
        plan@.host == plan.host@,
        plan@.command == plan.command@,
        plan@.expected_exit == plan.expected_exit,
        plan@.invocation == plan.invocation@,
        Planned::Settled(result)@ == PlannedRecord::Settled(result@),
        Planned::Command(plan)@ == PlannedRecord::Command(plan@),
{
}

/// A list of results is modelled result by result, in its order.
pub proof fn law_records(results: Seq<StepResult>)
    ensures
        records(results).len() == results.len(),
        forall|i: int| 0 <= i < results.len() ==> #[trigger] records(results)[i] == results[i]@,
{
}

} // verus!

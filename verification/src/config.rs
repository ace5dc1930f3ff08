//! The configuration of a harness, as `harness.toml` declares it.
use crate::string_map::StringMap;
use vstd::prelude::*;

verus! {

/// Where an op runs.
#[derive(Clone, Copy, Debug, PartialEq, Eq, Structural)]
pub enum OpHost {
    /// The orchestrator host, where the runner runs.
    Host,
    /// The Windows VM, reached over SSH.
    Vm,
}

impl Default for OpHost {
    fn default() -> (host: Self)
        ensures
            host == OpHost::Vm,
    {
        OpHost::Vm
    }
}

/// One declared op.
#[derive(Clone, Debug)]
pub struct OpDef {
    /// Where the op runs.
    pub host: OpHost,
    /// The command template.
    pub command: String,
    /// The exit code that is expected; 0 where none is given.
    pub expect_exit: Option<i32>,
    /// The predicate that the op depends on; it always runs where none is given.
    pub when: Option<String>,
}

impl Default for OpDef {
    fn default() -> (def: Self)
        ensures
            def.host == OpHost::Vm,
            def.command@ == Seq::<char>::empty(),
            def.expect_exit is None,
            def.when is None,
    {
        OpDef { host: OpHost::Vm, command: String::new(), expect_exit: None, when: None }
    }
}

/// The exit code that is expected: 0 where none is given.
pub open spec fn exit_or_zero(code: Option<i32>) -> i32 {
    match code {
        Some(code) => code,
        None => 0,
    }
}

/// The exit code that is expected: 0 where none is given.
pub fn expected_exit(code: &Option<i32>) -> (r: i32)
    ensures
        r == exit_or_zero(*code),
{
    match code {
        Some(code) => *code,
        None => 0,
    }
}

/// The two forms in which an op can be declared.
#[derive(Clone, Debug)]
pub enum OpDefRaw {
    /// A bare command, which runs on the VM.
    BareCommand(String),
    /// A table with all the fields.
    Table { host: OpHost, command: String, expect_exit: Option<i32>, when: Option<String> },
}

impl From<OpDefRaw> for OpDef {
    fn from(raw: OpDefRaw) -> (def: Self) {
        match raw {
            OpDefRaw::BareCommand(command) => OpDef {
                host: OpHost::Vm,
                command,
                expect_exit: None,
                when: None,
            },
            OpDefRaw::Table { host, command, expect_exit, when } => OpDef {
                host,
                command,
                expect_exit,
                when,
            },
        }
    }
}

impl vstd::std_specs::convert::FromSpecImpl<OpDefRaw> for OpDef {
    open spec fn obeys_from_spec() -> bool {
        true
    }

    open spec fn from_spec(raw: OpDefRaw) -> OpDef {
        match raw {
            OpDefRaw::BareCommand(command) => OpDef {
                host: OpHost::Vm,
                command,
                expect_exit: None,
                when: None,
            },
            OpDefRaw::Table { host, command, expect_exit, when } => OpDef {
                host,
                command,
                expect_exit,
                when,
            },
        }
    }
}

impl From<OpDef> for OpDefRaw {
    fn from(def: OpDef) -> (raw: Self) {
        OpDefRaw::Table {
            host: def.host,
            command: def.command,
            expect_exit: def.expect_exit,
            when: def.when,
        }
    }
}

impl vstd::std_specs::convert::FromSpecImpl<OpDef> for OpDefRaw {
    open spec fn obeys_from_spec() -> bool {
        true
    }

    open spec fn from_spec(def: OpDef) -> OpDefRaw {
        OpDefRaw::Table {
            host: def.host,
            command: def.command,
            expect_exit: def.expect_exit,
            when: def.when,
        }
    }
}

/// The project that the harness tests.
#[derive(Clone, Debug)]
pub struct ProjectSection {
    /// The name of the project.
    pub name: String,
    /// Path of the project's binary, relative to `harness.toml`.
    pub binary: Option<String>,
    /// Path of the matrix file, relative to `harness.toml`.
    pub matrix_path: Option<String>,
}

impl Default for ProjectSection {
    fn default() -> (section: Self)
        ensures
            section.name@ == Seq::<char>::empty(),
            section.binary is None,
            section.matrix_path is None,
    {
        ProjectSection { name: String::new(), binary: None, matrix_path: None }
    }
}

/// A package that the VM needs.
#[derive(Clone, Debug)]
pub enum PackageSpec {
    /// A package id.
    Bare(String),
    /// A package id with arguments for its installer.
    Table { id: String, custom_args: Option<String> },
}

/// How the VM is reached and laid out.
#[derive(Clone, Debug)]
pub struct VmSection {
    /// `user@host` for SSH.
    pub host: Option<String>,
    /// Path of the private key for SSH, relative to `harness.toml` or absolute.
    pub ssh_key: Option<String>,
    /// The working directory on the VM.
    pub workdir: Option<String>,
    /// The directory that holds the test images.
    pub image_dir: Option<String>,
    /// The packages to install when the VM is set up.
    pub packages: Vec<PackageSpec>,
    /// The default toolchain on the VM.
    pub rust_toolchain: Option<String>,
    /// What is put in front of the build command on the VM.
    pub env_prefix: Option<String>,
}

impl Default for VmSection {
    fn default() -> (section: Self)
        ensures
            section.host is None,
            section.ssh_key is None,
            section.workdir is None,
            section.image_dir is None,
            section.packages@.len() == 0,
            section.rust_toolchain is None,
            section.env_prefix is None,
    {
        VmSection {
            host: None,
            ssh_key: None,
            workdir: None,
            image_dir: None,
            packages: Vec::new(),
            rust_toolchain: None,
            env_prefix: None,
        }
    }
}

/// How images are mounted where a scenario does not say it itself.
#[derive(Clone, Debug)]
pub struct MountSection {
    /// The mount command template.
    pub command: String,
    /// The line that the command prints when the mount is up.
    pub ready_line: String,
    /// Extra arguments of a mount for reading.
    pub default_extra: Option<String>,
    /// Extra arguments of a mount for reading and writing.
    pub rw_extra: Option<String>,
}

/// What verifies an image after a scenario where the scenario does not say it itself.
#[derive(Clone, Debug)]
pub struct PostVerifySection {
    /// The command template.
    pub command: String,
    /// The exit code that is expected; 0 where none is given.
    pub expect_exit: Option<i32>,
}

impl Default for PostVerifySection {
    fn default() -> (section: Self)
        ensures
            section.command@ == Seq::<char>::empty(),
            section.expect_exit is None,
    {
        PostVerifySection { command: String::new(), expect_exit: None }
    }
}

/// How many scenarios run at a time.
#[derive(Clone, Debug)]
pub enum MaxParallel {
    /// That many.
    Explicit(usize),
    /// As many as a rule of that name allows.
    Named(String),
}

/// How the runner works.
#[derive(Clone, Debug)]
pub struct RunnerSection {
    /// How many scenarios run at a time.
    pub max_parallel: MaxParallel,
}

impl Default for RunnerSection {
    fn default() -> (section: Self)
        ensures
            section.max_parallel == MaxParallel::Explicit(1),
    {
        RunnerSection { max_parallel: MaxParallel::Explicit(1) }
    }
}

/// The whole configuration.
#[derive(Clone, Debug)]
pub struct HarnessConfig {
    pub project: ProjectSection,
    pub vm: VmSection,
    pub mount: Option<MountSection>,
    /// Tool name to command.
    pub tools: StringMap<String>,
    /// Op name to definition.
    pub ops: StringMap<OpDef>,
    pub post_verify: Option<PostVerifySection>,
    pub runner: RunnerSection,
}

impl Default for HarnessConfig {
    fn default() -> (config: Self)
        ensures
            config.project.name@ == Seq::<char>::empty(),
            config.project.binary is None,
            config.project.matrix_path is None,
            config.vm.host is None,
            config.vm.ssh_key is None,
            config.vm.workdir is None,
            config.vm.image_dir is None,
            config.vm.packages@.len() == 0,
            config.vm.rust_toolchain is None,
            config.vm.env_prefix is None,
            config.mount is None,
            config.tools@ == Map::<Seq<char>, String>::empty(),
            config.ops@ == Map::<Seq<char>, OpDef>::empty(),
            config.post_verify is None,
            config.runner.max_parallel == MaxParallel::Explicit(1),
    {
        HarnessConfig {
            project: ProjectSection::default(),
            vm: VmSection::default(),
            mount: None,
            tools: StringMap::new(),
            ops: StringMap::new(),
            post_verify: None,
            runner: RunnerSection::default(),
        }
    }
}


impl HarnessConfig {
    /// The path of the matrix file, relative to `harness.toml`.
    pub open spec fn matrix_path_text(self) -> Seq<char> {
        match self.project.matrix_path {
            Some(path) => path@,
            None => "test-matrix.json"@,
        }
    }

    /// The path of the matrix file, relative to `harness.toml`:
    /// `test-matrix.json` where the configuration gives none.
    pub fn matrix_path(&self) -> (path: String)
        ensures
            path@ == self.matrix_path_text(),
    {
        match &self.project.matrix_path {
            Some(path) => path.clone(),
            None => "test-matrix.json".to_string(),
        }
    }
}

/// The raw form of an op declares the same op again.
pub proof fn law_op_raw_form_round_trips(def: OpDef)
    ensures
        <OpDef as vstd::std_specs::convert::FromSpec<OpDefRaw>>::from_spec(
            <OpDefRaw as vstd::std_specs::convert::FromSpec<OpDef>>::from_spec(def),
        ) == def,
{
}

/// A bare command is an op on the VM without further demands, and a table gives all.
pub proof fn law_op_forms(
    host: OpHost,
    command: String,
    expect_exit: Option<i32>,
    when: Option<String>,
)
    ensures
        <OpDef as vstd::std_specs::convert::FromSpec<OpDefRaw>>::from_spec(
            OpDefRaw::BareCommand(command),
        ) == (OpDef { host: OpHost::Vm, command, expect_exit: None, when: None }),
        <OpDef as vstd::std_specs::convert::FromSpec<OpDefRaw>>::from_spec(
            OpDefRaw::Table { host, command, expect_exit, when },
        ) == (OpDef { host, command, expect_exit, when }),
{
}

/// The exit code that is expected is the one that is given, and zero without one.
pub proof fn law_expected_exit(code: i32)
    ensures
        exit_or_zero(Some(code)) == code,
        exit_or_zero(None) == 0,
{
}

/// The matrix file is the one that is named, and `test-matrix.json` without one.
pub proof fn law_matrix_path(config: HarnessConfig)
    ensures
        config.project.matrix_path is None ==> config.matrix_path_text() == "test-matrix.json"@,
        config.project.matrix_path matches Some(path) ==> config.matrix_path_text() == path@,
{
}

} // verus!

//! What a machine sets for itself, and the programs that it starts.
use crate::numeral::{decimal, write_decimal};
use crate::text::{opt_text, views};
use vstd::prelude::*;

verus! {

/// What a machine sets for itself: environment variables, which go before the
/// configuration, and its operating system.
#[derive(Clone, Debug)]
pub struct Environment {
    /// `VM_HOST`.
    pub vm_host: Option<String>,
    /// `SSH_KEY`.
    pub ssh_key: Option<String>,
    /// `VM_WORKDIR`.
    pub vm_workdir: Option<String>,
    /// `HARNESS_IMAGE_DIR`.
    pub image_dir: Option<String>,
    /// `HARNESS_DIR`.
    pub harness_dir: Option<String>,
    /// Whether the orchestrator runs on Windows.
    pub windows: bool,
}

impl Default for Environment {
    fn default() -> (environment: Self)
        ensures
            environment.vm_host is None,
            environment.ssh_key is None,
            environment.vm_workdir is None,
            environment.image_dir is None,
            environment.harness_dir is None,
            !environment.windows,
    {
        Environment {
            vm_host: None,
            ssh_key: None,
            vm_workdir: None,
            image_dir: None,
            harness_dir: None,
            windows: false,
        }
    }
}

/// The text of a setting. One that is empty counts as not given.
pub open spec fn given(setting: Option<String>) -> Option<Seq<char>> {
    match setting {
        Some(text) if text@.len() > 0 => Some(text@),
        _ => None,
    }
}

/// The setting that holds: the one of the environment, else the configured one.
/// An empty one counts as not given.
pub open spec fn setting(env: Option<String>, configured: Option<String>) -> Option<Seq<char>> {
    match given(env) {
        Some(text) => Some(text),
        None => given(configured),
    }
}

/// The text of a setting. One that is empty counts as not given.
pub fn given_setting(setting: &Option<String>) -> (text: Option<String>)
    ensures
        opt_text(text) == given(*setting),
{
    match setting {
        Some(text) => if text.as_str().is_empty() {
            None
        } else {
            Some(text.clone())
        },
        None => None,
    }
}

/// The setting that holds: the one of the environment, else the configured one.
/// An empty one counts as not given.
pub fn effective_setting(env: &Option<String>, configured: &Option<String>) -> (text: Option<
    String,
>)
    ensures
        opt_text(text) == setting(*env, *configured),
{
    match given_setting(env) {
        Some(text) => Some(text),
        None => given_setting(configured),
    }
}

/// A variable of the environment goes before the configuration, unless it is empty;
/// an empty setting is the same as none.
pub proof fn law_environment_overrides(
    env: Option<String>,
    configured: Option<String>,
    empty: String,
)
    requires
        empty@.len() == 0,
    ensures
        given(env) is Some ==> setting(env, configured) == given(env),
        env is None ==> setting(env, configured) == setting(Some(empty), configured),
        configured is None ==> setting(env, configured) == setting(env, Some(empty)),
{
}

// ---------------------------------------------------------------------------
// Commands
// ---------------------------------------------------------------------------

/// A program to start, with its arguments.
#[derive(Clone, Debug)]
pub struct Invocation {
    pub program: String,
    pub args: Vec<String>,
}

/// The model of an invocation.
#[verifier::ext_equal]
pub struct InvocationRecord {
    pub program: Seq<char>,
    pub args: Seq<Seq<char>>,
}

impl View for Invocation {
    type V = InvocationRecord;

    open spec fn view(&self) -> InvocationRecord {
        InvocationRecord { program: self.program@, args: views(self.args@) }
    }
}

fn push_arg(args: &mut Vec<String>, arg: &str)
    ensures
        views(final(args)@) == views(old(args)@).push(arg@),
{
    let ghost before = args@;
    args.push(arg.to_string());
    assert(views(args@) =~= views(before).push(arg@));
}

fn push_named_arg(args: &mut Vec<String>, name: &str, value: u64)
    ensures
        views(final(args)@) == views(old(args)@).push(name@ + decimal(value as nat)),
{
    let mut arg = name.to_string();
    arg.append(write_decimal(value).as_str());
    push_arg(args, arg.as_str());
}

/// The arguments that make SSH use the private key `key`, and no other.
pub open spec fn key_args(key: Option<Seq<char>>) -> Seq<Seq<char>> {
    match key {
        Some(key) => seq!["-i"@, key, "-o"@, "IdentitiesOnly=yes"@],
        None => Seq::empty(),
    }
}

fn push_key_args(args: &mut Vec<String>, key: &Option<String>)
    ensures
        views(final(args)@) == views(old(args)@) + key_args(opt_text(*key)),
{
    let ghost before = views(args@);
    if let Some(key) = key {
        push_arg(args, "-i");
        push_arg(args, key.as_str());
        push_arg(args, "-o");
        push_arg(args, "IdentitiesOnly=yes");
    }
    assert(views(args@) =~= before + key_args(opt_text(*key)));
}

/// A command line handed to the shell of the orchestrator host.
pub open spec fn local_call(windows: bool, command: Seq<char>) -> InvocationRecord {
    if windows {
        InvocationRecord { program: "cmd.exe"@, args: seq!["/C"@, command] }
    } else {
        InvocationRecord { program: "sh"@, args: seq!["-c"@, command] }
    }
}

/// A command line handed to the shell of the orchestrator host: `cmd.exe` on
/// Windows, else `sh`.
pub fn local_invocation(windows: bool, command: &str) -> (invocation: Invocation)
    ensures
        invocation@ == local_call(windows, command@),
{
    let mut args: Vec<String> = Vec::new();
    let program = if windows {
        push_arg(&mut args, "/C");
        "cmd.exe"
    } else {
        push_arg(&mut args, "-c");
        "sh"
    };
    push_arg(&mut args, command);
    let invocation = Invocation { program: program.to_string(), args };
    assert(invocation@.args =~= local_call(windows, command@).args);
    invocation
}

/// `command` run on `host` over SSH: without any prompt, with at most
/// `timeout` seconds to connect, and given up after `count` probes at intervals of
/// `interval` seconds without an answer.
pub open spec fn ssh_call(
    timeout: nat,
    interval: nat,
    count: nat,
    key: Option<Seq<char>>,
    host: Seq<char>,
    command: Seq<char>,
) -> InvocationRecord {
    InvocationRecord {
        program: "ssh"@,
        args: seq![
            "-o"@,
            "BatchMode=yes"@,
            "-o"@,
            "ConnectTimeout="@ + decimal(timeout),
            "-o"@,
            "ServerAliveInterval="@ + decimal(interval),
            "-o"@,
            "ServerAliveCountMax="@ + decimal(count),
        ] + key_args(key) + seq![host, command],
    }
}

/// `command` run on `host` over SSH, with the private key `key` if one is given.
pub fn ssh_invocation(
    timeout: u64,
    interval: u64,
    count: u64,
    key: &Option<String>,
    host: &str,
    command: &str,
) -> (invocation: Invocation)
    ensures
        invocation@ == ssh_call(
            timeout as nat,
            interval as nat,
            count as nat,
            opt_text(*key),
            host@,
            command@,
        ),
{
    let mut args: Vec<String> = Vec::new();
    push_arg(&mut args, "-o");
    push_arg(&mut args, "BatchMode=yes");
    push_arg(&mut args, "-o");
    push_named_arg(&mut args, "ConnectTimeout=", timeout);
    push_arg(&mut args, "-o");
    push_named_arg(&mut args, "ServerAliveInterval=", interval);
    push_arg(&mut args, "-o");
    push_named_arg(&mut args, "ServerAliveCountMax=", count);
    push_key_args(&mut args, key);
    push_arg(&mut args, host);
    push_arg(&mut args, command);
    let invocation = Invocation { program: "ssh".to_string(), args };
    assert(invocation@.args =~= ssh_call(
        timeout as nat,
        interval as nat,
        count as nat,
        opt_text(*key),
        host@,
        command@,
    ).args);
    invocation
}

/// `source` copied to `target` by `scp`, a directory with all that is in it.
pub open spec fn scp_call(
    key: Option<Seq<char>>,
    source: Seq<char>,
    target: Seq<char>,
) -> InvocationRecord {
    InvocationRecord {
        program: "scp"@,
        args: seq!["-o"@, "BatchMode=yes"@, "-o"@, "ConnectTimeout=10"@] + key_args(key) + seq![
            "-r"@,
            source,
            target,
        ],
    }
}

/// `source` copied to `target` by `scp`, a directory with all that is in it.
pub fn scp_invocation(key: &Option<String>, source: &str, target: &str) -> (invocation: Invocation)
    ensures
        invocation@ == scp_call(opt_text(*key), source@, target@),
{
    let mut args: Vec<String> = Vec::new();
    push_arg(&mut args, "-o");
    push_arg(&mut args, "BatchMode=yes");
    push_arg(&mut args, "-o");
    push_arg(&mut args, "ConnectTimeout=10");
    push_key_args(&mut args, key);
    push_arg(&mut args, "-r");
    push_arg(&mut args, source);
    push_arg(&mut args, target);
    let invocation = Invocation { program: "scp".to_string(), args };
    assert(invocation@.args =~= scp_call(opt_text(*key), source@, target@).args);
    invocation
}

/// An invocation of the same program with the same arguments.
pub fn copy_invocation(invocation: &Invocation) -> (copy: Invocation)
    ensures
        copy@ == invocation@,
{
    let mut args: Vec<String> = Vec::new();
    let mut i: usize = 0;
    while i < invocation.args.len()
        invariant
            i <= invocation.args@.len(),
            views(args@) == views(invocation.args@).take(i as int),
        decreases invocation.args@.len() - i,
    {
        push_arg(&mut args, invocation.args[i].as_str());
        i += 1;
        assert(views(invocation.args@).take(i as int) =~= views(invocation.args@).take(
            i - 1,
        ).push(invocation.args@[i - 1]@));
    }
    assert(views(invocation.args@).take(i as int) =~= views(invocation.args@));
    Invocation { program: invocation.program.clone(), args }
}

// ---------------------------------------------------------------------------
// Laws
// ---------------------------------------------------------------------------


/// A setting that is given is its text; one that is missing or empty is none. The one of
/// the environment goes first.
pub proof fn law_settings(env: Option<String>, configured: Option<String>)
    ensures
        env matches Some(e) ==> (e@.len() > 0 ==> given(env) == Some(e@) && setting(
            env,
            configured,
        ) == Some(e@)),
        (env matches Some(e) ==> e@.len() == 0) ==> {
            &&& given(env) is None
            &&& configured matches Some(c) ==> (c@.len() > 0 ==> setting(env, configured) == Some(
                c@,
            ))
            &&& (configured matches Some(c) ==> c@.len() == 0) ==> setting(
                env,
                configured,
            ) is None
        },
{
}

/// A local command is one argument behind the flag of the shell, whatever it holds.
pub proof fn law_local_command_is_one_argument(command: Seq<char>)
    ensures
        local_call(false, command).program == "sh"@,
        local_call(false, command).args == seq!["-c"@, command],
        local_call(true, command).program == "cmd.exe"@,
        local_call(true, command).args == seq!["/C"@, command],
{
}

/// A remote command is the last argument, behind the host; a private key is named, and
/// made the only one, if and only if one is given; the options in front are the same
/// for every host and command.
pub proof fn law_remote_command_comes_last(
    timeout: nat,
    interval: nat,
    count: nat,
    key: Seq<char>,
    host: Seq<char>,
    command: Seq<char>,
)
    ensures
        ({
            let with_key = ssh_call(timeout, interval, count, Some(key), host, command);
            let without = ssh_call(timeout, interval, count, None, host, command);
            let options = seq![
                "-o"@,
                "BatchMode=yes"@,
                "-o"@,
                "ConnectTimeout="@ + decimal(timeout),
                "-o"@,
                "ServerAliveInterval="@ + decimal(interval),
                "-o"@,
                "ServerAliveCountMax="@ + decimal(count),
            ];
            &&& with_key.program == "ssh"@ && without.program == "ssh"@
            &&& without.args == options.push(host).push(command)
            &&& with_key.args == options.push("-i"@).push(key).push("-o"@).push(
                "IdentitiesOnly=yes"@,
            ).push(host).push(command)
        }),
{
    let with_key = ssh_call(timeout, interval, count, Some(key), host, command);
    let without = ssh_call(timeout, interval, count, None, host, command);
    let options = seq![
        "-o"@,
        "BatchMode=yes"@,
        "-o"@,
        "ConnectTimeout="@ + decimal(timeout),
        "-o"@,
        "ServerAliveInterval="@ + decimal(interval),
        "-o"@,
        "ServerAliveCountMax="@ + decimal(count),
    ];
    assert(without.args =~= options.push(host).push(command));
    assert(with_key.args =~= options.push("-i"@).push(key).push("-o"@).push(
        "IdentitiesOnly=yes"@,
    ).push(host).push(command));
}

/// A copy names its source and, last, its target; a private key is named, and made the
/// only one, if and only if one is given.
pub proof fn law_copy_goes_from_source_to_target(
    key: Option<Seq<char>>,
    source: Seq<char>,
    target: Seq<char>,
)
    ensures
        ({
            let call = scp_call(key, source, target);
            let n = call.args.len();
            &&& call.program == "scp"@
            &&& n >= 7
            &&& call.args[n - 3] == "-r"@
            &&& call.args[n - 2] == source
            &&& call.args[n - 1] == target
            &&& call.args.take(4) == seq!["-o"@, "BatchMode=yes"@, "-o"@, "ConnectTimeout=10"@]
            &&& key is None ==> n == 7
            &&& key matches Some(key) ==> n == 11 && call.args.subrange(4, 8) == seq![
                "-i"@,
                key,
                "-o"@,
                "IdentitiesOnly=yes"@,
            ]
        }),
{
    let call = scp_call(key, source, target);
    assert(call.args.take(4) =~= seq!["-o"@, "BatchMode=yes"@, "-o"@, "ConnectTimeout=10"@]);
    if let Some(key) = key {
        assert(call.args.subrange(4, 8) =~= seq!["-i"@, key, "-o"@, "IdentitiesOnly=yes"@]);
    }
}

/// The model of an invocation holds the program and the arguments, in their order.
pub proof fn law_invocation_model(invocation: Invocation)
    ensures
        invocation@.program == invocation.program@,
        invocation@.args.len() == invocation.args@.len(),
        forall|i: int|
            0 <= i < invocation.args@.len() ==> #[trigger] invocation@.args[i]
                == invocation.args@[i]@,
{
}

} // verus!

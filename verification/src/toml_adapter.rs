//! The adapter that hands a whole scenario to one script on the VM.
//!
//! It writes down, as JSON, all that the script needs: what to mount, the op
//! templates with the paths of the binary and the tools filled in, the ops, and
//! how to verify the image.
use crate::config::{exit_or_zero, expected_exit, HarnessConfig, MountSection, OpDef};
use crate::json::{
    array_value, field, integer_json, integer_value, json_fields, jsons, no_fields, object_value,
    put_field, string_value, Json, JsonValue,
};
use crate::matrix::{OpSpec, PostVerifySpec, Scenario};
use crate::paths::{
    adjoined, is_file_name, is_prefixless, is_relative, is_verbatim, joins_to, path_join,
    resolve_against, resolves_to,
};
use crate::template::{
    braced, closing_brace, find_closing_brace, lemma_closing_brace,
    lemma_closing_brace_is,
};
use crate::text::{
    ends_with, joined, lemma_after_last, replace_all, str_eq, str_join, str_replace, to_chars, views,
};
use crate::{Adapter, OpResult};
use vstd::prelude::*;
use vstd::string::*;

verus! {

/// The adapter that `harness.toml` alone configures.
#[derive(Debug)]
pub struct TomlAdapter {
    pub config: HarnessConfig,
    /// Path of the harness.
    pub harness_root: String,
    /// Path of the directory that holds `harness.toml`.
    pub consumer_root: String,
    /// Path of the directory that holds the test images.
    pub image_dir: String,
}

// ---------------------------------------------------------------------------
// Templates
// ---------------------------------------------------------------------------

/// `{name}`.
pub open spec fn token(name: Seq<char>) -> Seq<char> {
    seq!['{'] + name + seq!['}']
}

/// The names and values of template variables, as text.
pub open spec fn pairs(vars: Seq<(&str, &str)>) -> Seq<(Seq<char>, Seq<char>)> {
    vars.map_values(|var: (&str, &str)| (var.0@, var.1@))
}

/// `text` with the token of each variable replaced by its value, one variable
/// after the other.
pub open spec fn declared_replaced(text: Seq<char>, vars: Seq<(Seq<char>, Seq<char>)>) -> Seq<char>
    decreases vars.len(),
{
    if vars.len() == 0 {
        text
    } else {
        replace_all(
            declared_replaced(text, vars.drop_last()),
            token(vars.last().0),
            vars.last().1,
        )
    }
}

/// Whether `c` can begin an identifier: an ASCII letter or an underscore.
pub open spec fn begins_identifier(c: char) -> bool {
    'A' <= c <= 'Z' || 'a' <= c <= 'z' || c == '_'
}

/// Whether `inner` is an identifier.
pub open spec fn is_identifier(inner: Seq<char>) -> bool {
    &&& inner.len() > 0
    &&& begins_identifier(inner[0])
    &&& forall|i: int|
        0 <= i < inner.len() ==> begins_identifier(#[trigger] inner[i]) || '0' <= inner[i] <= '9'
}

/// The length of the `{identifier}` that `text` begins with; 0 where it does not.
pub open spec fn leading_token(text: Seq<char>) -> int {
    let end = closing_brace(text, 1);
    if text.len() > 0 && text[0] == '{' && end < text.len() && is_identifier(
        text.subrange(1, end),
    ) {
        end + 1
    } else {
        0
    }
}

/// `text` without any `{identifier}`; every other character is kept as it is.
pub open spec fn collapsed(text: Seq<char>) -> Seq<char>
    decreases text.len(),
{
    if text.len() == 0 {
        Seq::empty()
    } else if leading_token(text) > 0 {
        proof {
            lemma_closing_brace(text, 1);
        }
        collapsed(text.skip(leading_token(text)))
    } else {
        seq![text[0]] + collapsed(text.drop_first())
    }
}

/// Whether the characters of `chars` from `from` to `to` are an identifier.
fn identifier(chars: &Vec<char>, from: usize, to: usize) -> (r: bool)
    requires
        from <= to <= chars@.len(),
    ensures
        r == is_identifier(chars@.subrange(from as int, to as int)),
{
    let ghost inner = chars@.subrange(from as int, to as int);
    if from == to {
        return false;
    }
    let mut i: usize = from;
    while i < to
        invariant
            from < to <= chars@.len(),
            from <= i <= to,
            inner == chars@.subrange(from as int, to as int),
            i > from ==> begins_identifier(inner[0]),
            forall|j: int|
                0 <= j < i - from ==> begins_identifier(#[trigger] inner[j]) || '0' <= inner[j]
                    <= '9',
        decreases to - i,
    {
        let c: char = chars[i];
        assert(c == inner[i - from]);
        let begins = ('A' <= c && c <= 'Z') || ('a' <= c && c <= 'z') || c == '_';
        let digit = '0' <= c && c <= '9';
        if !begins && (i == from || !digit) {
            return false;
        }
        i += 1;
    }
    true
}

fn make_token(name: &str) -> (out: String)
    ensures
        out@ == token(name@),
{
    let mut out = String::new();
    out.push('{');
    out.append(name);
    out.push('}');
    assert(out@ =~= token(name@));
    out
}

impl TomlAdapter {
    /// Substitutes `vars` in `template`: the token of each variable, one variable
    /// after the other, by its value. Any `{identifier}` that is left then goes.
    pub fn expand_template(template: &str, vars: &[(&str, &str)]) -> (result: String)
        ensures
            result@ == collapsed(declared_replaced(template@, pairs(vars@))),
    {
        let mut out = template.to_string();
        let mut k: usize = 0;
        assert(pairs(vars@).take(0) =~= Seq::<(Seq<char>, Seq<char>)>::empty());
        while k < vars.len()
            invariant
                k <= vars@.len(),
                out@ == declared_replaced(template@, pairs(vars@).take(k as int)),
            decreases vars@.len() - k,
        {
            out = str_replace(out.as_str(), make_token(vars[k].0).as_str(), vars[k].1);
            k += 1;
            proof {
                let done = pairs(vars@).take(k as int);
                assert(done.drop_last() =~= pairs(vars@).take(k - 1));
                assert(done.last() == (vars@[k - 1].0@, vars@[k - 1].1@));
            }
        }
        assert(pairs(vars@).take(k as int) =~= pairs(vars@));
        let chars = to_chars(out.as_str());
        let mut result = String::new();
        let mut i: usize = 0;
        assert(chars@.skip(0) =~= chars@);
        while i < chars.len()
            invariant
                i <= chars@.len(),
                collapsed(chars@) == result@ + collapsed(chars@.skip(i as int)),
            decreases chars@.len() - i,
        {
            let ghost rest = chars@.skip(i as int);
            let ghost before = result@;
            let mut skipped: usize = 0;
            if chars[i] == '{' {
                let end = find_closing_brace(&chars, i + 1);
                proof {
                    lemma_closing_brace(chars@, i + 1);
                    lemma_closing_brace_is(rest, 1, end - i);
                }
                if end < chars.len() {
                    assert(chars@.subrange(i + 1, end as int) =~= rest.subrange(1, end - i));
                    if identifier(&chars, i + 1, end) {
                        skipped = end + 1 - i;
                    }
                }
            }
            assert(skipped == leading_token(rest));
            if skipped == 0 {
                result.push(chars[i]);
                i += 1;
                assert(rest.drop_first() =~= chars@.skip(i as int));
            } else {
                i += skipped;
                assert(rest.skip(skipped as int) =~= chars@.skip(i as int));
            }
            assert(before + collapsed(rest) =~= result@ + collapsed(chars@.skip(i as int)));
        }
        assert(chars@.skip(i as int) =~= Seq::<char>::empty());
        assert(result@ + Seq::<char>::empty() =~= result@);
        result
    }
}

// ---------------------------------------------------------------------------
// The scenario that the script reads
// ---------------------------------------------------------------------------

/// The variables that the declared tools stand for: `tools.<name>` each.
pub open spec fn tool_vars(tools: Seq<(String, String)>) -> Seq<(Seq<char>, Seq<char>)> {
    tools.map_values(|tool: (String, String)| ("tools."@ + tool.0@, tool.1@))
}

/// `text` with the path of the binary filled in.
pub open spec fn binary_filled_in(text: Seq<char>, binary: Seq<char>) -> Seq<char> {
    replace_all(text, token("binary"@), binary)
}

/// `text` with the path of the binary, and then those of the tools, filled in.
pub open spec fn paths_filled_in(
    config: HarnessConfig,
    text: Seq<char>,
    binary: Seq<char>,
) -> Seq<char> {
    declared_replaced(binary_filled_in(text, binary), tool_vars(config.tools.entries()))
}

/// Whether a scenario with the mount arguments `args` is read-write.
pub open spec fn is_read_write(args: Seq<Seq<char>>) -> bool {
    args.contains("--rw"@)
}

/// The text of an optional string, empty where there is none.
pub open spec fn text_or_empty(text: Option<String>) -> Seq<char> {
    match text {
        Some(text) => text@,
        None => Seq::empty(),
    }
}

/// The extra arguments of a mount that `section` configures: the scenario's own,
/// else those that `section` has for reading or for reading and writing.
pub open spec fn mount_extra(args: Seq<Seq<char>>, section: MountSection) -> Seq<char> {
    let own = joined(args, " "@);
    if own.len() > 0 {
        own
    } else if is_read_write(args) {
        text_or_empty(section.rw_extra)
    } else {
        text_or_empty(section.default_extra)
    }
}

/// How the image of a scenario is mounted: command, ready line and extra
/// arguments. The scenario's own mount goes before the configured one.
pub open spec fn effective_mount(config: HarnessConfig, scenario: Scenario) -> (
    Seq<char>,
    Seq<char>,
    Seq<char>,
) {
    match (scenario.mount, config.mount) {
        (Some(own), _) => (own.command@, own.ready_line@, Seq::empty()),
        (None, Some(section)) => (
            section.command@,
            section.ready_line@,
            mount_extra(views(scenario.mount_args@), section),
        ),
        (None, None) => (Seq::empty(), Seq::empty(), Seq::empty()),
    }
}

/// How the image of a scenario is verified: the command and the expected exit
/// code. The scenario's own verification goes before the configured one, and
/// where it is `null` there is none.
pub open spec fn effective_post_verify(config: HarnessConfig, scenario: Scenario) -> Option<
    (Seq<char>, i32),
> {
    match scenario.post_verify {
        Some(Some(own)) => Some((own.command@, exit_or_zero(own.expect_exit))),
        Some(None) => None,
        None => match config.post_verify {
            Some(section) => Some((section.command@, exit_or_zero(section.expect_exit))),
            None => None,
        },
    }
}

/// The templates of all declared ops, with the paths filled in.
pub open spec fn templates_json(config: HarnessConfig, binary: Seq<char>) -> Json {
    Json::Object(
        config.ops@.map_values(
            |def: OpDef| Json::String(paths_filled_in(config, def.command@, binary)),
        ),
    )
}

/// The JSON of a verification, with the paths filled in.
pub open spec fn verification_json(
    config: HarnessConfig,
    verification: Option<(Seq<char>, i32)>,
    binary: Seq<char>,
) -> Json {
    match verification {
        Some((command, exit)) => Json::Object(
            map![
                "command"@ => Json::String(paths_filled_in(config, command, binary)),
                "expect_exit"@ => integer_json(exit as int),
            ],
        ),
        None => Json::Null,
    }
}

/// The scenario as the script reads it, where the image and the binary have the
/// given paths.
pub open spec fn scenario_json(
    config: HarnessConfig,
    name: Seq<char>,
    scenario: Scenario,
    image: Seq<char>,
    binary: Seq<char>,
) -> Json {
    let (command, ready_line, extra) = effective_mount(config, scenario);
    Json::Object(
        map![
            "name"@ => Json::String(name),
            "image"@ => Json::String(image),
            "rw"@ => Json::Bool(is_read_write(views(scenario.mount_args@))),
            "mount"@ => Json::Object(map![
                "command"@ => Json::String(binary_filled_in(command, binary)),
                "ready_line"@ => Json::String(ready_line),
                "extra"@ => Json::String(extra),
            ]),
            "ops"@ => Json::Array(jsons(scenario.ops@)),
            "templates"@ => templates_json(config, binary),
            "post_verify"@ => verification_json(
                config,
                effective_post_verify(config, scenario),
                binary,
            ),
        ],
    )
}

fn read_write(args: &Vec<String>) -> (r: bool)
    ensures
        r == is_read_write(views(args@)),
{
    let mut i: usize = 0;
    while i < args.len()
        invariant
            i <= args@.len(),
            forall|j: int| 0 <= j < i ==> (#[trigger] args@[j])@ != "--rw"@,
        decreases args@.len() - i,
    {
        if str_eq(args[i].as_str(), "--rw") {
            assert(views(args@)[i as int] == "--rw"@);
            return true;
        }
        i += 1;
    }
    assert forall|j: int| 0 <= j < views(args@).len() implies views(args@)[j] != "--rw"@ by {
        assert(views(args@)[j] == args@[j]@);
    }
    false
}

fn or_empty(text: &Option<String>) -> (out: String)
    ensures
        out@ == text_or_empty(*text),
{
    match text {
        Some(text) => text.clone(),
        None => String::new(),
    }
}

fn fill_in_binary(text: &str, binary: &str) -> (out: String)
    ensures
        out@ == binary_filled_in(text@, binary@),
{
    str_replace(text, make_token("binary").as_str(), binary)
}

fn fill_in_paths(config: &HarnessConfig, text: &str, binary: &str) -> (out: String)
    ensures
        out@ == paths_filled_in(*config, text@, binary@),
{
    let mut out = fill_in_binary(text, binary);
    let ghost start = out@;
    let ghost vars = tool_vars(config.tools.entries());
    let n: usize = config.tools.len();
    let mut i: usize = 0;
    assert(vars.take(0) =~= Seq::<(Seq<char>, Seq<char>)>::empty());
    while i < n
        invariant
            i <= n == config.tools.entries().len(),
            vars == tool_vars(config.tools.entries()),
            out@ == declared_replaced(start, vars.take(i as int)),
        decreases n - i,
    {
        let name = "tools.".to_string().concat(config.tools.key_at(i).as_str());
        out = str_replace(
            out.as_str(),
            make_token(name.as_str()).as_str(),
            config.tools.value_at(i).as_str(),
        );
        i += 1;
        proof {
            let done = vars.take(i as int);
            assert(done.drop_last() =~= vars.take(i - 1));
            assert(done.last() == vars[i - 1]);
        }
    }
    assert(vars.take(i as int) =~= vars);
    out
}

fn fill_in_templates(config: &HarnessConfig, binary: &str) -> (templates: JsonValue)
    ensures
        templates@ == templates_json(*config, binary@),
{
    let mut fields = no_fields();
    let ops = &config.ops;
    let n: usize = ops.len();
    let mut i: usize = 0;
    while i < n
        invariant
            i <= n == ops.entries().len(),
            *ops == config.ops,
            forall|key: Seq<char>| #[trigger]
                json_fields(fields@).contains_key(key) <==> exists|j: int|
                    0 <= j < i && #[trigger] ops.keys()[j] == key,
            forall|key: Seq<char>| #[trigger]
                json_fields(fields@).contains_key(key) ==> ops@.contains_key(key) && json_fields(
                    fields@,
                )[key] == Json::String(paths_filled_in(*config, ops@[key].command@, binary@)),
        decreases n - i,
    {
        let key = ops.key_at(i);
        let def = ops.value_at(i);
        let ghost before = json_fields(fields@);
        let filled = fill_in_paths(config, def.command.as_str(), binary);
        put_field(&mut fields, key.as_str(), JsonValue::String(filled));
        proof {
            let now = json_fields(fields@);
            assert forall|k: Seq<char>| #[trigger] now.contains_key(k) <==> exists|j: int|
                0 <= j < i + 1 && #[trigger] ops.keys()[j] == k by {
                if k == key@ {
                    assert(ops.keys()[i as int] == k);
                } else if before.contains_key(k) {
                    let j = choose|j: int| 0 <= j < i && #[trigger] ops.keys()[j] == k;
                    assert(ops.keys()[j] == k);
                }
            }
        }
        i += 1;
    }
    proof {
        let now = json_fields(fields@);
        let all = config.ops@.map_values(
            |def: OpDef| Json::String(paths_filled_in(*config, def.command@, binary@)),
        );
        assert forall|k: Seq<char>| now.contains_key(k) == all.contains_key(k) by {
            if ops.has(k) {
                let j = choose|j: int| 0 <= j < ops.entries().len() && #[trigger] ops.keys()[j] == k;
                assert(0 <= j < n && ops.keys()[j] == k);
            }
        }
        assert(now =~= all);
    }
    object_value(fields)
}

/// The command and the expected exit code, with the paths filled in, as JSON.
fn verification_value(config: &HarnessConfig, command: &str, exit: i32, binary: &str) -> (value:
    JsonValue)
    ensures
        value@ == verification_json(*config, Some((command@, exit)), binary@),
{
    let mut fields = no_fields();
    let filled = fill_in_paths(config, command, binary);
    put_field(&mut fields, "command", JsonValue::String(filled));
    put_field(&mut fields, "expect_exit", integer_value(exit));
    object_value(fields)
}

impl TomlAdapter {
    /// An adapter with these parts.
    pub fn new(
        config: HarnessConfig,
        harness_root: String,
        consumer_root: String,
        image_dir: String,
    ) -> (adapter: Self)
        ensures
            adapter.config == config,
            adapter.harness_root == harness_root,
            adapter.consumer_root == consumer_root,
            adapter.image_dir == image_dir,
    {
        TomlAdapter { config, harness_root, consumer_root, image_dir }
    }

    /// The scenario `name` as the script reads it, where the image and the binary
    /// have the given paths.
    pub fn scenario_value(
        &self,
        name: &str,
        scenario: &Scenario,
        image_path: &str,
        binary_path: &str,
    ) -> (value: JsonValue)
        ensures
            value@ == scenario_json(self.config, name@, *scenario, image_path@, binary_path@),
    {
        let rw = read_write(&scenario.mount_args);
        let (command, ready_line, extra) = match (&scenario.mount, &self.config.mount) {
            (Some(own), _) => (own.command.clone(), own.ready_line.clone(), String::new()),
            (None, Some(section)) => {
                let own = str_join(&scenario.mount_args, " ");
                let extra = if !own.as_str().is_empty() {
                    own
                } else if rw {
                    or_empty(&section.rw_extra)
                } else {
                    or_empty(&section.default_extra)
                };
                (section.command.clone(), section.ready_line.clone(), extra)
            },
            (None, None) => (String::new(), String::new(), String::new()),
        };
        assert((command@, ready_line@, extra@) == effective_mount(self.config, *scenario));
        let post_verify = match &scenario.post_verify {
            Some(Some(own)) => verification_value(
                &self.config,
                own.command.as_str(),
                expected_exit(&own.expect_exit),
                binary_path,
            ),
            Some(None) => JsonValue::Null,
            None => match &self.config.post_verify {
                Some(section) => verification_value(
                    &self.config,
                    section.command.as_str(),
                    expected_exit(&section.expect_exit),
                    binary_path,
                ),
                None => JsonValue::Null,
            },
        };
        let mut mount = no_fields();
        put_field(
            &mut mount,
            "command",
            JsonValue::String(fill_in_binary(command.as_str(), binary_path)),
        );
        put_field(&mut mount, "ready_line", JsonValue::String(ready_line));
        put_field(&mut mount, "extra", JsonValue::String(extra));
        let mut fields = no_fields();
        put_field(&mut fields, "name", string_value(name));
        put_field(&mut fields, "image", string_value(image_path));
        put_field(&mut fields, "rw", JsonValue::Bool(rw));
        put_field(&mut fields, "mount", object_value(mount));
        put_field(&mut fields, "ops", array_value(&scenario.ops));
        put_field(&mut fields, "templates", fill_in_templates(&self.config, binary_path));
        put_field(&mut fields, "post_verify", post_verify);
        object_value(fields)
    }

    /// Builds the scenario `name` as the script reads it. The image lies in the
    /// image directory, and the binary is relative to `harness.toml`, unless their
    /// paths are absolute.
    pub fn build_scenario_json(&self, name: &str, scenario: &Scenario) -> (value: JsonValue)
        ensures
            exists|image: Seq<char>, binary: Seq<char>|
                #![trigger scenario_json(self.config, name@, *scenario, image, binary)]
                {
                    &&& value@ == scenario_json(self.config, name@, *scenario, image, binary)
                    &&& self.image_may_be(*scenario, image)
                    &&& self.binary_may_be(binary)
                },
    {
        let image_path = if scenario.image.as_str().is_empty() {
            String::new()
        } else {
            path_join(self.image_dir.as_str(), scenario.image.as_str())
        };
        let binary = or_empty(&self.config.project.binary);
        let binary_path = if binary.as_str().is_empty() {
            String::new()
        } else {
            resolve_against(self.consumer_root.as_str(), binary.as_str())
        };
        self.scenario_value(name, scenario, image_path.as_str(), binary_path.as_str())
    }

    /// Whether `path` can be that of the image of `scenario`: empty where there is
    /// none, else what joining the image to the image directory gives.
    pub open spec fn image_may_be(&self, scenario: Scenario, path: Seq<char>) -> bool {
        if scenario.image@.len() == 0 {
            path.len() == 0
        } else {
            joins_to(self.image_dir@, scenario.image@, path)
        }
    }

    /// Whether `path` can be that of the binary: empty where there is none, else what
    /// it stands for in the directory of `harness.toml`.
    pub open spec fn binary_may_be(&self, path: Seq<char>) -> bool {
        let binary = text_or_empty(self.config.project.binary);
        if binary.len() == 0 {
            path.len() == 0
        } else {
            resolves_to(self.consumer_root@, binary, path)
        }
    }

    /// Path of the script: `scripts/run-scenario.ps1` of the harness.
    pub fn run_scenario_ps_path(&self) -> (path: String)
        ensures
            !is_verbatim(self.harness_root@) ==> exists|scripts: Seq<char>|
                {
                    &&& #[trigger] adjoined(scripts, self.harness_root@, "scripts"@)
                    &&& adjoined(path@, scripts, "run-scenario.ps1"@)
                },
            ends_with(path@, "run-scenario.ps1"@),
    {
        let scripts = path_join(self.harness_root.as_str(), "scripts");
        let path = path_join(scripts.as_str(), "run-scenario.ps1");
        proof {
            reveal_strlit("scripts");
            reveal_strlit("run-scenario.ps1");
            let name = "run-scenario.ps1"@;
            assert(is_file_name(name));
            lemma_after_last(Seq::empty(), name, '/');
            let root = self.harness_root@;
            let mark = seq!['\\', '\\', '?'];
            if !is_verbatim(root) {
                assert(adjoined(scripts@, root, "scripts"@));
                if is_verbatim(scripts@) {
                    assert(scripts@.take(3) == mark);
                    assert(scripts@[0] == '\\' && scripts@[1] == '\\' && scripts@[2] == '?');
                    if root.len() >= 3 {
                        assert(root.take(3) =~= mark);
                    }
                    assert(false);
                }
            }
        }
        path
    }
}

impl Adapter for TomlAdapter {
    /// Refuses: this adapter hands over whole scenarios.
    fn run_op(&self, scenario: &Scenario, op: &OpSpec, diag_dir: &str) -> (r: Result<
        OpResult,
        String,
    >)
        ensures
            r is Err,
            r->Err_0@
                == "TomlAdapter does not support per-op invocation; the whole-scenario flow is in run-matrix.rs"@,
    {
        Err(
            "TomlAdapter does not support per-op invocation; the whole-scenario flow is in run-matrix.rs".to_string(),
        )
    }
}

// ---------------------------------------------------------------------------
// Laws
// ---------------------------------------------------------------------------

/// Text without an opening brace is kept when tokens collapse, and what follows it
/// collapses on its own.
pub proof fn law_text_outside_tokens_kept(text: Seq<char>, rest: Seq<char>)
    requires
        !text.contains('{'),
    ensures
        collapsed(text + rest) == text + collapsed(rest),
    decreases text.len(),
{
    if text.len() == 0 {
        assert(text + rest =~= rest);
        assert(text + collapsed(rest) =~= collapsed(rest));
    } else {
        assert(text.contains(text[0]));
        assert forall|c: char| text.drop_first().contains(c) implies text.contains(c) by {
            let i = choose|i: int| 0 <= i < text.drop_first().len() && text.drop_first()[i] == c;
            assert(text[i + 1] == c);
        }
        law_text_outside_tokens_kept(text.drop_first(), rest);
        assert((text + rest).drop_first() =~= text.drop_first() + rest);
        assert(seq![text[0]] + (text.drop_first() + collapsed(rest))
            =~= text + collapsed(rest));
    }
}

/// The token of a variable is replaced by its value, and what follows it is
/// substituted on its own.
pub proof fn law_declared_token_replaced(name: Seq<char>, value: Seq<char>, rest: Seq<char>)
    ensures
        declared_replaced(token(name) + rest, seq![(name, value)]) == value + declared_replaced(
            rest,
            seq![(name, value)],
        ),
{
    let vars = seq![(name, value)];
    let whole = token(name) + rest;
    assert(vars.drop_last() =~= Seq::<(Seq<char>, Seq<char>)>::empty());
    assert(whole.subrange(0, token(name).len() as int) =~= token(name));
    assert(whole.skip(token(name).len() as int) =~= rest);
    reveal_with_fuel(declared_replaced, 2);
}

/// An identifier in braces that is left collapses to nothing.
pub proof fn law_undeclared_token_collapses(name: Seq<char>, rest: Seq<char>)
    requires
        is_identifier(name),
    ensures
        collapsed(braced(name, rest)) == collapsed(rest),
{
    let whole = braced(name, rest);
    let end = name.len() as int + 1;
    assert forall|i: int| 1 <= i < end implies whole[i] != '}' by {
        assert(whole[i] == name[i - 1]);
    }
    assert(whole[end] == '}');
    lemma_closing_brace_is(whole, 1, end);
    assert(whole.subrange(1, end) =~= name);
    assert(whole.skip(end + 1) =~= rest);
}

proof fn lemma_nothing_to_replace(s: Seq<char>, pattern: Seq<char>, with: Seq<char>)
    requires
        pattern.len() > 0,
        !s.contains(pattern[0]),
    ensures
        replace_all(s, pattern, with) == s,
    decreases s.len(),
{
    if s.len() > 0 {
        assert forall|c: char| s.drop_first().contains(c) implies s.contains(c) by {
            let i = choose|i: int| 0 <= i < s.drop_first().len() && s.drop_first()[i] == c;
            assert(s[i + 1] == c);
        }
        assert(s.contains(s[0]));
        if pattern.len() <= s.len() {
            assert(s.subrange(0, pattern.len() as int)[0] == s[0]);
        }
        lemma_nothing_to_replace(s.drop_first(), pattern, with);
        assert(seq![s[0]] + s.drop_first() =~= s);
    }
}

proof fn lemma_nothing_declared(s: Seq<char>, vars: Seq<(Seq<char>, Seq<char>)>)
    requires
        !s.contains('{'),
    ensures
        declared_replaced(s, vars) == s,
    decreases vars.len(),
{
    if vars.len() > 0 {
        lemma_nothing_declared(s, vars.drop_last());
        assert(token(vars.last().0)[0] == '{');
        lemma_nothing_to_replace(s, token(vars.last().0), vars.last().1);
    }
}

/// A template without an opening brace expands to itself, whatever the variables
/// are.
pub proof fn law_plain_template_expands_to_itself(
    template: Seq<char>,
    vars: Seq<(Seq<char>, Seq<char>)>,
)
    requires
        !template.contains('{'),
    ensures
        collapsed(declared_replaced(template, vars)) == template,
{
    lemma_nothing_declared(template, vars);
    law_text_outside_tokens_kept(template, Seq::empty());
    assert(template + Seq::<char>::empty() =~= template);
}

/// A scenario's own mount goes before the configured one, and so does its own
/// verification; where that is `null` there is none.
pub proof fn law_scenario_overrides_configuration(
    config: HarnessConfig,
    other: HarnessConfig,
    scenario: Scenario,
)
    ensures
        scenario.mount is Some ==> effective_mount(config, scenario) == effective_mount(
            other,
            scenario,
        ),
        scenario.post_verify is Some ==> effective_post_verify(config, scenario)
            == effective_post_verify(other, scenario),
        scenario.post_verify == Some(None::<PostVerifySpec>) ==> effective_post_verify(
            config,
            scenario,
        ) is None,
{
}

/// The variables are substituted one after the other: each at its name in braces.
pub proof fn law_variables_in_order(
    text: Seq<char>,
    vars: Seq<(Seq<char>, Seq<char>)>,
    name: Seq<char>,
    value: Seq<char>,
)
    ensures
        declared_replaced(text, Seq::empty()) == text,
        declared_replaced(text, vars.push((name, value))) == replace_all(
            declared_replaced(text, vars),
            seq!['{'] + name + seq!['}'],
            value,
        ),
{
    assert(vars.push((name, value)).drop_last() =~= vars);
}

/// Braces around anything but an identifier stay, and so does one without a counterpart.
pub proof fn law_other_braces_kept(inner: Seq<char>, rest: Seq<char>, open: Seq<char>)
    requires
        !is_identifier(inner),
        !inner.contains('}'),
        !open.contains('}'),
    ensures
        collapsed(seq!['{'] + inner + seq!['}'] + rest) == seq!['{'] + collapsed(
            inner + seq!['}'] + rest,
        ),
        collapsed(open) == open,
    decreases open.len(),
{
    let whole = seq!['{'] + inner + seq!['}'] + rest;
    let end = inner.len() as int + 1;
    assert forall|i: int| 1 <= i < end implies whole[i] != '}' by {
        assert(whole[i] == inner[i - 1]);
        assert(inner.contains(inner[i - 1]));
    }
    assert(whole[end] == '}');
    lemma_closing_brace_is(whole, 1, end);
    assert(whole.subrange(1, end) =~= inner);
    assert(whole.drop_first() =~= inner + seq!['}'] + rest);
    if open.len() > 0 {
        let shorter = open.drop_first();
        assert forall|i: int| 0 <= i < open.len() implies open[i] != '}' by {
            assert(open.contains(open[i]));
        }
        assert(!shorter.contains('}')) by {
            if shorter.contains('}') {
                let i = choose|i: int| 0 <= i < shorter.len() && shorter[i] == '}';
                assert(open[i + 1] == '}');
            }
        }
        lemma_closing_brace_is(open, 1, open.len() as int);
        law_other_braces_kept(inner, rest, shorter);
        assert(seq![open[0]] + shorter =~= open);
    }
}

/// An identifier is a letter or an underscore with letters, digits and underscores behind.
pub proof fn law_identifiers(s: Seq<char>)
    ensures
        is_identifier(s) <==> s.len() > 0 && !('0' <= s[0] <= '9') && forall|i: int|
            0 <= i < s.len() ==> 'A' <= #[trigger] s[i] <= 'Z' || 'a' <= s[i] <= 'z' || '0' <= s[i]
                <= '9' || s[i] == '_',
{
    if is_identifier(s) {
        assert forall|i: int| 0 <= i < s.len() implies 'A' <= #[trigger] s[i] <= 'Z' || 'a' <= s[i]
            <= 'z' || '0' <= s[i] <= '9' || s[i] == '_' by {
            assert(begins_identifier(s[i]) || '0' <= s[i] <= '9');
        }
    }
}

/// In the templates the binary's path is filled in first, and then that of each tool, in
/// the order of the names.
pub proof fn law_paths_filled_in(config: HarnessConfig, text: Seq<char>, binary: Seq<char>, i: int)
    ensures
        paths_filled_in(config, text, binary) == declared_replaced(
            replace_all(text, seq!['{'] + "binary"@ + seq!['}'], binary),
            tool_vars(config.tools.entries()),
        ),
        tool_vars(config.tools.entries()).len() == config.tools.entries().len(),
        0 <= i < config.tools.entries().len() ==> tool_vars(config.tools.entries())[i] == (
            "tools."@ + config.tools.entries()[i].0@,
            config.tools.entries()[i].1@,
        ),
{
}

/// A scenario mounts as it says itself, or else as is configured; the extra arguments are
/// its own, or else those that are configured for reading, or for reading and writing.
pub proof fn law_effective_mount(config: HarnessConfig, scenario: Scenario)
    ensures
        scenario.mount matches Some(own) ==> effective_mount(config, scenario) == (
            own.command@,
            own.ready_line@,
            Seq::<char>::empty(),
        ),
        scenario.mount is None && config.mount is None ==> effective_mount(config, scenario) == (
            Seq::<char>::empty(),
            Seq::<char>::empty(),
            Seq::<char>::empty(),
        ),
        scenario.mount is None && config.mount is Some ==> {
            let section = config.mount->Some_0;
            let (command, ready_line, extra) = effective_mount(config, scenario);
            let own = joined(views(scenario.mount_args@), " "@);
            let writes = views(scenario.mount_args@).contains("--rw"@);
            &&& command == section.command@ && ready_line == section.ready_line@
            &&& own.len() > 0 ==> extra == own
            &&& own.len() == 0 && writes && section.rw_extra is Some ==> extra
                == section.rw_extra->Some_0@
            &&& own.len() == 0 && writes && section.rw_extra is None ==> extra.len() == 0
            &&& own.len() == 0 && !writes && section.default_extra is Some ==> extra
                == section.default_extra->Some_0@
            &&& own.len() == 0 && !writes && section.default_extra is None ==> extra.len() == 0
        },
{
}

/// A scenario is verified as it says itself, not at all where it says `null`, and else as
/// is configured; without an exit code, zero is expected.
pub proof fn law_effective_post_verify(config: HarnessConfig, scenario: Scenario)
    ensures
        scenario.post_verify matches Some(Some(own)) ==> effective_post_verify(config, scenario)
            == Some(
            (
                own.command@,
                if own.expect_exit is Some {
                    own.expect_exit->Some_0
                } else {
                    0i32
                },
            ),
        ),
        scenario.post_verify == Some(None::<PostVerifySpec>) ==> effective_post_verify(
            config,
            scenario,
        ) is None,
        scenario.post_verify is None && config.post_verify is None ==> effective_post_verify(
            config,
            scenario,
        ) is None,
        scenario.post_verify is None ==> (config.post_verify matches Some(section)
            ==> effective_post_verify(config, scenario) == Some(
            (
                section.command@,
                if section.expect_exit is Some {
                    section.expect_exit->Some_0
                } else {
                    0i32
                },
            ),
        )),
{
}

/// What the script reads: the name, the image, whether the scenario writes, the mount, the
/// ops, the template of every op and the verification, and nothing else.
pub proof fn law_scenario_json(
    config: HarnessConfig,
    name: Seq<char>,
    scenario: Scenario,
    image: Seq<char>,
    binary: Seq<char>,
    op: Seq<char>,
)
    ensures
        ({
            let json = scenario_json(config, name, scenario, image, binary);
            let (command, ready_line, extra) = effective_mount(config, scenario);
            let mount = field(json, "mount"@)->Some_0;
            let templates = field(json, "templates"@)->Some_0;
            let verification = field(json, "post_verify"@);
            &&& field(json, "name"@) == Some(Json::String(name))
            &&& field(json, "image"@) == Some(Json::String(image))
            &&& field(json, "rw"@) == Some(
                Json::Bool(views(scenario.mount_args@).contains("--rw"@)),
            )
            &&& field(mount, "command"@) == Some(
                Json::String(replace_all(command, seq!['{'] + "binary"@ + seq!['}'], binary)),
            )
            &&& field(mount, "ready_line"@) == Some(Json::String(ready_line))
            &&& field(mount, "extra"@) == Some(Json::String(extra))
            &&& field(json, "ops"@) == Some(Json::Array(jsons(scenario.ops@)))
            &&& config.ops@.contains_key(op) ==> field(templates, op) == Some(
                Json::String(paths_filled_in(config, config.ops@[op].command@, binary)),
            )
            &&& !config.ops@.contains_key(op) ==> field(templates, op) is None
            &&& effective_post_verify(config, scenario) is None ==> verification == Some(Json::Null)
            &&& effective_post_verify(config, scenario) matches Some((check, exit)) ==> {
                &&& field(verification->Some_0, "command"@) == Some(
                    Json::String(paths_filled_in(config, check, binary)),
                )
                &&& field(verification->Some_0, "expect_exit"@) == Some(integer_json(exit as int))
            }
            &&& json matches Json::Object(fields) && fields.dom() == set![
                "name"@,
                "image"@,
                "rw"@,
                "mount"@,
                "ops"@,
                "templates"@,
                "post_verify"@,
            ]
        }),
{
    reveal_strlit("name");
    reveal_strlit("image");
    reveal_strlit("rw");
    reveal_strlit("mount");
    reveal_strlit("ops");
    reveal_strlit("templates");
    reveal_strlit("post_verify");
    reveal_strlit("command");
    reveal_strlit("ready_line");
    reveal_strlit("extra");
    reveal_strlit("expect_exit");
    assert("image"@[0] != "mount"@[0]);
    assert("name"@.len() == 4 && "image"@.len() == 5 && "rw"@.len() == 2 && "mount"@.len() == 5
        && "ops"@.len() == 3 && "templates"@.len() == 9 && "post_verify"@.len() == 11);
    assert("command"@.len() == 7 && "ready_line"@.len() == 10 && "extra"@.len() == 5
        && "expect_exit"@.len() == 11);
    let json = scenario_json(config, name, scenario, image, binary);
    assert(json->Object_0.dom() =~= set![
        "name"@,
        "image"@,
        "rw"@,
        "mount"@,
        "ops"@,
        "templates"@,
        "post_verify"@,
    ]);
}

/// The names and the values of variables are taken in their order.
pub proof fn law_pairs(vars: Seq<(&str, &str)>)
    ensures
        pairs(vars).len() == vars.len(),
        forall|i: int|
            0 <= i < vars.len() ==> #[trigger] pairs(vars)[i] == (vars[i].0@, vars[i].1@),
{
}

/// The script is told the image's place in the image directory and the binary's in that of
/// `harness.toml`; a path that begins with a slash is kept as it is where the directory
/// begins with neither a drive nor a share, and what is not there has no path.
pub proof fn law_script_paths(
    adapter: TomlAdapter,
    scenario: Scenario,
    image: Seq<char>,
    binary: Seq<char>,
)
    requires
        adapter.image_may_be(scenario, image),
        adapter.binary_may_be(binary),
    ensures
        scenario.image@.len() == 0 ==> image.len() == 0,
        scenario.image@.len() > 0 && !is_verbatim(adapter.image_dir@) ==> {
            &&& is_relative(scenario.image@) ==> adjoined(
                image,
                adapter.image_dir@,
                scenario.image@,
            )
            &&& scenario.image@[0] == '/' && is_prefixless(adapter.image_dir@) ==> image
                == scenario.image@
        },
        adapter.config.project.binary is None ==> binary.len() == 0,
        adapter.config.project.binary matches Some(own) ==> {
            &&& own@.len() == 0 ==> binary.len() == 0
            &&& own@.len() > 0 && !is_verbatim(adapter.consumer_root@) ==> {
                &&& is_relative(own@) ==> adjoined(binary, adapter.consumer_root@, own@)
                &&& own@[0] == '/' && is_prefixless(adapter.consumer_root@) ==> binary == own@
            }
        },
{
}

} // verus!

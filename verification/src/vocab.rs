//! The flat tokens of templates, and the paths of the binary and of the private key.
use crate::config::{HarnessConfig, VmSection};
use crate::invocation::{effective_setting, given, given_setting, setting, Environment};
use crate::paths::{
    adjoined, is_prefixless, is_relative, is_verbatim, resolve_against, resolves_to,
};
use crate::string_map::StringMap;
use crate::substitution::texts;
use crate::text::{
    begins_with, ends_with, opt_text, str_begins_with, str_strip_prefix, str_strip_suffix,
    str_trim_end_char, str_trim_start_char, trim_end_char, trim_start_char,
};
use vstd::prelude::*;

verus! {

// ---------------------------------------------------------------------------
// Flat tokens
// ---------------------------------------------------------------------------

/// `map` with an entry for `key` where there is a value for it.
pub open spec fn with_entry(
    map: Map<Seq<char>, Seq<char>>,
    key: Seq<char>,
    value: Option<Seq<char>>,
) -> Map<Seq<char>, Seq<char>> {
    match value {
        Some(value) => map.insert(key, value),
        None => map,
    }
}

/// The flat token of the tool `name`.
pub open spec fn tool_token(name: Seq<char>) -> Seq<char> {
    "tools."@ + name
}

/// The flat tokens of the tools.
pub open spec fn tool_tokens(tools: Map<Seq<char>, String>) -> Map<Seq<char>, Seq<char>> {
    Map::new(
        |token: Seq<char>|
            begins_with(token, "tools."@) && tools.contains_key(
                token.skip("tools."@.len() as int),
            ),
        |token: Seq<char>| tools[token.skip("tools."@.len() as int)]@,
    )
}

/// The path of the harness on the VM, where the working directory there is `workdir`.
pub open spec fn harness_root(workdir: Seq<char>, environment: Environment) -> Seq<char> {
    let harness_dir = match given(environment.harness_dir) {
        Some(dir) => dir,
        None => "vendor/fs-test-harness"@,
    };
    trim_end_char(workdir, '/') + "/"@ + trim_start_char(harness_dir, '/')
}

/// The flat tokens, where the binary and the image directory have the given paths.
pub open spec fn flat_tokens(
    config: HarnessConfig,
    environment: Environment,
    binary: Option<Seq<char>>,
    image_dir: Option<Seq<char>>,
) -> Map<Seq<char>, Seq<char>> {
    let workdir = setting(environment.vm_workdir, config.vm.workdir);
    let root = match workdir {
        Some(workdir) => Some(harness_root(workdir, environment)),
        None => None,
    };
    let fixed = with_entry(
        with_entry(
            with_entry(
                with_entry(Map::empty(), "binary"@, binary),
                "image_dir"@,
                image_dir,
            ),
            "vm.workdir"@,
            workdir,
        ),
        "vm.harness_root"@,
        root,
    );
    fixed.union_prefer_right(tool_tokens(config.tools@))
}

fn put_token(flat: &mut StringMap<String>, token: &str, value: &str)
    ensures
        texts(final(flat)@) == texts(old(flat)@).insert(token@, value@),
{
    let ghost before = flat@;
    flat.insert(token.to_string(), value.to_string());
    assert(texts(flat@) =~= texts(before).insert(token@, value@));
}

fn put_tool_tokens(flat: &mut StringMap<String>, tools: &StringMap<String>)
    ensures
        texts(final(flat)@) == texts(old(flat)@).union_prefer_right(tool_tokens(tools@)),
{
    let ghost before = texts(flat@);
    let ghost prefix = "tools."@;
    let n: usize = tools.len();
    let mut i: usize = 0;
    assert forall|name: Seq<char>| begins_with(#[trigger] tool_token(name), prefix) && tool_token(
        name,
    ).skip(prefix.len() as int) == name by {
        assert(tool_token(name).take(prefix.len() as int) =~= prefix);
        assert(tool_token(name).skip(prefix.len() as int) =~= name);
    }
    while i < n
        invariant
            i <= n == tools.entries().len(),
            prefix == "tools."@,
            forall|name: Seq<char>|
                begins_with(#[trigger] tool_token(name), prefix) && tool_token(name).skip(
                    prefix.len() as int,
                ) == name,
            forall|token: Seq<char>| #[trigger]
                texts(flat@).contains_key(token) <==> before.contains_key(token) || exists|j: int|
                    0 <= j < i && tool_token(#[trigger] tools.keys()[j]) == token,
            forall|token: Seq<char>| #[trigger]
                texts(flat@).contains_key(token) ==> texts(flat@)[token] == if exists|j: int|
                    0 <= j < i && tool_token(#[trigger] tools.keys()[j]) == token {
                    tools@[token.skip(prefix.len() as int)]@
                } else {
                    before[token]
                },
        decreases n - i,
    {
        let name = tools.key_at(i);
        let value = tools.value_at(i);
        let token = "tools.".to_string().concat(name.as_str());
        let ghost previous = texts(flat@);
        assert(token@ == tool_token(tools.keys()[i as int]));
        put_token(flat, token.as_str(), value.as_str());
        assert forall|t: Seq<char>| #[trigger] texts(flat@).contains_key(t) <==> before.contains_key(
            t,
        ) || exists|j: int| 0 <= j < i + 1 && tool_token(#[trigger] tools.keys()[j]) == t by {
            if t == token@ {
                assert(tool_token(tools.keys()[i as int]) == t);
            } else if previous.contains_key(t) && !before.contains_key(t) {
                let j = choose|j: int| 0 <= j < i && tool_token(#[trigger] tools.keys()[j]) == t;
                assert(tool_token(tools.keys()[j]) == t);
            }
        }
        assert forall|t: Seq<char>| #[trigger] texts(flat@).contains_key(t) implies texts(flat@)[t]
            == if exists|j: int| 0 <= j < i + 1 && tool_token(#[trigger] tools.keys()[j]) == t {
            tools@[t.skip(prefix.len() as int)]@
        } else {
            before[t]
        } by {
            if t == token@ {
                assert(tool_token(tools.keys()[i as int]) == t);
            } else {
                assert(previous.contains_key(t));
                if exists|j: int| 0 <= j < i && tool_token(#[trigger] tools.keys()[j]) == t {
                    let j = choose|j: int| 0 <= j < i && tool_token(#[trigger] tools.keys()[j]) == t;
                    assert(0 <= j < i + 1 && tool_token(tools.keys()[j]) == t);
                }
            }
        }
        i += 1;
    }
    proof {
        let now = texts(flat@);
        let added = tool_tokens(tools@);
        assert forall|t: Seq<char>| #[trigger] added.contains_key(t) <==> exists|j: int|
            0 <= j < n && tool_token(#[trigger] tools.keys()[j]) == t by {
            if added.contains_key(t) {
                let name = t.skip(prefix.len() as int);
                let j = choose|j: int|
                    0 <= j < tools.entries().len() && #[trigger] tools.keys()[j] == name;
                assert(t.take(prefix.len() as int) + name =~= t);
                assert(tool_token(tools.keys()[j]) == t);
            }
            if exists|j: int| 0 <= j < n && tool_token(#[trigger] tools.keys()[j]) == t {
                let j = choose|j: int| 0 <= j < n && tool_token(#[trigger] tools.keys()[j]) == t;
                assert(tools.has(tools.keys()[j]));
            }
        }
        assert(now =~= before.union_prefer_right(added));
    }
}

/// The flat tokens, where the binary and the image directory have the given paths.
pub fn flat_vocab(
    config: &HarnessConfig,
    environment: &Environment,
    binary: &Option<String>,
    image_dir: &Option<String>,
) -> (flat: StringMap<String>)
    ensures
        texts(flat@) == flat_tokens(
            *config,
            *environment,
            opt_text(*binary),
            opt_text(*image_dir),
        ),
{
    let mut flat: StringMap<String> = StringMap::new();
    assert(texts(flat@) =~= Map::<Seq<char>, Seq<char>>::empty());
    if let Some(path) = binary {
        put_token(&mut flat, "binary", path.as_str());
    }
    if let Some(path) = image_dir {
        put_token(&mut flat, "image_dir", path.as_str());
    }
    if let Some(workdir) = effective_setting(&environment.vm_workdir, &config.vm.workdir) {
        put_token(&mut flat, "vm.workdir", workdir.as_str());
        let harness_dir = match given_setting(&environment.harness_dir) {
            Some(dir) => dir,
            None => "vendor/fs-test-harness".to_string(),
        };
        let mut root = str_trim_end_char(workdir.as_str(), '/');
        root.append("/");
        root.append(str_trim_start_char(harness_dir.as_str(), '/').as_str());
        put_token(&mut flat, "vm.harness_root", root.as_str());
    }
    put_tool_tokens(&mut flat, &config.tools);
    flat
}

/// The image directory before it is resolved: the one of the environment, else
/// the configured one.
pub open spec fn raw_image_dir(config: HarnessConfig, environment: Environment) -> Option<
    Seq<char>,
> {
    match given(environment.image_dir) {
        Some(dir) => Some(dir),
        None => opt_text(config.vm.image_dir),
    }
}

/// Whether `dir` can be the image directory: it is given, and is resolved against
/// `consumer_root`.
pub open spec fn image_dir_may_be(
    config: HarnessConfig,
    environment: Environment,
    consumer_root: Seq<char>,
    dir: Option<Seq<char>>,
) -> bool {
    match (raw_image_dir(config, environment), dir) {
        (Some(raw), Some(dir)) => resolves_to(consumer_root, raw, dir),
        (None, None) => true,
        _ => false,
    }
}

/// Whether `flat` can be the flat tokens, where the binary has the path `binary`.
pub open spec fn vocab_may_be(
    config: HarnessConfig,
    environment: Environment,
    consumer_root: Seq<char>,
    binary: Option<Seq<char>>,
    flat: Map<Seq<char>, Seq<char>>,
) -> bool {
    exists|dir: Option<Seq<char>>|
        {
            &&& #[trigger] image_dir_may_be(config, environment, consumer_root, dir)
            &&& flat == flat_tokens(config, environment, binary, dir)
        }
}

/// Composes the flat tokens that every op can use: `{binary}`, `{image_dir}`,
/// `{vm.workdir}`, `{vm.harness_root}` and `{tools.<name>}`. An image directory
/// that is not absolute lies in `consumer_root`.
pub fn build_flat_vocab(
    config: &HarnessConfig,
    environment: &Environment,
    consumer_root: &str,
    binary: &Option<String>,
) -> (flat: StringMap<String>)
    ensures
        vocab_may_be(*config, *environment, consumer_root@, opt_text(*binary), texts(flat@)),
{
    let raw = match given_setting(&environment.image_dir) {
        Some(dir) => Some(dir),
        None => config.vm.image_dir.clone(),
    };
    assert(opt_text(raw) == raw_image_dir(*config, *environment));
    let image_dir = match &raw {
        Some(raw) => Some(resolve_against(consumer_root, raw.as_str())),
        None => None,
    };
    assert(image_dir_may_be(*config, *environment, consumer_root@, opt_text(image_dir)));
    flat_vocab(config, environment, binary, &image_dir)
}

/// The token `tools.<name>` stands for the tool that is declared under that name.
pub proof fn law_tool_token(
    config: HarnessConfig,
    environment: Environment,
    binary: Option<Seq<char>>,
    image_dir: Option<Seq<char>>,
    name: Seq<char>,
)
    requires
        config.tools@.contains_key(name),
    ensures
        flat_tokens(config, environment, binary, image_dir).contains_pair(
            tool_token(name),
            config.tools@[name]@,
        ),
{
    let prefix = "tools."@;
    assert(tool_token(name).take(prefix.len() as int) =~= prefix);
    assert(tool_token(name).skip(prefix.len() as int) =~= name);
    assert(tool_tokens(config.tools@).contains_key(tool_token(name)));
}

// ---------------------------------------------------------------------------
// The path of the binary
// ---------------------------------------------------------------------------

/// The path of the binary: absolute, or its place in `consumer_root`.
pub fn binary_candidate(binary: &str, consumer_root: &str) -> (path: String)
    ensures
        resolves_to(consumer_root@, binary@, path@),
{
    resolve_against(consumer_root, binary)
}

/// The name of the binary to look for where there is none under its own: on other
/// systems than Windows, that without `.exe`.
pub fn binary_alternative(binary: &str, windows: bool) -> (name: Option<String>)
    ensures
        name is Some <==> !windows && ends_with(binary@, ".exe"@),
        name matches Some(name) ==> name@ + ".exe"@ == binary@,
{
    if windows {
        None
    } else {
        let name = str_strip_suffix(binary, ".exe");
        proof {
            if name is Some {
                let n = binary@.len() - ".exe"@.len();
                assert(binary@.take(n) + binary@.skip(n) =~= binary@);
            }
        }
        name
    }
}

/// A path without the prefix of the verbatim form of Windows, except where it
/// names a network share.
pub open spec fn plain_path(path: Seq<char>, windows: bool) -> Seq<char> {
    if windows && begins_with(path, r"\\?\"@) && !begins_with(
        path.skip(r"\\?\"@.len() as int),
        "UNC\\"@,
    ) {
        path.skip(r"\\?\"@.len() as int)
    } else {
        path
    }
}

/// A path without the prefix of the verbatim form of Windows, which shells do not
/// read, except where it names a network share.
pub fn strip_windows_extended_prefix(path: String, windows: bool) -> (plain: String)
    ensures
        plain@ == plain_path(path@, windows),
{
    if windows {
        if let Some(rest) = str_strip_prefix(path.as_str(), r"\\?\") {
            if !str_begins_with(rest.as_str(), "UNC\\") {
                return rest;
            }
        }
    }
    path
}

/// The path of the binary: the canonical form of the candidate if it exists, else
/// that of the alternative if it exists, else the candidate as it is.
pub fn choose_binary_path(
    candidate: String,
    canonical: Option<String>,
    alternative: Option<String>,
    windows: bool,
) -> (path: String)
    ensures
        path@ == match (canonical, alternative) {
            (Some(canonical), _) => plain_path(canonical@, windows),
            (None, Some(alternative)) => plain_path(alternative@, windows),
            (None, None) => candidate@,
        },
{
    match (canonical, alternative) {
        (Some(canonical), _) => strip_windows_extended_prefix(canonical, windows),
        (None, Some(alternative)) => strip_windows_extended_prefix(alternative, windows),
        (None, None) => candidate,
    }
}

// ---------------------------------------------------------------------------
// The private key
// ---------------------------------------------------------------------------

/// Whether `key` can be the path of the private key: the one of the environment as it
/// is, else what the configured one stands for in `consumer_root`. An empty one counts
/// as not given.
pub open spec fn key_may_be(
    vm: VmSection,
    environment: Environment,
    consumer_root: Seq<char>,
    key: Option<Seq<char>>,
) -> bool {
    match given(environment.ssh_key) {
        Some(own) => key == Some(own),
        None => match (given(vm.ssh_key), key) {
            (Some(raw), Some(key)) => resolves_to(consumer_root, raw, key),
            (None, None) => true,
            _ => false,
        },
    }
}

/// The path of the private key: the one of the environment, else the configured one,
/// which lies in `consumer_root` unless it is absolute.
pub fn effective_key(vm: &VmSection, environment: &Environment, consumer_root: &str) -> (key: Option<
    String,
>)
    ensures
        key_may_be(*vm, *environment, consumer_root@, opt_text(key)),
{
    match given_setting(&environment.ssh_key) {
        Some(own) => Some(own),
        None => match given_setting(&vm.ssh_key) {
            Some(raw) => Some(resolve_against(consumer_root, raw.as_str())),
            None => None,
        },
    }
}

// ---------------------------------------------------------------------------
// Laws
// ---------------------------------------------------------------------------


/// The flat tokens are these and no others: `binary` and `image_dir` where they are given,
/// `vm.workdir` and `vm.harness_root` where a working directory is, and `tools.<name>` for
/// every tool, each with its value.
pub proof fn law_flat_tokens(
    config: HarnessConfig,
    environment: Environment,
    binary: Option<Seq<char>>,
    image_dir: Option<Seq<char>>,
    name: Seq<char>,
    other: Seq<char>,
)
    ensures
        ({
            let flat = flat_tokens(config, environment, binary, image_dir);
            let workdir = setting(environment.vm_workdir, config.vm.workdir);
            let dir = if given(environment.harness_dir) is Some {
                given(environment.harness_dir)->Some_0
            } else {
                "vendor/fs-test-harness"@
            };
            &&& flat.contains_key("binary"@) <==> binary is Some
            &&& binary matches Some(path) ==> flat["binary"@] == path
            &&& flat.contains_key("image_dir"@) <==> image_dir is Some
            &&& image_dir matches Some(path) ==> flat["image_dir"@] == path
            &&& flat.contains_key("vm.workdir"@) <==> workdir is Some
            &&& flat.contains_key("vm.harness_root"@) <==> workdir is Some
            &&& workdir matches Some(w) ==> flat["vm.workdir"@] == w && flat["vm.harness_root"@]
                == trim_end_char(w, '/') + "/"@ + trim_start_char(dir, '/')
            &&& flat.contains_key("tools."@ + name) <==> config.tools@.contains_key(name)
            &&& config.tools@.contains_key(name) ==> flat["tools."@ + name]
                == config.tools@[name]@
            &&& flat.contains_key(other) ==> other == "binary"@ || other == "image_dir"@ || other
                == "vm.workdir"@ || other == "vm.harness_root"@ || exists|tool: Seq<char>|
                other == #[trigger] ("tools."@ + tool)
        }),
{
    reveal_strlit("binary");
    reveal_strlit("image_dir");
    reveal_strlit("vm.workdir");
    reveal_strlit("vm.harness_root");
    reveal_strlit("tools.");
    let prefix = "tools."@;
    let b = "binary"@;
    let i = "image_dir"@;
    let w = "vm.workdir"@;
    let h = "vm.harness_root"@;
    assert(b.len() != i.len() && b.len() != w.len() && b.len() != h.len() && i.len() != w.len()
        && i.len() != h.len() && w.len() != h.len());
    assert(b.take(6)[0] == 'b' && i.take(6)[0] == 'i' && w.take(6)[0] == 'v' && h.take(6)[0]
        == 'v' && prefix[0] == 't');
    let token = prefix + name;
    assert(token.take(6) =~= prefix);
    assert(token.skip(6) =~= name);
    assert(token[0] == 't');
    assert(b[0] == 'b' && i[0] == 'i' && w[0] == 'v' && h[0] == 'v');
    if begins_with(other, prefix) {
        assert(other =~= prefix + other.skip(6));
    }
}

/// The image directory among the flat tokens is the one of the environment, or else the
/// configured one; one that begins with a slash is kept as it is where the root begins
/// with neither a drive nor a share, and a relative one is put behind the root.
pub proof fn law_image_dir(
    config: HarnessConfig,
    environment: Environment,
    consumer_root: Seq<char>,
    binary: Option<Seq<char>>,
    flat: Map<Seq<char>, Seq<char>>,
)
    requires
        vocab_may_be(config, environment, consumer_root, binary, flat),
    ensures
        ({
            let raw = if given(environment.image_dir) is Some {
                given(environment.image_dir)
            } else {
                opt_text(config.vm.image_dir)
            };
            let dir = flat["image_dir"@];
            &&& flat.contains_key("image_dir"@) <==> raw is Some
            &&& !is_verbatim(consumer_root) && raw is Some ==> {
                &&& is_relative(raw->Some_0) ==> adjoined(dir, consumer_root, raw->Some_0)
                &&& raw->Some_0.len() > 0 && raw->Some_0[0] == '/' && is_prefixless(consumer_root)
                    ==> dir == raw->Some_0
            }
        }),
{
    let dir = choose|dir: Option<Seq<char>>|
        {
            &&& #[trigger] image_dir_may_be(config, environment, consumer_root, dir)
            &&& flat == flat_tokens(config, environment, binary, dir)
        };
    law_flat_tokens(config, environment, binary, dir, Seq::empty(), Seq::empty());
}

/// On Windows the verbatim prefix goes, unless the path names a share; on other systems,
/// and without the prefix, a path stays as it is.
pub proof fn law_plain_path(path: Seq<char>, rest: Seq<char>)
    ensures
        plain_path(path, false) == path,
        (forall|r: Seq<char>| path != #[trigger] (r"\\?\"@ + r)) ==> plain_path(path, true)
            == path,
        (forall|r: Seq<char>| rest != #[trigger] ("UNC\\"@ + r)) ==> plain_path(
            r"\\?\"@ + rest,
            true,
        ) == rest,
        plain_path(r"\\?\"@ + ("UNC\\"@ + rest), true) == r"\\?\"@ + ("UNC\\"@ + rest),
{
    let mark = r"\\?\"@;
    let share = "UNC\\"@;
    let whole = mark + rest;
    let named = mark + (share + rest);
    assert(whole.take(mark.len() as int) =~= mark);
    assert(whole.skip(mark.len() as int) =~= rest);
    assert(named.take(mark.len() as int) =~= mark);
    assert(named.skip(mark.len() as int) =~= share + rest);
    assert((share + rest).take(share.len() as int) =~= share);
    if begins_with(path, mark) {
        assert(path =~= mark + path.skip(mark.len() as int));
    }
    if begins_with(rest, share) {
        assert(rest =~= share + rest.skip(share.len() as int));
    }
}

/// The private key is the one of the environment, as it is, or else the configured one; one
/// that begins with a slash is kept as it is where the root begins with neither a drive
/// nor a share, and a relative one is put behind the root.
pub proof fn law_private_key(
    vm: VmSection,
    environment: Environment,
    consumer_root: Seq<char>,
    key: Option<Seq<char>>,
)
    requires
        key_may_be(vm, environment, consumer_root, key),
    ensures
        given(environment.ssh_key) is Some ==> key == given(environment.ssh_key),
        given(environment.ssh_key) is None && given(vm.ssh_key) is None ==> key is None,
        given(environment.ssh_key) is None && given(vm.ssh_key) is Some ==> key is Some,
        given(environment.ssh_key) is None && given(vm.ssh_key) is Some && !is_verbatim(
            consumer_root,
        ) ==> {
            let raw = given(vm.ssh_key)->Some_0;
            &&& is_relative(raw) ==> adjoined(key->Some_0, consumer_root, raw)
            &&& raw[0] == '/' && is_prefixless(consumer_root) ==> key == Some(raw)
        },
{
}

/// Whatever the image directory is, the other flat tokens are these and no others.
pub proof fn law_vocab(
    config: HarnessConfig,
    environment: Environment,
    consumer_root: Seq<char>,
    binary: Option<Seq<char>>,
    flat: Map<Seq<char>, Seq<char>>,
    name: Seq<char>,
    other: Seq<char>,
)
    requires
        vocab_may_be(config, environment, consumer_root, binary, flat),
    ensures
        ({
            let workdir = setting(environment.vm_workdir, config.vm.workdir);
            let dir = if given(environment.harness_dir) is Some {
                given(environment.harness_dir)->Some_0
            } else {
                "vendor/fs-test-harness"@
            };
            &&& flat.contains_key("binary"@) <==> binary is Some
            &&& binary matches Some(path) ==> flat["binary"@] == path
            &&& flat.contains_key("vm.workdir"@) <==> workdir is Some
            &&& flat.contains_key("vm.harness_root"@) <==> workdir is Some
            &&& workdir matches Some(w) ==> flat["vm.workdir"@] == w && flat["vm.harness_root"@]
                == trim_end_char(w, '/') + "/"@ + trim_start_char(dir, '/')
            &&& flat.contains_key("tools."@ + name) <==> config.tools@.contains_key(name)
            &&& config.tools@.contains_key(name) ==> flat["tools."@ + name]
                == config.tools@[name]@
            &&& flat.contains_key(other) ==> other == "binary"@ || other == "image_dir"@ || other
                == "vm.workdir"@ || other == "vm.harness_root"@ || exists|tool: Seq<char>|
                other == #[trigger] ("tools."@ + tool)
        }),
{
    let dir = choose|dir: Option<Seq<char>>|
        {
            &&& #[trigger] image_dir_may_be(config, environment, consumer_root, dir)
            &&& flat == flat_tokens(config, environment, binary, dir)
        };
    law_flat_tokens(config, environment, binary, dir, name, other);
}

} // verus!

//! The matrix of scenarios, as `test-matrix.json` declares it.
use crate::json::{
    array_value, field, integer_json, integer_value, json_fields, jsons, no_fields, object_value,
    put_field, put_fields, string_value, strings_json, strings_value, Json, JsonValue,
};
use crate::string_map::StringMap;
use crate::text::{str_eq, views};
use vstd::prelude::*;

verus! {

/// One step of a recipe: a free-form object with at least an `op` field.
pub type Step = JsonValue;

/// One op of a scenario's op list: a free-form object with a `type` field.
pub type OpSpec = JsonValue;

/// How a scenario mounts its image.
#[derive(Clone, Debug)]
pub struct MountSpec {
    /// The mount command template.
    pub command: String,
    /// The line that the command prints when the mount is up.
    pub ready_line: String,
}

/// How a scenario verifies its image.
#[derive(Clone, Debug)]
pub struct PostVerifySpec {
    /// The command template.
    pub command: String,
    /// The exit code that is expected; 0 where none is given.
    pub expect_exit: Option<i32>,
}

/// A scenario of the matrix.
#[derive(Clone, Debug)]
pub struct Scenario {
    /// Path of the test image, relative to the image directory; empty where the
    /// scenario needs no image.
    pub image: String,
    /// How the scenario mounts its image; as the configuration says where none is given.
    pub mount: Option<MountSpec>,
    /// Arguments of the mount command. `--rw` among them makes the scenario read-write.
    pub mount_args: Vec<String>,
    /// The ops to run on the mounted volume, in order.
    pub ops: Vec<OpSpec>,
    /// The steps to run, in order.
    pub recipe: Vec<Step>,
    /// How the image is verified: as the configuration says where nothing is
    /// given, and not at all where `null` is.
    pub post_verify: Option<Option<PostVerifySpec>>,
    /// The fields that the harness does not know, by name.
    pub extra: StringMap<JsonValue>,
    /// Bookkeeping that the runner ignores.
    pub status: Option<String>,
    /// Bookkeeping that the runner ignores.
    pub attempts: Option<JsonValue>,
    /// Bookkeeping that the runner ignores.
    pub notes: Option<String>,
    /// Bookkeeping that the runner ignores.
    pub evidence_link: Option<String>,
}

impl Default for Scenario {
    fn default() -> (scenario: Self)
        ensures
            scenario.image@ == Seq::<char>::empty(),
            scenario.mount is None,
            scenario.mount_args@.len() == 0,
            scenario.ops@.len() == 0,
            scenario.recipe@.len() == 0,
            scenario.post_verify is None,
            scenario.extra@ == Map::<Seq<char>, JsonValue>::empty(),
            scenario.status is None,
            scenario.attempts is None,
            scenario.notes is None,
            scenario.evidence_link is None,
    {
        Scenario {
            image: String::new(),
            mount: None,
            mount_args: Vec::new(),
            ops: Vec::new(),
            recipe: Vec::new(),
            post_verify: None,
            extra: StringMap::new(),
            status: None,
            attempts: None,
            notes: None,
            evidence_link: None,
        }
    }
}

/// The JSON form of an optional mount specification.
pub open spec fn mount_json(mount: Option<MountSpec>) -> Json {
    match mount {
        Some(mount) => Json::Object(
            map![
                "command"@ => Json::String(mount.command@),
                "ready_line"@ => Json::String(mount.ready_line@),
            ],
        ),
        None => Json::Null,
    }
}

/// The JSON form of an optional exit code.
pub open spec fn exit_json(code: Option<i32>) -> Json {
    match code {
        Some(code) => integer_json(code as int),
        None => Json::Null,
    }
}

/// The JSON form of an optional verification.
pub open spec fn post_verify_json(post_verify: Option<Option<PostVerifySpec>>) -> Json {
    match post_verify {
        Some(Some(spec)) => Json::Object(
            map![
                "command"@ => Json::String(spec.command@),
                "expect_exit"@ => exit_json(spec.expect_exit),
            ],
        ),
        _ => Json::Null,
    }
}

impl Scenario {
    /// The fields that the harness knows, as JSON.
    pub open spec fn known_fields(self) -> Map<Seq<char>, Json> {
        Map::empty().insert("image"@, Json::String(self.image@)).insert(
            "mount"@,
            mount_json(self.mount),
        ).insert("mount_args"@, strings_json(views(self.mount_args@))).insert(
            "ops"@,
            Json::Array(jsons(self.ops@)),
        ).insert("recipe"@, Json::Array(jsons(self.recipe@))).insert(
            "post_verify"@,
            post_verify_json(self.post_verify),
        )
    }

    /// The scenario as JSON: the fields that the harness knows without the
    /// bookkeeping, and every field that it does not know.
    pub open spec fn json(self) -> Json {
        Json::Object(self.known_fields().union_prefer_right(json_fields(self.extra@)))
    }

    /// The scenario as JSON, which `{scenario.<path>}` placeholders walk.
    pub fn to_value(&self) -> (value: JsonValue)
        ensures
            value@ == self.json(),
    {
        let mut fields = no_fields();
        put_field(&mut fields, "image", string_value(self.image.as_str()));
        put_field(&mut fields, "mount", mount_value(&self.mount));
        put_field(&mut fields, "mount_args", strings_value(&self.mount_args));
        put_field(&mut fields, "ops", array_value(&self.ops));
        put_field(&mut fields, "recipe", array_value(&self.recipe));
        put_field(&mut fields, "post_verify", post_verify_value(&self.post_verify));
        put_fields(&mut fields, &self.extra);
        object_value(fields)
    }

    /// Whether there are steps to run.
    pub fn is_runnable(&self) -> (r: bool)
        ensures
            r == (self.recipe@.len() > 0),
    {
        self.recipe.len() > 0
    }
}

fn mount_value(mount: &Option<MountSpec>) -> (value: JsonValue)
    ensures
        value@ == mount_json(*mount),
{
    match mount {
        Some(mount) => {
            let mut fields = no_fields();
            put_field(&mut fields, "command", string_value(mount.command.as_str()));
            put_field(&mut fields, "ready_line", string_value(mount.ready_line.as_str()));
            object_value(fields)
        },
        None => JsonValue::Null,
    }
}

fn exit_value(code: &Option<i32>) -> (value: JsonValue)
    ensures
        value@ == exit_json(*code),
{
    match code {
        Some(code) => integer_value(*code),
        None => JsonValue::Null,
    }
}

fn post_verify_value(post_verify: &Option<Option<PostVerifySpec>>) -> (value: JsonValue)
    ensures
        value@ == post_verify_json(*post_verify),
{
    match post_verify {
        Some(Some(spec)) => {
            let mut fields = no_fields();
            put_field(&mut fields, "command", string_value(spec.command.as_str()));
            put_field(&mut fields, "expect_exit", exit_value(&spec.expect_exit));
            object_value(fields)
        },
        _ => JsonValue::Null,
    }
}

/// A field that the harness does not know comes out as it was declared.
pub proof fn law_unknown_fields_kept(scenario: Scenario, name: Seq<char>)
    requires
        scenario.extra@.contains_key(name),
    ensures
        crate::json::field(scenario.json(), name) == Some(scenario.extra@[name]@),
{
}

/// The bookkeeping does not show: two scenarios that differ in it alone have the
/// same JSON.
pub proof fn law_bookkeeping_not_emitted(a: Scenario, b: Scenario)
    requires
        a.image@ == b.image@,
        a.mount == b.mount,
        views(a.mount_args@) == views(b.mount_args@),
        jsons(a.ops@) == jsons(b.ops@),
        jsons(a.recipe@) == jsons(b.recipe@),
        a.post_verify == b.post_verify,
        json_fields(a.extra@) == json_fields(b.extra@),
    ensures
        a.json() == b.json(),
{
}

/// Scenarios by name, in the order of their declaration.
#[derive(Debug)]
pub struct ScenarioMap {
    entries: Vec<(String, Scenario)>,
}

impl ScenarioMap {
    #[verifier::type_invariant]
    spec fn distinct(self) -> bool {
        self.names().no_duplicates()
    }

    /// The scenarios with their names, in the order of their declaration.
    pub closed spec fn entries(self) -> Seq<(String, Scenario)> {
        self.entries@
    }

    /// The names, in the order of their declaration.
    pub open spec fn names(self) -> Seq<Seq<char>> {
        Seq::new(self.entries().len(), |i: int| self.entries()[i].0@)
    }

    /// The scenarios, in the order of their declaration.
    pub open spec fn list(self) -> Seq<Scenario> {
        Seq::new(self.entries().len(), |i: int| self.entries()[i].1)
    }

    /// No scenarios.
    pub fn new() -> (map: Self)
        ensures
            map.entries().len() == 0,
    {
        ScenarioMap { entries: Vec::new() }
    }

    /// The number of scenarios.
    pub fn len(&self) -> (n: usize)
        ensures
            n == self.entries().len(),
            self.names().no_duplicates(),
    {
        proof {
            use_type_invariant(self);
        }
        self.entries.len()
    }

    /// The name of the `i`th scenario.
    pub fn name_at(&self, i: usize) -> (name: &String)
        requires
            i < self.entries().len(),
        ensures
            *name == self.entries()[i as int].0,
    {
        &self.entries[i].0
    }

    /// The `i`th scenario.
    pub fn scenario_at(&self, i: usize) -> (scenario: &Scenario)
        requires
            i < self.entries().len(),
        ensures
            *scenario == self.entries()[i as int].1,
    {
        &self.entries[i].1
    }

    /// The place of the scenario `name`.
    fn place(&self, name: &str) -> (place: Option<usize>)
        ensures
            match place {
                Some(i) => i < self.entries().len() && self.names()[i as int] == name@,
                None => !self.names().contains(name@),
            },
    {
        let mut i: usize = 0;
        while i < self.entries.len()
            invariant
                i <= self.entries@.len(),
                forall|j: int| 0 <= j < i ==> self.names()[j] != name@,
            decreases self.entries@.len() - i,
        {
            if str_eq(self.entries[i].0.as_str(), name) {
                return Some(i);
            }
            i += 1;
        }
        None
    }

    /// The scenario `name`, if there is one.
    pub fn get(&self, name: &str) -> (scenario: Option<&Scenario>)
        ensures
            match scenario {
                Some(s) => exists|i: int|
                    0 <= i < self.entries().len() && self.names()[i] == name@ && *s
                        == #[trigger] self.entries()[i].1,
                None => !self.names().contains(name@),
            },
    {
        match self.place(name) {
            Some(i) => {
                assert(self.entries()[i as int].1 == self.entries@[i as int].1);
                Some(&self.entries[i].1)
            },
            None => None,
        }
    }

    /// Whether there is a scenario `name`.
    pub fn contains_key(&self, name: &str) -> (r: bool)
        ensures
            r == self.names().contains(name@),
    {
        match self.place(name) {
            Some(i) => {
                assert(self.names()[i as int] == name@);
                true
            },
            None => false,
        }
    }

    /// Declares the scenario `name`. A scenario that was declared under that name
    /// before gives its place to this one.
    pub fn insert(&mut self, name: String, scenario: Scenario)
        ensures
            old(self).names().contains(name@) ==> {
                &&& final(self).names() == old(self).names()
                &&& final(self).list() == old(self).list().update(
                    old(self).names().index_of(name@),
                    scenario,
                )
            },
            !old(self).names().contains(name@) ==> {
                &&& final(self).names() == old(self).names().push(name@)
                &&& final(self).list() == old(self).list().push(scenario)
            },
    {
        proof {
            use_type_invariant(&*self);
        }
        let place = self.place(name.as_str());
        let ghost before = *self;
        let ghost key = name@;
        let mut entries: Vec<(String, Scenario)> = Vec::new();
        std::mem::swap(&mut entries, &mut self.entries);
        match place {
            Some(i) => {
                let _ = entries.remove(i);
                entries.insert(i, (name, scenario));
                proof {
                    let after = ScenarioMap { entries };
                    assert(before.names()[i as int] == key);
                    assert(after.names() =~= before.names());
                    let k = before.names().index_of(key);
                    assert(before.names()[k] == key);
                    assert(after.list() =~= before.list().update(k, scenario));
                }
            },
            None => {
                entries.push((name, scenario));
                proof {
                    let after = ScenarioMap { entries };
                    assert(after.names() =~= before.names().push(key));
                    assert(after.list() =~= before.list().push(scenario));
                    assert(after.names().no_duplicates());
                }
            },
        }
        self.entries = entries;
    }

    /// The scenarios with their names, in the order of their declaration.
    pub fn into_entries(self) -> (entries: Vec<(String, Scenario)>)
        ensures
            entries@ == self.entries(),
            self.names().no_duplicates(),
    {
        proof {
            use_type_invariant(&self);
        }
        self.entries
    }
}

impl Clone for ScenarioMap {
    fn clone(&self) -> (map: Self)
        ensures
            map.names() == self.names(),
            map.list().len() == self.list().len(),
            forall|i: int|
                #![trigger map.list()[i]]
                0 <= i < self.list().len() ==> cloned(self.list()[i], map.list()[i]),
    {
        proof {
            use_type_invariant(self);
        }
        let mut entries: Vec<(String, Scenario)> = Vec::new();
        let mut i: usize = 0;
        while i < self.entries.len()
            invariant
                i == entries@.len() <= self.entries@.len(),
                forall|j: int| 0 <= j < i ==> #[trigger] entries@[j].0 == self.entries@[j].0,
                forall|j: int|
                    #![trigger entries@[j]]
                    0 <= j < i ==> cloned(self.entries@[j].1, entries@[j].1),
            decreases self.entries@.len() - i,
        {
            entries.push((self.entries[i].0.clone(), self.entries[i].1.clone()));
            i += 1;
        }
        assert(ScenarioMap { entries }.names() =~= self.names());
        ScenarioMap { entries }
    }
}

/// A matrix.
#[derive(Clone, Debug)]
pub struct Matrix {
    /// Free-form.
    pub format: Option<String>,
    /// Free-form.
    pub doc: Option<String>,
    /// The scenarios by name, in the order of their declaration.
    pub scenarios: ScenarioMap,
}

// ---------------------------------------------------------------------------
// Laws
// ---------------------------------------------------------------------------


/// The JSON of a scenario has each field that the harness knows, as it is declared, unless
/// a field of that name was declared that it does not know; and it has no others.
pub proof fn law_known_fields(scenario: Scenario, other: Seq<char>)
    ensures
        ({
            let extra = scenario.extra@;
            let json = scenario.json();
            &&& !extra.contains_key("image"@) ==> field(json, "image"@) == Some(
                Json::String(scenario.image@),
            )
            &&& !extra.contains_key("mount"@) ==> field(json, "mount"@) == Some(
                mount_json(scenario.mount),
            )
            &&& !extra.contains_key("mount_args"@) ==> field(json, "mount_args"@) == Some(
                strings_json(views(scenario.mount_args@)),
            )
            &&& !extra.contains_key("ops"@) ==> field(json, "ops"@) == Some(
                Json::Array(jsons(scenario.ops@)),
            )
            &&& !extra.contains_key("recipe"@) ==> field(json, "recipe"@) == Some(
                Json::Array(jsons(scenario.recipe@)),
            )
            &&& !extra.contains_key("post_verify"@) ==> field(json, "post_verify"@) == Some(
                post_verify_json(scenario.post_verify),
            )
            &&& extra.contains_key(other) ==> field(json, other) == Some(extra[other]@)
            &&& field(json, other) is Some ==> extra.contains_key(other) || other == "image"@
                || other == "mount"@ || other == "mount_args"@ || other == "ops"@ || other
                == "recipe"@ || other == "post_verify"@
        }),
{
    reveal_strlit("image");
    reveal_strlit("mount");
    reveal_strlit("mount_args");
    reveal_strlit("ops");
    reveal_strlit("recipe");
    reveal_strlit("post_verify");
    assert("image"@[0] != "mount"@[0]);
    assert("image"@.len() == 5 && "mount"@.len() == 5 && "mount_args"@.len() == 10
        && "ops"@.len() == 3 && "recipe"@.len() == 6 && "post_verify"@.len() == 11);
}

/// A mount and a verification show their fields, and what is not there is null.
pub proof fn law_parts_of_a_scenario(mount: MountSpec, spec: PostVerifySpec)
    ensures
        mount_json(None) == Json::Null,
        field(mount_json(Some(mount)), "command"@) == Some(Json::String(mount.command@)),
        field(mount_json(Some(mount)), "ready_line"@) == Some(Json::String(mount.ready_line@)),
        post_verify_json(None) == Json::Null,
        post_verify_json(Some(None)) == Json::Null,
        field(post_verify_json(Some(Some(spec))), "command"@) == Some(
            Json::String(spec.command@),
        ),
        spec.expect_exit is None ==> field(post_verify_json(Some(Some(spec))), "expect_exit"@)
            == Some(Json::Null),
        spec.expect_exit matches Some(code) ==> field(
            post_verify_json(Some(Some(spec))),
            "expect_exit"@,
        ) == Some(integer_json(code as int)),
        mount_json(Some(mount)) matches Json::Object(fields) && fields.dom() == set![
            "command"@,
            "ready_line"@,
        ],
        post_verify_json(Some(Some(spec))) matches Json::Object(fields) && fields.dom() == set![
            "command"@,
            "expect_exit"@,
        ],
{
    reveal_strlit("command");
    reveal_strlit("ready_line");
    reveal_strlit("expect_exit");
    assert("command"@.len() != "ready_line"@.len() && "command"@.len() != "expect_exit"@.len());
    assert(mount_json(Some(mount))->Object_0.dom() =~= set!["command"@, "ready_line"@]);
    assert(post_verify_json(Some(Some(spec)))->Object_0.dom() =~= set![
        "command"@,
        "expect_exit"@,
    ]);
}

/// The names and the scenarios of a matrix are those of its entries, in their order.
pub proof fn law_scenario_map(map: ScenarioMap)
    ensures
        map.names().len() == map.entries().len(),
        map.list().len() == map.entries().len(),
        forall|i: int|
            0 <= i < map.entries().len() ==> #[trigger] map.names()[i] == map.entries()[i].0@,
        forall|i: int|
            0 <= i < map.entries().len() ==> #[trigger] map.list()[i] == map.entries()[i].1,
{
}

} // verus!

//! The run of a matrix: which scenarios run, how many at a time, and how often.
use crate::config::{MaxParallel, VmSection};
use crate::invocation::{
    effective_setting, setting, ssh_call, ssh_invocation, Environment, Invocation,
    InvocationRecord,
};
use crate::matrix::Scenario;
use crate::numeral::{decimal, numeral_value, parse_usize, write_decimal};
use crate::paths::{adjoined, is_file_name, is_verbatim, joins_to, path_join};
use crate::sorting::{sort_by_name, Named};
use crate::text::{
    ends_with, law_found_parts_are_there, law_parts_are_found, lemma_after_last, occurs_in,
    opt_text, str_contains, str_eq, str_trim, text_lt, trimmed, views,
};
use crate::vocab::{effective_key, key_may_be};
use vstd::prelude::*;

verus! {

// ---------------------------------------------------------------------------
// How many scenarios run at a time
// ---------------------------------------------------------------------------

/// The state of a counting semaphore.
#[derive(Debug)]
pub struct SemState {
    available: usize,
    capacity: usize,
}

/// The model of a counting semaphore.
#[verifier::ext_equal]
pub struct Permits {
    /// The permits that can be had now.
    pub available: nat,
    /// The permits in all.
    pub capacity: nat,
}

impl Permits {
    /// The state after a permit was taken, if one could be had.
    pub open spec fn acquired(self) -> Permits {
        if self.available == 0 {
            self
        } else {
            Permits { available: (self.available - 1) as nat, ..self }
        }
    }

    /// The state after a permit was given back. There are never more than in all.
    pub open spec fn released(self) -> Permits {
        if self.available < self.capacity {
            Permits { available: self.available + 1, ..self }
        } else {
            self
        }
    }
}

impl View for SemState {
    type V = Permits;

    closed spec fn view(&self) -> Permits {
        Permits { available: self.available as nat, capacity: self.capacity as nat }
    }
}

impl SemState {
    #[verifier::type_invariant]
    spec fn bounded(self) -> bool {
        self.available <= self.capacity
    }

    /// A semaphore of which all permits can be had.
    pub fn new(permits: usize) -> (state: Self)
        ensures
            state@ == (Permits { available: permits as nat, capacity: permits as nat }),
    {
        SemState { available: permits, capacity: permits }
    }

    /// Takes a permit, if one can be had.
    pub fn try_acquire(&mut self) -> (taken: bool)
        ensures
            taken == (old(self)@.available > 0),
            final(self)@ == old(self)@.acquired(),
            final(self)@.available <= final(self)@.capacity,
    {
        proof {
            use_type_invariant(&*self);
        }
        if self.available == 0 {
            false
        } else {
            self.available = self.available - 1;
            true
        }
    }

    /// Gives a permit back. There are never more than in all.
    pub fn release(&mut self)
        ensures
            final(self)@ == old(self)@.released(),
            final(self)@.available <= final(self)@.capacity,
    {
        proof {
            use_type_invariant(&*self);
        }
        if self.available < self.capacity {
            self.available = self.available + 1;
        }
    }
}

/// The number of permits: `wanted`, but at least one and at most 24, which is the
/// number of drive letters behind `A` and `B`.
pub fn permit_count(wanted: usize) -> (permits: usize)
    ensures
        1 <= permits <= 24,
        1 <= wanted <= 24 ==> permits == wanted,
        wanted < 1 ==> permits == 1,
        wanted > 24 ==> permits == 24,
{
    if wanted < 1 {
        1
    } else if wanted > 24 {
        24
    } else {
        wanted
    }
}

/// How the number of scenarios that run at a time is found.
#[derive(Debug)]
pub enum Parallelism {
    /// It is given.
    Fixed(usize),
    /// It is the number of free drive letters on the VM.
    DriveLetters,
    /// It is one, for the rule that is named is not known; this message says so.
    Unknown(String),
}

/// How the number of scenarios that run at a time is found.
pub fn resolve_max_parallel(max_parallel: &MaxParallel) -> (r: Parallelism)
    ensures
        match max_parallel {
            MaxParallel::Explicit(n) => r == Parallelism::Fixed(*n),
            MaxParallel::Named(name) => if name@ == "drive-letters"@ {
                r == Parallelism::DriveLetters
            } else {
                r matches Parallelism::Unknown(message) && message@
                    == "runner: unknown max_parallel value '"@ + name@ + "', defaulting to 1"@
            },
        },
{
    match max_parallel {
        MaxParallel::Explicit(n) => Parallelism::Fixed(*n),
        MaxParallel::Named(name) => if str_eq(name.as_str(), "drive-letters") {
            Parallelism::DriveLetters
        } else {
            let mut message = "runner: unknown max_parallel value '".to_string();
            message.append(name.as_str());
            message.append("', defaulting to 1");
            Parallelism::Unknown(message)
        },
    }
}

/// The call that asks the VM `host` for the number of its free drive letters.
pub open spec fn drive_letter_call(host: Seq<char>, key: Option<Seq<char>>) -> InvocationRecord {
    ssh_call(
        15,
        10,
        2,
        key,
        host,
        "powershell -NoProfile -NonInteractive -Command (26 - (Get-PSDrive -PSProvider FileSystem | Measure-Object).Count)"@,
    )
}

/// The call that asks the VM `host` for the number of its free drive letters, with the
/// private key `key` if one is given.
pub fn drive_letter_invocation(host: &str, key: &Option<String>) -> (call: Invocation)
    ensures
        call@ == drive_letter_call(host@, opt_text(*key)),
{
    ssh_invocation(
        15,
        10,
        2,
        key,
        host,
        "powershell -NoProfile -NonInteractive -Command (26 - (Get-PSDrive -PSProvider FileSystem | Measure-Object).Count)",
    )
}

/// The call that asks the VM for the number of its free drive letters; none where
/// no VM is given. A configured private key lies in `consumer_root`, unless its path
/// is absolute.
pub fn drive_letter_query(vm: &VmSection, environment: &Environment, consumer_root: &str) -> (query:
    Option<Invocation>)
    ensures
        match (setting(environment.vm_host, vm.host), query) {
            (Some(host), Some(call)) => exists|key: Option<Seq<char>>|
                {
                    &&& #[trigger] key_may_be(*vm, *environment, consumer_root@, key)
                    &&& call@ == drive_letter_call(host, key)
                },
            (None, None) => true,
            _ => false,
        },
{
    match effective_setting(&environment.vm_host, &vm.host) {
        Some(host) => {
            let key = effective_key(vm, environment, consumer_root);
            Some(drive_letter_invocation(host.as_str(), &key))
        },
        None => None,
    }
}

/// The number of free drive letters that the VM replied, where it did and the
/// number is positive; else one. The message says which.
pub fn drive_letter_count(reply: Option<&str>) -> (r: (usize, String))
    ensures
        match reply {
            Some(reply) => match numeral_value(trimmed(reply@)) {
                Some(n) if 0 < n <= usize::MAX => r.0 == n && r.1@ == "runner: "@ + decimal(n)
                    + " drive letters available on VM — using as max_parallel"@,
                _ => r.0 == 1 && r.1@ == "runner: unexpected drive-letter count '"@ + trimmed(
                    reply@,
                ) + "' — defaulting max_parallel to 1"@,
            },
            None => r.0 == 1 && r.1@
                == "runner: could not query VM drive letters — defaulting max_parallel to 1"@,
        },
{
    match reply {
        Some(reply) => {
            let count = str_trim(reply);
            if let Some(n) = parse_usize(count.as_str()) {
                if n > 0 {
                    let mut message = "runner: ".to_string();
                    message.append(write_decimal(n as u64).as_str());
                    message.append(" drive letters available on VM — using as max_parallel");
                    return (n, message);
                }
            }
            let mut message = "runner: unexpected drive-letter count '".to_string();
            message.append(count.as_str());
            message.append("' — defaulting max_parallel to 1");
            (1, message)
        },
        None => (
            1,
            "runner: could not query VM drive letters — defaulting max_parallel to 1".to_string(),
        ),
    }
}

// ---------------------------------------------------------------------------
// Which scenarios run
// ---------------------------------------------------------------------------

/// Whether the scenario `name` is selected: there is no filter, or the name is the
/// filter or, unless `exact`, has it in it.
pub open spec fn is_selected(name: Seq<char>, filter: Seq<char>, exact: bool) -> bool {
    if filter.len() == 0 {
        true
    } else if exact {
        name == filter
    } else {
        occurs_in(name, filter)
    }
}

/// Whether the scenario `name` is selected.
pub fn selected(name: &str, filter: &str, exact: bool) -> (r: bool)
    ensures
        r == is_selected(name@, filter@, exact),
        filter@.len() == 0 ==> r,
        filter@.len() > 0 && exact ==> r == (name@ == filter@),
        filter@.len() > 0 && !exact ==> (r <==> exists|a: Seq<char>, b: Seq<char>|
            name@ == #[trigger] (a + filter@ + b)),
{
    proof {
        law_selection(name@, filter@);
    }
    if filter.is_empty() {
        true
    } else if exact {
        str_eq(name, filter)
    } else {
        str_contains(name, filter)
    }
}

/// Whether the selected scenarios that can run, or those that cannot, have `entry`
/// among them.
pub open spec fn falls_under(
    entry: (String, Scenario),
    filter: Seq<char>,
    exact: bool,
    runnable: bool,
) -> bool {
    is_selected(entry.0@, filter, exact) && (entry.1.recipe@.len() > 0) == runnable
}

proof fn lemma_filter_push<T>(list: Seq<T>, item: T, keep: spec_fn(T) -> bool)
    ensures
        list.push(item).filter(keep) == if keep(item) {
            list.filter(keep).push(item)
        } else {
            list.filter(keep)
        },
{
    reveal(Seq::filter);
    assert(list.push(item).drop_last() =~= list);
}

/// The selected scenarios: those with a recipe, which run, and the others, which
/// are listed as ignored. Either keep their order.
pub fn partition_scenarios(
    entries: Vec<(String, Scenario)>,
    filter: &str,
    exact: bool,
) -> (parts: (Vec<(String, Scenario)>, Vec<(String, Scenario)>))
    ensures
        parts.0@ == entries@.filter(
            |entry: (String, Scenario)| falls_under(entry, filter@, exact, true),
        ),
        parts.1@ == entries@.filter(
            |entry: (String, Scenario)| falls_under(entry, filter@, exact, false),
        ),
{
    let ghost all = entries@;
    let ghost runs = |entry: (String, Scenario)| falls_under(entry, filter@, exact, true);
    let ghost waits = |entry: (String, Scenario)| falls_under(entry, filter@, exact, false);
    let mut rest = entries;
    let mut runnable: Vec<(String, Scenario)> = Vec::new();
    let mut ignored: Vec<(String, Scenario)> = Vec::new();
    let ghost mut done: int = 0;
    proof {
        reveal(Seq::filter);
        assert(all.skip(0) =~= all);
        assert(all.take(0).filter(runs) =~= runnable@);
        assert(all.take(0).filter(waits) =~= ignored@);
    }
    while rest.len() > 0
        invariant
            0 <= done,
            done + rest@.len() == all.len(),
            rest@ == all.skip(done),
            runs == (|entry: (String, Scenario)| falls_under(entry, filter@, exact, true)),
            waits == (|entry: (String, Scenario)| falls_under(entry, filter@, exact, false)),
            runnable@ == all.take(done).filter(runs),
            ignored@ == all.take(done).filter(waits),
        decreases rest@.len(),
    {
        let entry = rest.remove(0);
        proof {
            assert(entry == all[done]);
            assert(all.take(done + 1) =~= all.take(done).push(entry));
            lemma_filter_push(all.take(done), entry, runs);
            lemma_filter_push(all.take(done), entry, waits);
            assert(rest@ =~= all.skip(done + 1));
            done = done + 1;
        }
        if selected(entry.0.as_str(), filter, exact) {
            if entry.1.is_runnable() {
                runnable.push(entry);
            } else {
                ignored.push(entry);
            }
        }
    }
    assert(all.take(done) =~= all);
    (runnable, ignored)
}

// ---------------------------------------------------------------------------
// How often scenarios run
// ---------------------------------------------------------------------------

/// How often a scenario runs before it counts as broken.
pub const MAX_RETRIES: u8 = 5;

/// The state of the passes over the scenarios.
#[verifier::ext_equal]
pub struct PassState {
    /// The scenarios that the current pass runs.
    pub pending: Seq<Seq<char>>,
    /// The passes that came before the current one.
    pub attempt: nat,
    /// Whether there are no more passes.
    pub over: bool,
    /// The scenarios that failed in every pass.
    pub broken: Seq<Seq<char>>,
}

/// Those of `names` that are in `failed`.
pub open spec fn still_failing(names: Seq<Seq<char>>, failed: Seq<Seq<char>>) -> Seq<Seq<char>> {
    names.filter(|name: Seq<char>| failed.contains(name))
}

/// The state before the first pass over the scenarios `names`.
pub open spec fn first_pass(names: Seq<Seq<char>>) -> PassState {
    PassState { pending: names, attempt: 0, over: false, broken: Seq::empty() }
}

/// The state after a pass in which the scenarios `failed` failed: another pass over
/// them, unless there are none or this was the last.
pub open spec fn after_pass(state: PassState, failed: Seq<Seq<char>>) -> PassState {
    let left = still_failing(state.pending, failed);
    if state.over {
        state
    } else if left.len() == 0 {
        PassState { pending: left, over: true, ..state }
    } else if state.attempt + 1 >= MAX_RETRIES {
        PassState { pending: Seq::empty(), over: true, broken: left, ..state }
    } else {
        PassState { pending: left, attempt: state.attempt + 1, ..state }
    }
}

/// The state after passes in which the scenarios `failures[0]`, `failures[1]` and so
/// on failed.
pub open spec fn after_passes(names: Seq<Seq<char>>, failures: Seq<Seq<Seq<char>>>) -> PassState
    decreases failures.len(),
{
    if failures.len() == 0 {
        first_pass(names)
    } else {
        after_pass(after_passes(names, failures.drop_last()), failures.last())
    }
}

/// What comes after a pass.
#[derive(Clone, Copy, Debug, PartialEq, Eq, Structural)]
pub enum PassEnd {
    /// Nothing: no scenario failed.
    AllPassed,
    /// A pass over the scenarios that failed.
    Retry,
    /// Nothing: the scenarios that failed have done so in every pass.
    GaveUp,
}

/// The passes over the scenarios.
#[derive(Debug)]
pub struct Passes {
    pending: Vec<String>,
    attempt: u8,
    over: bool,
    broken: Vec<String>,
}

impl View for Passes {
    type V = PassState;

    closed spec fn view(&self) -> PassState {
        PassState {
            pending: views(self.pending@),
            attempt: self.attempt as nat,
            over: self.over,
            broken: views(self.broken@),
        }
    }
}

/// Whether `names` stand in ascending order.
pub open spec fn in_order(names: Seq<Seq<char>>) -> bool {
    forall|i: int, j: int|
        0 <= i < j < names.len() ==> !text_lt(#[trigger] names[j], #[trigger] names[i])
}

impl Passes {
    #[verifier::type_invariant]
    spec fn bounded(self) -> bool {
        &&& self.attempt < MAX_RETRIES
        &&& in_order(views(self.pending@))
        &&& !self.over ==> self.broken@.len() == 0
    }

    /// The first pass over the scenarios `names`, in the order of the names.
    pub fn new(names: Vec<String>) -> (passes: Self)
        ensures
            passes@ == first_pass(passes@.pending),
            in_order(passes@.pending),
            passes@.pending.to_multiset() == views(names@).to_multiset(),
    {
        let ghost unsorted = names@;
        let pending = sort_by_name(names);
        let broken: Vec<String> = Vec::new();
        proof {
            assert(views(broken@) =~= Seq::<Seq<char>>::empty());
            lemma_views_multiset(pending@, unsorted);
            assert forall|i: int, j: int| 0 <= i < j < pending@.len() implies !text_lt(
                #[trigger] views(pending@)[j],
                #[trigger] views(pending@)[i],
            ) by {
                assert(!text_lt(pending@[j].key(), pending@[i].key()));
            }
        }
        Passes { pending, attempt: 0, over: false, broken }
    }

    /// The scenarios that the current pass runs, in the order of their names.
    pub fn pending(&self) -> (names: &Vec<String>)
        ensures
            views(names@) == self@.pending,
            in_order(self@.pending),
    {
        proof {
            use_type_invariant(self);
        }
        &self.pending
    }

    /// The passes that came before the current one.
    pub fn attempt(&self) -> (n: u8)
        ensures
            n == self@.attempt,
            n < MAX_RETRIES,
    {
        proof {
            use_type_invariant(self);
        }
        self.attempt
    }

    /// Whether there are no more passes.
    pub fn is_over(&self) -> (r: bool)
        ensures
            r == self@.over,
    {
        self.over
    }

    /// The scenarios that failed in every pass.
    pub fn broken(&self) -> (names: &Vec<String>)
        ensures
            views(names@) == self@.broken,
    {
        &self.broken
    }

    /// Ends the current pass, in which the scenarios `failed` failed.
    pub fn end_pass(&mut self, failed: &Vec<String>) -> (end: PassEnd)
        ensures
            final(self)@ == after_pass(old(self)@, views(failed@)),
            !old(self)@.over ==> end == if !final(self)@.over {
                PassEnd::Retry
            } else if final(self)@.broken.len() == 0 {
                PassEnd::AllPassed
            } else {
                PassEnd::GaveUp
            },
            old(self)@.over ==> end == if old(self)@.broken.len() == 0 {
                PassEnd::AllPassed
            } else {
                PassEnd::GaveUp
            },
    {
        proof {
            use_type_invariant(&*self);
        }
        if self.over {
            return if self.broken.len() == 0 {
                PassEnd::AllPassed
            } else {
                PassEnd::GaveUp
            };
        }
        let left = retained(&self.pending, failed);
        proof {
            lemma_filter_in_order(
                views(self.pending@),
                |name: Seq<char>| views(failed@).contains(name),
            );
        }
        let none_left = left.len() == 0;
        if none_left {
            self.pending = left;
            self.over = true;
            PassEnd::AllPassed
        } else if self.attempt + 1 >= MAX_RETRIES {
            self.pending = Vec::new();
            assert(self@.pending =~= Seq::<Seq<char>>::empty());
            self.over = true;
            self.broken = left;
            PassEnd::GaveUp
        } else {
            self.pending = left;
            self.attempt = self.attempt + 1;
            PassEnd::Retry
        }
    }

    /// The exit code of the run: 101 where a scenario failed in every pass.
    pub fn exit_code(&self) -> (code: i32)
        ensures
            code == if self@.broken.len() == 0 {
                0i32
            } else {
                101i32
            },
    {
        if self.broken.len() == 0 {
            0
        } else {
            101
        }
    }
}

proof fn lemma_views_multiset(a: Seq<String>, b: Seq<String>)
    requires
        a.to_multiset() == b.to_multiset(),
    ensures
        views(a).to_multiset() == views(b).to_multiset(),
    decreases a.len(),
{
    broadcast use vstd::seq_lib::group_to_multiset_ensures;

    if a.len() == 0 {
        assert(b.len() == b.to_multiset().len() == 0);
        assert(views(a) =~= views(b));
    } else {
        let x = a.last();
        let n = a.len() - 1;
        assert(a.contains(a[n]));
        assert(b.to_multiset().count(x) > 0);
        assert(b.contains(x));
        let k = choose|k: int| 0 <= k < b.len() && b[k] == x;
        let shorter = b.remove(k);
        assert(a.remove(n) =~= a.drop_last());
        assert(a.drop_last().to_multiset() =~= shorter.to_multiset());
        lemma_views_multiset(a.drop_last(), shorter);
        assert(views(a) =~= views(a.drop_last()).push(x@));
        assert(views(b) =~= views(shorter).insert(k, x@));
    }
}

fn is_among(name: &str, list: &Vec<String>) -> (r: bool)
    ensures
        r == views(list@).contains(name@),
{
    let mut i: usize = 0;
    while i < list.len()
        invariant
            i <= list@.len(),
            forall|j: int| 0 <= j < i ==> views(list@)[j] != name@,
        decreases list@.len() - i,
    {
        if str_eq(list[i].as_str(), name) {
            assert(views(list@)[i as int] == name@);
            return true;
        }
        i += 1;
    }
    false
}

fn retained(names: &Vec<String>, failed: &Vec<String>) -> (left: Vec<String>)
    ensures
        views(left@) == still_failing(views(names@), views(failed@)),
{
    let ghost keep = |name: Seq<char>| views(failed@).contains(name);
    let ghost all = views(names@);
    let mut left: Vec<String> = Vec::new();
    let mut i: usize = 0;
    proof {
        reveal(Seq::filter);
        assert(views(left@) =~= all.take(0).filter(keep));
    }
    while i < names.len()
        invariant
            i <= names@.len(),
            all == views(names@),
            keep == (|name: Seq<char>| views(failed@).contains(name)),
            views(left@) == all.take(i as int).filter(keep),
        decreases names@.len() - i,
    {
        let ghost before = left@;
        proof {
            assert(all.take(i + 1) =~= all.take(i as int).push(names@[i as int]@));
            lemma_filter_push(all.take(i as int), names@[i as int]@, keep);
        }
        if is_among(names[i].as_str(), failed) {
            left.push(names[i].clone());
            assert(views(left@) =~= views(before).push(names@[i as int]@));
        }
        i += 1;
    }
    assert(all.take(i as int) =~= all);
    left
}

proof fn lemma_filter_kept<T>(list: Seq<T>, keep: spec_fn(T) -> bool, i: int)
    requires
        0 <= i < list.filter(keep).len(),
    ensures
        keep(list.filter(keep)[i]),
        list.contains(list.filter(keep)[i]),
    decreases list.len(),
{
    reveal(Seq::filter);
    if list.len() > 0 {
        let front = list.drop_last().filter(keep);
        if i < front.len() {
            lemma_filter_kept(list.drop_last(), keep, i);
            let k = choose|k: int| 0 <= k < list.drop_last().len() && list.drop_last()[k] == front[i];
            assert(list[k] == front[i]);
        } else {
            assert(list[list.len() - 1] == list.last());
        }
    }
}

proof fn lemma_filter_in_order(names: Seq<Seq<char>>, keep: spec_fn(Seq<char>) -> bool)
    requires
        in_order(names),
    ensures
        in_order(names.filter(keep)),
    decreases names.len(),
{
    reveal(Seq::filter);
    if names.len() > 0 {
        let front = names.drop_last();
        assert forall|i: int, j: int| 0 <= i < j < front.len() implies !text_lt(
            #[trigger] front[j],
            #[trigger] front[i],
        ) by {
            assert(front[i] == names[i] && front[j] == names[j]);
        }
        lemma_filter_in_order(front, keep);
        let kept = names.filter(keep);
        assert forall|i: int, j: int| 0 <= i < j < kept.len() implies !text_lt(
            #[trigger] kept[j],
            #[trigger] kept[i],
        ) by {
            if j == front.filter(keep).len() {
                lemma_filter_kept(front, keep, i);
                let k = choose|k: int| 0 <= k < front.len() && front[k] == kept[i];
                assert(names[k] == kept[i]);
                assert(names[names.len() - 1] == kept[j]);
            }
        }
    }
}

/// How a pass is called.
pub open spec fn label(attempt: nat) -> Seq<char> {
    if attempt == 0 {
        "pass 1/"@ + decimal(MAX_RETRIES as nat)
    } else {
        "retry "@ + decimal(attempt + 1) + "/"@ + decimal(MAX_RETRIES as nat)
    }
}

/// How the pass is called before which `attempt` others came.
pub fn pass_label(attempt: u8) -> (text: String)
    ensures
        text@ == label(attempt as nat),
{
    let mut text = if attempt == 0 {
        "pass 1/".to_string()
    } else {
        let mut text = "retry ".to_string();
        text.append(write_decimal(attempt as u64 + 1).as_str());
        text.append("/");
        text
    };
    text.append(write_decimal(MAX_RETRIES as u64).as_str());
    text
}

/// Path of the directory that holds what the scenarios leave behind:
/// `test-diagnostics/matrix` in `consumer_root`.
pub fn matrix_diag_root(consumer_root: &str) -> (path: String)
    ensures
        joins_to(consumer_root@, "test-diagnostics/matrix"@, path@),
        !is_verbatim(consumer_root@) ==> adjoined(
            path@,
            consumer_root@,
            "test-diagnostics/matrix"@,
        ),
        ends_with(path@, "matrix"@),
{
    let path = path_join(consumer_root, "test-diagnostics/matrix");
    proof {
        reveal_strlit("test-diagnostics/matrix");
        reveal_strlit("test-diagnostics");
        reveal_strlit("matrix");
        let part = "test-diagnostics/matrix"@;
        let name = "matrix"@;
        lemma_after_last("test-diagnostics"@, name, '/');
        assert("test-diagnostics"@.push('/') + name =~= part);
        assert(is_file_name(name));
        if !is_verbatim(consumer_root@) {
            assert(part.skip(part.len() - name.len()) =~= name);
            assert(path@.skip(path@.len() - name.len()) =~= path@.skip(
                path@.len() - part.len(),
            ).skip(part.len() - name.len()));
        }
    }
    path
}

// ---------------------------------------------------------------------------
// Laws
// ---------------------------------------------------------------------------

/// A permit that is taken and given back leaves the semaphore as it was, and the
/// permits stay within bounds whatever is done.
pub proof fn law_permits(state: Permits)
    requires
        state.available <= state.capacity,
    ensures
        state.available > 0 ==> state.acquired().released() == state,
        state.acquired().available <= state.acquired().capacity == state.capacity,
        state.released().available <= state.released().capacity == state.capacity,
{
}

proof fn lemma_still_failing(names: Seq<Seq<char>>, failed: Seq<Seq<char>>, name: Seq<char>)
    ensures
        still_failing(names, failed).contains(name) <==> names.contains(name) && failed.contains(
            name,
        ),
{
    let keep = |n: Seq<char>| failed.contains(n);
    let left = still_failing(names, failed);
    if left.contains(name) {
        let i = choose|i: int| 0 <= i < left.len() && left[i] == name;
        lemma_filter_kept(names, keep, i);
    }
    if names.contains(name) && failed.contains(name) {
        let i = choose|i: int| 0 <= i < names.len() && names[i] == name;
        names.lemma_filter_contains(keep, i);
    }
}

/// Whether the scenario `name` failed in each of the passes.
pub open spec fn failed_in_each(failures: Seq<Seq<Seq<char>>>, name: Seq<char>) -> bool {
    forall|k: int| 0 <= k < failures.len() ==> (#[trigger] failures[k]).contains(name)
}

proof fn lemma_after_passes(
    names: Seq<Seq<char>>,
    failures: Seq<Seq<Seq<char>>>,
    name: Seq<char>,
)
    requires
        failures.len() <= MAX_RETRIES,
    ensures
        ({
            let state = after_passes(names, failures);
            let failing = names.contains(name) && failed_in_each(failures, name);
            &&& !state.over ==> state.attempt == failures.len() && state.broken.len() == 0
            &&& !state.over ==> (state.pending.contains(name) <==> failing)
            &&& state.over && failures.len() < MAX_RETRIES ==> !failing && state.broken.len() == 0
            &&& failures.len() == MAX_RETRIES ==> state.over && (state.broken.contains(name)
                <==> failing)
        }),
    decreases failures.len(),
{
    if failures.len() > 0 {
        let earlier = failures.drop_last();
        lemma_after_passes(names, earlier, name);
        let state = after_passes(names, earlier);
        let left = still_failing(state.pending, failures.last());
        lemma_still_failing(state.pending, failures.last(), name);
        assert(failed_in_each(failures, name) <==> failed_in_each(earlier, name)
            && failures.last().contains(name)) by {
            if failed_in_each(failures, name) {
                assert forall|k: int| 0 <= k < earlier.len() implies (
                #[trigger] earlier[k]).contains(name) by {
                    assert(earlier[k] == failures[k]);
                }
                assert(failures[failures.len() - 1].contains(name));
            }
            if failed_in_each(earlier, name) && failures.last().contains(name) {
                assert forall|k: int| 0 <= k < failures.len() implies (
                #[trigger] failures[k]).contains(name) by {
                    if k < earlier.len() {
                        assert(earlier[k].contains(name));
                    }
                }
            }
        }
        if left.len() == 0 {
            assert(!left.contains(name));
        }
    }
}

/// A scenario counts as broken if and only if it failed in every pass, of which
/// there are then as many as there can be.
pub proof fn law_broken_iff_failed_in_every_pass(
    names: Seq<Seq<char>>,
    failures: Seq<Seq<Seq<char>>>,
    name: Seq<char>,
)
    requires
        failures.len() == MAX_RETRIES,
    ensures
        after_passes(names, failures).over,
        after_passes(names, failures).broken.contains(name) <==> names.contains(name)
            && failed_in_each(failures, name),
{
    lemma_after_passes(names, failures, name);
}

/// A scenario that passed once runs no more and does not count as broken.
pub proof fn law_passed_once_is_enough(
    names: Seq<Seq<char>>,
    failures: Seq<Seq<Seq<char>>>,
    name: Seq<char>,
    k: int,
)
    requires
        0 <= k < failures.len() <= MAX_RETRIES,
        !failures[k].contains(name),
    ensures
        !after_passes(names, failures).broken.contains(name),
        !after_passes(names, failures).over ==> !after_passes(names, failures).pending.contains(
            name,
        ),
{
    lemma_after_passes(names, failures, name);
    assert(!failed_in_each(failures, name));
}

/// Without a filter every scenario is selected; with an exact one the scenario of that name;
/// and with any other those whose names have the filter in them: in front, at the end,
/// between, or alone.
pub proof fn law_selection(name: Seq<char>, filter: Seq<char>)
    ensures
        filter.len() == 0 ==> is_selected(name, filter, true) && is_selected(name, filter, false),
        filter.len() > 0 ==> (is_selected(name, filter, true) <==> name == filter),
        filter.len() > 0 ==> (is_selected(name, filter, false) <==> exists|
            a: Seq<char>,
            b: Seq<char>,
        |
            name == #[trigger] (a + filter + b)),
{
    law_found_parts_are_there(name, filter);
    if exists|a: Seq<char>, b: Seq<char>| name == #[trigger] (a + filter + b) {
        let (a, b) = choose|a: Seq<char>, b: Seq<char>| name == #[trigger] (a + filter + b);
        law_parts_are_found(a, filter, b);
    }
}

/// A scenario whose name is made of the filter with anything around it is selected.
pub proof fn law_filter_anywhere_selects(a: Seq<char>, filter: Seq<char>, b: Seq<char>)
    ensures
        is_selected(a + filter + b, filter, false),
{
    law_parts_are_found(a, filter, b);
}

/// A selected scenario runs if and only if its recipe has a step, and is ignored otherwise;
/// one that is not selected does neither.
pub proof fn law_partition(entry: (String, Scenario), filter: Seq<char>, exact: bool)
    ensures
        falls_under(entry, filter, exact, true) <==> is_selected(entry.0@, filter, exact)
            && entry.1.recipe@.len() > 0,
        falls_under(entry, filter, exact, false) <==> is_selected(entry.0@, filter, exact)
            && entry.1.recipe@.len() == 0,
{
}

/// Taking a permit takes one and giving it back gives one, within the bounds, and the number
/// of permits in all never changes.
pub proof fn law_one_permit_at_a_time(state: Permits)
    ensures
        state.acquired().capacity == state.capacity,
        state.released().capacity == state.capacity,
        state.available > 0 ==> state.acquired().available == state.available - 1,
        state.available == 0 ==> state.acquired().available == 0,
        state.available < state.capacity ==> state.released().available == state.available + 1,
        state.available == state.capacity ==> state.released().available == state.capacity,
{
}

/// What is tried again is what was tried and failed, in the same order.
pub proof fn law_tried_again(names: Seq<Seq<char>>, name: Seq<char>, failed: Seq<Seq<char>>)
    ensures
        still_failing(Seq::empty(), failed) == Seq::<Seq<char>>::empty(),
        failed.contains(name) ==> still_failing(names.push(name), failed) == still_failing(
            names,
            failed,
        ).push(name),
        !failed.contains(name) ==> still_failing(names.push(name), failed) == still_failing(
            names,
            failed,
        ),
{
    reveal(Seq::filter);
    lemma_filter_push(names, name, |n: Seq<char>| failed.contains(n));
}

/// A pass after which nothing is left to try is the last; so is the fifth, after which what
/// is left is broken; any other is followed by one over what is left.
pub proof fn law_passes(names: Seq<Seq<char>>, state: PassState, failed: Seq<Seq<char>>)
    ensures
        first_pass(names).pending == names,
        first_pass(names).attempt == 0,
        !first_pass(names).over,
        first_pass(names).broken.len() == 0,
        state.over ==> after_pass(state, failed) == state,
        !state.over ==> {
            let left = still_failing(state.pending, failed);
            let next = after_pass(state, failed);
            if left.len() == 0 {
                next.over && next.pending.len() == 0 && next.broken == state.broken
            } else if state.attempt < 4 {
                !next.over && next.pending == left && next.broken == state.broken && next.attempt
                    == state.attempt + 1
            } else {
                next.over && next.pending.len() == 0 && next.broken == left
            }
        },
{
}

/// A scenario is broken if and only if it failed five times.
pub proof fn law_five_failures_break(
    names: Seq<Seq<char>>,
    one: Seq<Seq<char>>,
    two: Seq<Seq<char>>,
    three: Seq<Seq<char>>,
    four: Seq<Seq<char>>,
    five: Seq<Seq<char>>,
    name: Seq<char>,
)
    ensures
        after_pass(
            after_pass(after_pass(after_pass(after_pass(first_pass(names), one), two), three), four),
            five,
        ).broken.contains(name) <==> names.contains(name) && one.contains(name) && two.contains(
            name,
        ) && three.contains(name) && four.contains(name) && five.contains(name),
{
    let failures = seq![one, two, three, four, five];
    law_broken_iff_failed_in_every_pass(names, failures, name);
    reveal_with_fuel(after_passes, 6);
    assert(failures.drop_last() =~= seq![one, two, three, four]);
    assert(seq![one, two, three, four].drop_last() =~= seq![one, two, three]);
    assert(seq![one, two, three].drop_last() =~= seq![one, two]);
    assert(seq![one, two].drop_last() =~= seq![one]);
    assert(seq![one].drop_last() =~= Seq::<Seq<Seq<char>>>::empty());
    if failed_in_each(failures, name) {
        assert(failures[0].contains(name));
        assert(failures[1].contains(name));
        assert(failures[2].contains(name));
        assert(failures[3].contains(name));
        assert(failures[4].contains(name));
    }
}

/// The first pass is called that, and any other a retry, each with its number out of five.
pub proof fn law_labels(attempt: nat)
    ensures
        label(0) == "pass 1/5"@,
        attempt > 0 ==> label(attempt) == "retry "@ + decimal(attempt + 1) + "/5"@,
{
    reveal_strlit("pass 1/5");
    reveal_strlit("pass 1/");
    reveal_strlit("/5");
    reveal_strlit("/");
    assert(decimal(5) =~= seq!['5']);
    assert(label(0) =~= "pass 1/5"@);
    assert("/"@ + decimal(5) =~= "/5"@);
    assert("retry "@ + decimal(attempt + 1) + "/"@ + decimal(5) =~= "retry "@ + decimal(
        attempt + 1,
    ) + ("/"@ + decimal(5)));
}

/// Names are in order where none stands in front of one that comes before it in the order
/// of text.
pub proof fn law_in_order(names: Seq<Seq<char>>)
    ensures
        in_order(names) <==> forall|i: int, j: int|
            0 <= i < j < names.len() ==> !text_lt(#[trigger] names[j], #[trigger] names[i]),
{
}

/// The VM is asked over SSH, with the key if there is one, and the question comes last.
pub proof fn law_drive_letter_call(host: Seq<char>, key: Option<Seq<char>>)
    ensures
        ({
            let call = drive_letter_call(host, key);
            let n = call.args.len();
            &&& call.program == "ssh"@
            &&& n == if key is Some {
                14nat
            } else {
                10
            }
            &&& call.args.take(8) == seq![
                "-o"@,
                "BatchMode=yes"@,
                "-o"@,
                "ConnectTimeout="@ + decimal(15),
                "-o"@,
                "ServerAliveInterval="@ + decimal(10),
                "-o"@,
                "ServerAliveCountMax="@ + decimal(2),
            ]
            &&& key matches Some(key) ==> call.args.subrange(8, 12) == seq![
                "-i"@,
                key,
                "-o"@,
                "IdentitiesOnly=yes"@,
            ]
            &&& call.args[n - 2] == host
            &&& call.args[n - 1]
                == "powershell -NoProfile -NonInteractive -Command (26 - (Get-PSDrive -PSProvider FileSystem | Measure-Object).Count)"@
        }),
{
    let call = drive_letter_call(host, key);
    assert(call.args.take(8) =~= seq![
        "-o"@,
        "BatchMode=yes"@,
        "-o"@,
        "ConnectTimeout="@ + decimal(15),
        "-o"@,
        "ServerAliveInterval="@ + decimal(10),
        "-o"@,
        "ServerAliveCountMax="@ + decimal(2),
    ]);
    if let Some(key) = key {
        assert(call.args.subrange(8, 12) =~= seq!["-i"@, key, "-o"@, "IdentitiesOnly=yes"@]);
    }
}

} // verus!

//! What is reported of a scenario and of its steps.
use crate::dispatch::{RecipeResult, StepRecord, StepResult};
use crate::numeral::{
    decimal, signed_decimal, two_digits, write_decimal, write_signed, write_two_digits,
};
use crate::text::{
    after_last, begins_with, ends_with, from_chars, opt_text, str_after_last, str_begins_with,
    str_eq, str_trim, str_words, to_chars, trimmed, views, words,
};
use vstd::prelude::*;
use vstd::string::*;
use vstd::utf8::{encode_scalar, encode_utf8};

verus! {

// ---------------------------------------------------------------------------
// The end of an output
// ---------------------------------------------------------------------------

/// The longest end of `text` that takes at most `max_bytes` bytes. Characters are
/// left out whole.
pub open spec fn cut(text: Seq<char>, max_bytes: nat) -> Seq<char>
    decreases text.len(),
{
    if text.len() == 0 || encode_utf8(text).len() <= max_bytes {
        text
    } else {
        cut(text.drop_first(), max_bytes)
    }
}

/// The end of `text` without white space around it: all of it where it takes at most
/// `max_bytes` bytes, else as much of its end as does, behind a mark.
pub open spec fn tail(text: Seq<char>, max_bytes: nat) -> Seq<char> {
    let bare = trimmed(text);
    if encode_utf8(bare).len() <= max_bytes {
        bare
    } else {
        "...(truncated)\n"@ + cut(bare, max_bytes)
    }
}

/// The number of bytes that `c` takes.
fn char_bytes(c: char) -> (n: usize)
    ensures
        n == encode_scalar(c as u32).len(),
        1 <= n <= 4,
{
    let code: u32 = c as u32;
    if code <= 0x7f {
        1
    } else if code <= 0x7ff {
        2
    } else if code <= 0xffff {
        3
    } else {
        4
    }
}

/// Cutting leaves what is behind the last character that does not fit.
proof fn lemma_cut_at(text: Seq<char>, max_bytes: nat, at: int)
    requires
        0 <= at <= text.len(),
        encode_utf8(text.skip(at)).len() <= max_bytes,
        at > 0 ==> encode_utf8(text.skip(at - 1)).len() > max_bytes,
    ensures
        cut(text, max_bytes) == text.skip(at),
    decreases at,
{
    if at == 0 {
        assert(text.skip(0) =~= text);
    } else {
        lemma_longer_takes_more(text, at - 1);
        assert(text.drop_first().skip(at - 1) =~= text.skip(at));
        if at > 1 {
            assert(text.drop_first().skip(at - 2) =~= text.skip(at - 1));
        }
        lemma_cut_at(text.drop_first(), max_bytes, at - 1);
    }
}

/// An end of a text takes no more bytes than the text.
proof fn lemma_longer_takes_more(text: Seq<char>, at: int)
    requires
        0 <= at <= text.len(),
    ensures
        encode_utf8(text.skip(at)).len() <= encode_utf8(text).len(),
    decreases at,
{
    if at == 0 {
        assert(text.skip(0) =~= text);
    } else {
        lemma_longer_takes_more(text.drop_first(), at - 1);
        assert(text.drop_first().skip(at - 1) =~= text.skip(at));
    }
}

/// The end of `text` without white space around it, of at most `max_bytes` bytes.
/// A mark in front tells where some of it was cut off. No character is cut apart.
pub fn read_tail(text: &str, max_bytes: usize) -> (out: String)
    ensures
        out@ == tail(text@, max_bytes as nat),
{
    let bare = str_trim(text);
    if bare.as_str().as_bytes().len() <= max_bytes {
        return bare;
    }
    let chars = to_chars(bare.as_str());
    let mut at: usize = chars.len();
    let mut used: usize = 0;
    assert(bare@.skip(at as int) =~= Seq::<char>::empty());
    while at > 0 && char_bytes(chars[at - 1]) <= max_bytes - used
        invariant
            at <= chars@.len(),
            chars@ == bare@,
            used == encode_utf8(bare@.skip(at as int)).len(),
            used <= max_bytes,
        decreases at,
    {
        at -= 1;
        used += char_bytes(chars[at]);
        assert(bare@.skip(at as int).drop_first() =~= bare@.skip(at + 1));
    }
    let last = from_chars(&chars, at, chars.len());
    proof {
        assert(last@ =~= bare@.skip(at as int));
        if at > 0 {
            assert(bare@.skip(at - 1).drop_first() =~= bare@.skip(at as int));
            assert(bare@.skip(at - 1)[0] == bare@[at - 1]);
        }
        lemma_cut_at(bare@, max_bytes as nat, at as int);
    }
    let mut out = "...(truncated)\n".to_string();
    out.append(last.as_str());
    out
}

/// What is left of a text that is cut is its end. It takes at most the given number
/// of bytes, and one more character would take more.
pub proof fn law_cut_is_the_end(text: Seq<char>, max_bytes: nat)
    ensures
        ends_with(text, cut(text, max_bytes)),
        encode_utf8(cut(text, max_bytes)).len() <= max_bytes,
        cut(text, max_bytes).len() < text.len() ==> encode_utf8(
            text.skip(text.len() - cut(text, max_bytes).len() - 1),
        ).len() > max_bytes,
    decreases text.len(),
{
    if text.len() == 0 || encode_utf8(text).len() <= max_bytes {
        assert(text.skip(0) =~= text);
    } else {
        let rest = text.drop_first();
        law_cut_is_the_end(rest, max_bytes);
        let left = cut(rest, max_bytes);
        assert(rest.skip(rest.len() - left.len()) =~= text.skip(text.len() - left.len()));
        if left.len() < rest.len() {
            assert(rest.skip(rest.len() - left.len() - 1) =~= text.skip(
                text.len() - left.len() - 1,
            ));
        } else {
            assert(text.skip(0) =~= text);
        }
    }
}

// ---------------------------------------------------------------------------
// The status of a scenario
// ---------------------------------------------------------------------------

/// The text of an optional exit code.
pub open spec fn exit_text(code: Option<i32>) -> Seq<char> {
    match code {
        Some(code) => "Some("@ + signed_decimal(code as int) + ")"@,
        None => "None"@,
    }
}

/// What is said of the step that a recipe ended with.
pub open spec fn failure_header(step: StepRecord) -> Seq<char> {
    let place = "step "@ + decimal(step.index as nat) + " ("@ + step.op;
    match step.error {
        Some(error) => place + ") errored: "@ + error,
        None => place + ") exit "@ + exit_text(step.exit_code) + " != expected "@
            + signed_decimal(step.expected_exit as int),
    }
}

/// `text` with a part that shows `output`, where there is any.
pub open spec fn with_output(text: Seq<char>, title: Seq<char>, output: Seq<char>) -> Seq<char> {
    if output.len() == 0 {
        text
    } else {
        text + title + output
    }
}

/// The message of a recipe that failed, of whose last step `stderr` and `stdout`
/// are the outputs.
pub open spec fn failure_message(
    steps: Seq<StepResult>,
    stderr: Seq<char>,
    stdout: Seq<char>,
) -> Seq<char> {
    if steps.len() == 0 {
        "recipe failed (no step results)"@
    } else {
        with_output(
            with_output(failure_header(steps.last()@), "\n--- stderr ---\n"@, stderr),
            "\n--- stdout ---\n"@,
            stdout,
        )
    }
}

fn write_exit(code: Option<i32>) -> (text: String)
    ensures
        text@ == exit_text(code),
{
    match code {
        Some(code) => {
            let mut text = "Some(".to_string();
            text.append(write_signed(code as i64).as_str());
            text.append(")");
            text
        },
        None => "None".to_string(),
    }
}

fn write_failure_header(step: &StepResult) -> (text: String)
    ensures
        text@ == failure_header(step@),
{
    let mut text = "step ".to_string();
    text.append(write_decimal(step.index as u64).as_str());
    text.append(" (");
    text.append(step.op.as_str());
    match &step.error {
        Some(error) => {
            text.append(") errored: ");
            text.append(error.as_str());
        },
        None => {
            text.append(") exit ");
            text.append(write_exit(step.exit_code).as_str());
            text.append(" != expected ");
            text.append(write_signed(step.expected_exit as i64).as_str());
        },
    }
    text
}

/// The status of a recipe that did not pass: `errored` where the command of its last
/// step could not be run, else `failed`.
pub open spec fn failure_status(steps: Seq<StepResult>) -> Seq<char> {
    if steps.len() > 0 && steps.last().error is Some {
        "errored"@
    } else {
        "failed"@
    }
}

/// The status of a scenario and its message: `passed`; `failed`, or `errored` where
/// the command of the last step could not be run, with what is known of that step,
/// whose outputs are `stderr` and `stdout`; or `errored` with why the recipe could
/// not be run.
pub fn outcome_status(outcome: &Result<RecipeResult, String>, stderr: &str, stdout: &str) -> (r: (
    &'static str,
    Option<String>,
))
    ensures
        match outcome {
            Ok(result) => if result.overall_passed {
                r.0@ == "passed"@ && r.1 is None
            } else {
                r.0@ == failure_status(result.steps@) && opt_text(r.1) == Some(
                    failure_message(result.steps@, stderr@, stdout@),
                )
            },
            Err(error) => r.0@ == "errored"@ && opt_text(r.1) == Some(error@),
        },
{
    match outcome {
        Ok(result) => {
            if result.overall_passed {
                return ("passed", None);
            }
            let n: usize = result.steps.len();
            if n == 0 {
                return ("failed", Some("recipe failed (no step results)".to_string()));
            }
            let last = &result.steps[n - 1];
            let mut message = write_failure_header(last);
            if !stderr.is_empty() {
                message.append("\n--- stderr ---\n");
                message.append(stderr);
            }
            if !stdout.is_empty() {
                message.append("\n--- stdout ---\n");
                message.append(stdout);
            }
            let status = if last.error.is_some() {
                "errored"
            } else {
                "failed"
            };
            (status, Some(message))
        },
        Err(error) => ("errored", Some(error.clone())),
    }
}

/// The name of the directory of the step at `index`, whose op is `op`.
pub open spec fn step_dir(index: int, op: Seq<char>) -> Seq<char> {
    "step-"@ + two_digits(index as nat) + "-"@ + op
}

/// The name of the directory of the step at `index`, whose op is `op`.
pub fn step_dir_name(index: usize, op: &str) -> (name: String)
    ensures
        name@ == step_dir(index as int, op@),
{
    let mut name = "step-".to_string();
    name.append(write_two_digits(index as u64).as_str());
    name.append("-");
    name.append(op);
    name
}

// ---------------------------------------------------------------------------
// Progress
// ---------------------------------------------------------------------------

/// Whether `word` of the command of a copy is none of its own: neither the program
/// nor an option.
pub open spec fn is_operand(word: Seq<char>) -> bool {
    !begins_with(word, "-"@) && word != "scp"@
}

/// The first operand among `list`.
pub open spec fn first_operand(list: Seq<Seq<char>>) -> Option<Seq<char>>
    decreases list.len(),
{
    if list.len() == 0 {
        None
    } else if is_operand(list[0]) {
        Some(list[0])
    } else {
        first_operand(list.drop_first())
    }
}

/// What is shown behind a step, in parentheses: the name of the file that a copy
/// moves, and the last path component of the command of any other step. A step that
/// ran nothing shows nothing.
pub open spec fn detail(step: StepRecord) -> Seq<char> {
    if step.command.len() == 0 || step.skipped {
        Seq::empty()
    } else if begins_with(step.op, "ship-"@) {
        match first_operand(words(step.command)) {
            Some(source) => parenthesized(after_last(source, '/')),
            None => Seq::empty(),
        }
    } else {
        parenthesized(after_last(step.command, '/'))
    }
}

/// `text` in parentheses, set off from what stands in front.
pub open spec fn parenthesized(text: Seq<char>) -> Seq<char> {
    "  ("@ + text + ")"@
}

fn in_parentheses(text: &str) -> (out: String)
    ensures
        out@ == parenthesized(text@),
{
    let mut out = "  (".to_string();
    out.append(text);
    out.append(")");
    out
}

fn find_operand(list: &Vec<String>) -> (found: Option<String>)
    ensures
        opt_text(found) == first_operand(views(list@)),
{
    let mut i: usize = 0;
    assert(views(list@).skip(0) =~= views(list@));
    while i < list.len()
        invariant
            i <= list@.len(),
            first_operand(views(list@)) == first_operand(views(list@).skip(i as int)),
        decreases list@.len() - i,
    {
        let ghost rest = views(list@).skip(i as int);
        assert(rest[0] == list@[i as int]@);
        assert(rest.drop_first() =~= views(list@).skip(i + 1));
        if !str_begins_with(list[i].as_str(), "-") && !str_eq(list[i].as_str(), "scp") {
            return Some(list[i].clone());
        }
        i += 1;
    }
    None
}

/// What is shown behind a step, in parentheses: the name of the file that a copy
/// moves, and the last path component of the command of any other step.
pub fn step_detail(step: &StepResult) -> (text: String)
    ensures
        text@ == detail(step@),
{
    if step.command.as_str().is_empty() || step.skipped {
        return String::new();
    }
    if str_begins_with(step.op.as_str(), "ship-") {
        match find_operand(&str_words(step.command.as_str())) {
            Some(source) => in_parentheses(str_after_last(source.as_str(), '/').as_str()),
            None => String::new(),
        }
    } else {
        in_parentheses(str_after_last(step.command.as_str(), '/').as_str())
    }
}

/// A duration in seconds: `<s>s`, or `<m>m <s>s` from a minute on.
pub open spec fn elapsed(secs: nat) -> Seq<char> {
    if secs < 60 {
        decimal(secs) + "s"@
    } else {
        decimal(secs / 60) + "m "@ + decimal(secs % 60) + "s"@
    }
}

/// A duration in seconds: `<s>s`, or `<m>m <s>s` from a minute on.
pub fn fmt_elapsed(secs: u64) -> (text: String)
    ensures
        text@ == elapsed(secs as nat),
{
    if secs < 60 {
        let mut text = write_decimal(secs);
        text.append("s");
        text
    } else {
        let mut text = write_decimal(secs / 60);
        text.append("m ");
        text.append(write_decimal(secs % 60).as_str());
        text.append("s");
        text
    }
}

/// The time of day, as `HH:MM:SS`, that is `secs` seconds behind some midnight.
pub open spec fn clock(secs: nat) -> Seq<char> {
    two_digits((secs / 3600) % 24) + ":"@ + two_digits((secs / 60) % 60) + ":"@ + two_digits(
        secs % 60,
    )
}

/// The time of day, as `HH:MM:SS`, that is `secs` seconds behind some midnight.
pub fn clock_text(secs: u64) -> (text: String)
    ensures
        text@ == clock(secs as nat),
{
    let mut text = write_two_digits((secs / 3600) % 24);
    text.append(":");
    text.append(write_two_digits((secs / 60) % 60).as_str());
    text.append(":");
    text.append(write_two_digits(secs % 60).as_str());
    text
}

/// The clock shows the same after a whole day.
pub proof fn law_clock_repeats(secs: nat)
    ensures
        clock(secs + 86400) == clock(secs),
{
    let later = secs + 86400;
    assert((later / 3600) % 24 == (secs / 3600) % 24);
    assert((later / 60) % 60 == (secs / 60) % 60);
    assert(later % 60 == secs % 60);
}

/// The clock always shows eight characters.
pub proof fn law_clock_width(secs: nat)
    ensures
        clock(secs).len() == 8,
{
    reveal_strlit(":");
    lemma_two_digits((secs / 3600) % 24);
    lemma_two_digits((secs / 60) % 60);
    lemma_two_digits(secs % 60);
}

proof fn lemma_two_digits(n: nat)
    requires
        n < 100,
    ensures
        two_digits(n).len() == 2,
{
    reveal_with_fuel(decimal, 2);
}

// ---------------------------------------------------------------------------
// Laws
// ---------------------------------------------------------------------------


/// An output that fits is shown whole, without the white space around it, and of any other
/// as much of the end as fits, behind a mark.
pub proof fn law_tail(text: Seq<char>, max_bytes: nat)
    ensures
        encode_utf8(trimmed(text)).len() <= max_bytes ==> tail(text, max_bytes) == trimmed(text),
        encode_utf8(trimmed(text)).len() > max_bytes ==> tail(text, max_bytes)
            == "...(truncated)\n"@ + cut(trimmed(text), max_bytes),
{
}

/// A recipe that did not pass has errored if its last step could not be run, and else has
/// failed.
pub proof fn law_failure_status(steps: Seq<StepResult>)
    ensures
        steps.len() == 0 ==> failure_status(steps) == "failed"@,
        steps.len() > 0 && steps.last().error is Some ==> failure_status(steps) == "errored"@,
        steps.len() > 0 && steps.last().error is None ==> failure_status(steps) == "failed"@,
{
}

/// The message of a recipe that did not pass names its last step, says what came of it, and
/// shows its outputs as far as there are any.
pub proof fn law_failure_message(
    steps: Seq<StepResult>,
    stderr: Seq<char>,
    stdout: Seq<char>,
)
    ensures
        steps.len() == 0 ==> failure_message(steps, stderr, stdout)
            == "recipe failed (no step results)"@,
        steps.len() > 0 ==> {
            let step = steps.last();
            let place = "step "@ + decimal(step.index as nat) + " ("@ + step.op@;
            let code = if step.exit_code is Some {
                "Some("@ + signed_decimal(step.exit_code->Some_0 as int) + ")"@
            } else {
                "None"@
            };
            let header = if step.error is Some {
                place + ") errored: "@ + step.error->Some_0@
            } else {
                place + ") exit "@ + code + " != expected "@ + signed_decimal(
                    step.expected_exit as int,
                )
            };
            let message = failure_message(steps, stderr, stdout);
            &&& stderr.len() == 0 && stdout.len() == 0 ==> message == header
            &&& stderr.len() > 0 && stdout.len() == 0 ==> message == header + "\n--- stderr ---\n"@
                + stderr
            &&& stderr.len() == 0 && stdout.len() > 0 ==> message == header + "\n--- stdout ---\n"@
                + stdout
            &&& stderr.len() > 0 && stdout.len() > 0 ==> message == header + "\n--- stderr ---\n"@
                + stderr + "\n--- stdout ---\n"@ + stdout
        },
{
}

/// The directory of a step is named by its place, in two digits or more, and its op.
pub proof fn law_step_dir(index: nat, op: Seq<char>)
    ensures
        index < 10 ==> step_dir(index as int, op) == "step-"@ + (seq!['0'] + decimal(index))
            + "-"@ + op,
        index >= 10 ==> step_dir(index as int, op) == "step-"@ + decimal(index) + "-"@ + op,
{
}

/// The source of a copy is the first word that is neither the program nor an option.
pub proof fn law_first_operand(word: Seq<char>, rest: Seq<Seq<char>>)
    ensures
        first_operand(Seq::empty()) is None,
        word == "scp"@ || (word.len() > 0 && word[0] == '-') ==> first_operand(seq![word] + rest)
            == first_operand(rest),
        word != "scp"@ && (word.len() == 0 || word[0] != '-') ==> first_operand(seq![word] + rest)
            == Some(word),
{
    reveal_strlit("-");
    let list = seq![word] + rest;
    assert(list[0] == word);
    assert(list.drop_first() =~= rest);
    if word.len() > 0 {
        assert(word.take(1) =~= seq![word[0]]);
        assert("-"@ =~= seq!['-']);
        if word[0] != '-' {
            assert(word.take(1)[0] != "-"@[0]);
        }
    }
}

/// A step shows the last path component of what it copies or, if it is no copy, of its
/// command; one that ran nothing shows nothing.
pub proof fn law_detail(step: StepRecord, rest: Seq<char>)
    ensures
        step.command.len() == 0 || step.skipped ==> detail(step).len() == 0,
        step.command.len() > 0 && !step.skipped && step.op == "ship-"@ + rest ==> match first_operand(
            words(step.command),
        ) {
            Some(source) => detail(step) == "  ("@ + after_last(source, '/') + ")"@,
            None => detail(step).len() == 0,
        },
        step.command.len() > 0 && !step.skipped && (forall|r: Seq<char>|
            step.op != #[trigger] ("ship-"@ + r)) ==> detail(step) == "  ("@ + after_last(
            step.command,
            '/',
        ) + ")"@,
{
    let mark = "ship-"@;
    assert((mark + rest).take(mark.len() as int) =~= mark);
    if begins_with(step.op, mark) {
        assert(step.op =~= mark + step.op.skip(mark.len() as int));
    }
}

/// A duration below a minute is its seconds; any other is its minutes and the seconds that
/// are left.
pub proof fn law_elapsed(minutes: nat, secs: nat)
    requires
        secs < 60,
    ensures
        elapsed(secs) == decimal(secs) + "s"@,
        minutes > 0 ==> elapsed(60 * minutes + secs) == decimal(minutes) + "m "@ + decimal(secs)
            + "s"@,
{
    assert((60 * minutes + secs) / 60 == minutes);
    assert((60 * minutes + secs) % 60 == secs);
}

/// The clock shows the hour, the minute and the second of the day.
pub proof fn law_clock_shows_time(days: nat, hour: nat, minute: nat, second: nat)
    requires
        hour < 24,
        minute < 60,
        second < 60,
    ensures
        clock(86400 * days + 3600 * hour + 60 * minute + second) == two_digits(hour) + ":"@
            + two_digits(minute) + ":"@ + two_digits(second),
{
    let secs = 86400 * days + 3600 * hour + 60 * minute + second;
    assert(secs / 3600 == 24 * days + hour);
    assert((24 * days + hour) % 24 == hour);
    assert(secs / 60 == 1440 * days + 60 * hour + minute);
    assert((1440 * days + 60 * hour + minute) % 60 == minute);
    assert(secs % 60 == second);
}

} // verus!

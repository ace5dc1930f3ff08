//! Template substitution.
//!
//! Op templates name values in braces: flat tokens such as `{binary}`, and
//! dotted paths into the scenario and the current step such as
//! `{scenario.volume_params.label}`. A recipe step may also depend on a `when`
//! predicate, which is such a path without the braces.
use crate::json::{
    field, json_text, lemma_array_view, lemma_object_view, number_nonzero, number_text, Json,
    JsonNumber, JsonValue,
};
use crate::numeral::{decimal, numeral_value, parse_usize, signed_decimal};
use crate::string_map::StringMap;
use crate::template::{
    braced, closing_brace, find_closing_brace, lemma_closing_brace,
    lemma_closing_brace_is,
};
use crate::text::{
    from_chars, is_white, lemma_split_on_append, lemma_split_on_covers, lemma_split_on_len,
    lemma_split_on_single, split_on,
    str_eq, str_split, str_trim, to_chars, trim_start, trimmed, views,
};
use vstd::prelude::*;
use vstd::string::*;

verus! {

/// What a template or a predicate is evaluated against.
#[derive(Debug)]
pub struct Substitution {
    /// Flat tokens, keyed by what stands between the braces, such as `binary`
    /// or `tools.fsck`.
    pub flat: StringMap<String>,
    /// The whole scenario, reached by paths that begin with `scenario`.
    pub scenario: JsonValue,
    /// The current step, reached by paths that begin with `step`. `Null`
    /// outside a step.
    pub step: JsonValue,
}

/// The model of a `Substitution`.
pub struct Context {
    pub flat: Map<Seq<char>, Seq<char>>,
    pub scenario: Json,
    pub step: Json,
}

/// The texts of a map of strings.
pub open spec fn texts(map: Map<Seq<char>, String>) -> Map<Seq<char>, Seq<char>> {
    map.map_values(|s: String| s@)
}

impl Default for Substitution {
    fn default() -> (s: Self)
        ensures
            s@ == (Context { flat: Map::empty(), scenario: Json::Null, step: Json::Null }),
    {
        let s = Substitution {
            flat: StringMap::new(),
            scenario: JsonValue::Null,
            step: JsonValue::Null,
        };
        assert(s@.flat =~= Map::<Seq<char>, Seq<char>>::empty());
        s
    }
}

impl View for Substitution {
    type V = Context;

    open spec fn view(&self) -> Context {
        Context { flat: texts(self.flat@), scenario: self.scenario@, step: self.step@ }
    }
}

// ---------------------------------------------------------------------------
// Placeholders
// ---------------------------------------------------------------------------

/// Whether `c` can begin a name: an ASCII letter or an underscore.
pub open spec fn begins_name(c: char) -> bool {
    'A' <= c <= 'Z' || 'a' <= c <= 'z' || c == '_'
}

/// Whether `c` can stand in a name: an ASCII letter or digit, `_` or `-`.
pub open spec fn continues_name(c: char) -> bool {
    begins_name(c) || '0' <= c <= '9' || c == '-'
}

/// Whether `segment` is a name.
pub open spec fn is_name(segment: Seq<char>) -> bool {
    &&& segment.len() > 0
    &&& begins_name(segment[0])
    &&& forall|i: int| 0 <= i < segment.len() ==> continues_name(#[trigger] segment[i])
}

/// Whether `segment` is a number that addresses an item of an array.
pub open spec fn is_index(segment: Seq<char>) -> bool {
    &&& segment.len() > 0
    &&& forall|i: int| 0 <= i < segment.len() ==> '0' <= #[trigger] segment[i] <= '9'
}

/// Whether `path` is a dotted path: names with dots between them, of which
/// those behind the first may also be numbers.
pub open spec fn is_path(path: Seq<char>) -> bool {
    let segments = split_on(path, '.');
    &&& is_name(segments[0])
    &&& forall|i: int|
        1 <= i < segments.len() ==> is_name(#[trigger] segments[i]) || is_index(segments[i])
}

/// What stands between the braces, read as a placeholder: a dotted path, and
/// whether it is marked as optional by a `?` behind it.
pub open spec fn placeholder(inner: Seq<char>) -> Option<(Seq<char>, bool)> {
    let optional = inner.len() > 0 && inner.last() == '?';
    let path = if optional {
        inner.drop_last()
    } else {
        inner
    };
    if is_path(path) {
        Some((path, optional))
    } else {
        None
    }
}

fn segment_is_name(segment: &str) -> (r: bool)
    ensures
        r == is_name(segment@),
{
    let chars = to_chars(segment);
    if chars.len() == 0 {
        return false;
    }
    let first = chars[0];
    if !('A' <= first && first <= 'Z' || 'a' <= first && first <= 'z' || first == '_') {
        return false;
    }
    let mut i: usize = 0;
    while i < chars.len()
        invariant
            i <= chars@.len(),
            chars@ == segment@,
            forall|j: int| 0 <= j < i ==> continues_name(#[trigger] segment@[j]),
        decreases chars@.len() - i,
    {
        let c = chars[i];
        if !('A' <= c && c <= 'Z' || 'a' <= c && c <= 'z' || c == '_' || '0' <= c && c <= '9' || c
            == '-') {
            assert(!continues_name(segment@[i as int]));
            return false;
        }
        i += 1;
    }
    true
}

fn segment_is_index(segment: &str) -> (r: bool)
    ensures
        r == is_index(segment@),
{
    let chars = to_chars(segment);
    let mut i: usize = 0;
    while i < chars.len()
        invariant
            i <= chars@.len(),
            chars@ == segment@,
            forall|j: int| 0 <= j < i ==> '0' <= #[trigger] segment@[j] <= '9',
        decreases chars@.len() - i,
    {
        let c = chars[i];
        if !('0' <= c && c <= '9') {
            assert(!('0' <= segment@[i as int] <= '9'));
            return false;
        }
        i += 1;
    }
    chars.len() > 0
}

fn text_is_path(path: &str) -> (r: bool)
    ensures
        r == is_path(path@),
{
    let segments = str_split(path, '.');
    let ghost all = split_on(path@, '.');
    assert(all[0] == segments@[0]@);
    if !segment_is_name(segments[0].as_str()) {
        return false;
    }
    let mut i: usize = 1;
    while i < segments.len()
        invariant
            1 <= i <= segments@.len(),
            all == split_on(path@, '.'),
            all == views(segments@),
            forall|j: int| 1 <= j < i ==> is_name(#[trigger] all[j]) || is_index(all[j]),
        decreases segments@.len() - i,
    {
        assert(all[i as int] == segments@[i as int]@);
        if !segment_is_name(segments[i].as_str()) && !segment_is_index(segments[i].as_str()) {
            return false;
        }
        i += 1;
    }
    true
}

/// Parses what stands between the braces of a placeholder: a dotted path, and
/// whether a `?` behind it marks it as optional.
pub fn parse_placeholder(inner: &str) -> (r: Option<(String, bool)>)
    ensures
        match (r, placeholder(inner@)) {
            (Some((path, optional)), Some((p, o))) => path@ == p && optional == o,
            (None, None) => true,
            _ => false,
        },
{
    let chars = to_chars(inner);
    let optional = chars.len() > 0 && chars[chars.len() - 1] == '?';
    let end: usize = if optional {
        chars.len() - 1
    } else {
        chars.len()
    };
    let path = from_chars(&chars, 0, end);
    assert(path@ =~= if optional {
        inner@.drop_last()
    } else {
        inner@
    });
    if text_is_path(path.as_str()) {
        Some((path, optional))
    } else {
        None
    }
}

// ---------------------------------------------------------------------------
// Lookup
// ---------------------------------------------------------------------------

/// One step of a walk into a value: the field of that name of an object, or
/// the item of that number of an array.
pub open spec fn child(json: Json, segment: Seq<char>) -> Option<Json> {
    match json {
        Json::Object(_) => field(json, segment),
        Json::Array(items) => match numeral_value(segment) {
            Some(n) if n < items.len() => Some(items[n as int]),
            _ => None,
        },
        _ => None,
    }
}

/// Where a walk along `segments` arrives.
pub open spec fn walk(json: Json, segments: Seq<Seq<char>>) -> Option<Json>
    decreases segments.len(),
{
    if segments.len() == 0 {
        Some(json)
    } else {
        match child(json, segments[0]) {
            Some(next) => walk(next, segments.drop_first()),
            None => None,
        }
    }
}

/// The value that `path` names. A path that begins with `scenario` or `step`
/// is walked in that value; any other is a flat token.
pub open spec fn resolve(context: Context, path: Seq<char>) -> Option<Json> {
    let segments = split_on(path, '.');
    if segments[0] == "scenario"@ {
        walk(context.scenario, segments.drop_first())
    } else if segments[0] == "step"@ {
        walk(context.step, segments.drop_first())
    } else if context.flat.contains_key(path) {
        Some(Json::String(context.flat[path]))
    } else {
        None
    }
}

/// The text that a value is substituted by: a string without its quotes,
/// nothing for null, the JSON text for an array or an object.
pub open spec fn value_text(json: Json) -> Seq<char> {
    match json {
        Json::Null => Seq::empty(),
        Json::Bool(b) => if b {
            "true"@
        } else {
            "false"@
        },
        Json::Number(n) => number_text(n),
        Json::String(s) => s,
        Json::Array(_) | Json::Object(_) => json_text(json),
    }
}

/// The text that `path` names. A flat token hides a dotted path of the same text.
pub open spec fn path_text(context: Context, path: Seq<char>) -> Option<Seq<char>> {
    if context.flat.contains_key(path) {
        Some(context.flat[path])
    } else {
        match resolve(context, path) {
            Some(json) => Some(value_text(json)),
            None => None,
        }
    }
}

/// Whether a value counts as true: all but null, `false`, zero, and an empty
/// string, array or object.
pub open spec fn truthy(json: Json) -> bool {
    match json {
        Json::Null => false,
        Json::Bool(b) => b,
        Json::Number(n) => number_nonzero(n),
        Json::String(s) => s.len() > 0,
        Json::Array(items) => items.len() > 0,
        Json::Object(fields) => fields != Map::<Seq<char>, Json>::empty(),
    }
}

/// The text form of `value` in a template.
pub fn value_to_string(value: &JsonValue) -> (text: String)
    ensures
        text@ == value_text(value@),
{
    match value {
        JsonValue::Null => String::new(),
        JsonValue::Bool(b) => if *b {
            "true".to_string()
        } else {
            "false".to_string()
        },
        JsonValue::Number(n) => n.text(),
        JsonValue::String(s) => s.clone(),
        JsonValue::Array(_) | JsonValue::Object(_) => value.to_json_text(),
    }
}

/// Whether `value` counts as true in a predicate.
pub fn is_truthy(value: &JsonValue) -> (r: bool)
    ensures
        r == truthy(value@),
{
    match value {
        JsonValue::Null => false,
        JsonValue::Bool(b) => *b,
        JsonValue::Number(n) => n.is_nonzero(),
        JsonValue::String(s) => !s.as_str().is_empty(),
        JsonValue::Array(items) => {
            proof {
                lemma_array_view(*items);
            }
            items.len() > 0
        },
        JsonValue::Object(fields) => {
            proof {
                lemma_object_view(*fields);
                let none = Map::<Seq<char>, Json>::empty();
                if fields@ == Map::<Seq<char>, JsonValue>::empty() {
                    assert(value@->Object_0 =~= none);
                } else if value@->Object_0 == none {
                    assert forall|key: Seq<char>| !fields@.contains_key(key) by {
                        assert(!none.contains_key(key));
                        assert(value@->Object_0.contains_key(key) == fields@.contains_key(key));
                    }
                    assert(fields@ =~= Map::<Seq<char>, JsonValue>::empty());
                }
            }
            fields.len() > 0
        },
    }
}

fn child_of<'a>(value: &'a JsonValue, segment: &str) -> (next: Option<&'a JsonValue>)
    ensures
        match next {
            Some(v) => child(value@, segment@) == Some(v@),
            None => child(value@, segment@) is None,
        },
{
    match value {
        JsonValue::Object(fields) => {
            proof {
                lemma_object_view(*fields);
            }
            value.get(segment)
        },
        JsonValue::Array(items) => {
            proof {
                lemma_array_view(*items);
            }
            match parse_usize(segment) {
                Some(n) => if n < items.len() {
                    Some(&items[n])
                } else {
                    None
                },
                None => {
                    assert(items.len() <= usize::MAX);
                    None
                },
            }
        },
        _ => None,
    }
}

impl Substitution {
    /// The value that `path` names.
    pub fn lookup_value(&self, path: &str) -> (value: Option<JsonValue>)
        ensures
            match value {
                Some(v) => resolve(self@, path@) == Some(v@),
                None => resolve(self@, path@) is None,
            },
    {
        let segments = str_split(path, '.');
        let ghost all = split_on(path@, '.');
        assert(all[0] == segments@[0]@);
        let mut cursor = if str_eq(segments[0].as_str(), "scenario") {
            &self.scenario
        } else if str_eq(segments[0].as_str(), "step") {
            &self.step
        } else {
            return match self.flat.get(path) {
                Some(s) => Some(JsonValue::String(s.clone())),
                None => None,
            };
        };
        let ghost root = cursor@;
        let mut i: usize = 1;
        assert(all.drop_first() =~= all.skip(1));
        while i < segments.len()
            invariant
                1 <= i <= segments@.len(),
                all == views(segments@),
                resolve(self@, path@) == walk(cursor@, all.skip(i as int)),
            decreases segments@.len() - i,
        {
            assert(all.skip(i as int)[0] == segments@[i as int]@);
            assert(all.skip(i as int).drop_first() =~= all.skip(i + 1));
            match child_of(cursor, segments[i].as_str()) {
                Some(next) => {
                    cursor = next;
                },
                None => {
                    return None;
                },
            }
            i += 1;
        }
        assert(all.skip(i as int).len() == 0);
        Some(cursor.clone())
    }

    /// The text that `path` names.
    pub fn lookup(&self, path: &str) -> (text: Option<String>)
        ensures
            match text {
                Some(s) => path_text(self@, path@) == Some(s@),
                None => path_text(self@, path@) is None,
            },
    {
        if let Some(s) = self.flat.get(path) {
            return Some(s.clone());
        }
        match self.lookup_value(path) {
            Some(v) => Some(value_to_string(&v)),
            None => None,
        }
    }
}

// ---------------------------------------------------------------------------
// Expansion
// ---------------------------------------------------------------------------

/// The placeholder that `template` begins with, and its length with the braces.
pub open spec fn leading_placeholder(template: Seq<char>) -> Option<(Seq<char>, int)> {
    let end = closing_brace(template, 1);
    if template.len() > 0 && template[0] == '{' && end < template.len() {
        match placeholder(template.subrange(1, end)) {
            Some((path, _)) => Some((path, end + 1)),
            None => None,
        }
    } else {
        None
    }
}

/// What a placeholder with this path is replaced by: the text that the path
/// names, or nothing.
pub open spec fn replacement(context: Context, path: Seq<char>) -> Seq<char> {
    match path_text(context, path) {
        Some(text) => text,
        None => Seq::empty(),
    }
}

/// The expansion of a template: each placeholder is replaced, and each character
/// outside of placeholders is kept as it is.
pub open spec fn expansion(context: Context, template: Seq<char>) -> Seq<char>
    decreases template.len(),
{
    if template.len() == 0 {
        Seq::empty()
    } else {
        match leading_placeholder(template) {
            Some((path, len)) => {
                proof {
                    lemma_closing_brace(template, 1);
                }
                replacement(context, path) + expansion(context, template.skip(len))
            },
            None => seq![template[0]] + expansion(context, template.drop_first()),
        }
    }
}

/// The path that a predicate names: the one of a placeholder body, else the
/// predicate itself.
pub open spec fn predicate_path(predicate: Seq<char>) -> Seq<char> {
    match placeholder(predicate) {
        Some((path, _)) => path,
        None => predicate,
    }
}

/// Whether a predicate holds: it is blank, or its path names a value that
/// counts as true.
pub open spec fn predicate_holds(context: Context, predicate: Seq<char>) -> bool {
    let bare = trimmed(predicate);
    if bare.len() == 0 {
        true
    } else {
        match resolve(context, predicate_path(bare)) {
            Some(json) => truthy(json),
            None => false,
        }
    }
}

impl Substitution {
    /// Substitutes every placeholder in `template`.
    ///
    /// A placeholder whose path names nothing is replaced by nothing, whether
    /// it is marked as optional or not. Braces that enclose no placeholder, and
    /// a brace without its counterpart, stay as they are.
    pub fn expand(&self, template: &str) -> (out: String)
        ensures
            out@ == expansion(self@, template@),
    {
        let chars = to_chars(template);
        let mut out = String::new();
        let mut i: usize = 0;
        assert(chars@.skip(0) =~= chars@);
        while i < chars.len()
            invariant
                i <= chars@.len(),
                chars@ == template@,
                expansion(self@, chars@) == out@ + expansion(self@, chars@.skip(i as int)),
            decreases chars@.len() - i,
        {
            let ghost rest = chars@.skip(i as int);
            let ghost before = out@;
            let mut skipped: usize = 0;
            if chars[i] == '{' {
                let end = find_closing_brace(&chars, i + 1);
                proof {
                    lemma_closing_brace(chars@, i + 1);
                    lemma_closing_brace_is(rest, 1, end - i);
                }
                if end < chars.len() {
                    let inner = from_chars(&chars, i + 1, end);
                    assert(inner@ =~= rest.subrange(1, end - i));
                    if let Some((path, _optional)) = parse_placeholder(inner.as_str()) {
                        if let Some(text) = self.lookup(path.as_str()) {
                            out.append(text.as_str());
                        } else {
                            assert(out@ + replacement(self@, path@) =~= out@);
                        }
                        skipped = end + 1 - i;
                        assert(leading_placeholder(rest) == Some((path@, skipped as int)));
                        assert(out@ =~= before + replacement(self@, path@));
                    }
                }
            }
            if skipped == 0 {
                assert(leading_placeholder(rest) is None);
                out.push(chars[i]);
                i += 1;
                assert(rest.drop_first() =~= chars@.skip(i as int));
            } else {
                i += skipped;
                assert(rest.skip(skipped as int) =~= chars@.skip(i as int));
            }
            assert(before + expansion(self@, rest) =~= out@ + expansion(
                self@,
                chars@.skip(i as int),
            ));
        }
        assert(chars@.skip(i as int) =~= Seq::<char>::empty());
        assert(out@ + Seq::<char>::empty() =~= out@);
        out
    }

    /// Evaluates a `when` predicate. A blank one holds; any other holds where
    /// its path names a value that counts as true.
    pub fn evaluate_when(&self, predicate: &str) -> (r: bool)
        ensures
            r == predicate_holds(self@, predicate@),
    {
        let bare = str_trim(predicate);
        if bare.as_str().is_empty() {
            return true;
        }
        let path = match parse_placeholder(bare.as_str()) {
            Some((path, _optional)) => path,
            None => bare.clone(),
        };
        match self.lookup_value(path.as_str()) {
            Some(v) => is_truthy(&v),
            None => false,
        }
    }
}

// ---------------------------------------------------------------------------
// Laws
// ---------------------------------------------------------------------------

/// Text without an opening brace holds no placeholder: it is copied, and what
/// follows it is expanded on its own.
pub proof fn law_text_outside_placeholders(context: Context, text: Seq<char>, rest: Seq<char>)
    requires
        forall|i: int| 0 <= i < text.len() ==> text[i] != '{',
    ensures
        expansion(context, text + rest) == text + expansion(context, rest),
    decreases text.len(),
{
    if text.len() == 0 {
        assert(text + rest =~= rest);
        assert(text + expansion(context, rest) =~= expansion(context, rest));
    } else {
        law_text_outside_placeholders(context, text.drop_first(), rest);
        assert((text + rest).drop_first() =~= text.drop_first() + rest);
        assert(seq![text[0]] + (text.drop_first() + expansion(
            context,
            rest,
        )) =~= text + expansion(context, rest));
    }
}

proof fn lemma_no_closing_brace(context: Context, template: Seq<char>)
    requires
        forall|i: int| 0 <= i < template.len() ==> template[i] != '}',
    ensures
        expansion(context, template) == template,
    decreases template.len(),
{
    if template.len() == 0 {
        assert(template =~= Seq::<char>::empty());
    } else {
        lemma_closing_brace_is(template, 1, template.len() as int);
        lemma_no_closing_brace(context, template.drop_first());
        assert(seq![template[0]] + template.drop_first()
            =~= template);
    }
}

/// A template without any opening brace, or without any closing brace, expands to
/// itself.
pub proof fn law_plain_template_unchanged(context: Context, template: Seq<char>)
    requires
        !template.contains('{') || !template.contains('}'),
    ensures
        expansion(context, template) == template,
{
    if !template.contains('{') {
        assert forall|i: int| 0 <= i < template.len() implies template[i] != '{' by {
            assert(template.contains(template[i]));
        }
        law_text_outside_placeholders(context, template, Seq::empty());
        assert(template + Seq::<char>::empty() =~= template);
    } else {
        assert forall|i: int| 0 <= i < template.len() implies template[i] != '}' by {
            assert(template.contains(template[i]));
        }
        lemma_no_closing_brace(context, template);
    }
}

/// A path holds nothing but dots and what can stand in a name.
proof fn lemma_path_chars(path: Seq<char>, i: int)
    requires
        is_path(path),
        0 <= i < path.len(),
    ensures
        path[i] == '.' || continues_name(path[i]),
{
    if path[i] != '.' {
        lemma_split_on_covers(path, '.', i);
        let segments = split_on(path, '.');
        let k = choose|k: int| 0 <= k < segments.len() && (#[trigger] segments[k]).contains(path[i]);
        let at = choose|at: int| 0 <= at < segments[k].len() && segments[k][at] == path[i];
        assert(continues_name(segments[k][at]));
    }
}

/// A placeholder is replaced by what its path names, or by nothing where it
/// names nothing; what follows is expanded on its own.
pub proof fn law_placeholder_replaced(
    context: Context,
    inner: Seq<char>,
    path: Seq<char>,
    optional: bool,
    rest: Seq<char>,
)
    requires
        placeholder(inner) == Some((path, optional)),
    ensures
        expansion(context, braced(inner, rest)) == replacement(context, path) + expansion(
            context,
            rest,
        ),
{
    let whole = braced(inner, rest);
    let end = inner.len() as int + 1;
    assert forall|i: int| 1 <= i < end implies whole[i] != '}' by {
        assert(whole[i] == inner[i - 1]);
        if i - 1 < path.len() {
            lemma_path_chars(path, i - 1);
            assert(path[i - 1] == inner[i - 1]);
        }
    }
    assert(whole[end] == '}');
    lemma_closing_brace_is(whole, 1, end);
    assert(whole.subrange(1, end) =~= inner);
    assert(whole.skip(end + 1) =~= rest);
}

/// Braces that enclose no placeholder stay: the opening one is copied, and what
/// follows it is expanded on its own.
pub proof fn law_other_braces_pass_through(context: Context, inner: Seq<char>, rest: Seq<char>)
    requires
        placeholder(inner) is None,
        !inner.contains('}'),
    ensures
        expansion(context, braced(inner, rest)) == seq!['{'] + expansion(
            context,
            inner + seq!['}'] + rest,
        ),
{
    let whole = braced(inner, rest);
    let end = inner.len() as int + 1;
    assert forall|i: int| 1 <= i < end implies whole[i] != '}' by {
        assert(whole[i] == inner[i - 1]);
        assert(inner.contains(inner[i - 1]));
    }
    assert(whole[end] == '}');
    lemma_closing_brace_is(whole, 1, end);
    assert(whole.subrange(1, end) =~= inner);
    assert(whole.drop_first() =~= inner + seq!['}'] + rest);
}

/// The `?` mark does not change what a placeholder expands to.
pub proof fn law_optional_mark_is_neutral(
    context: Context,
    inner: Seq<char>,
    path: Seq<char>,
    rest: Seq<char>,
)
    requires
        placeholder(inner) == Some((path, false)),
    ensures
        placeholder(inner.push('?')) == Some((path, true)),
        expansion(context, braced(inner.push('?'), rest)) == expansion(
            context,
            braced(inner, rest),
        ),
{
    assert(inner.push('?').drop_last() =~= inner);
    law_placeholder_replaced(context, inner, path, false, rest);
    law_placeholder_replaced(context, inner.push('?'), path, true, rest);
}

/// A placeholder whose path names nothing collapses to nothing.
pub proof fn law_missing_path_collapses(
    context: Context,
    inner: Seq<char>,
    path: Seq<char>,
    optional: bool,
    rest: Seq<char>,
)
    requires
        placeholder(inner) == Some((path, optional)),
        path_text(context, path) is None,
    ensures
        expansion(context, braced(inner, rest)) == expansion(context, rest),
{
    law_placeholder_replaced(context, inner, path, optional, rest);
    assert(Seq::<char>::empty() + expansion(context, rest) =~= expansion(context, rest));
}

/// A flat token hides whatever the scenario and the step hold under that path.
pub proof fn law_flat_token_shadows(context: Context, scenario: Json, step: Json, path: Seq<char>)
    requires
        context.flat.contains_key(path),
    ensures
        path_text(context, path) == Some(context.flat[path]),
        path_text(Context { scenario, step, ..context }, path) == path_text(context, path),
{
}

/// A path behind `scenario.` is walked in the scenario, and one behind `step.`
/// in the step.
pub proof fn law_dotted_paths_walk(context: Context, path: Seq<char>)
    ensures
        resolve(context, "scenario"@.push('.') + path) == walk(
            context.scenario,
            split_on(path, '.'),
        ),
        resolve(context, "step"@.push('.') + path) == walk(context.step, split_on(path, '.')),
{
    reveal_strlit("scenario");
    reveal_strlit("step");
    lemma_split_on_single("scenario"@, '.');
    lemma_split_on_single("step"@, '.');
    lemma_split_on_append("scenario"@, path, '.');
    lemma_split_on_append("step"@, path, '.');
    assert((seq!["scenario"@] + split_on(path, '.')).drop_first() =~= split_on(path, '.'));
    assert((seq!["step"@] + split_on(path, '.')).drop_first() =~= split_on(path, '.'));
    assert("scenario"@.len() != "step"@.len());
}

/// A predicate names the same value as the placeholder with the same body, and
/// holds if and only if there is such a value and it counts as true.
pub proof fn law_predicate_follows_its_path(
    context: Context,
    predicate: Seq<char>,
    path: Seq<char>,
    optional: bool,
)
    requires
        placeholder(trimmed(predicate)) == Some((path, optional)),
    ensures
        predicate_holds(context, predicate) <==> (resolve(context, path) matches Some(json)
            && truthy(json)),
{
    let bare = trimmed(predicate);
    if bare.len() == 0 {
        assert(bare =~= Seq::<char>::empty());
        assert(split_on(bare, '.')[0].len() == 0);
        assert(false);
    }
}

/// A predicate of nothing but white space always holds.
pub proof fn law_blank_predicate_holds(context: Context, predicate: Seq<char>)
    requires
        forall|i: int| 0 <= i < predicate.len() ==> is_white(#[trigger] predicate[i]),
    ensures
        predicate_holds(context, predicate),
{
    lemma_trim_start_blank(predicate);
}

proof fn lemma_trim_start_blank(s: Seq<char>)
    requires
        forall|i: int| 0 <= i < s.len() ==> is_white(#[trigger] s[i]),
    ensures
        trim_start(s).len() == 0,
    decreases s.len(),
{
    if s.len() > 0 {
        lemma_trim_start_blank(s.drop_first());
    }
}

/// What a placeholder is replaced by is the value that its path names, whole and
/// unchanged: a flat token as it is; else a string without its quotes, `true` or
/// `false`, the numeral of a number, nothing for null, and the JSON text of an array or
/// an object; and nothing where the path names nothing. What follows is expanded on its
/// own.
pub proof fn law_value_replaces_placeholder(
    context: Context,
    inner: Seq<char>,
    path: Seq<char>,
    optional: bool,
    rest: Seq<char>,
)
    requires
        placeholder(inner) == Some((path, optional)),
    ensures
        ({
            let whole = expansion(context, seq!['{'] + inner + seq!['}'] + rest);
            let after = expansion(context, rest);
            if context.flat.contains_key(path) {
                whole == context.flat[path] + after
            } else {
                match resolve(context, path) {
                    Some(Json::String(s)) => whole == s + after,
                    Some(Json::Bool(b)) => whole == (if b {
                        "true"@
                    } else {
                        "false"@
                    }) + after,
                    Some(Json::Number(JsonNumber::Unsigned(n))) => whole == decimal(n as nat)
                        + after,
                    Some(Json::Number(JsonNumber::Signed(n))) => whole == signed_decimal(n as int)
                        + after,
                    Some(Json::Number(JsonNumber::Float(text))) => whole == text + after,
                    Some(Json::Null) => whole == after,
                    Some(Json::Array(items)) => whole == json_text(Json::Array(items)) + after,
                    Some(Json::Object(fields)) => whole == json_text(Json::Object(fields)) + after,
                    None => whole == after,
                }
            }
        }),
{
    law_placeholder_replaced(context, inner, path, optional, rest);
    let after = expansion(context, rest);
    assert(Seq::<char>::empty() + after =~= after);
}

/// The text that a path names is that of the value that it names, unless a flat token
/// hides it.
pub proof fn law_path_text(context: Context, path: Seq<char>)
    ensures
        context.flat.contains_key(path) ==> path_text(context, path) == Some(context.flat[path]),
        !context.flat.contains_key(path) ==> match resolve(context, path) {
            Some(Json::String(s)) => path_text(context, path) == Some(s),
            Some(Json::Bool(b)) => path_text(context, path) == Some(
                if b {
                    "true"@
                } else {
                    "false"@
                },
            ),
            Some(Json::Number(JsonNumber::Unsigned(n))) => path_text(context, path) == Some(
                decimal(n as nat),
            ),
            Some(Json::Number(JsonNumber::Signed(n))) => path_text(context, path) == Some(
                signed_decimal(n as int),
            ),
            Some(Json::Number(JsonNumber::Float(text))) => path_text(context, path) == Some(text),
            Some(Json::Null) => path_text(context, path) == Some(Seq::<char>::empty()),
            Some(json) => path_text(context, path) == Some(json_text(json)),
            None => path_text(context, path) is None,
        },
{
}

/// The text of a value in a template: a string is itself, a scalar its literal, and an
/// array or an object its JSON text.
pub proof fn law_value_text(json: Json)
    ensures
        match json {
            Json::Null => value_text(json).len() == 0,
            Json::Bool(b) => value_text(json) == if b {
                "true"@
            } else {
                "false"@
            },
            Json::Number(JsonNumber::Unsigned(n)) => value_text(json) == decimal(n as nat),
            Json::Number(JsonNumber::Signed(n)) => value_text(json) == signed_decimal(n as int),
            Json::Number(JsonNumber::Float(text)) => value_text(json) == text,
            Json::String(s) => value_text(json) == s,
            Json::Array(_) => value_text(json) == json_text(json),
            Json::Object(_) => value_text(json) == json_text(json),
        },
{
}

/// Null, `false`, zero and an empty string, array or object count as false, and all
/// else counts as true.
pub proof fn law_truthy(
    b: bool,
    u: u64,
    i: i64,
    s: Seq<char>,
    items: Seq<Json>,
    fields: Map<Seq<char>, Json>,
    key: Seq<char>,
)
    ensures
        !truthy(Json::Null),
        truthy(Json::Bool(b)) <==> b,
        truthy(Json::Number(JsonNumber::Unsigned(u))) <==> u != 0,
        truthy(Json::Number(JsonNumber::Signed(i))) <==> i != 0,
        truthy(Json::Number(JsonNumber::Float(s))) <==> number_nonzero(JsonNumber::Float(s)),
        truthy(Json::String(s)) <==> s.len() > 0,
        truthy(Json::Array(items)) <==> items.len() > 0,
        fields.contains_key(key) ==> truthy(Json::Object(fields)),
        !truthy(Json::Object(Map::empty())),
{
}

/// A predicate that is not blank holds if and only if what it names, without the white
/// space around it and a `?` behind a path, is there and counts as true.
pub proof fn law_predicate(context: Context, predicate: Seq<char>)
    ensures
        ({
            let bare = trimmed(predicate);
            let path = if bare.len() > 0 && bare.last() == '?' && is_path(bare.drop_last()) {
                bare.drop_last()
            } else {
                bare
            };
            predicate_holds(context, predicate) <==> bare.len() == 0 || (resolve(
                context,
                path,
            ) matches Some(json) && truthy(json))
        }),
{
    let bare = trimmed(predicate);
    if bare.len() > 0 && bare.last() == '?' {
        if is_path(bare) {
            lemma_path_chars(bare, bare.len() - 1);
            assert(false);
        }
    }
}

/// Between the braces stands a path, or a path with a `?` behind it; anything else is no
/// placeholder.
pub proof fn law_placeholder_bodies(path: Seq<char>, inner: Seq<char>)
    ensures
        is_path(path) ==> placeholder(path) == Some((path, false)) && placeholder(path.push('?'))
            == Some((path, true)),
        !is_path(inner) && !(inner.len() > 0 && inner.last() == '?' && is_path(
            inner.drop_last(),
        )) ==> placeholder(inner) is None,
{
    assert(path.push('?').drop_last() =~= path);
    if is_path(path) && path.len() > 0 && path.last() == '?' {
        lemma_path_chars(path, path.len() - 1);
    }
}

/// A path is one segment or more with dots between them. A segment is a letter or an
/// underscore with letters, digits, underscores and hyphens behind it; any but the first
/// may be digits alone.
pub proof fn law_paths(path: Seq<char>, segment: Seq<char>)
    requires
        !segment.contains('.'),
    ensures
        ({
            let name = segment.len() > 0 && !('0' <= segment[0] <= '9') && segment[0] != '-'
                && forall|i: int|
                0 <= i < segment.len() ==> 'A' <= #[trigger] segment[i] <= 'Z' || 'a' <= segment[i]
                    <= 'z' || '0' <= segment[i] <= '9' || segment[i] == '_' || segment[i] == '-';
            let digits = segment.len() > 0 && forall|i: int|
                0 <= i < segment.len() ==> '0' <= #[trigger] segment[i] <= '9';
            &&& is_path(segment) <==> name
            &&& is_path(path.push('.') + segment) <==> is_path(path) && (name || digits)
        }),
{
    let name = segment.len() > 0 && !('0' <= segment[0] <= '9') && segment[0] != '-' && forall|
        i: int,
    |
        0 <= i < segment.len() ==> 'A' <= #[trigger] segment[i] <= 'Z' || 'a' <= segment[i] <= 'z'
            || '0' <= segment[i] <= '9' || segment[i] == '_' || segment[i] == '-';
    assert(name <==> is_name(segment)) by {
        if is_name(segment) {
            assert forall|i: int| 0 <= i < segment.len() implies 'A' <= #[trigger] segment[i]
                <= 'Z' || 'a' <= segment[i] <= 'z' || '0' <= segment[i] <= '9' || segment[i] == '_'
                || segment[i] == '-' by {
                assert(continues_name(segment[i]));
            }
        }
        if name {
            assert forall|i: int| 0 <= i < segment.len() implies continues_name(
                #[trigger] segment[i],
            ) by {}
            assert(begins_name(segment[0]));
        }
    }
    lemma_split_on_single(segment, '.');
    lemma_split_on_append(path, segment, '.');
    let before = split_on(path, '.');
    let all = split_on(path.push('.') + segment, '.');
    lemma_split_on_len(path, '.');
    assert(all =~= before.push(segment));
    assert(all[0] == before[0]);
    assert(all[before.len() as int] == segment);
    if is_path(path) && (is_name(segment) || is_index(segment)) {
        assert forall|i: int| 1 <= i < all.len() implies is_name(#[trigger] all[i]) || is_index(
            all[i],
        ) by {
            if i < before.len() {
                assert(all[i] == before[i]);
            }
        }
    }
    if is_path(path.push('.') + segment) {
        assert forall|i: int| 1 <= i < before.len() implies is_name(#[trigger] before[i])
            || is_index(before[i]) by {
            assert(all[i] == before[i]);
        }
    }
}

/// A walk goes from an object to the field of that name, from an array to the item of
/// that number, from nothing else anywhere, and ends where no segment is left.
pub proof fn law_walk(
    json: Json,
    fields: Map<Seq<char>, Json>,
    items: Seq<Json>,
    segment: Seq<char>,
    rest: Seq<Seq<char>>,
)
    ensures
        walk(json, Seq::empty()) == Some(json),
        walk(Json::Object(fields), seq![segment] + rest) == if fields.contains_key(segment) {
            walk(fields[segment], rest)
        } else {
            None
        },
        walk(Json::Array(items), seq![segment] + rest) == match numeral_value(segment) {
            Some(n) => if n < items.len() {
                walk(items[n as int], rest)
            } else {
                None
            },
            None => None,
        },
        !(json is Object) && !(json is Array) ==> walk(json, seq![segment] + rest) is None,
{
    let segments = seq![segment] + rest;
    assert(segments[0] == segment);
    assert(segments.drop_first() =~= rest);
}

/// A path names the scenario or the step where it is that word alone; where it begins
/// with neither word it names the flat token that it is.
pub proof fn law_resolve(context: Context, root: Seq<char>, rest: Seq<char>)
    requires
        !root.contains('.'),
    ensures
        resolve(context, "scenario"@) == Some(context.scenario),
        resolve(context, "step"@) == Some(context.step),
        root != "scenario"@ && root != "step"@ ==> {
            let dotted = root.push('.') + rest;
            &&& resolve(context, root) == if context.flat.contains_key(root) {
                Some(Json::String(context.flat[root]))
            } else {
                None
            }
            &&& resolve(context, dotted) == if context.flat.contains_key(dotted) {
                Some(Json::String(context.flat[dotted]))
            } else {
                None
            }
        },
{
    reveal_strlit("scenario");
    reveal_strlit("step");
    lemma_split_on_single("scenario"@, '.');
    lemma_split_on_single("step"@, '.');
    lemma_split_on_single(root, '.');
    lemma_split_on_append(root, rest, '.');
    assert("scenario"@.len() != "step"@.len());
    assert(seq!["scenario"@].drop_first() =~= Seq::<Seq<char>>::empty());
    assert(seq!["step"@].drop_first() =~= Seq::<Seq<char>>::empty());
    assert((seq![root] + split_on(rest, '.'))[0] == root);
}

/// The flat tokens are looked up by their texts.
pub proof fn law_texts(map: Map<Seq<char>, String>, key: Seq<char>)
    ensures
        texts(map).contains_key(key) <==> map.contains_key(key),
        map.contains_key(key) ==> texts(map)[key] == map[key]@,
{
}

/// What is looked up is what the substitution holds.
pub proof fn law_context(s: Substitution)
    ensures
        s@.flat == texts(s.flat@),
        s@.scenario == s.scenario@,
        s@.step == s.step@,
{
}

} // verus!

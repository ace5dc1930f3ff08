//! Text primitives: comparing, searching, splitting and formatting strings.
//!
//! A string is modelled by its view, a `Seq<char>`. Where the order or the
//! number of its bytes matters, the model is `encode_utf8` of that view.
use vstd::prelude::*;
use vstd::string::*;
use vstd::utf8::*;

verus! {

/// `String::push` appends one character to the string.
pub assume_specification[ std::string::String::push ](s: &mut std::string::String, c: char)
    ensures
        final(s)@ == old(s)@.push(c),
;

// ---------------------------------------------------------------------------
// Characters
// ---------------------------------------------------------------------------

/// The text of an optional string.
pub open spec fn opt_text(s: Option<String>) -> Option<Seq<char>> {
    match s {
        Some(s) => Some(s@),
        None => None,
    }
}

/// The characters of `s`, one by one.
pub fn to_chars(s: &str) -> (out: Vec<char>)
    ensures
        out@ == s@,
{
    let mut out: Vec<char> = Vec::new();
    for c in it: s.chars()
        invariant
            it.seq() == s@,
            out@ == s@.take(it.index() as int),
    {
        out.push(c);
    }
    out
}

/// The string that `chars[from..to]` spells.
pub fn from_chars(chars: &Vec<char>, from: usize, to: usize) -> (out: String)
    requires
        from <= to <= chars@.len(),
    ensures
        out@ == chars@.subrange(from as int, to as int),
{
    let mut out = String::new();
    let mut i: usize = from;
    while i < to
        invariant
            from <= i <= to <= chars@.len(),
            out@ == chars@.subrange(from as int, i as int),
        decreases to - i,
    {
        out.push(chars[i]);
        i += 1;
        assert(out@ =~= chars@.subrange(from as int, i as int));
    }
    out
}

// ---------------------------------------------------------------------------
// Equality and order
// ---------------------------------------------------------------------------

/// Two texts with the same UTF-8 bytes are the same text.
pub proof fn lemma_encode_injective(a: Seq<char>, b: Seq<char>)
    ensures
        encode_utf8(a) == encode_utf8(b) <==> a == b,
{
    encode_utf8_decode_utf8(a);
    encode_utf8_decode_utf8(b);
}

/// Whether two strings hold the same characters.
pub fn str_eq(a: &str, b: &str) -> (r: bool)
    ensures
        r == (a@ == b@),
{
    let x = a.as_bytes();
    let y = b.as_bytes();
    proof {
        lemma_encode_injective(a@, b@);
    }
    if x.len() != y.len() {
        return false;
    }
    let mut i: usize = 0;
    while i < x.len()
        invariant
            i <= x.len(),
            x@.len() == y@.len(),
            x@ == encode_utf8(a@),
            y@ == encode_utf8(b@),
            encode_utf8(a@) == encode_utf8(b@) <==> a@ == b@,
            forall|j: int| 0 <= j < i ==> x@[j] == y@[j],
        decreases x.len() - i,
    {
        if x[i] != y[i] {
            return false;
        }
        i += 1;
    }
    assert(x@ =~= y@);
    true
}

/// Lexicographic order on byte sequences.
pub open spec fn bytes_lt(a: Seq<u8>, b: Seq<u8>) -> bool
    decreases a.len(),
{
    if b.len() == 0 {
        false
    } else if a.len() == 0 {
        true
    } else if a[0] != b[0] {
        a[0] < b[0]
    } else {
        bytes_lt(a.drop_first(), b.drop_first())
    }
}

/// The order of strings: lexicographic by their UTF-8 bytes.
pub open spec fn text_lt(a: Seq<char>, b: Seq<char>) -> bool {
    bytes_lt(encode_utf8(a), encode_utf8(b))
}

proof fn lemma_bytes_lt_irreflexive(a: Seq<u8>)
    ensures
        !bytes_lt(a, a),
    decreases a.len(),
{
    if a.len() > 0 {
        lemma_bytes_lt_irreflexive(a.drop_first());
    }
}

proof fn lemma_bytes_lt_transitive(a: Seq<u8>, b: Seq<u8>, c: Seq<u8>)
    requires
        bytes_lt(a, b),
        bytes_lt(b, c),
    ensures
        bytes_lt(a, c),
    decreases a.len(),
{
    if a.len() > 0 && a[0] == b[0] && b[0] == c[0] {
        lemma_bytes_lt_transitive(a.drop_first(), b.drop_first(), c.drop_first());
    }
}

proof fn lemma_bytes_lt_total(a: Seq<u8>, b: Seq<u8>)
    ensures
        bytes_lt(a, b) || a == b || bytes_lt(b, a),
    decreases a.len(),
{
    if a.len() == 0 || b.len() == 0 {
        assert(a.len() == b.len() ==> a =~= b);
    } else if a[0] == b[0] {
        lemma_bytes_lt_total(a.drop_first(), b.drop_first());
        assert(a =~= seq![a[0]] + a.drop_first());
        assert(b =~= seq![b[0]] + b.drop_first());
    }
}

/// The order of strings is a strict total order.
pub proof fn lemma_text_order(a: Seq<char>, b: Seq<char>, c: Seq<char>)
    ensures
        !text_lt(a, a),
        text_lt(a, b) && text_lt(b, c) ==> text_lt(a, c),
        text_lt(a, b) || a == b || text_lt(b, a),
        !(text_lt(a, b) && text_lt(b, a)),
{
    let (x, y, z) = (encode_utf8(a), encode_utf8(b), encode_utf8(c));
    lemma_bytes_lt_irreflexive(x);
    lemma_bytes_lt_total(x, y);
    lemma_encode_injective(a, b);
    if bytes_lt(x, y) && bytes_lt(y, z) {
        lemma_bytes_lt_transitive(x, y, z);
    }
    if bytes_lt(x, y) && bytes_lt(y, x) {
        lemma_bytes_lt_transitive(x, y, x);
    }
}

/// Whether `a` comes before `b` in the order of strings.
pub fn str_lt(a: &str, b: &str) -> (r: bool)
    ensures
        r == text_lt(a@, b@),
{
    let x = a.as_bytes();
    let y = b.as_bytes();
    let mut i: usize = 0;
    assert(x@.skip(0) =~= x@);
    assert(y@.skip(0) =~= y@);
    loop
        invariant
            i <= x@.len(),
            i <= y@.len(),
            x@ == encode_utf8(a@),
            y@ == encode_utf8(b@),
            bytes_lt(x@, y@) == bytes_lt(x@.skip(i as int), y@.skip(i as int)),
        decreases x@.len() - i,
    {
        if i >= y.len() {
            return false;
        }
        if i >= x.len() {
            return true;
        }
        if x[i] != y[i] {
            return x[i] < y[i];
        }
        assert(x@.skip(i as int).drop_first() =~= x@.skip(i + 1));
        assert(y@.skip(i as int).drop_first() =~= y@.skip(i + 1));
        i += 1;
    }
}

// ---------------------------------------------------------------------------
// Prefixes, suffixes, occurrences
// ---------------------------------------------------------------------------

/// Whether `s` begins with `prefix`.
pub open spec fn begins_with(s: Seq<char>, prefix: Seq<char>) -> bool {
    prefix.len() <= s.len() && s.take(prefix.len() as int) == prefix
}

/// Whether `s` ends with `suffix`.
pub open spec fn ends_with(s: Seq<char>, suffix: Seq<char>) -> bool {
    suffix.len() <= s.len() && s.skip(s.len() - suffix.len()) == suffix
}

/// Whether `pattern` occurs in `s` at `at`.
pub open spec fn occurs_at(s: Seq<char>, pattern: Seq<char>, at: int) -> bool {
    0 <= at && at + pattern.len() <= s.len() && s.subrange(at, at + pattern.len()) == pattern
}

/// Whether `pattern` occurs anywhere in `s`.
pub open spec fn occurs_in(s: Seq<char>, pattern: Seq<char>) -> bool {
    exists|at: int| occurs_at(s, pattern, at)
}

fn matches_at(s: &Vec<char>, pattern: &Vec<char>, at: usize) -> (r: bool)
    requires
        at <= s@.len(),
    ensures
        r == occurs_at(s@, pattern@, at as int),
{
    if s.len() - at < pattern.len() {
        return false;
    }
    let total: usize = s.len();
    let mut i: usize = 0;
    while i < pattern.len()
        invariant
            i <= pattern@.len(),
            at + pattern@.len() <= s@.len() == total,
            forall|j: int| 0 <= j < i ==> s@[at + j] == pattern@[j],
        decreases pattern.len() - i,
    {
        if s[at + i] != pattern[i] {
            assert(s@.subrange(at as int, at + pattern@.len())[i as int] != pattern@[i as int]);
            return false;
        }
        i += 1;
    }
    assert(s@.subrange(at as int, at + pattern@.len()) =~= pattern@);
    true
}

/// Whether `s` begins with `prefix`.
pub fn str_begins_with(s: &str, prefix: &str) -> (r: bool)
    ensures
        r == begins_with(s@, prefix@),
{
    let r = matches_at(&to_chars(s), &to_chars(prefix), 0);
    assert(prefix@.len() <= s@.len() ==> s@.subrange(0, prefix@.len() as int) =~= s@.take(
        prefix@.len() as int,
    ));
    r
}

/// `s` without `prefix`, or nothing where `s` does not begin with it.
pub fn str_strip_prefix(s: &str, prefix: &str) -> (r: Option<String>)
    ensures
        r is Some <==> begins_with(s@, prefix@),
        r matches Some(rest) ==> rest@ == s@.skip(prefix@.len() as int),
{
    if str_begins_with(s, prefix) {
        let chars = to_chars(s);
        let rest = from_chars(&chars, to_chars(prefix).len(), chars.len());
        assert(rest@ =~= s@.skip(prefix@.len() as int));
        Some(rest)
    } else {
        None
    }
}

/// `s` without `suffix`, or nothing where `s` does not end with it.
pub fn str_strip_suffix(s: &str, suffix: &str) -> (r: Option<String>)
    ensures
        r is Some <==> ends_with(s@, suffix@),
        r matches Some(rest) ==> rest@ == s@.take(s@.len() - suffix@.len()),
{
    let chars = to_chars(s);
    let tail = to_chars(suffix);
    if chars.len() < tail.len() {
        return None;
    }
    let at: usize = chars.len() - tail.len();
    assert(s@.subrange(at as int, s@.len() as int) =~= s@.skip(at as int));
    if matches_at(&chars, &tail, at) {
        let rest = from_chars(&chars, 0, at);
        assert(rest@ =~= s@.take(at as int));
        Some(rest)
    } else {
        None
    }
}

/// Whether `pattern` occurs anywhere in `s`.
pub fn str_contains(s: &str, pattern: &str) -> (r: bool)
    ensures
        r == occurs_in(s@, pattern@),
{
    let chars = to_chars(s);
    let wanted = to_chars(pattern);
    let mut i: usize = 0;
    loop
        invariant
            i <= chars@.len(),
            chars@ == s@,
            wanted@ == pattern@,
            forall|at: int| 0 <= at < i ==> !occurs_at(s@, pattern@, at),
        decreases chars@.len() - i,
    {
        if matches_at(&chars, &wanted, i) {
            return true;
        }
        if i == chars.len() {
            return false;
        }
        i += 1;
    }
}

/// `s` with every occurrence of `pattern` replaced by `with`, taken from left
/// to right and without overlap.
pub open spec fn replace_all(s: Seq<char>, pattern: Seq<char>, with: Seq<char>) -> Seq<char>
    recommends
        pattern.len() > 0,
    decreases s.len(),
{
    if s.len() == 0 || pattern.len() == 0 {
        s
    } else if occurs_at(s, pattern, 0) {
        with + replace_all(s.skip(pattern.len() as int), pattern, with)
    } else {
        seq![s[0]] + replace_all(s.drop_first(), pattern, with)
    }
}

proof fn lemma_occurs_at_skip(s: Seq<char>, pattern: Seq<char>, at: int)
    requires
        0 <= at <= s.len(),
    ensures
        occurs_at(s.skip(at), pattern, 0) == occurs_at(s, pattern, at),
{
    if at + pattern.len() <= s.len() {
        assert(s.skip(at).subrange(0, pattern.len() as int) =~= s.subrange(
            at,
            at + pattern.len(),
        ));
    }
}

/// Replaces every occurrence of `pattern` in `s` by `with`.
pub fn str_replace(s: &str, pattern: &str, with: &str) -> (out: String)
    requires
        pattern@.len() > 0,
    ensures
        out@ == replace_all(s@, pattern@, with@),
{
    let chars = to_chars(s);
    let wanted = to_chars(pattern);
    let mut out = String::new();
    let mut i: usize = 0;
    assert(s@.skip(0) =~= s@);
    while i < chars.len()
        invariant
            i <= chars@.len(),
            chars@ == s@,
            wanted@ == pattern@,
            pattern@.len() > 0,
            replace_all(s@, pattern@, with@) == out@ + replace_all(
                s@.skip(i as int),
                pattern@,
                with@,
            ),
        decreases chars@.len() - i,
    {
        proof {
            lemma_occurs_at_skip(s@, pattern@, i as int);
        }
        let ghost before = out@;
        let ghost rest = s@.skip(i as int);
        if matches_at(&chars, &wanted, i) {
            out.append(with);
            i += wanted.len();
            assert(rest.skip(pattern@.len() as int) =~= s@.skip(i as int));
        } else {
            out.push(chars[i]);
            i += 1;
            assert(rest.drop_first() =~= s@.skip(i as int));
            assert(out@ =~= before + seq![rest[0]]);
        }
        assert(out@ + replace_all(s@.skip(i as int), pattern@, with@) =~= before + replace_all(
            rest,
            pattern@,
            with@,
        ));
    }
    assert(out@ + Seq::<char>::empty() =~= out@);
    assert(s@.skip(i as int) =~= Seq::<char>::empty());
    out
}

// ---------------------------------------------------------------------------
// White space
// ---------------------------------------------------------------------------

/// The characters with the Unicode property `White_Space`.
pub open spec fn is_white(c: char) -> bool {
    let u = c as u32;
    ||| 0x09 <= u <= 0x0d
    ||| u == 0x20
    ||| u == 0x85
    ||| u == 0xa0
    ||| u == 0x1680
    ||| 0x2000 <= u <= 0x200a
    ||| u == 0x2028
    ||| u == 0x2029
    ||| u == 0x202f
    ||| u == 0x205f
    ||| u == 0x3000
}

/// Whether `c` is white space.
pub fn char_is_white(c: char) -> (r: bool)
    ensures
        r == is_white(c),
{
    let u: u32 = c as u32;
    (0x09 <= u && u <= 0x0d) || u == 0x20 || u == 0x85 || u == 0xa0 || u == 0x1680 || (0x2000 <= u
        && u <= 0x200a) || u == 0x2028 || u == 0x2029 || u == 0x202f || u == 0x205f || u == 0x3000
}

/// `s` without its leading white space.
pub open spec fn trim_start(s: Seq<char>) -> Seq<char>
    decreases s.len(),
{
    if s.len() > 0 && is_white(s[0]) {
        trim_start(s.drop_first())
    } else {
        s
    }
}

/// `s` without its trailing white space.
pub open spec fn trim_end(s: Seq<char>) -> Seq<char>
    decreases s.len(),
{
    if s.len() > 0 && is_white(s.last()) {
        trim_end(s.drop_last())
    } else {
        s
    }
}

/// `s` without its leading and trailing white space.
pub open spec fn trimmed(s: Seq<char>) -> Seq<char> {
    trim_end(trim_start(s))
}

/// Removes leading and trailing white space.
pub fn str_trim(s: &str) -> (out: String)
    ensures
        out@ == trimmed(s@),
{
    let chars = to_chars(s);
    let mut from: usize = 0;
    assert(s@.skip(0) =~= s@);
    while from < chars.len() && char_is_white(chars[from])
        invariant
            from <= chars@.len(),
            chars@ == s@,
            trim_start(s@) == trim_start(s@.skip(from as int)),
        decreases chars@.len() - from,
    {
        assert(s@.skip(from as int).drop_first() =~= s@.skip(from + 1));
        from += 1;
    }
    let mut to: usize = chars.len();
    assert(trim_start(s@) == s@.skip(from as int));
    assert(s@.skip(from as int) =~= s@.subrange(from as int, to as int));
    while to > from && char_is_white(chars[to - 1])
        invariant
            from <= to <= chars@.len(),
            chars@ == s@,
            trimmed(s@) == trim_end(s@.subrange(from as int, to as int)),
        decreases to,
    {
        assert(s@.subrange(from as int, to as int).drop_last() =~= s@.subrange(
            from as int,
            to - 1,
        ));
        to -= 1;
    }
    from_chars(&chars, from, to)
}

// ---------------------------------------------------------------------------
// Splitting
// ---------------------------------------------------------------------------

/// The pieces of `s` between the occurrences of `separator`; one more than
/// there are separators.
pub open spec fn split_on(s: Seq<char>, separator: char) -> Seq<Seq<char>>
    decreases s.len(),
{
    if s.len() == 0 {
        seq![Seq::empty()]
    } else {
        let before = split_on(s.drop_last(), separator);
        if s.last() == separator {
            before.push(Seq::empty())
        } else {
            before.drop_last().push(before.last().push(s.last()))
        }
    }
}

/// The views of a list of strings.
pub open spec fn views(list: Seq<String>) -> Seq<Seq<char>> {
    list.map_values(|s: String| s@)
}

/// Every character of `path` is a separator or belongs to a part.
pub proof fn lemma_split_on_covers(path: Seq<char>, separator: char, i: int)
    requires
        0 <= i < path.len(),
        path[i] != separator,
    ensures
        exists|k: int|
            0 <= k < split_on(path, separator).len() && (#[trigger] split_on(
                path,
                separator,
            )[k]).contains(path[i]),
    decreases path.len(),
{
    let all = split_on(path, separator);
    let before = split_on(path.drop_last(), separator);
    lemma_split_on_len(path.drop_last(), separator);
    if i == path.len() - 1 {
        let k = all.len() - 1;
        assert(all[k][all[k].len() - 1] == path[i]);
        assert(all[k].contains(path[i]));
    } else {
        lemma_split_on_covers(path.drop_last(), separator, i);
        let k = choose|k: int|
            0 <= k < before.len() && (#[trigger] before[k]).contains(path.drop_last()[i]);
        let at = choose|at: int| 0 <= at < before[k].len() && before[k][at] == path[i];
        assert(all[k][at] == path[i]);
        assert(all[k].contains(path[i]));
    }
}

/// There is at least one part.
pub proof fn lemma_split_on_len(path: Seq<char>, separator: char)
    ensures
        split_on(path, separator).len() > 0,
    decreases path.len(),
{
    if path.len() > 0 {
        lemma_split_on_len(path.drop_last(), separator);
    }
}

/// Around a separator, each side is split on its own.
pub proof fn lemma_split_on_append(a: Seq<char>, b: Seq<char>, separator: char)
    ensures
        split_on(a.push(separator) + b, separator) == split_on(a, separator) + split_on(
            b,
            separator,
        ),
    decreases b.len(),
{
    let whole = a.push(separator) + b;
    lemma_split_on_len(b, separator);
    if b.len() == 0 {
        assert(whole =~= a.push(separator));
        assert(whole.drop_last() =~= a);
        assert(split_on(a, separator).push(Seq::empty()) =~= split_on(a, separator) + split_on(
            b,
            separator,
        ));
    } else {
        lemma_split_on_append(a, b.drop_last(), separator);
        lemma_split_on_len(b.drop_last(), separator);
        assert(whole.drop_last() =~= a.push(separator) + b.drop_last());
        assert(whole.last() == b.last());
        assert(split_on(whole, separator) =~= split_on(a, separator) + split_on(b, separator));
    }
}

/// Text without the separator is one part.
pub proof fn lemma_split_on_single(s: Seq<char>, separator: char)
    requires
        !s.contains(separator),
    ensures
        split_on(s, separator) == seq![s],
    decreases s.len(),
{
    if s.len() > 0 {
        assert(s.contains(s.last()));
        assert forall|c: char| s.drop_last().contains(c) implies s.contains(c) by {
            let i = choose|i: int| 0 <= i < s.drop_last().len() && s.drop_last()[i] == c;
            assert(s[i] == c);
        }
        lemma_split_on_single(s.drop_last(), separator);
        assert(s.drop_last().push(s.last()) =~= s);
        assert(split_on(s, separator) =~= seq![s]);
    } else {
        assert(s =~= Seq::<char>::empty());
    }
}

/// Splits `s` at every occurrence of `separator`.
pub fn str_split(s: &str, separator: char) -> (out: Vec<String>)
    ensures
        views(out@) == split_on(s@, separator),
        out@.len() > 0,
{
    let chars = to_chars(s);
    let mut out: Vec<String> = Vec::new();
    let mut current = String::new();
    let mut i: usize = 0;
    assert(s@.take(0) =~= Seq::<char>::empty());
    assert(views(out@).push(current@) =~= split_on(s@.take(0), separator));
    while i < chars.len()
        invariant
            i <= chars@.len(),
            chars@ == s@,
            views(out@).push(current@) == split_on(s@.take(i as int), separator),
        decreases chars@.len() - i,
    {
        let ghost before = views(out@).push(current@);
        assert(s@.take(i + 1).drop_last() =~= s@.take(i as int));
        assert(s@.take(i + 1).last() == s@[i as int]);
        if chars[i] == separator {
            out.push(current);
            current = String::new();
            assert(views(out@) =~= before);
            assert(views(out@).push(current@) =~= before.push(Seq::empty()));
        } else {
            current.push(chars[i]);
            assert(views(out@) =~= before.drop_last());
        }
        i += 1;
    }
    out.push(current);
    assert(s@.take(i as int) =~= s@);
    assert(views(out@) =~= split_on(s@, separator));
    out
}

/// The words of `s`, that is its pieces between white space that are not empty.
pub open spec fn words(s: Seq<char>) -> Seq<Seq<char>>
    decreases s.len(),
{
    if s.len() == 0 {
        Seq::empty()
    } else {
        let before = words(s.drop_last());
        if is_white(s.last()) {
            before
        } else if s.len() == 1 || is_white(s[s.len() - 2]) {
            before.push(seq![s.last()])
        } else {
            before.drop_last().push(before.last().push(s.last()))
        }
    }
}

/// Splits `s` into its words.
pub fn str_words(s: &str) -> (out: Vec<String>)
    ensures
        views(out@) == words(s@),
{
    let chars = to_chars(s);
    let mut out: Vec<String> = Vec::new();
    let mut current = String::new();
    let mut open: bool = false;
    let mut i: usize = 0;
    assert(s@.take(0) =~= Seq::<char>::empty());
    assert(views(out@) =~= words(s@.take(0)));
    while i < chars.len()
        invariant
            i <= chars@.len(),
            chars@ == s@,
            open <==> i > 0 && !is_white(s@[i - 1]),
            open ==> views(out@).push(current@) == words(s@.take(i as int)),
            !open ==> views(out@) == words(s@.take(i as int)) && current@.len() == 0,
        decreases chars@.len() - i,
    {
        let ghost before = words(s@.take(i as int));
        let ghost done = views(out@);
        let ghost word = current@;
        assert(s@.take(i + 1).drop_last() =~= s@.take(i as int));
        if char_is_white(chars[i]) {
            if open {
                out.push(current);
                current = String::new();
                assert(views(out@) =~= before);
            }
            open = false;
        } else {
            current.push(chars[i]);
            if open {
                assert(before.drop_last() =~= done);
                assert(before.last() == word);
            } else {
                assert(current@ =~= seq![s@[i as int]]);
            }
            open = true;
            assert(views(out@) == done);
        }
        i += 1;
    }
    assert(s@.take(i as int) =~= s@);
    if open {
        let ghost done = views(out@);
        let ghost word = current@;
        out.push(current);
        assert(views(out@) =~= done.push(word));
    }
    out
}

/// The part of `s` behind its last `separator`; all of `s` where there is none.
pub open spec fn after_last(s: Seq<char>, separator: char) -> Seq<char>
    decreases s.len(),
{
    if s.len() == 0 || s.last() == separator {
        Seq::empty()
    } else {
        after_last(s.drop_last(), separator).push(s.last())
    }
}

/// What follows the last separator is what stands behind it and holds none.
pub proof fn lemma_after_last(front: Seq<char>, back: Seq<char>, separator: char)
    requires
        !back.contains(separator),
    ensures
        after_last(front.push(separator) + back, separator) == back,
        after_last(back, separator) == back,
    decreases back.len(),
{
    let whole = front.push(separator) + back;
    if back.len() == 0 {
        assert(whole =~= front.push(separator));
        assert(back =~= Seq::<char>::empty());
    } else {
        let shorter = back.drop_last();
        assert(back.contains(back.last()));
        assert forall|c: char| shorter.contains(c) implies back.contains(c) by {
            let i = choose|i: int| 0 <= i < shorter.len() && shorter[i] == c;
            assert(back[i] == c);
        }
        lemma_after_last(front, shorter, separator);
        assert(whole.drop_last() =~= front.push(separator) + shorter);
        assert(whole.last() == back.last());
        assert(shorter.push(back.last()) =~= back);
    }
}

/// The part of `s` behind its last `separator`.
pub fn str_after_last(s: &str, separator: char) -> (out: String)
    ensures
        out@ == after_last(s@, separator),
{
    let chars = to_chars(s);
    let mut out = String::new();
    let mut i: usize = 0;
    assert(s@.take(0) =~= Seq::<char>::empty());
    while i < chars.len()
        invariant
            i <= chars@.len(),
            chars@ == s@,
            out@ == after_last(s@.take(i as int), separator),
        decreases chars@.len() - i,
    {
        assert(s@.take(i + 1).drop_last() =~= s@.take(i as int));
        if chars[i] == separator {
            out = String::new();
        } else {
            out.push(chars[i]);
        }
        i += 1;
    }
    assert(s@.take(i as int) =~= s@);
    out
}

/// `s` without the run of `c` that it begins with.
pub open spec fn trim_start_char(s: Seq<char>, c: char) -> Seq<char>
    decreases s.len(),
{
    if s.len() > 0 && s[0] == c {
        trim_start_char(s.drop_first(), c)
    } else {
        s
    }
}

/// `s` without the run of `c` that it ends with.
pub open spec fn trim_end_char(s: Seq<char>, c: char) -> Seq<char>
    decreases s.len(),
{
    if s.len() > 0 && s.last() == c {
        trim_end_char(s.drop_last(), c)
    } else {
        s
    }
}

/// Removes the run of `c` that `s` begins with.
pub fn str_trim_start_char(s: &str, c: char) -> (out: String)
    ensures
        out@ == trim_start_char(s@, c),
{
    let chars = to_chars(s);
    let mut from: usize = 0;
    assert(s@.skip(0) =~= s@);
    while from < chars.len() && chars[from] == c
        invariant
            from <= chars@.len(),
            chars@ == s@,
            trim_start_char(s@, c) == trim_start_char(s@.skip(from as int), c),
        decreases chars@.len() - from,
    {
        assert(s@.skip(from as int).drop_first() =~= s@.skip(from + 1));
        from += 1;
    }
    assert(s@.skip(from as int) =~= s@.subrange(from as int, s@.len() as int));
    from_chars(&chars, from, chars.len())
}

/// Removes the run of `c` that `s` ends with.
pub fn str_trim_end_char(s: &str, c: char) -> (out: String)
    ensures
        out@ == trim_end_char(s@, c),
{
    let chars = to_chars(s);
    let mut to: usize = chars.len();
    assert(s@.take(to as int) =~= s@);
    while to > 0 && chars[to - 1] == c
        invariant
            to <= chars@.len(),
            chars@ == s@,
            trim_end_char(s@, c) == trim_end_char(s@.take(to as int), c),
        decreases to,
    {
        assert(s@.take(to as int).drop_last() =~= s@.take(to - 1));
        to -= 1;
    }
    assert(s@.take(to as int) =~= s@.subrange(0, to as int));
    from_chars(&chars, 0, to)
}

/// The texts of `list` with `separator` between each two of them.
pub open spec fn joined(list: Seq<Seq<char>>, separator: Seq<char>) -> Seq<char>
    decreases list.len(),
{
    if list.len() == 0 {
        Seq::empty()
    } else if list.len() == 1 {
        list[0]
    } else {
        joined(list.drop_last(), separator) + separator + list.last()
    }
}

/// Joins the strings of `list` with `separator`.
pub fn str_join(list: &Vec<String>, separator: &str) -> (out: String)
    ensures
        out@ == joined(views(list@), separator@),
{
    let mut out = String::new();
    let mut i: usize = 0;
    let ghost all = views(list@);
    assert(all.take(0) =~= Seq::<Seq<char>>::empty());
    while i < list.len()
        invariant
            i <= list@.len(),
            all == views(list@),
            out@ == joined(all.take(i as int), separator@),
        decreases list@.len() - i,
    {
        assert(all.take(i + 1).drop_last() =~= all.take(i as int));
        if i > 0 {
            out.append(separator);
        } else {
            assert(out@ + list@[0]@ =~= list@[0]@);
        }
        out.append(list[i].as_str());
        i += 1;
    }
    assert(all.take(i as int) =~= all);
    out
}

// ---------------------------------------------------------------------------
// Laws
// ---------------------------------------------------------------------------


/// The text of an optional string is that string's text.
pub proof fn law_optional_text(s: String)
    ensures
        opt_text(Some(s)) == Some(s@),
        opt_text(None) == None::<Seq<char>>,
{
}

/// A list of strings has the texts of its items, in their order.
pub proof fn law_views(list: Seq<String>)
    ensures
        views(list).len() == list.len(),
        forall|i: int| 0 <= i < list.len() ==> #[trigger] views(list)[i] == list[i]@,
{
}

/// Text begins with what it has in front, ends with what it has at its end, and has in
/// it what stands between anything.
pub proof fn law_parts_are_found(a: Seq<char>, part: Seq<char>, b: Seq<char>)
    ensures
        begins_with(part + b, part),
        ends_with(a + part, part),
        occurs_in(a + part + b, part),
{
    assert((part + b).take(part.len() as int) =~= part);
    assert((a + part).skip(a.len() as int) =~= part);
    assert((a + part + b).subrange(a.len() as int, a.len() as int + part.len()) =~= part);
    assert(occurs_at(a + part + b, part, a.len() as int));
}

/// Where a part is found, the text is that part with something around it.
pub proof fn law_found_parts_are_there(s: Seq<char>, part: Seq<char>)
    ensures
        begins_with(s, part) ==> exists|b: Seq<char>| s == #[trigger] (part + b),
        ends_with(s, part) ==> exists|a: Seq<char>| s == #[trigger] (a + part),
        occurs_in(s, part) ==> exists|a: Seq<char>, b: Seq<char>| s == #[trigger] (a + part + b),
{
    if begins_with(s, part) {
        assert(s =~= part + s.skip(part.len() as int));
    }
    if ends_with(s, part) {
        assert(s =~= s.take(s.len() - part.len()) + part);
    }
    if occurs_in(s, part) {
        let at = choose|at: int| occurs_at(s, part, at);
        assert(s =~= s.take(at) + part + s.skip(at + part.len()));
    }
}

/// Text in which the pattern does not occur is not changed.
pub proof fn law_replace_nothing(s: Seq<char>, pattern: Seq<char>, with: Seq<char>)
    requires
        pattern.len() > 0,
        forall|a: Seq<char>, b: Seq<char>| s != #[trigger] (a + pattern + b),
    ensures
        replace_all(s, pattern, with) == s,
    decreases s.len(),
{
    if s.len() > 0 {
        if occurs_at(s, pattern, 0) {
            let none = Seq::<char>::empty();
            assert(s =~= none + pattern + s.skip(pattern.len() as int));
            assert(false);
        }
        assert forall|a: Seq<char>, b: Seq<char>| s.drop_first() != #[trigger] (a + pattern
            + b) by {
            if s.drop_first() == a + pattern + b {
                let longer = seq![s[0]] + a;
                assert(s =~= seq![s[0]] + s.drop_first());
                assert(seq![s[0]] + (a + pattern + b) =~= longer + pattern + b);
                assert(s == longer + pattern + b);
            }
        }
        law_replace_nothing(s.drop_first(), pattern, with);
        assert(seq![s[0]] + s.drop_first() =~= s);
    }
}

/// The first occurrence of the pattern is replaced; what stands in front of it is kept,
/// and what follows is treated on its own.
pub proof fn law_replace_first(
    a: Seq<char>,
    pattern: Seq<char>,
    b: Seq<char>,
    with: Seq<char>,
)
    requires
        pattern.len() > 0,
        forall|x: Seq<char>, y: Seq<char>|
            a + pattern + b == #[trigger] (x + pattern + y) ==> x.len() >= a.len(),
    ensures
        replace_all(a + pattern + b, pattern, with) == a + with + replace_all(b, pattern, with),
    decreases a.len(),
{
    let s = a + pattern + b;
    if a.len() == 0 {
        assert(s.subrange(0, pattern.len() as int) =~= pattern);
        assert(s.skip(pattern.len() as int) =~= b);
        assert(a + with =~= with);
    } else {
        if occurs_at(s, pattern, 0) {
            let none = Seq::<char>::empty();
            assert(s =~= none + pattern + s.skip(pattern.len() as int));
            assert(false);
        }
        let rest = a.drop_first();
        assert(s.drop_first() =~= rest + pattern + b);
        assert forall|x: Seq<char>, y: Seq<char>|
            rest + pattern + b == #[trigger] (x + pattern + y) implies x.len() >= rest.len() by {
            let longer = seq![a[0]] + x;
            assert(s =~= seq![a[0]] + (rest + pattern + b));
            assert(seq![a[0]] + (x + pattern + y) =~= longer + pattern + y);
            assert(s == longer + pattern + y);
        }
        law_replace_first(rest, pattern, b, with);
        assert(seq![s[0]] + (rest + with + replace_all(b, pattern, with)) =~= a + with
            + replace_all(b, pattern, with));
    }
}

/// Whether `s` is nothing but white space.
pub open spec fn all_white(s: Seq<char>) -> bool {
    forall|i: int| 0 <= i < s.len() ==> is_white(#[trigger] s[i])
}

proof fn lemma_trim_start(s: Seq<char>) -> (i: int)
    ensures
        0 <= i <= s.len(),
        trim_start(s) == s.skip(i),
        all_white(s.take(i)),
        i < s.len() ==> !is_white(s[i]),
    decreases s.len(),
{
    if s.len() > 0 && is_white(s[0]) {
        let rest = s.drop_first();
        let i = lemma_trim_start(rest);
        assert(rest.skip(i) =~= s.skip(i + 1));
        assert forall|k: int| 0 <= k < i + 1 implies is_white(#[trigger] s.take(i + 1)[k]) by {
            if k > 0 {
                assert(rest.take(i)[k - 1] == s[k]);
            }
        }
        i + 1
    } else {
        assert(s.skip(0) =~= s);
        0
    }
}

proof fn lemma_trim_end(s: Seq<char>) -> (j: int)
    ensures
        0 <= j <= s.len(),
        trim_end(s) == s.take(j),
        all_white(s.skip(j)),
        j > 0 ==> !is_white(s[j - 1]),
    decreases s.len(),
{
    if s.len() > 0 && is_white(s.last()) {
        let rest = s.drop_last();
        let j = lemma_trim_end(rest);
        assert(rest.take(j) =~= s.take(j));
        assert forall|k: int| 0 <= k < s.skip(j).len() implies is_white(
            #[trigger] s.skip(j)[k],
        ) by {
            if k < rest.len() - j {
                assert(rest.skip(j)[k] == s[j + k]);
            }
        }
        j
    } else {
        assert(s.take(s.len() as int) =~= s);
        s.len() as int
    }
}

/// Trimming takes nothing but white space away, and leaves none at either end.
pub proof fn law_trimmed(s: Seq<char>)
    ensures
        exists|i: int, j: int|
            0 <= i <= j <= s.len() && trimmed(s) == #[trigger] s.subrange(i, j) && all_white(
                s.take(i),
            ) && all_white(s.skip(j)),
        trimmed(s).len() > 0 ==> !is_white(trimmed(s)[0]) && !is_white(trimmed(s).last()),
{
    let i = lemma_trim_start(s);
    let inner = s.skip(i);
    let j = lemma_trim_end(inner);
    assert(inner.take(j) =~= s.subrange(i, i + j));
    assert(inner.skip(j) =~= s.skip(i + j));
    assert(trimmed(s) == s.subrange(i, i + j));
}

/// A list is joined item by item, with the separator between any two.
pub proof fn law_joined(list: Seq<Seq<char>>, item: Seq<char>, separator: Seq<char>)
    ensures
        joined(Seq::empty(), separator) == Seq::<char>::empty(),
        joined(seq![item], separator) == item,
        list.len() > 0 ==> joined(list.push(item), separator) == joined(list, separator)
            + separator + item,
{
    assert(list.push(item).drop_last() =~= list);
}

/// The parts of a split text hold no separator, there is at least one, and joined
/// they are the text again.
pub proof fn law_split(s: Seq<char>, separator: char)
    ensures
        split_on(s, separator).len() > 0,
        forall|i: int|
            0 <= i < split_on(s, separator).len() ==> !(#[trigger] split_on(
                s,
                separator,
            )[i]).contains(separator),
        joined(split_on(s, separator), seq![separator]) == s,
    decreases s.len(),
{
    let parts = split_on(s, separator);
    if s.len() == 0 {
        assert(joined(parts, seq![separator]) =~= s);
    } else {
        law_split(s.drop_last(), separator);
        let before = split_on(s.drop_last(), separator);
        if s.last() == separator {
            law_joined(before, Seq::empty(), seq![separator]);
            assert(joined(parts, seq![separator]) =~= s);
        } else {
            let front = before.drop_last();
            let last = before.last().push(s.last());
            assert(!before[before.len() - 1].contains(separator));
            assert(!last.contains(separator)) by {
                if last.contains(separator) {
                    let i = choose|i: int| 0 <= i < last.len() && last[i] == separator;
                    assert(before.last()[i] == separator);
                }
            }
            assert(front.push(before.last()) =~= before);
            law_joined(front, before.last(), seq![separator]);
            law_joined(front, last, seq![separator]);
            if front.len() == 0 {
                assert(before =~= seq![before.last()]);
                assert(parts =~= seq![last]);
            }
            assert(joined(parts, seq![separator]) =~= joined(before, seq![separator]).push(
                s.last(),
            ));
            assert(s.drop_last().push(s.last()) =~= s);
            assert forall|i: int| 0 <= i < parts.len() implies !(#[trigger] parts[i]).contains(
                separator,
            ) by {
                if i < front.len() {
                    assert(parts[i] == before[i]);
                }
            }
        }
    }
}

/// Text without white space is one word, and white space parts the words around it.
pub proof fn law_words(a: Seq<char>, c: char, b: Seq<char>)
    requires
        is_white(c),
    ensures
        words(Seq::empty()) == Seq::<Seq<char>>::empty(),
        words(a.push(c) + b) == words(a) + words(b),
        b.len() > 0 && (forall|i: int| 0 <= i < b.len() ==> !is_white(#[trigger] b[i])) ==> words(b)
            == seq![b],
    decreases b.len(),
{
    let whole = a.push(c) + b;
    if b.len() == 0 {
        assert(whole =~= a.push(c));
        assert(a.push(c).drop_last() =~= a);
        assert(words(a) + words(b) =~= words(a));
    } else {
        let shorter = b.drop_last();
        law_words(a, c, shorter);
        assert(whole.drop_last() =~= a.push(c) + shorter);
        assert(whole.last() == b.last());
        if !is_white(b.last()) {
            if b.len() == 1 {
                assert(shorter =~= Seq::<char>::empty());
                assert(whole[whole.len() - 2] == c);
                assert(words(shorter).push(seq![b.last()]) =~= seq![seq![b.last()]]);
                assert(seq![b.last()] =~= b);
                assert(words(whole) =~= words(a) + words(b));
            } else {
                assert(whole[whole.len() - 2] == b[b.len() - 2]);
                if !is_white(b[b.len() - 2]) {
                    lemma_last_word(shorter);
                }
                assert(words(whole) =~= words(a) + words(b));
                if forall|i: int| 0 <= i < b.len() ==> !is_white(#[trigger] b[i]) {
                    assert forall|i: int| 0 <= i < shorter.len() implies !is_white(
                        #[trigger] shorter[i],
                    ) by {
                        assert(shorter[i] == b[i]);
                    }
                    assert(shorter.push(b.last()) =~= b);
                    assert(words(b) =~= seq![b]);
                }
            }
        } else {
            assert(is_white(b[b.len() - 1]));
        }
    }
}

proof fn lemma_last_word(s: Seq<char>)
    requires
        s.len() > 0,
        !is_white(s.last()),
    ensures
        words(s).len() > 0,
    decreases s.len(),
{
}

/// Whether `s` is nothing but `c`.
pub open spec fn nothing_but(s: Seq<char>, c: char) -> bool {
    forall|i: int| 0 <= i < s.len() ==> #[trigger] s[i] == c
}

/// Taking a character from the front takes nothing else away, and leaves none there.
pub proof fn law_trim_start_char(s: Seq<char>, c: char)
    ensures
        exists|i: int|
            0 <= i <= s.len() && trim_start_char(s, c) == #[trigger] s.skip(i) && nothing_but(
                s.take(i),
                c,
            ),
        trim_start_char(s, c).len() > 0 ==> trim_start_char(s, c)[0] != c,
    decreases s.len(),
{
    if s.len() > 0 && s[0] == c {
        let rest = s.drop_first();
        law_trim_start_char(rest, c);
        let i = choose|i: int|
            0 <= i <= rest.len() && trim_start_char(rest, c) == #[trigger] rest.skip(i)
                && nothing_but(rest.take(i), c);
        assert(rest.skip(i) =~= s.skip(i + 1));
        assert forall|k: int| 0 <= k < i + 1 implies #[trigger] s.take(i + 1)[k] == c by {
            if k > 0 {
                assert(rest.take(i)[k - 1] == s[k]);
            }
        }
        assert(nothing_but(s.take(i + 1), c));
    } else {
        assert(s.skip(0) =~= s);
        assert(nothing_but(s.take(0), c));
    }
}

/// Taking a character from the end takes nothing else away, and leaves none there.
pub proof fn law_trim_end_char(s: Seq<char>, c: char)
    ensures
        exists|j: int|
            0 <= j <= s.len() && trim_end_char(s, c) == #[trigger] s.take(j) && nothing_but(
                s.skip(j),
                c,
            ),
        trim_end_char(s, c).len() > 0 ==> trim_end_char(s, c).last() != c,
    decreases s.len(),
{
    if s.len() > 0 && s.last() == c {
        let rest = s.drop_last();
        law_trim_end_char(rest, c);
        let j = choose|j: int|
            0 <= j <= rest.len() && trim_end_char(rest, c) == #[trigger] rest.take(j)
                && nothing_but(rest.skip(j), c);
        assert(rest.take(j) =~= s.take(j));
        assert forall|k: int| 0 <= k < s.skip(j).len() implies #[trigger] s.skip(j)[k] == c by {
            if k < rest.len() - j {
                assert(rest.skip(j)[k] == s[j + k]);
            }
        }
        assert(nothing_but(s.skip(j), c));
    } else {
        let n = s.len() as int;
        assert(s.take(n) =~= s);
        assert(nothing_but(s.skip(n), c));
    }
}

proof fn lemma_bytes_common(p: Seq<u8>, a: Seq<u8>, b: Seq<u8>)
    ensures
        bytes_lt(p + a, p + b) == bytes_lt(a, b),
    decreases p.len(),
{
    if p.len() == 0 {
        assert(p + a =~= a);
        assert(p + b =~= b);
    } else {
        lemma_bytes_common(p.drop_first(), a, b);
        assert((p + a).drop_first() =~= p.drop_first() + a);
        assert((p + b).drop_first() =~= p.drop_first() + b);
    }
}

/// Texts are ordered by the first byte in which they differ; one that is all there is
/// of another's front comes before it.
pub proof fn law_order_is_by_bytes(
    a: Seq<char>,
    b: Seq<char>,
    common: Seq<u8>,
    x: Seq<u8>,
    y: Seq<u8>,
)
    requires
        encode_utf8(a) == common + x,
        encode_utf8(b) == common + y,
    ensures
        x.len() > 0 && y.len() > 0 && x[0] < y[0] ==> text_lt(a, b) && !text_lt(b, a),
        x.len() == 0 && y.len() > 0 ==> text_lt(a, b) && !text_lt(b, a),
        x.len() == 0 && y.len() == 0 ==> !text_lt(a, b) && !text_lt(b, a),
{
    lemma_bytes_common(common, x, y);
    lemma_bytes_common(common, y, x);
}

/// White space is the ASCII blanks, the next-line and no-break characters, and the spaces
/// and separators of Unicode.
pub proof fn law_white(c: char)
    ensures
        is_white(c) <==> {
            ||| c == ' ' || c == '\t' || c == '\n' || c == '\u{b}' || c == '\u{c}' || c == '\r'
            ||| c == '\u{85}' || c == '\u{a0}' || c == '\u{1680}'
            ||| c == '\u{2000}' || c == '\u{2001}' || c == '\u{2002}' || c == '\u{2003}'
            ||| c == '\u{2004}' || c == '\u{2005}' || c == '\u{2006}' || c == '\u{2007}'
            ||| c == '\u{2008}' || c == '\u{2009}' || c == '\u{200a}'
            ||| c == '\u{2028}' || c == '\u{2029}' || c == '\u{202f}' || c == '\u{205f}'
            ||| c == '\u{3000}'
        },
{
}

} // verus!

//! Templates: text with placeholders in braces.
use vstd::prelude::*;

verus! {

/// The place of the first `}` in `chars` at or behind `from`; the length of
/// `chars` where there is none.
pub open spec fn closing_brace(chars: Seq<char>, from: int) -> int
    decreases chars.len() - from,
{
    if from >= chars.len() {
        chars.len() as int
    } else if chars[from] == '}' {
        from
    } else {
        closing_brace(chars, from + 1)
    }
}

/// The first closing brace lies where it is looked for, with none in front of it.
pub proof fn lemma_closing_brace(chars: Seq<char>, from: int)
    requires
        0 <= from <= chars.len(),
    ensures
        from <= closing_brace(chars, from) <= chars.len(),
        forall|i: int| from <= i < closing_brace(chars, from) ==> chars[i] != '}',
        closing_brace(chars, from) < chars.len() ==> chars[closing_brace(chars, from)] == '}',
    decreases chars.len() - from,
{
    if from < chars.len() && chars[from] != '}' {
        lemma_closing_brace(chars, from + 1);
    }
}

/// The first closing brace is the one with none in front of it.
pub proof fn lemma_closing_brace_is(chars: Seq<char>, from: int, at: int)
    requires
        0 <= from <= at <= chars.len(),
        forall|i: int| from <= i < at ==> chars[i] != '}',
        at < chars.len() ==> chars[at] == '}',
    ensures
        closing_brace(chars, from) == at,
    decreases at - from,
{
    if from < at {
        lemma_closing_brace_is(chars, from + 1, at);
    }
}

/// Finds the first `}` in `chars` at or behind `from`; the length of `chars` where
/// there is none.
pub fn find_closing_brace(chars: &Vec<char>, from: usize) -> (at: usize)
    requires
        from <= chars@.len(),
    ensures
        at == closing_brace(chars@, from as int),
        from <= at <= chars@.len(),
{
    let mut i: usize = from;
    while i < chars.len() && chars[i] != '}'
        invariant
            from <= i <= chars@.len(),
            closing_brace(chars@, from as int) == closing_brace(chars@, i as int),
        decreases chars@.len() - i,
    {
        i += 1;
    }
    i
}

/// `inner` in braces, followed by `rest`.
pub open spec fn braced(inner: Seq<char>, rest: Seq<char>) -> Seq<char> {
    seq!['{'] + inner + seq!['}'] + rest
}

} // verus!

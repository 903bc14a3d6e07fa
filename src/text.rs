//! Splitting text: the source and the pattern are held as characters, and each chunk is
//! handed out as a `String`.
use vstd::prelude::*;
use crate::chunker::{SplitEvery, chunk_at, chunk_of, lemma_chunk_at_bounds};
use crate::matcher::{CharPredicate, Matcher, TextPattern};

verus! {

broadcast use vstd::string::group_string_axioms;

/// The characters of `s`, in order.
pub fn chars_of(s: &str) -> (r: Vec<char>)
    ensures
        r@ == s@,
{
    let mut out: Vec<char> = Vec::new();
    for c in it: s.chars()
        invariant
            out@ == it.history(),
    {
        out.push(c);
    }
    assert(out@ =~= s@);
    out
}

/// Relies on `String::push`: appends one character at the end.
#[verifier::external_body]
fn push_char(s: &mut String, c: char)
    ensures
        final(s)@ == old(s)@.push(c),
{
    s.push(c)
}

/// The characters `s[from..to]` as a `String`.
fn string_of_range(s: &Vec<char>, from: usize, to: usize) -> (r: String)
    requires
        from <= to <= s@.len(),
    ensures
        r@ == s@.subrange(from as int, to as int),
{
    let mut out = String::new();
    let mut i: usize = from;
    while i < to
        invariant
            from <= i <= to <= s@.len(),
            out@ == s@.subrange(from as int, i as int),
        decreases to - i,
    {
        push_char(&mut out, s[i]);
        i = i + 1;
        assert(out@ =~= s@.subrange(from as int, i as int));
    }
    out
}

/// What one call that hands out the next chunk of text does: `r` is the chunk that starts at
/// the cursor of `before`, if any, and `after` has its cursor past it.
pub open spec fn text_step<M: Matcher<char>>(
    before: SplitEvery<Vec<char>, M>,
    after: SplitEvery<Vec<char>, M>,
    r: Option<String>,
) -> bool {
    &&& after.wf()
    &&& after.source() == before.source()
    &&& after.pattern() == before.pattern()
    &&& after.count() == before.count()
    &&& r matches Some(t) ==> chunk_of(&before.pattern(), before.source()@, before.cursor() as int,
        before.count()) == Some(t@)
    &&& r is None <==> before.cursor() == before.source()@.len()
    &&& r is None ==> after == before
    &&& r matches Some(t) ==> t@.len() <= before.source()@.len() - before.cursor()
    &&& after.cursor() == match chunk_at(&before.pattern(), before.source()@,
        before.cursor() as int, before.count()) {
        Some((_, next)) => next as nat,
        None => before.cursor(),
    }
}

/// Hands out the next chunk of text.
fn next_text<M: Matcher<char>>(sp: &mut SplitEvery<Vec<char>, M>) -> (r: Option<String>)
    requires
        old(sp).wf(),
    ensures
        text_step(*old(sp), *final(sp), r),
{
    match sp.next_range() {
        Some((a, b)) => {
            proof {
                lemma_chunk_at_bounds(&sp.pattern(), sp.source()@, a as int, sp.count());
            }
            Some(string_of_range(sp.source_ref(), a, b))
        },
        None => None,
    }
}

impl SplitEvery<Vec<char>, TextPattern> {
    /// A splitter of `source` after every `n` occurrences of the text `pat`.
    pub fn from_text(source: &str, pat: &str, n: usize) -> (r: Self)
        requires
            n >= 1,
            pat@.len() > 0,
        ensures
            r.wf(),
            r.source()@ == source@,
            r.pattern() matches TextPattern::Literal(p) && p@ == pat@,
            r.count() == n,
            r.cursor() == 0,
    {
        SplitEvery::new(chars_of(source), TextPattern::Literal(chars_of(pat)), n)
    }

    /// A splitter of `source` after every `n` occurrences of the character `pat`.
    pub fn from_char(source: &str, pat: char, n: usize) -> (r: Self)
        requires
            n >= 1,
        ensures
            r.wf(),
            r.source()@ == source@,
            r.pattern() == TextPattern::Char(pat),
            r.count() == n,
            r.cursor() == 0,
    {
        SplitEvery::new(chars_of(source), TextPattern::Char(pat), n)
    }

    /// A splitter of `source` after every `n` occurrences of any one character of `pats`.
    pub fn from_any_char(source: &str, pats: &str, n: usize) -> (r: Self)
        requires
            n >= 1,
        ensures
            r.wf(),
            r.source()@ == source@,
            r.pattern() matches TextPattern::AnyOf(cs) && cs@ == pats@,
            r.count() == n,
            r.cursor() == 0,
    {
        SplitEvery::new(chars_of(source), TextPattern::AnyOf(chars_of(pats)), n)
    }

    /// The next chunk of text, or `None` once the source has been handed out.
    pub fn next(&mut self) -> (r: Option<String>)
        requires
            old(self).wf(),
        ensures
            text_step(*old(self), *final(self), r),
    {
        next_text(self)
    }

}

impl<F: Fn(char) -> bool> SplitEvery<Vec<char>, CharPredicate<F>> {
    /// A splitter of `source` after every `n` characters that `test` accepts.
    pub fn from_predicate(source: &str, test: F, n: usize) -> (r: Self)
        requires
            n >= 1,
            (CharPredicate { test }).wf(),
        ensures
            r.wf(),
            r.source()@ == source@,
            r.pattern().test == test,
            r.count() == n,
            r.cursor() == 0,
    {
        SplitEvery::new(chars_of(source), CharPredicate { test }, n)
    }

    /// The next chunk of text, or `None` once the source has been handed out.
    pub fn next(&mut self) -> (r: Option<String>)
        requires
            old(self).wf(),
        ensures
            text_step(*old(self), *final(self), r),
    {
        next_text(self)
    }
}

} // verus!

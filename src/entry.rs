//! Entry points: `source.split_every_n_times(pattern, n)` for text and element sequences.
use vstd::prelude::*;
use vstd::laws_eq::obeys_concrete_eq;
use crate::chunker::SplitEvery;
use crate::matcher::{Matcher, TextPattern};

verus! {

/// A source that can be split after every `n` occurrences of a pattern of its own kind.
pub trait SplitEveryImpl: Sized {
    /// What the source is a sequence of.
    type Elem;

    /// The pattern the splitter looks for.
    type Pat: Matcher<Self::Elem>;

    /// The source as a sequence of elements.
    spec fn elems(&self) -> Seq<Self::Elem>;

    /// `pat` can serve as a pattern.
    spec fn accepts(pat: &Self) -> bool;

    /// `m` is the pattern that `pat` stands for.
    spec fn stands_for(pat: &Self, m: Self::Pat) -> bool;

    /// A splitter at the start of this source.
    fn split_every_n_times(self, pat: Self, n: usize) -> (r: SplitEvery<Vec<Self::Elem>, Self::Pat>)
        requires
            n >= 1,
            Self::accepts(&pat),
        ensures
            r.wf(),
            r.source()@ == self.elems(),
            Self::stands_for(&pat, r.pattern()),
            r.count() == n,
            r.cursor() == 0,
    ;
}

impl<'a> SplitEveryImpl for &'a str {
    type Elem = char;

    type Pat = TextPattern;

    open spec fn elems(&self) -> Seq<char> {
        (*self)@
    }

    open spec fn accepts(pat: &Self) -> bool {
        (*pat)@.len() > 0
    }

    open spec fn stands_for(pat: &Self, m: TextPattern) -> bool {
        m matches TextPattern::Literal(p) && p@ == (*pat)@
    }

    fn split_every_n_times(self, pat: Self, n: usize) -> (r: SplitEvery<Vec<char>, TextPattern>) {
        SplitEvery::from_text(self, pat, n)
    }
}

impl SplitEveryImpl for String {
    type Elem = char;

    type Pat = TextPattern;

    open spec fn elems(&self) -> Seq<char> {
        self@
    }

    open spec fn accepts(pat: &Self) -> bool {
        pat@.len() > 0
    }

    open spec fn stands_for(pat: &Self, m: TextPattern) -> bool {
        m matches TextPattern::Literal(p) && p@ == pat@
    }

    fn split_every_n_times(self, pat: Self, n: usize) -> (r: SplitEvery<Vec<char>, TextPattern>) {
        SplitEvery::from_text(self.as_str(), pat.as_str(), n)
    }
}

impl<T: Copy + PartialEq> SplitEveryImpl for Vec<T> {
    type Elem = T;

    type Pat = Vec<T>;

    open spec fn elems(&self) -> Seq<T> {
        self@
    }

    open spec fn accepts(pat: &Self) -> bool {
        pat@.len() > 0 && obeys_concrete_eq::<T>()
    }

    open spec fn stands_for(pat: &Self, m: Vec<T>) -> bool {
        m@ == pat@
    }

    fn split_every_n_times(self, pat: Self, n: usize) -> (r: SplitEvery<Vec<T>, Vec<T>>) {
        SplitEvery::new(self, pat, n)
    }
}

impl<'a, T: Copy + PartialEq> SplitEveryImpl for &'a [T] {
    type Elem = T;

    type Pat = Vec<T>;

    open spec fn elems(&self) -> Seq<T> {
        (*self)@
    }

    open spec fn accepts(pat: &Self) -> bool {
        (*pat)@.len() > 0 && obeys_concrete_eq::<T>()
    }

    open spec fn stands_for(pat: &Self, m: Vec<T>) -> bool {
        m@ == (*pat)@
    }

    fn split_every_n_times(self, pat: Self, n: usize) -> (r: SplitEvery<Vec<T>, Vec<T>>) {
        SplitEvery::new(vstd::slice::slice_to_vec(self), vstd::slice::slice_to_vec(pat), n)
    }
}

} // verus!

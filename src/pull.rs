//! Splitting a pull-based source: a function that hands out one element per call and then
//! `None`. Each pulled element is taken into the chunk being built, one call at a time.
use vstd::prelude::*;
use vstd::laws_eq::obeys_concrete_eq;
use crate::chunker::SplitEvery;

verus! {

impl<Input: FnMut() -> Option<Pattern>, Pattern> SplitEvery<Input, Pattern> {
    /// A splitter over the pull function `input`, closing a chunk at every `n`-th element equal
    /// to `pat`; with `n == 0` the whole source is one chunk.
    pub fn n_times_from_fn(input: Input, pat: Pattern, n: usize) -> (r: SplitEvery<Input, Pattern>)
        ensures
            r.source() == input,
            r.pattern() == pat,
            r.count() == n,
            r.cursor() == 0,
    {
        SplitEvery::make(input, pat, n)
    }
}

/// The chunk being built from a pull-based source: the elements taken so far and how many of
/// them matched the pattern.
pub struct PullChunk<T> {
    items: Vec<T>,
    met: usize,
}

/// What taking one pulled element did.
pub enum PullStep<T> {
    /// The chunk is not complete yet: pull again.
    Pending,
    /// The chunk is complete.
    Chunk(Vec<T>),
    /// The source is exhausted and nothing is left to hand out.
    Finished,
}

impl<T> PullChunk<T> {
    /// The elements taken into the chunk so far.
    pub closed spec fn items(&self) -> Seq<T> {
        self.items@
    }

    /// How many pattern matches the chunk holds so far.
    pub closed spec fn met(&self) -> nat {
        self.met as nat
    }

    /// An empty chunk.
    pub fn new() -> (r: Self)
        ensures
            r.items() == Seq::<T>::empty(),
            r.met() == 0,
    {
        PullChunk { items: Vec::new(), met: 0 }
    }
}

impl<Input, Pattern: PartialEq> SplitEvery<Input, Pattern> {
    /// Takes the element `item` pulled from the source (`None`: the source is exhausted) into
    /// `chunk`. With `n >= 1` the `n`-th element equal to the pattern completes the chunk and is
    /// left out of it, while the earlier matches stay in; with `n == 0` only exhaustion completes
    /// it. At exhaustion an empty chunk is not handed out: the source is finished.
    pub fn take(&self, chunk: &mut PullChunk<Pattern>, item: Option<Pattern>) -> (r:
        PullStep<Pattern>)
        requires
            obeys_concrete_eq::<Pattern>(),
            self.count() == 0 || old(chunk).met() < self.count(),
        ensures
            self.count() == 0 || final(chunk).met() < self.count(),
            match item {
                None => {
                    &&& final(chunk).items() == Seq::<Pattern>::empty()
                    &&& final(chunk).met() == 0
                    &&& if old(chunk).items().len() == 0 {
                        r is Finished
                    } else {
                        r matches PullStep::Chunk(v) && v@ == old(chunk).items()
                    }
                },
                Some(x) => if self.count() > 0 && x == self.pattern() && old(chunk).met() + 1
                    == self.count() {
                    &&& r matches PullStep::Chunk(v) && v@ == old(chunk).items()
                    &&& final(chunk).items() == Seq::<Pattern>::empty()
                    &&& final(chunk).met() == 0
                } else {
                    &&& r is Pending
                    &&& final(chunk).items() == old(chunk).items().push(x)
                    &&& final(chunk).met() == old(chunk).met() + if self.count() > 0 && x
                        == self.pattern() {
                        1nat
                    } else {
                        0nat
                    }
                },
            },
    {
        match item {
            None => {
                let mut items: Vec<Pattern> = Vec::new();
                std::mem::swap(&mut items, &mut chunk.items);
                chunk.met = 0;
                if items.len() == 0 {
                    PullStep::Finished
                } else {
                    PullStep::Chunk(items)
                }
            },
            Some(x) => {
                let n: usize = self.times();
                let is_pat = n > 0 && self.is_pattern(&x);
                if is_pat && chunk.met + 1 == n {
                    let mut items: Vec<Pattern> = Vec::new();
                    std::mem::swap(&mut items, &mut chunk.items);
                    chunk.met = 0;
                    PullStep::Chunk(items)
                } else {
                    chunk.items.push(x);
                    if is_pat {
                        chunk.met = chunk.met + 1;
                    }
                    PullStep::Pending
                }
            },
        }
    }
}

} // verus!

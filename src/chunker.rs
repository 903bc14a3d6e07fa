//! The chunker over a randomly-accessible source: a cursor that moves forward over the
//! source, one chunk per call, each chunk closed by the `n`-th pattern occurrence.
use vstd::prelude::*;
use vstd::laws_eq::obeys_concrete_eq;
use crate::matcher::{
    TextPattern, Matcher, next_occ, lemma_next_occ_is, lemma_next_occ_found, lemma_next_occ_none,
};

verus! {

/// Splits `input` after every `n` occurrences of `pat`, one chunk per call.
pub struct SplitEvery<Input, Pattern> {
    input: Input,
    pat: Pattern,
    n: usize,
    ind: usize,
}

/// The `k`-th occurrence met by a scan that starts at `from` and resumes after each
/// occurrence found, as (start, end); the 0-th is the empty stretch at `from`.
pub open spec fn nth_occ<E, M: Matcher<E>>(m: &M, s: Seq<E>, from: int, k: nat) -> Option<
    (int, int),
>
    decreases k,
{
    if k == 0 {
        Some((from, from))
    } else {
        match nth_occ(m, s, from, (k - 1) as nat) {
            Some((_, e)) => match next_occ(m, s, e) {
                Some(i) => Some((i, i + m.occ_len(s, i))),
                None => None,
            },
            None => None,
        }
    }
}

/// How many occurrences, at most `n`, a scan from `from` meets.
pub open spec fn found<E, M: Matcher<E>>(m: &M, s: Seq<E>, from: int, n: nat) -> nat
    decreases n,
{
    if n == 0 {
        0
    } else if nth_occ(m, s, from, n) is Some {
        n
    } else {
        found(m, s, from, (n - 1) as nat)
    }
}

/// The chunk that starts at cursor `c`, as (end of the chunk, next cursor), or `None` once the
/// cursor stands at the end. With no occurrence left the rest of the source is the chunk;
/// otherwise the chunk ends where the last occurrence met (the `n`-th, or the last one
/// before the end) begins, and the cursor moves past that occurrence.
pub open spec fn chunk_at<E, M: Matcher<E>>(m: &M, s: Seq<E>, c: int, n: nat) -> Option<
    (int, int),
> {
    if c >= s.len() {
        None
    } else {
        let k = found(m, s, c, n);
        if k == 0 {
            Some((s.len() as int, s.len() as int))
        } else {
            Some(nth_occ(m, s, c, k)->0)
        }
    }
}

/// The content of the chunk that starts at cursor `c`, without the occurrence that closes it.
pub open spec fn chunk_of<E, M: Matcher<E>>(m: &M, s: Seq<E>, c: int, n: nat) -> Option<Seq<E>> {
    match chunk_at(m, s, c, n) {
        Some((end, _)) => Some(s.subrange(c, end)),
        None => None,
    }
}

/// A scan that has met nothing from some point on meets nothing after it.
pub proof fn lemma_nth_occ_none_after<E, M: Matcher<E>>(
    m: &M,
    s: Seq<E>,
    from: int,
    k: nat,
    j: nat,
)
    requires
        nth_occ(m, s, from, k) is None,
        k <= j,
    ensures
        nth_occ(m, s, from, j) is None,
    decreases j - k,
{
    if k < j {
        lemma_nth_occ_none_after(m, s, from, k, (j - 1) as nat);
    }
}

/// A scan that meets `k` occurrences and no `k + 1`-th (or stops at `n == k`) counts `k`.
pub proof fn lemma_found_is<E, M: Matcher<E>>(m: &M, s: Seq<E>, from: int, n: nat, k: nat)
    requires
        k <= n,
        nth_occ(m, s, from, k) is Some,
        k == n || nth_occ(m, s, from, k + 1) is None,
    ensures
        found(m, s, from, n) == k,
    decreases n,
{
    if n > k {
        lemma_nth_occ_none_after(m, s, from, k + 1, n);
        lemma_found_is(m, s, from, (n - 1) as nat, k);
    }
}

/// Each occurrence a scan meets lies after the previous one and inside the source.
pub proof fn lemma_nth_occ_bounds<E, M: Matcher<E>>(m: &M, s: Seq<E>, from: int, k: nat)
    requires
        m.wf(),
        0 <= from <= s.len(),
        nth_occ(m, s, from, k) is Some,
    ensures
        match nth_occ(m, s, from, k) {
            Some((a, b)) => {
                &&& from <= a <= b <= s.len()
                &&& k > 0 ==> a < b && m.occurs_at(s, a) && b == a + m.occ_len(s, a)
            },
            None => true,
        },
    decreases k,
{
    if k > 0 {
        lemma_nth_occ_bounds(m, s, from, (k - 1) as nat);
        let (_, e) = nth_occ(m, s, from, (k - 1) as nat)->0;
        lemma_next_occ_found(m, s, e);
        m.lemma_occurrence_fits(s, next_occ(m, s, e)->0);
    }
}

/// The number of occurrences counted is at most `n`, and the scan meets that many.
pub proof fn lemma_found_bounds<E, M: Matcher<E>>(m: &M, s: Seq<E>, from: int, n: nat)
    ensures
        found(m, s, from, n) <= n,
        nth_occ(m, s, from, found(m, s, from, n)) is Some,
    decreases n,
{
    if n > 0 && nth_occ(m, s, from, n) is None {
        lemma_found_bounds(m, s, from, (n - 1) as nat);
    }
}

/// A chunk lies between the cursor and the next cursor, which does not pass the end.
pub proof fn lemma_chunk_at_bounds<E, M: Matcher<E>>(m: &M, s: Seq<E>, c: int, n: nat)
    requires
        m.wf(),
        0 <= c <= s.len(),
    ensures
        match chunk_at(m, s, c, n) {
            Some((end, next)) => c <= end <= next <= s.len() && c < next,
            None => c == s.len(),
        },
{
    lemma_found_bounds(m, s, c, n);
    lemma_nth_occ_bounds(m, s, c, found(m, s, c, n));
}

/// The source from cursor `c` on, put together again from the chunks handed out from there:
/// each chunk followed by `p` where an occurrence closed it.
pub open spec fn rebuilt<E, M: Matcher<E>>(m: &M, s: Seq<E>, p: Seq<E>, c: int, n: nat) -> Seq<
    E,
>
    decreases s.len() - c,
{
    match chunk_at(m, s, c, n) {
        Some((end, next)) => if c < next <= s.len() {
            s.subrange(c, end) + (if end < next {
                p
            } else {
                Seq::empty()
            }) + rebuilt(m, s, p, next, n)
        } else {
            Seq::empty()
        },
        None => Seq::empty(),
    }
}

/// Joining the chunks, with the occurrence that closed each one put back after it, gives back
/// the source, for every pattern whose occurrences all read `p`.
pub proof fn lemma_chunks_rebuild_source<E, M: Matcher<E>>(m: &M, s: Seq<E>, p: Seq<E>, c: int, n: nat)
    requires
        m.wf(),
        n >= 1,
        0 <= c <= s.len(),
        forall|i: int| m.occurs_at(s, i) ==> s.subrange(i, i + m.occ_len(s, i)) == p,
    ensures
        rebuilt(m, s, p, c, n) == s.subrange(c, s.len() as int),
    decreases s.len() - c,
{
    lemma_chunk_at_bounds(m, s, c, n);
    match chunk_at(m, s, c, n) {
        Some((end, next)) => {
            lemma_chunks_rebuild_source(m, s, p, next, n);
            lemma_found_bounds(m, s, c, n);
            let k = found(m, s, c, n);
            lemma_nth_occ_bounds(m, s, c, k);
            if end < next {
                assert(s.subrange(end, next) == p);
            }
            assert(s.subrange(c, s.len() as int) =~= s.subrange(c, end) + s.subrange(end, next)
                + s.subrange(next, s.len() as int));
            assert(rebuilt(m, s, p, c, n) =~= s.subrange(c, s.len() as int));
        },
        None => {
            assert(s.subrange(c, s.len() as int) =~= Seq::<E>::empty());
        },
    }
}

/// The chunks of an element sequence, each followed by the pattern where the pattern closed
/// it, put together give back the whole sequence.
pub proof fn lemma_elements_rebuild<E: PartialEq>(pat: Vec<E>, s: Seq<E>, n: nat)
    requires
        pat.wf(),
        n >= 1,
    ensures
        rebuilt(&pat, s, pat@, 0, n) == s,
{
    lemma_chunks_rebuild_source(&pat, s, pat@, 0, n);
    assert(s.subrange(0, s.len() as int) =~= s);
}

/// The chunks of a text, each followed by the pattern text where it closed them, put
/// together give back the whole text.
pub proof fn lemma_text_rebuild(p: Vec<char>, s: Seq<char>, n: nat)
    requires
        p@.len() > 0,
        n >= 1,
    ensures
        rebuilt(&TextPattern::Literal(p), s, p@, 0, n) == s,
{
    lemma_chunks_rebuild_source(&TextPattern::Literal(p), s, p@, 0, n);
    assert(s.subrange(0, s.len() as int) =~= s);
}

/// There is no chunk exactly when the cursor stands at the end, and there it stays: every
/// further call finds no chunk either.
pub proof fn lemma_exhaustion_is_permanent<E, M: Matcher<E>>(m: &M, s: Seq<E>, c: int, n: nat)
    requires
        m.wf(),
        0 <= c <= s.len(),
        chunk_at(m, s, c, n) is None,
    ensures
        c == s.len(),
        forall|k: nat| chunk_at(m, s, c, k) is None,
{
    lemma_chunk_at_bounds(m, s, c, n);
}

impl<Input, Pattern> SplitEvery<Input, Pattern> {
    /// A splitter at position 0.
    pub(crate) fn make(input: Input, pat: Pattern, n: usize) -> (r: Self)
        ensures
            r.source() == input,
            r.pattern() == pat,
            r.count() == n,
            r.cursor() == 0,
    {
        SplitEvery { input, pat, n, ind: 0 }
    }

    /// The number of occurrences that close a chunk.
    pub closed spec fn count(&self) -> nat {
        self.n as nat
    }

    /// The position up to which the source has been handed out.
    pub closed spec fn cursor(&self) -> nat {
        self.ind as nat
    }

    /// The source being split.
    pub closed spec fn source(&self) -> Input {
        self.input
    }

    /// The pattern split on.
    pub closed spec fn pattern(&self) -> Pattern {
        self.pat
    }
}

impl<E, M: Matcher<E>> SplitEvery<Vec<E>, M> {
    /// The cursor lies inside the source, the count is positive and the pattern usable.
    pub open spec fn wf(&self) -> bool {
        &&& self.cursor() <= self.source()@.len()
        &&& self.count() >= 1
        &&& self.pattern().wf()
    }

    /// A splitter at the start of `input`.
    pub fn new(input: Vec<E>, pat: M, n: usize) -> (r: Self)
        requires
            n >= 1,
            pat.wf(),
        ensures
            r.wf(),
            r.source() == input,
            r.pattern() == pat,
            r.count() == n,
            r.cursor() == 0,
    {
        SplitEvery::make(input, pat, n)
    }

    /// The source being split.
    pub fn source_ref(&self) -> (r: &Vec<E>)
        ensures
            *r == self.source(),
    {
        &self.input
    }

    /// Moves past the next chunk and returns its bounds in the source, `[start, end)`;
    /// `None` once the whole source has been handed out.
    pub fn next_range(&mut self) -> (r: Option<(usize, usize)>)
        requires
            old(self).wf(),
        ensures
            final(self).wf(),
            final(self).source() == old(self).source(),
            final(self).pattern() == old(self).pattern(),
            final(self).count() == old(self).count(),
            match chunk_at(&old(self).pattern(), old(self).source()@, old(self).cursor() as int,
                old(self).count()) {
                None => r is None && *final(self) == *old(self),
                Some((end, next)) => {
                    &&& r matches Some((a, b))
                    &&& a == old(self).cursor()
                    &&& b == end
                    &&& final(self).cursor() == next
                },
            },
    {
        let c: usize = self.ind;
        let len: usize = self.input.len();
        if c == len {
            return None;
        }
        let ghost s = self.input@;
        let mut pos: usize = c;
        let mut last: usize = c;
        let mut k: usize = 0;
        while k < self.n
            invariant
                self.wf(),
                self.input == old(self).input,
                self.pat == old(self).pat,
                self.n == old(self).n,
                s == self.input@,
                len == s.len(),
                c < len,
                c == self.ind,
                c == old(self).ind,
                k <= self.n,
                c <= last <= pos <= len,
                nth_occ(&self.pat, s, c as int, k as nat) == Some((last as int, pos as int)),
            decreases self.n - k,
        {
            match self.pat.find_from(&self.input, pos) {
                Some((i, l)) => {
                    proof {
                        self.pat.lemma_occurrence_fits(s, i as int);
                        lemma_next_occ_is(&self.pat, s, pos as int, i as int);
                    }
                    last = i;
                    pos = i + l;
                    k = k + 1;
                },
                None => {
                    proof {
                        lemma_next_occ_none(&self.pat, s, pos as int);
                        assert(nth_occ(&self.pat, s, c as int, (k + 1) as nat) is None);
                    }
                    if k == 0 {
                        proof {
                            lemma_nth_occ_none_after(&self.pat, s, c as int, 1, self.n as nat);
                            lemma_found_is(&self.pat, s, c as int, self.n as nat, 0);
                        }
                        self.ind = len;
                        return Some((c, len));
                    }
                    proof {
                        lemma_found_is(&self.pat, s, c as int, self.n as nat, k as nat);
                    }
                    self.ind = pos;
                    return Some((c, last));
                },
            }
        }
        proof {
            lemma_found_is(&self.pat, s, c as int, self.n as nat, k as nat);
        }
        self.ind = pos;
        Some((c, last))
    }
}

/// Copies `s[from..to]`.
fn copy_range<E: Copy>(s: &Vec<E>, from: usize, to: usize) -> (r: Vec<E>)
    requires
        from <= to <= s@.len(),
    ensures
        r@ == s@.subrange(from as int, to as int),
{
    let mut out: Vec<E> = Vec::new();
    let mut i: usize = from;
    while i < to
        invariant
            from <= i <= to <= s@.len(),
            out@ == s@.subrange(from as int, i as int),
        decreases to - i,
    {
        out.push(s[i]);
        i = i + 1;
        assert(out@ =~= s@.subrange(from as int, i as int));
    }
    out
}

impl<E: Copy + PartialEq> SplitEvery<Vec<E>, Vec<E>> {
    /// The next chunk of elements, or `None` once the source has been handed out.
    pub fn next(&mut self) -> (r: Option<Vec<E>>)
        requires
            old(self).wf(),
        ensures
            final(self).wf(),
            final(self).source() == old(self).source(),
            final(self).pattern() == old(self).pattern(),
            final(self).count() == old(self).count(),
            r matches Some(v) ==> chunk_of(&old(self).pattern(), old(self).source()@,
                old(self).cursor() as int, old(self).count()) == Some(v@),
            r is None <==> old(self).cursor() == old(self).source()@.len(),
            r is None ==> *final(self) == *old(self),
            r matches Some(v) ==> v@.len() <= old(self).source()@.len() - old(self).cursor(),
            final(self).cursor() == match chunk_at(&old(self).pattern(), old(self).source()@,
                old(self).cursor() as int, old(self).count()) {
                Some((_, next)) => next as nat,
                None => old(self).cursor(),
            },
    {
        match self.next_range() {
            Some((a, b)) => {
                proof {
                    lemma_chunk_at_bounds(&self.pat, self.input@, a as int, self.n as nat);
                }
                Some(copy_range(&self.input, a, b))
            },
            None => None,
        }
    }
}

impl<Input: FnMut() -> Option<Pattern>, Pattern> SplitEvery<Input, Pattern> {
    /// Pulls the next element from the source.
    pub fn pull(&mut self) -> (r: Option<Pattern>)
        requires
            call_requires(old(self).source(), ()),
        ensures
            call_ensures(old(self).source(), (), r),
            final(self).pattern() == old(self).pattern(),
            final(self).count() == old(self).count(),
            final(self).cursor() == old(self).cursor(),
    {
        (self.input)()
    }
}

impl<Input, Pattern: PartialEq> SplitEvery<Input, Pattern> {
    /// The number of occurrences that close a chunk.
    pub fn times(&self) -> (r: usize)
        ensures
            r == self.count(),
    {
        self.n
    }

    /// Whether `x` equals the pattern.
    pub fn is_pattern(&self, x: &Pattern) -> (r: bool)
        requires
            obeys_concrete_eq::<Pattern>(),
        ensures
            r == (*x == self.pattern()),
    {
        proof {
            reveal(obeys_concrete_eq);
        }
        x.eq(&self.pat)
    }
}

} // verus!

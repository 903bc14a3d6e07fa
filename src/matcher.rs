//! What a pattern is: a capability that finds the next occurrence in a sequence and says how
//! long that occurrence is.
use vstd::prelude::*;
use vstd::laws_eq::obeys_concrete_eq;

verus! {

/// A pattern that can be located in a sequence of elements of type `E`.
pub trait Matcher<E>: Sized {
    /// The pattern is usable: every occurrence has a positive length.
    spec fn wf(&self) -> bool;

    /// An occurrence of the pattern begins at position `i` of `s`.
    spec fn occurs_at(&self, s: Seq<E>, i: int) -> bool;

    /// The length of the occurrence that begins at position `i` of `s`.
    spec fn occ_len(&self, s: Seq<E>, i: int) -> int;

    /// Every occurrence lies inside the sequence and is at least one element long.
    proof fn lemma_occurrence_fits(&self, s: Seq<E>, i: int)
        requires
            self.wf(),
            self.occurs_at(s, i),
        ensures
            0 <= i,
            0 < self.occ_len(s, i),
            i + self.occ_len(s, i) <= s.len(),
    ;

    /// The first occurrence at or after `from`, with its length.
    fn find_from(&self, s: &Vec<E>, from: usize) -> (r: Option<(usize, usize)>)
        requires
            self.wf(),
            from <= s@.len(),
        ensures
            match r {
                Some((i, l)) => {
                    &&& from <= i
                    &&& self.occurs_at(s@, i as int)
                    &&& l as int == self.occ_len(s@, i as int)
                    &&& forall|j: int| from <= j < i ==> !self.occurs_at(s@, j)
                },
                None => forall|j: int| from <= j < s@.len() ==> !self.occurs_at(s@, j),
            },
    ;
}

/// The first position at or after `from` where an occurrence of `m` begins.
pub open spec fn next_occ<E, M: Matcher<E>>(m: &M, s: Seq<E>, from: int) -> Option<int>
    decreases s.len() - from,
{
    if from >= s.len() {
        None
    } else if m.occurs_at(s, from) {
        Some(from)
    } else {
        next_occ(m, s, from + 1)
    }
}

/// `p` occurs in `s` at position `i`.
pub open spec fn literal_at<E>(s: Seq<E>, p: Seq<E>, i: int) -> bool {
    0 <= i && i + p.len() <= s.len() && s.subrange(i, i + p.len()) == p
}

/// With no occurrence from `from` on, the scan finds none.
pub proof fn lemma_next_occ_none<E, M: Matcher<E>>(m: &M, s: Seq<E>, from: int)
    requires
        forall|j: int| from <= j < s.len() ==> !m.occurs_at(s, j),
    ensures
        next_occ(m, s, from) is None,
    decreases s.len() - from,
{
    if from < s.len() {
        lemma_next_occ_none(m, s, from + 1);
    }
}

/// An occurrence with none before it, from `from` on, is the first one.
pub proof fn lemma_next_occ_is<E, M: Matcher<E>>(m: &M, s: Seq<E>, from: int, i: int)
    requires
        from <= i < s.len(),
        m.occurs_at(s, i),
        forall|j: int| from <= j < i ==> !m.occurs_at(s, j),
    ensures
        next_occ(m, s, from) == Some(i),
    decreases i - from,
{
    if from < i {
        lemma_next_occ_is(m, s, from + 1, i);
    }
}

/// The first occurrence found is an occurrence, and lies inside the sequence.
pub proof fn lemma_next_occ_found<E, M: Matcher<E>>(m: &M, s: Seq<E>, from: int)
    requires
        next_occ(m, s, from) is Some,
    ensures
        from <= next_occ(m, s, from)->0 < s.len(),
        m.occurs_at(s, next_occ(m, s, from)->0),
    decreases s.len() - from,
{
    if from < s.len() && !m.occurs_at(s, from) {
        lemma_next_occ_found(m, s, from + 1);
    }
}

/// Compares `s[at..at + p.len()]` with `p`, element by element.
fn literal_matches<E: PartialEq>(s: &Vec<E>, p: &Vec<E>, at: usize) -> (r: bool)
    requires
        obeys_concrete_eq::<E>(),
        at + p@.len() <= s@.len(),
    ensures
        r == literal_at(s@, p@, at as int),
{
    let slen: usize = s.len();
    let mut j: usize = 0;
    while j < p.len()
        invariant
            obeys_concrete_eq::<E>(),
            at + p@.len() <= s@.len(),
            j <= p@.len(),
            s@.len() == slen,
            forall|k: int| 0 <= k < j ==> s@[at + k] == p@[k],
        decreases p@.len() - j,
    {
        proof {
            reveal(obeys_concrete_eq);
        }
        let k: usize = at + j;
        let same = s[k].eq(&p[j]);
        if !same {
            proof {
                assert(s@.subrange(at as int, at + p@.len())[j as int] != p@[j as int]);
            }
            return false;
        }
        j = j + 1;
    }
    assert(s@.subrange(at as int, at + p@.len()) =~= p@);
    true
}

/// A sequence of elements is a literal pattern: it matches where the same elements stand.
impl<E: PartialEq> Matcher<E> for Vec<E> {
    open spec fn wf(&self) -> bool {
        self@.len() > 0 && obeys_concrete_eq::<E>()
    }

    open spec fn occurs_at(&self, s: Seq<E>, i: int) -> bool {
        literal_at(s, self@, i)
    }

    open spec fn occ_len(&self, s: Seq<E>, i: int) -> int {
        self@.len() as int
    }

    proof fn lemma_occurrence_fits(&self, s: Seq<E>, i: int) {
    }

    fn find_from(&self, s: &Vec<E>, from: usize) -> (r: Option<(usize, usize)>) {
        let mut i: usize = from;
        while i < s.len() && self.len() <= s.len() - i
            invariant
                self.wf(),
                from <= i <= s@.len(),
                forall|j: int| from <= j < i ==> !self.occurs_at(s@, j),
            decreases s@.len() - i,
        {
            if literal_matches(s, self, i) {
                return Some((i, self.len()));
            }
            i = i + 1;
        }
        None
    }
}

/// A pattern over text, addressed by characters.
pub enum TextPattern {
    /// A run of characters that must appear as written.
    Literal(Vec<char>),
    /// One given character.
    Char(char),
    /// Any one character of a set.
    AnyOf(Vec<char>),
}

impl Matcher<char> for TextPattern {
    open spec fn wf(&self) -> bool {
        match self {
            TextPattern::Literal(p) => p@.len() > 0,
            _ => true,
        }
    }

    open spec fn occurs_at(&self, s: Seq<char>, i: int) -> bool {
        match self {
            TextPattern::Literal(p) => literal_at(s, p@, i),
            TextPattern::Char(c) => 0 <= i < s.len() && s[i] == *c,
            TextPattern::AnyOf(cs) => 0 <= i < s.len() && cs@.contains(s[i]),
        }
    }

    open spec fn occ_len(&self, s: Seq<char>, i: int) -> int {
        match self {
            TextPattern::Literal(p) => p@.len() as int,
            _ => 1,
        }
    }

    proof fn lemma_occurrence_fits(&self, s: Seq<char>, i: int) {
    }

    fn find_from(&self, s: &Vec<char>, from: usize) -> (r: Option<(usize, usize)>) {
        let mut i: usize = from;
        while i < s.len()
            invariant
                from <= i <= s@.len(),
                forall|j: int| from <= j < i ==> !self.occurs_at(s@, j),
            decreases s@.len() - i,
        {
            let found = match self {
                TextPattern::Literal(p) => p.len() <= s.len() - i && chars_match(s, p, i),
                TextPattern::Char(c) => s[i] == *c,
                TextPattern::AnyOf(cs) => char_in(cs, s[i]),
            };
            if found {
                let l: usize = match self {
                    TextPattern::Literal(p) => p.len(),
                    _ => 1,
                };
                return Some((i, l));
            }
            i = i + 1;
        }
        None
    }
}

/// Compares `s[at..at + p.len()]` with `p`, character by character.
fn chars_match(s: &Vec<char>, p: &Vec<char>, at: usize) -> (r: bool)
    requires
        at + p@.len() <= s@.len(),
    ensures
        r == literal_at(s@, p@, at as int),
{
    let slen: usize = s.len();
    let mut j: usize = 0;
    while j < p.len()
        invariant
            at + p@.len() <= s@.len(),
            s@.len() == slen,
            j <= p@.len(),
            forall|k: int| 0 <= k < j ==> s@[at + k] == p@[k],
        decreases p@.len() - j,
    {
        if s[at + j] != p[j] {
            assert(s@.subrange(at as int, at + p@.len())[j as int] != p@[j as int]);
            return false;
        }
        j = j + 1;
    }
    assert(s@.subrange(at as int, at + p@.len()) =~= p@);
    true
}

/// Whether `c` is one of `cs`.
fn char_in(cs: &Vec<char>, c: char) -> (r: bool)
    ensures
        r == cs@.contains(c),
{
    let mut j: usize = 0;
    while j < cs.len()
        invariant
            j <= cs@.len(),
            forall|k: int| 0 <= k < j ==> cs@[k] != c,
        decreases cs@.len() - j,
    {
        if cs[j] == c {
            return true;
        }
        j = j + 1;
    }
    false
}

/// A pattern given by a test on single characters: it matches each character the test
/// accepts, one character long.
pub struct CharPredicate<F: Fn(char) -> bool> {
    pub test: F,
}

impl<F: Fn(char) -> bool> Matcher<char> for CharPredicate<F> {
    /// The test can be applied to every character and always gives the same answer for it.
    open spec fn wf(&self) -> bool {
        &&& forall|c: char| call_requires(self.test, (c,))
        &&& forall|c: char, a: bool, b: bool|
            #![trigger call_ensures(self.test, (c,), a), call_ensures(self.test, (c,), b)]
            call_ensures(self.test, (c,), a) && call_ensures(self.test, (c,), b) ==> a == b
    }

    open spec fn occurs_at(&self, s: Seq<char>, i: int) -> bool {
        0 <= i < s.len() && call_ensures(self.test, (s[i],), true)
    }

    open spec fn occ_len(&self, s: Seq<char>, i: int) -> int {
        1
    }

    proof fn lemma_occurrence_fits(&self, s: Seq<char>, i: int) {
    }

    fn find_from(&self, s: &Vec<char>, from: usize) -> (r: Option<(usize, usize)>) {
        let mut i: usize = from;
        while i < s.len()
            invariant
                self.wf(),
                from <= i <= s@.len(),
                forall|j: int| from <= j < i ==> !self.occurs_at(s@, j),
            decreases s@.len() - i,
        {
            let c: char = s[i];
            if (self.test)(c) {
                return Some((i, 1));
            }
            assert(!call_ensures(self.test, (c,), true));
            i = i + 1;
        }
        None
    }
}

} // verus!

//! Searching a slice for a pattern and splitting it there.

use vstd::prelude::*;
use vstd::std_specs::cmp::PartialEqSpec;

verus! {

/// Whether `pattern` stands in `s` at position `i`: each element of `s` from
/// there on equals the element of `pattern` at the same distance.
pub open spec fn occurs_at<T: PartialEq>(s: Seq<T>, pattern: Seq<T>, i: int) -> bool {
    &&& 0 <= i
    &&& i + pattern.len() <= s.len()
    &&& forall|k: int| 0 <= k < pattern.len() ==> (#[trigger] s[i + k]).eq_spec(&pattern[k])
}

/// Whether `i` is the first position at which `pattern` stands in `s`.
pub open spec fn first_at<T: PartialEq>(s: Seq<T>, pattern: Seq<T>, i: int) -> bool {
    occurs_at(s, pattern, i) && forall|j: int| 0 <= j < i ==> !occurs_at(s, pattern, j)
}

/// Whether `pattern` stands in `s` at position `i`.
fn matches_at<T: PartialEq>(me: &[T], pattern: &[T], i: usize) -> (b: bool)
    requires
        i + pattern@.len() <= me@.len(),
    ensures
        T::obeys_eq_spec() ==> b == occurs_at(me@, pattern@, i as int),
{
    let n = me.len();
    let mut k: usize = 0;
    while k < pattern.len()
        invariant
            k <= pattern@.len(),
            i + pattern@.len() <= me@.len(),
            n == me@.len(),
            T::obeys_eq_spec() ==> forall|j: int|
                0 <= j < k ==> (#[trigger] me@[i + j]).eq_spec(&pattern@[j]),
        decreases pattern@.len() - k,
    {
        if me[i + k] != pattern[k] {
            return false;
        }
        k += 1;
    }
    true
}

/// The first position at which `pattern` stands in `me`.
pub fn position_pattern<T: PartialEq>(me: &[T], pattern: &[T]) -> (r: Option<usize>)
    requires
        pattern@.len() > 0,
    ensures
        T::obeys_eq_spec() ==> match r {
            Some(i) => first_at(me@, pattern@, i as int),
            None => forall|j: int| !occurs_at(me@, pattern@, j),
        },
        r matches Some(i) ==> i + pattern@.len() <= me@.len(),
{
    if pattern.len() > me.len() {
        return None;
    }
    let last = me.len() - pattern.len();
    let mut i: usize = 0;
    while i <= last
        invariant
            last == me@.len() - pattern@.len(),
            pattern@.len() > 0,
            me@.len() <= usize::MAX,
            i <= last + 1,
            T::obeys_eq_spec() ==> forall|j: int| 0 <= j < i ==> !occurs_at(me@, pattern@, j),
        decreases last + 1 - i,
    {
        if matches_at(me, pattern, i) {
            return Some(i);
        }
        i += 1;
    }
    None
}

/// Splits `me` at the first place where `pattern` stands: what is before
/// the pattern and what is after it, each open to change.
pub fn split_once_mut<'a, T: PartialEq>(me: &'a mut [T], pattern: &[T]) -> (r: Option<
    (&'a mut [T], &'a mut [T]),
>)
    requires
        pattern@.len() > 0,
    ensures
        match r {
            Some((left, right)) => {
                &&& T::obeys_eq_spec() ==> first_at(old(me)@, pattern@, left@.len() as int)
                &&& left@.len() + pattern@.len() <= old(me)@.len()
                &&& left@ == old(me)@.take(left@.len() as int)
                &&& right@ == old(me)@.skip((left@.len() + pattern@.len()) as int)
                &&& final(me)@ == final(left)@ + old(me)@.subrange(
                    left@.len() as int,
                    (left@.len() + pattern@.len()) as int,
                ) + final(right)@
            },
            None => final(me)@ == old(me)@ && (T::obeys_eq_spec() ==> forall|j: int|
                !occurs_at(old(me)@, pattern@, j)),
        },
{
    let pos = match position_pattern(me, pattern) {
        Some(pos) => pos,
        None => {
            return None;
        },
    };
    let (left, rest) = me.split_at_mut(pos);
    let (_, right) = rest.split_at_mut(pattern.len());
    Some((left, right))
}

/// The parts of a slice between occurrences of a pattern, handed out one
/// by one, each open to change.
pub struct SplitPatternMut<'a, 'b, T> {
    s: Option<&'a mut [T]>,
    p: &'b [T],
}

impl<'a, 'b, T: PartialEq> SplitPatternMut<'a, 'b, T> {
    /// What is left to split: `None` once the last part was handed out.
    pub closed spec fn rest(self) -> Option<Seq<T>> {
        match self.s {
            Some(s) => Some(s@),
            None => None,
        }
    }

    /// The pattern at which the slice is split.
    pub closed spec fn pattern(self) -> Seq<T> {
        self.p@
    }

    pub fn new(s: &'a mut [T], p: &'b [T]) -> (it: Self)
        ensures
            it.rest() == Some(old(s)@),
            it.pattern() == p@,
    {
        Self { s: Some(s), p }
    }

    /// The next part: what stands before the first occurrence of the
    /// pattern in what is left, or all that is left where the pattern does
    /// not occur in it.
    pub fn next(&mut self) -> (r: Option<&'a mut [T]>)
        requires
            old(self).pattern().len() > 0,
        ensures
            final(self).pattern() == old(self).pattern(),
            match old(self).rest() {
                None => r is None && final(self).rest() is None,
                Some(s) => r matches Some(part) && (T::obeys_eq_spec() ==> if exists|i: int|
                    occurs_at(s, old(self).pattern(), i) {
                    &&& first_at(s, old(self).pattern(), part@.len() as int)
                    &&& part@ == s.take(part@.len() as int)
                    &&& final(self).rest() == Some(
                        s.skip((part@.len() + old(self).pattern().len()) as int),
                    )
                } else {
                    part@ == s && final(self).rest() is None
                }),
            },
    {
        let s = match self.s.take() {
            Some(s) => s,
            None => {
                return None;
            },
        };
        let pos = match position_pattern(s, self.p) {
            Some(pos) => pos,
            None => {
                return Some(s);
            },
        };
        let (left, rest) = s.split_at_mut(pos);
        let (_, right) = rest.split_at_mut(self.p.len());
        self.s = Some(right);
        Some(left)
    }
}

/// The parts of `me` between occurrences of `pattern`.
pub fn split_pattern_mut<'a, 'b, T: PartialEq>(me: &'a mut [T], pattern: &'b [T]) -> (it:
    SplitPatternMut<'a, 'b, T>)
    ensures
        it.rest() == Some(old(me)@),
        it.pattern() == pattern@,
{
    SplitPatternMut::new(me, pattern)
}

} // verus!

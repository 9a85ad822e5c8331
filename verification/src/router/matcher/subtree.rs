//! Routes that match every target below a directory: `/files/` matches
//! each target that begins with it.

use super::{Found, Match};
use crate::text::{
    lemma_lex_asymmetric, lemma_lex_le_lt, lemma_prefix_lex, lex_lt, str_lt, str_strip_prefix,
};
use vstd::prelude::*;

verus! {

/// One subtree route: its pattern and its handler.
pub type SubtreeRoute<H> = (Seq<char>, H);

/// Whether `pattern` can be a subtree route: it ends with `/` and is not
/// `/` alone.
pub open spec fn is_subtree_pattern(pattern: Seq<char>) -> bool {
    pattern.len() > 1 && pattern.last() == '/'
}

/// Whether the patterns of `routes` never rise: none comes before a later
/// one in the order of strings.
pub open spec fn descending<H>(routes: Seq<SubtreeRoute<H>>) -> bool {
    forall|i: int, j: int|
        0 <= i < j < routes.len() ==> !lex_lt((#[trigger] routes[i]).0, (#[trigger] routes[j]).0)
}

/// The place of a new route with pattern `pattern`: before the first route
/// whose pattern comes before it, and so after the routes with the same
/// pattern.
pub open spec fn place<H>(routes: Seq<SubtreeRoute<H>>, pattern: Seq<char>) -> int
    decreases routes.len(),
{
    if routes.len() == 0 || lex_lt(routes[0].0, pattern) {
        0
    } else {
        1 + place(routes.drop_first(), pattern)
    }
}

/// The first route whose pattern `target` begins with, and as parameter
/// what follows the pattern in `target`.
pub open spec fn subtree_match<H>(routes: Seq<SubtreeRoute<H>>, target: Seq<char>) -> Option<
    Found<H>,
>
    decreases routes.len(),
{
    if routes.len() == 0 {
        None
    } else if routes[0].0.is_prefix_of(target) {
        Some(
            Found {
                pattern: routes[0].0,
                handler: routes[0].1,
                param: Some(target.skip(routes[0].0.len() as int)),
            },
        )
    } else {
        subtree_match(routes.drop_first(), target)
    }
}

/// `place` lies within `0..=routes.len()`, no route before it has a
/// pattern that comes before `pattern`, and the route at it has one.
pub proof fn lemma_place<H>(routes: Seq<SubtreeRoute<H>>, pattern: Seq<char>)
    ensures
        0 <= place(routes, pattern) <= routes.len(),
        forall|j: int| 0 <= j < place(routes, pattern) ==> !lex_lt((#[trigger] routes[j]).0, pattern),
        place(routes, pattern) < routes.len() ==> lex_lt(routes[place(routes, pattern)].0, pattern),
    decreases routes.len(),
{
    if routes.len() == 0 || lex_lt(routes[0].0, pattern) {
    } else {
        let t = routes.drop_first();
        lemma_place(t, pattern);
        assert forall|j: int| 0 <= j < place(routes, pattern) implies !lex_lt(
            (#[trigger] routes[j]).0,
            pattern,
        ) by {
            if j > 0 {
                assert(routes[j] == t[j - 1]);
            }
        }
        if place(routes, pattern) < routes.len() {
            assert(routes[place(routes, pattern)] == t[place(t, pattern)]);
        }
    }
}

/// An index with the three properties of `lemma_place` is `place`.
pub proof fn lemma_place_is<H>(routes: Seq<SubtreeRoute<H>>, pattern: Seq<char>, i: int)
    requires
        0 <= i <= routes.len(),
        forall|j: int| 0 <= j < i ==> !lex_lt((#[trigger] routes[j]).0, pattern),
        i < routes.len() ==> lex_lt(routes[i].0, pattern),
    ensures
        place(routes, pattern) == i,
{
    lemma_place(routes, pattern);
    let f = place(routes, pattern);
    if f < i {
        assert(lex_lt(routes[f].0, pattern));
    } else if i < f {
        assert(lex_lt(routes[i].0, pattern));
    }
}

/// A route put at its place among routes whose patterns never rise leaves
/// them never rising.
pub proof fn lemma_insert_descending<H>(routes: Seq<SubtreeRoute<H>>, pattern: Seq<char>, handler: H)
    requires
        descending(routes),
    ensures
        descending(routes.insert(place(routes, pattern), (pattern, handler))),
{
    lemma_place(routes, pattern);
    let k = place(routes, pattern);
    let after = routes.insert(k, (pattern, handler));
    assert(after.len() == routes.len() + 1);
    assert forall|i: int, j: int| 0 <= i < j < after.len() implies !lex_lt(
        (#[trigger] after[i]).0,
        (#[trigger] after[j]).0,
    ) by {
        if j < k {
            assert(after[i] == routes[i] && after[j] == routes[j]);
        } else if j == k {
            assert(after[i] == routes[i]);
        } else if i == k {
            assert(after[j] == routes[j - 1]);
            if j - 1 > k {
                assert(!lex_lt(routes[k].0, routes[j - 1].0));
            } else {
                lemma_lex_asymmetric(routes[k].0, routes[k].0);
            }
            lemma_lex_le_lt(routes[j - 1].0, routes[k].0, pattern);
            lemma_lex_asymmetric(routes[j - 1].0, pattern);
        } else if i < k {
            assert(after[i] == routes[i] && after[j] == routes[j - 1]);
        } else {
            assert(after[i] == routes[i - 1] && after[j] == routes[j - 1]);
        }
    }
}

/// What `subtree_match` finds is a route whose pattern the target begins
/// with, and no route before it has such a pattern; it finds nothing only
/// where no route has one.
pub proof fn lemma_subtree_match_first<H>(routes: Seq<SubtreeRoute<H>>, target: Seq<char>)
    ensures
        match subtree_match(routes, target) {
            Some(found) => exists|i: int|
                0 <= i < routes.len() && (#[trigger] routes[i]) == (found.pattern, found.handler)
                    && found.pattern.is_prefix_of(target) && found.param == Some(
                    target.skip(found.pattern.len() as int),
                ) && forall|j: int| 0 <= j < i ==> !(#[trigger] routes[j]).0.is_prefix_of(target),
            None => forall|j: int| 0 <= j < routes.len() ==> !(#[trigger] routes[j]).0.is_prefix_of(
                target,
            ),
        },
    decreases routes.len(),
{
    if routes.len() == 0 {
    } else if routes[0].0.is_prefix_of(target) {
        assert(routes[0] == (routes[0].0, routes[0].1));
    } else {
        let t = routes.drop_first();
        lemma_subtree_match_first(t, target);
        match subtree_match(t, target) {
            Some(found) => {
                let i = choose|i: int|
                    0 <= i < t.len() && (#[trigger] t[i]) == (found.pattern, found.handler)
                        && found.pattern.is_prefix_of(target) && found.param == Some(
                        target.skip(found.pattern.len() as int),
                    ) && forall|j: int| 0 <= j < i ==> !(#[trigger] t[j]).0.is_prefix_of(target);
                assert(routes[i + 1] == t[i]);
                assert forall|j: int| 0 <= j < i + 1 implies !(#[trigger] routes[j]).0.is_prefix_of(
                    target,
                ) by {
                    if j > 0 {
                        assert(routes[j] == t[j - 1]);
                    }
                }
            },
            None => {
                assert forall|j: int| 0 <= j < routes.len() implies !(
                #[trigger] routes[j]).0.is_prefix_of(target) by {
                    if j > 0 {
                        assert(routes[j] == t[j - 1]);
                    }
                }
            },
        }
    }
}

/// Among routes whose patterns never rise, the one that matches a target is
/// the one with the longest pattern that the target begins with.
pub proof fn lemma_longest_pattern_wins<H>(routes: Seq<SubtreeRoute<H>>, target: Seq<char>, j: int)
    requires
        descending(routes),
        0 <= j < routes.len(),
        routes[j].0.is_prefix_of(target),
    ensures
        subtree_match(routes, target) matches Some(found) && found.pattern.len() >= routes[j].0.len(),
{
    lemma_subtree_match_first(routes, target);
    let found = subtree_match(routes, target)->0;
    let i = choose|i: int|
        0 <= i < routes.len() && (#[trigger] routes[i]) == (found.pattern, found.handler)
            && found.pattern.is_prefix_of(target) && found.param == Some(
            target.skip(found.pattern.len() as int),
        ) && forall|k: int| 0 <= k < i ==> !(#[trigger] routes[k]).0.is_prefix_of(target);
    if found.pattern.len() < routes[j].0.len() {
        assert(i < j);
        let p = found.pattern;
        let q = routes[j].0;
        assert(p.is_prefix_of(q)) by {
            assert(p =~= q.subrange(0, p.len() as int));
        }
        lemma_prefix_lex(p, q);
        assert(!lex_lt(routes[i].0, routes[j].0));
    }
}

pub struct Subtree<H>(Vec<(String, H)>);

/// The routes of a list, each pattern as text.
pub open spec fn subtree_routes<H>(entries: Seq<(String, H)>) -> Seq<SubtreeRoute<H>> {
    Seq::new(entries.len(), |i: int| (entries[i].0@, entries[i].1))
}

impl<H> View for Subtree<H> {
    type V = Seq<SubtreeRoute<H>>;

    closed spec fn view(&self) -> Seq<SubtreeRoute<H>> {
        subtree_routes(self.0@)
    }
}

impl<H> Subtree<H> {
    /// The patterns of the routes never rise.
    #[verifier::type_invariant]
    pub open spec fn ordered(self) -> bool {
        descending(self@)
    }

    pub fn new() -> (s: Self)
        ensures
            s@ == Seq::<SubtreeRoute<H>>::empty(),
    {
        let s = Self(Vec::new());
        proof {
            assert(s@ =~= Seq::<SubtreeRoute<H>>::empty());
        }
        s
    }

    /// Registers `handler` for the targets that begin with `pattern`. The
    /// routes are kept in falling order of their patterns, a new route
    /// after those with the same pattern.
    pub fn add_route(&mut self, pattern: &str, handler: H)
        requires
            is_subtree_pattern(pattern@),
        ensures
            final(self)@ == old(self)@.insert(place(old(self)@, pattern@), (pattern@, handler)),
            descending(final(self)@),
    {
        proof {
            use_type_invariant(&*self);
        }
        let mut taken = Self(Vec::new());
        std::mem::swap(self, &mut taken);
        let mut entries = taken.0;
        let ghost before = subtree_routes(entries@);
        let mut i: usize = 0;
        while i < entries.len() && !str_lt(entries[i].0.as_str(), pattern)
            invariant
                i <= entries@.len(),
                before == subtree_routes(entries@),
                forall|j: int| 0 <= j < i ==> !lex_lt((#[trigger] before[j]).0, pattern@),
            decreases entries@.len() - i,
        {
            i += 1;
        }
        proof {
            lemma_place_is(before, pattern@, i as int);
            lemma_insert_descending(before, pattern@, handler);
        }
        entries.insert(i, (pattern.to_owned(), handler));
        proof {
            assert(subtree_routes(entries@) =~= before.insert(i as int, (pattern@, handler)));
        }
        *self = Self(entries);
    }

    pub fn pattern_match<'r>(&self, request_target: &'r str) -> (r: Option<(Match<'_, H>, &'r str)>)
        ensures
            descending(self@),
            match (r, subtree_match(self@, request_target@)) {
                (Some((m, param)), Some(found)) => m.pattern@ == found.pattern && *m.handler
                    == found.handler && found.param == Some(param@),
                (None, None) => true,
                _ => false,
            },
    {
        proof {
            use_type_invariant(self);
        }
        let mut i: usize = 0;
        proof {
            assert(self@.skip(0) =~= self@);
        }
        while i < self.0.len()
            invariant
                i <= self.0@.len(),
                descending(self@),
                subtree_match(self@, request_target@) == subtree_match(
                    self@.skip(i as int),
                    request_target@,
                ),
            decreases self.0@.len() - i,
        {
            proof {
                assert(self@.skip(i as int)[0] == self@[i as int]);
                assert(self@.skip(i as int).drop_first() =~= self@.skip(i + 1));
            }
            match str_strip_prefix(request_target, self.0[i].0.as_str()) {
                Some(param) => {
                    return Some((Match::new(self.0[i].0.as_str(), &self.0[i].1), param));
                },
                None => {},
            }
            i += 1;
        }
        None
    }
}

} // verus!

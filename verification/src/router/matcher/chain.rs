//! The three route tables of one method, asked in a fixed order.

use super::dynamic::{dynamic_match, DynamicRoute};
use super::exact::exact_match;
use super::subtree::{
    descending, lemma_longest_pattern_wins, lemma_subtree_match_first, place, subtree_match,
    SubtreeRoute,
};
use super::{Dynamic, Exact, Found, Match, Subtree};
use crate::text::{
    lemma_one_char, rsplit_once, str_ends_with, str_eq, str_rsplit_once, str_starts_with,
};
use vstd::prelude::*;

verus! {

/// The mathematical form of a chain: its three tables.
pub struct Routes<H> {
    pub exact: Map<Seq<char>, H>,
    pub dynamic: Map<Seq<char>, DynamicRoute<H>>,
    pub subtree: Seq<SubtreeRoute<H>>,
}

/// The table that a pattern belongs to.
pub enum Kind {
    /// `/`, or a pattern whose last segment is no parameter.
    Exact,
    /// A pattern whose last segment begins with `:`; it is registered under
    /// the prefix, which is the pattern without `/` and that segment.
    Dynamic { prefix: Seq<char> },
    /// A pattern that ends with `/` and is not `/` alone.
    Subtree,
}

/// The table that `pattern` belongs to.
pub open spec fn kind_of(pattern: Seq<char>) -> Kind {
    if pattern == seq!['/'] {
        Kind::Exact
    } else if pattern.len() > 0 && pattern.last() == '/' {
        Kind::Subtree
    } else {
        match rsplit_once(pattern, '/') {
            Some((prefix, segment)) => if segment.len() > 0 && segment[0] == ':' {
                Kind::Dynamic { prefix }
            } else {
                Kind::Exact
            },
            None => Kind::Exact,
        }
    }
}

/// Whether `pattern` can be registered: it begins with `/`, and where its
/// last segment is a parameter, the segment before that is not empty.
pub open spec fn is_pattern(pattern: Seq<char>) -> bool {
    &&& pattern.len() > 0
    &&& pattern[0] == '/'
    &&& match kind_of(pattern) {
        Kind::Dynamic { prefix } => !(prefix.len() > 0 && prefix.last() == '/'),
        _ => true,
    }
}

impl<H> Routes<H> {
    /// The routes after `handler` was registered for `pattern`.
    pub open spec fn with_route(self, pattern: Seq<char>, handler: H) -> Routes<H> {
        match kind_of(pattern) {
            Kind::Exact => Routes { exact: self.exact.insert(pattern, handler), ..self },
            Kind::Dynamic { prefix } => Routes {
                dynamic: self.dynamic.insert(prefix, (pattern, handler)),
                ..self
            },
            Kind::Subtree => Routes {
                subtree: self.subtree.insert(place(self.subtree, pattern), (pattern, handler)),
                ..self
            },
        }
    }

    /// The route for `target`: the exact route where there is one, else the
    /// dynamic route where there is one, else the subtree route.
    pub open spec fn find(self, target: Seq<char>) -> Option<Found<H>> {
        match exact_match(self.exact, target) {
            Some(found) => Some(found),
            None => match dynamic_match(self.dynamic, target) {
                Some(found) => Some(found),
                None => subtree_match(self.subtree, target),
            },
        }
    }
}

/// The route for a target is chosen in a fixed order: an exact route before
/// a dynamic one, a dynamic one before a subtree route, and among subtree
/// routes, kept in falling order, one whose pattern is as long as that of
/// any other that the target begins with.
pub proof fn lemma_precedence<H>(routes: Routes<H>, target: Seq<char>)
    requires
        descending(routes.subtree),
    ensures
        exact_match(routes.exact, target) is Some ==> routes.find(target) == exact_match(
            routes.exact,
            target,
        ),
        exact_match(routes.exact, target) is None && dynamic_match(routes.dynamic, target) is Some
            ==> routes.find(target) == dynamic_match(routes.dynamic, target),
        exact_match(routes.exact, target) is None && dynamic_match(routes.dynamic, target) is None
            ==> routes.find(target) == subtree_match(routes.subtree, target),
        forall|j: int|
            0 <= j < routes.subtree.len() && (#[trigger] routes.subtree[j]).0.is_prefix_of(target)
                ==> (subtree_match(routes.subtree, target) matches Some(found)
                && found.pattern.len() >= routes.subtree[j].0.len()),
        routes.find(target) is None <==> {
            &&& !routes.exact.contains_key(target)
            &&& dynamic_match(routes.dynamic, target) is None
            &&& forall|j: int|
                0 <= j < routes.subtree.len() ==> !(#[trigger] routes.subtree[j]).0.is_prefix_of(
                    target,
                )
        },
{
    lemma_subtree_match_first(routes.subtree, target);
    assert forall|j: int|
        0 <= j < routes.subtree.len() && (#[trigger] routes.subtree[j]).0.is_prefix_of(
            target,
        ) implies (subtree_match(routes.subtree, target) matches Some(found)
        && found.pattern.len() >= routes.subtree[j].0.len()) by {
        lemma_longest_pattern_wins(routes.subtree, target, j);
    }
}

/// Whether `pattern` can be registered.
pub fn check_pattern(pattern: &str) -> (b: bool)
    ensures
        b == is_pattern(pattern@),
{
    proof {
        reveal_strlit("/");
        reveal_strlit(":");
        assert("/"@ =~= seq!['/']);
        assert(":"@ =~= seq![':']);
        lemma_one_char(pattern@, '/');
    }
    if !str_starts_with(pattern, "/") {
        return false;
    }
    if str_eq(pattern, "/") || str_ends_with(pattern, "/") {
        return true;
    }
    match str_rsplit_once(pattern, '/') {
        Some((key, param)) => {
            proof {
                lemma_one_char(param@, ':');
                lemma_one_char(key@, '/');
            }
            if str_starts_with(param, ":") {
                !str_ends_with(key, "/")
            } else {
                true
            }
        },
        None => true,
    }
}

pub struct Chain<H> {
    exact: Exact<H>,
    dynamic: Dynamic<H>,
    subtree: Subtree<H>,
}

impl<H> View for Chain<H> {
    type V = Routes<H>;

    closed spec fn view(&self) -> Routes<H> {
        Routes { exact: self.exact@, dynamic: self.dynamic@, subtree: self.subtree@ }
    }
}

impl<H> Chain<H> {
    pub fn new() -> (c: Self)
        ensures
            c@ == (Routes::<H> { exact: Map::empty(), dynamic: Map::empty(), subtree: Seq::empty() }),
    {
        Self { exact: Exact::new(), dynamic: Dynamic::new(), subtree: Subtree::new() }
    }

    /// Registers `handler` for `pattern`, in the table that the pattern
    /// belongs to.
    pub fn add_route(&mut self, pattern: &str, handler: H)
        requires
            is_pattern(pattern@),
        ensures
            final(self)@ == old(self)@.with_route(pattern@, handler),
    {
        proof {
            reveal_strlit("/");
            reveal_strlit(":");
            assert("/"@ =~= seq!['/']);
            assert(":"@ =~= seq![':']);
            lemma_one_char(pattern@, '/');
        }
        if str_eq(pattern, "/") {
            self.exact.add_route(pattern, handler);
            return;
        }
        if str_ends_with(pattern, "/") {
            proof {
                if pattern@.len() == 1 {
                    assert(pattern@ =~= seq!['/']);
                }
            }
            self.subtree.add_route(pattern, handler);
            return;
        }
        match str_rsplit_once(pattern, '/') {
            Some((key, param)) => {
                proof {
                    lemma_one_char(param@, ':');
                }
                if str_starts_with(param, ":") {
                    self.dynamic.add_route(key, pattern, handler);
                    return;
                }
            },
            None => {},
        }
        self.exact.add_route(pattern, handler);
    }

    /// The route for `request_target` and the parameter taken from the
    /// target: the exact route where there is one, else the dynamic route
    /// where there is one, else the subtree route with the longest pattern.
    pub fn pattern_match<'r>(&self, request_target: &'r str) -> (r: Option<
        (Match<'_, H>, Option<&'r str>),
    >)
        ensures
            descending(self@.subtree),
            match (r, self@.find(request_target@)) {
                (Some((m, param)), Some(found)) => m.pattern@ == found.pattern && *m.handler
                    == found.handler && match (param, found.param) {
                    (Some(p), Some(q)) => p@ == q,
                    (None, None) => true,
                    _ => false,
                },
                (None, None) => true,
                _ => false,
            },
    {
        proof {
            use_type_invariant(&self.subtree);
        }
        match self.exact.pattern_match(request_target) {
            Some(m) => {
                return Some((m, None));
            },
            None => {},
        }
        match self.dynamic.pattern_match(request_target) {
            Some((m, param)) => {
                return Some((m, Some(param)));
            },
            None => {},
        }
        match self.subtree.pattern_match(request_target) {
            Some((m, param)) => Some((m, Some(param))),
            None => None,
        }
    }

    /// The table of exact routes.
    pub fn exact(&self) -> (e: &Exact<H>)
        ensures
            e@ == self@.exact,
    {
        &self.exact
    }
}

} // verus!

//! Routes that match one target, letter for letter.

use super::table::Table;
use super::{Found, Match};
use vstd::prelude::*;

verus! {

/// Whether `pattern` can be an exact route: it is `/` or does not end with
/// `/`.
pub open spec fn is_exact_pattern(pattern: Seq<char>) -> bool {
    pattern == seq!['/'] || !(pattern.len() > 0 && pattern.last() == '/')
}

/// The exact route for `target`, if one is registered.
pub open spec fn exact_match<H>(routes: Map<Seq<char>, H>, target: Seq<char>) -> Option<Found<H>> {
    if routes.contains_key(target) {
        Some(Found { pattern: target, handler: routes[target], param: None })
    } else {
        None
    }
}

pub struct Exact<H>(Table<H>);

impl<H> View for Exact<H> {
    type V = Map<Seq<char>, H>;

    closed spec fn view(&self) -> Map<Seq<char>, H> {
        self.0@
    }
}

impl<H> Exact<H> {
    pub fn new() -> (e: Self)
        ensures
            e@ == Map::<Seq<char>, H>::empty(),
    {
        Self(Table::new())
    }

    /// Registers `handler` for the target `pattern`, in place of what was
    /// registered for it.
    pub fn add_route(&mut self, pattern: &str, handler: H)
        requires
            is_exact_pattern(pattern@),
        ensures
            final(self)@ == old(self)@.insert(pattern@, handler),
    {
        let mut table = Table::new();
        std::mem::swap(&mut self.0, &mut table);
        table.insert(pattern.to_owned(), handler);
        self.0 = table;
    }

    pub fn pattern_match(&self, request_target: &str) -> (r: Option<Match<'_, H>>)
        ensures
            match (r, exact_match(self@, request_target@)) {
                (Some(m), Some(found)) => m.pattern@ == found.pattern && *m.handler
                    == found.handler,
                (None, None) => true,
                _ => false,
            },
    {
        match self.0.get_key_value(request_target) {
            Some((pattern, handler)) => Some(Match::new(pattern, handler)),
            None => None,
        }
    }

    /// The number of routes.
    pub fn len(&self) -> (n: usize)
        ensures
            self@.dom().finite(),
            n == self@.dom().len(),
    {
        self.0.len()
    }

    /// Whether a route is registered for `pattern`.
    pub fn contains_key(&self, pattern: &str) -> (b: bool)
        ensures
            b == self@.contains_key(pattern@),
    {
        self.0.contains_key(pattern)
    }
}

} // verus!

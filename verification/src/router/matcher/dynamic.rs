//! Routes whose last segment is a parameter: `/items/:id` matches
//! `/items/` followed by one segment that is not empty.

use super::table::Table;
use super::{Found, Match};
use crate::text::{rsplit_once, str_rsplit_once};
use vstd::prelude::*;
use vstd::string::StrSliceExecFns;

verus! {

/// One dynamic route: the pattern it was registered with and its handler.
pub type DynamicRoute<H> = (Seq<char>, H);

/// The dynamic route for `target`, if one is registered: the target is
/// split at its last `/`, what stands after it is the parameter and must
/// not be empty, and what stands before it is the prefix that the route is
/// registered under.
pub open spec fn dynamic_match<H>(
    routes: Map<Seq<char>, DynamicRoute<H>>,
    target: Seq<char>,
) -> Option<Found<H>> {
    match rsplit_once(target, '/') {
        None => None,
        Some((prefix, param)) => if param.len() > 0 && routes.contains_key(prefix) {
            Some(Found { pattern: routes[prefix].0, handler: routes[prefix].1, param: Some(param) })
        } else {
            None
        },
    }
}

/// The routes of a table, each pattern as text.
pub open spec fn dynamic_routes<H>(table: Map<Seq<char>, (String, H)>) -> Map<
    Seq<char>,
    DynamicRoute<H>,
> {
    Map::new(|k: Seq<char>| table.contains_key(k), |k: Seq<char>| (table[k].0@, table[k].1))
}

pub struct Dynamic<H>(Table<(String, H)>);

impl<H> View for Dynamic<H> {
    type V = Map<Seq<char>, DynamicRoute<H>>;

    closed spec fn view(&self) -> Map<Seq<char>, DynamicRoute<H>> {
        dynamic_routes(self.0@)
    }
}

impl<H> Dynamic<H> {
    pub fn new() -> (d: Self)
        ensures
            d@ == Map::<Seq<char>, DynamicRoute<H>>::empty(),
    {
        let d = Self(Table::new());
        proof {
            assert(d@ =~= Map::<Seq<char>, DynamicRoute<H>>::empty());
        }
        d
    }

    /// Registers `handler` under `prefix`, in place of what was registered
    /// under it. `pattern` is the whole pattern, kept for those who ask
    /// which route matched.
    pub fn add_route(&mut self, prefix: &str, pattern: &str, handler: H)
        requires
            !(prefix@.len() > 0 && prefix@.last() == '/'),
        ensures
            final(self)@ == old(self)@.insert(prefix@, (pattern@, handler)),
    {
        let mut table = Table::new();
        std::mem::swap(&mut self.0, &mut table);
        table.insert(prefix.to_owned(), (pattern.to_owned(), handler));
        self.0 = table;
        proof {
            assert(final(self)@ =~= old(self)@.insert(prefix@, (pattern@, handler)));
        }
    }

    pub fn pattern_match<'r>(&self, request_target: &'r str) -> (r: Option<(Match<'_, H>, &'r str)>)
        ensures
            match (r, dynamic_match(self@, request_target@)) {
                (Some((m, param)), Some(found)) => m.pattern@ == found.pattern && *m.handler
                    == found.handler && found.param == Some(param@),
                (None, None) => true,
                _ => false,
            },
    {
        let (prefix, param) = match str_rsplit_once(request_target, '/') {
            Some(parts) => parts,
            None => {
                return None;
            },
        };
        if param.unicode_len() == 0 {
            return None;
        }
        match self.0.get(prefix) {
            Some(route) => Some((Match::new(route.0.as_str(), &route.1), param)),
            None => None,
        }
    }
}

} // verus!

//! The three kinds of route table, and the chain that holds one of each.

pub use chain::Chain;
pub use dynamic::Dynamic;
pub use exact::Exact;
pub use subtree::Subtree;
use vstd::prelude::*;

pub mod chain;
pub mod dynamic;
pub mod exact;
pub mod subtree;
pub mod table;

verus! {

/// A route that matched: the pattern it was registered with and its
/// handler.
pub struct Match<'a, H> {
    pub pattern: &'a str,
    pub handler: &'a H,
}

impl<'a, H> Match<'a, H> {
    pub fn new(pattern: &'a str, handler: &'a H) -> (m: Self)
        ensures
            m.pattern@ == pattern@,
            *m.handler == *handler,
    {
        Self { pattern, handler }
    }
}

/// The mathematical form of a match: the pattern, the handler, and the
/// parameter taken from the target where the kind of route takes one.
pub struct Found<H> {
    pub pattern: Seq<char>,
    pub handler: H,
    pub param: Option<Seq<char>>,
}

} // verus!

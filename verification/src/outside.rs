//! The trusted boundary to the host's result sink.
//!
//! Interesting tiles are handed to the host through a lock-free bag so that
//! several Z-levels can push concurrently. The bag itself is an outside
//! concurrent collection; this module wraps it in a type whose contents are
//! modeled as a multiset, and every method's contract is stated over that
//! model.

use crate::model::{InterestingTile, InterestingTileV};
use vstd::multiset::Multiset;
use vstd::prelude::*;

verus! {

/// A multi-producer bag of emitted [`InterestingTile`] records.
#[verifier::external_body]
pub struct InterestingSink {
    bag: scc::Bag<InterestingTile>,
}

/// What the sink holds, as a multiset of record images.
pub uninterp spec fn sink_contents(s: InterestingSink) -> Multiset<InterestingTileV>;

impl InterestingSink {
    /// Relies on `scc::Bag::new`: a freshly created bag is empty.
    #[verifier::external_body]
    pub fn new() -> (r: InterestingSink)
        ensures
            sink_contents(r) == Multiset::<InterestingTileV>::empty(),
    {
        InterestingSink { bag: scc::Bag::new() }
    }

    /// Relies on `scc::Bag::push`: pushing adds exactly the given element.
    #[verifier::external_body]
    pub fn push(&mut self, t: InterestingTile)
        ensures
            sink_contents(*final(self)) == sink_contents(*old(self)).insert(t@),
    {
        self.bag.push(t);
    }

    /// Relies on `scc::Bag::pop`: with exclusive access, popping removes
    /// and returns some element when the bag is not empty, and returns
    /// nothing exactly when it is empty. Which element leaves is
    /// unspecified.
    #[verifier::external_body]
    pub fn pop(&mut self) -> (r: Option<InterestingTile>)
        ensures
            match r {
                Option::Some(t) => sink_contents(*old(self)).contains(t@) && sink_contents(
                    *final(self),
                ) == sink_contents(*old(self)).remove(t@),
                Option::None => sink_contents(*old(self)) == Multiset::<
                    InterestingTileV,
                >::empty() && sink_contents(*final(self)) == sink_contents(*old(self)),
            },
    {
        self.bag.pop()
    }

    /// Relies on `scc::Bag::is_empty`: with exclusive access, reports
    /// whether the bag holds no element.
    #[verifier::external_body]
    pub fn is_empty(&self) -> (r: bool)
        ensures
            r == (sink_contents(*self).len() == 0),
    {
        self.bag.is_empty()
    }
}

} // verus!

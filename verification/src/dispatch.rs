//! Dispatch bookkeeping: one frame for all destinations, one outcome each.
//!
//! A dispatch fans a single logical request out to every destination in the
//! caller's order. The message is encoded and framed exactly once, in a
//! [`DispatchPlan`]; every session is handed a byte-identical copy of that
//! one frame. Each session's result lands in its own slot of a
//! [`DispatchReport`], and recording one destination's outcome provably
//! leaves every other destination's slot unchanged, so no failure can
//! suppress, overwrite or delay another destination's result. The report is
//! indexed by the caller-supplied destination order, whatever order the
//! sessions complete in.

use vstd::prelude::*;

use crate::codec::{encode, frame, spec_encode, spec_frame, Message};
use crate::session::SessionError;
use crate::validator::Destination;

verus! {

/// One destination's result: the peer's response text, or the error that
/// ended the session.
pub type DispatchOutcome = Result<String, SessionError>;

/// One logical request, framed once, bound for a list of destinations.
pub struct DispatchPlan {
    destinations: Vec<Destination>,
    frame_bytes: Vec<u8>,
}

impl DispatchPlan {
    /// The destinations, in the caller's order.
    pub closed spec fn spec_destinations(self) -> Seq<Destination> {
        self.destinations@
    }

    /// The one frame that every destination receives.
    pub closed spec fn spec_frame_bytes(self) -> Seq<u8> {
        self.frame_bytes@
    }

    /// Encode and frame `message` once for the given destinations.
    pub fn new(destinations: Vec<Destination>, message: &Message) -> (r: DispatchPlan)
        requires
            message@.encodable(),
            spec_encode(message@).len() < 0x1_0000_0000,
            spec_encode(message@).len() + 4 <= usize::MAX,
        ensures
            r.spec_destinations() == destinations@,
            r.spec_frame_bytes() == spec_frame(spec_encode(message@)),
    {
        let encoded = encode(message);
        let frame_bytes = frame(encoded.as_slice());
        DispatchPlan { destinations, frame_bytes }
    }

    /// How many destinations the plan addresses.
    pub fn destination_count(&self) -> (n: usize)
        ensures
            n == self.spec_destinations().len(),
    {
        self.destinations.len()
    }

    /// The destination at position `i` of the caller's order.
    pub fn destination(&self, i: usize) -> (d: &Destination)
        requires
            i < self.spec_destinations().len(),
        ensures
            *d == self.spec_destinations()[i as int],
    {
        &self.destinations[i]
    }

    /// The frame to send to the destination at position `i`.
    ///
    /// The result does not depend on `i`: every destination receives the
    /// same bytes, the frame built once by [`DispatchPlan::new`].
    pub fn frame_for(&self, i: usize) -> (r: Vec<u8>)
        requires
            i < self.spec_destinations().len(),
        ensures
            r@ == self.spec_frame_bytes(),
    {
        self.frame_bytes.clone()
    }
}

/// The per-destination outcomes of one dispatch, in the caller's
/// destination order. Every slot is filled exactly once; the dispatch is
/// complete when none is empty.
pub struct DispatchReport {
    outcomes: Vec<Option<DispatchOutcome>>,
}

impl View for DispatchReport {
    type V = Seq<Option<DispatchOutcome>>;

    closed spec fn view(&self) -> Seq<Option<DispatchOutcome>> {
        self.outcomes@
    }
}

impl DispatchReport {
    /// An empty report with one slot per destination.
    pub fn new(count: usize) -> (r: DispatchReport)
        ensures
            r@.len() == count,
            forall|i: int| 0 <= i < count ==> r@[i] is None,
    {
        let mut outcomes: Vec<Option<DispatchOutcome>> = Vec::new();
        let mut k: usize = 0;
        while k < count
            invariant
                0 <= k <= count,
                outcomes@.len() == k,
                forall|i: int| 0 <= i < k ==> outcomes@[i] is None,
            decreases count - k,
        {
            outcomes.push(None);
            k += 1;
        }
        DispatchReport { outcomes }
    }

    /// Record destination `i`'s outcome, once.
    ///
    /// Isolation is the contract: slot `i` now holds the outcome, and every
    /// other destination's slot is exactly what it was.
    pub fn record(&mut self, i: usize, outcome: DispatchOutcome)
        requires
            i < old(self)@.len(),
            old(self)@[i as int] is None,
        ensures
            final(self)@.len() == old(self)@.len(),
            final(self)@[i as int] == Some(outcome),
            forall|j: int| 0 <= j < old(self)@.len() && j != i ==> final(self)@[j] == old(
                self,
            )@[j],
    {
        self.outcomes.set(i, Some(outcome));
    }

    /// How many slots the report has.
    pub fn len(&self) -> (n: usize)
        ensures
            n == self@.len(),
    {
        self.outcomes.len()
    }

    /// Destination `i`'s outcome, if it was recorded yet.
    pub fn outcome(&self, i: usize) -> (r: &Option<DispatchOutcome>)
        requires
            i < self@.len(),
        ensures
            *r == self@[i as int],
    {
        &self.outcomes[i]
    }

    /// Whether every destination's outcome was recorded.
    pub fn is_complete(&self) -> (b: bool)
        ensures
            b == forall|i: int| 0 <= i < self@.len() ==> self@[i] is Some,
    {
        let mut k: usize = 0;
        while k < self.outcomes.len()
            invariant
                0 <= k <= self@.len(),
            forall|i: int| 0 <= i < k ==> self@[i] is Some,
            decreases self@.len() - k,
        {
            if self.outcomes[k].is_none() {
                return false;
            }
            k += 1;
        }
        true
    }
}

} // verus!

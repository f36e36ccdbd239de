//! Identifiers of the participants of a session and the sizes derived from them.

use vstd::prelude::*;

verus! {

/// An asynchronous round of the protocol.
pub type Round = u16;

/// The number of the session for which consensus is run.
pub type SessionId = u64;

/// A fixed-size identifier produced by a [`Hasher`] from a byte string.
pub type Hash64 = u64;

/// The position of one participant in the committee.
#[derive(Copy, Clone, Debug, PartialEq, Eq, Hash, Structural)]
pub struct NodeIndex(pub usize);

impl View for NodeIndex {
    type V = NodeIndex;

    open spec fn view(&self) -> NodeIndex {
        *self
    }
}

impl DeepView for NodeIndex {
    type V = NodeIndex;

    open spec fn deep_view(&self) -> NodeIndex {
        *self
    }
}

/// The number of participants of a session.
#[derive(Copy, Clone, Debug, PartialEq, Eq, Hash, Structural)]
pub struct NodeCount(pub usize);

/// The least number of participants that is more than two thirds of `n`.
pub open spec fn quorum_of(n: int) -> int {
    2 * n / 3 + 1
}

impl NodeCount {
    /// The number of signatures that make a multisignature complete.
    pub fn quorum(&self) -> (q: usize)
        ensures
            q == quorum_of(self.0 as int),
            self.0 >= 1 ==> 1 <= q <= self.0,
    {
        let n: usize = self.0;
        // 2 * n may not fit, so the two thirds are taken of the quotient and of the remainder
        let third: usize = n / 3;
        let rest: usize = n % 3;
        2 * third + (2 * rest) / 3 + 1
    }
}

/// Something that has been assigned the index of a participant.
pub trait Index {
    spec fn spec_index(&self) -> NodeIndex;

    fn index(&self) -> (i: NodeIndex)
        ensures
            i == self.spec_index(),
    ;
}

/// To whom a message goes.
#[derive(Copy, Clone, Debug, PartialEq, Eq, Hash, Structural)]
pub enum Recipient {
    Everyone,
    Node(NodeIndex),
}

impl View for Recipient {
    type V = Recipient;

    open spec fn view(&self) -> Recipient {
        *self
    }
}

impl DeepView for Recipient {
    type V = Recipient;

    open spec fn deep_view(&self) -> Recipient {
        *self
    }
}

/// A hasher, used for creating identifiers of alerts and units.
///
/// The identifier depends on the hashed bytes alone.
pub trait Hasher {
    spec fn spec_hash(s: Seq<u8>) -> Hash64;

    fn hash(s: &[u8]) -> (h: Hash64)
        ensures
            h == Self::spec_hash(s@),
    ;
}

} // verus!

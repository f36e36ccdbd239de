//! Plain values: what can be copied and compared by what it holds.

use crate::nodes::{NodeIndex, Recipient};
use vstd::prelude::*;

verus! {

/// A value that can be copied, and compared with another by what the two hold.
pub trait Value: DeepView + Sized {
    /// A second value that holds the same.
    fn duplicate(&self) -> (r: Self)
        ensures
            r.deep_view() == self.deep_view(),
    ;

    /// Whether the two values hold the same.
    fn same(&self, other: &Self) -> (b: bool)
        ensures
            b == (self.deep_view() == other.deep_view()),
    ;
}

impl Value for u8 {
    fn duplicate(&self) -> (r: Self) {
        *self
    }

    fn same(&self, other: &Self) -> (b: bool) {
        *self == *other
    }
}

impl Value for bool {
    fn duplicate(&self) -> (r: Self) {
        *self
    }

    fn same(&self, other: &Self) -> (b: bool) {
        *self == *other
    }
}

impl Value for u16 {
    fn duplicate(&self) -> (r: Self) {
        *self
    }

    fn same(&self, other: &Self) -> (b: bool) {
        *self == *other
    }
}

impl Value for u64 {
    fn duplicate(&self) -> (r: Self) {
        *self
    }

    fn same(&self, other: &Self) -> (b: bool) {
        *self == *other
    }
}

impl Value for usize {
    fn duplicate(&self) -> (r: Self) {
        *self
    }

    fn same(&self, other: &Self) -> (b: bool) {
        *self == *other
    }
}

impl Value for NodeIndex {
    fn duplicate(&self) -> (r: Self) {
        *self
    }

    fn same(&self, other: &Self) -> (b: bool) {
        self.0 == other.0
    }
}

impl Value for Recipient {
    fn duplicate(&self) -> (r: Self) {
        *self
    }

    fn same(&self, other: &Self) -> (b: bool) {
        match (self, other) {
            (Recipient::Everyone, Recipient::Everyone) => true,
            (Recipient::Node(a), Recipient::Node(b)) => a.0 == b.0,
            _ => false,
        }
    }
}

impl<T: Value> Value for Option<T> {
    fn duplicate(&self) -> (r: Self) {
        match self {
            Some(x) => Some(x.duplicate()),
            None => None,
        }
    }

    fn same(&self, other: &Self) -> (b: bool) {
        match (self, other) {
            (Some(x), Some(y)) => x.same(y),
            (None, None) => true,
            _ => false,
        }
    }
}

impl<A: Value, B: Value> Value for (A, B) {
    fn duplicate(&self) -> (r: Self) {
        (self.0.duplicate(), self.1.duplicate())
    }

    fn same(&self, other: &Self) -> (b: bool) {
        self.0.same(&other.0) && self.1.same(&other.1)
    }
}

impl<T: Value> Value for Vec<T> {
    fn duplicate(&self) -> (r: Self) {
        let mut copy: Vec<T> = Vec::new();
        let mut i: usize = 0;
        while i < self.len()
            invariant
                i <= self.len(),
                copy.deep_view() == self.deep_view().take(i as int),
            decreases self.len() - i,
        {
            let item = self[i].duplicate();
            let ghost before = copy.deep_view();
            let ghost added = item.deep_view();
            copy.push(item);
            proof {
                assert(copy.deep_view() =~= before.push(added));
                assert(self.deep_view().take(i + 1) =~= self.deep_view().take(i as int).push(
                    self.deep_view()[i as int],
                ));
            }
            i += 1;
        }
        proof {
            assert(self.deep_view().take(self.len() as int) =~= self.deep_view());
        }
        copy
    }

    fn same(&self, other: &Self) -> (b: bool) {
        if self.len() != other.len() {
            return false;
        }
        let mut i: usize = 0;
        while i < self.len()
            invariant
                i <= self.len(),
                self.len() == other.len(),
                forall|j: int| 0 <= j < i ==> self[j].deep_view() == other[j].deep_view(),
            decreases self.len() - i,
        {
            if !self[i].same(&other[i]) {
                proof {
                    assert(self.deep_view()[i as int] != other.deep_view()[i as int]);
                }
                return false;
            }
            i += 1;
        }
        proof {
            assert(self.deep_view() =~= other.deep_view());
        }
        true
    }
}

} // verus!

use vstd::prelude::*;

verus! {

/// A half-open span `[start, end)` of offsets into the source text.
#[derive(Debug, Clone, Copy, PartialEq, Eq, Structural, Hash)]
pub struct Loc(pub usize, pub usize);

impl Loc {
    /// The span that covers both spans.
    pub open spec fn join(self, other: Loc) -> Loc {
        Loc(
            if self.0 <= other.0 { self.0 } else { other.0 },
            if self.1 >= other.1 { self.1 } else { other.1 },
        )
    }

    pub fn merge(&self, other: &Loc) -> (r: Loc)
        ensures
            r == self.join(*other),
    {
        let start = if self.0 <= other.0 { self.0 } else { other.0 };
        let end = if self.1 >= other.1 { self.1 } else { other.1 };
        Loc(start, end)
    }
}

} // verus!

use vstd::prelude::*;

verus! {

/// An opaque vertex identifier.
///
/// Identifiers are plain values: they can be copied, compared, ordered and hashed, and all of
/// these go by the number that the identifier was allocated with.
#[derive(Clone, Copy, PartialEq, Eq, PartialOrd, Ord, Hash, Debug, Structural)]
pub struct VertexIdx(pub(crate) usize);

impl View for VertexIdx {
    type V = usize;

    /// The number that this identifier was allocated with.
    closed spec fn view(&self) -> usize {
        self.0
    }
}

impl VertexIdx {
    /// Takes the next identifier from `counter` and advances it.
    ///
    /// The counter wraps to zero after `usize::MAX - 1`, so an identifier can come back once
    /// the whole identifier space has been handed out.
    pub fn new(counter: &mut IdxCounter) -> (idx: VertexIdx)
        ensures
            idx@ == old(counter)@,
            final(counter)@ == IdxCounter::following(old(counter)@),
    {
        proof {
            use_type_invariant(&*counter);
        }
        let idx = VertexIdx(counter.next);
        counter.next = (counter.next + 1) % usize::MAX;
        idx
    }

    /// The number behind this identifier.
    pub fn index(self) -> (n: usize)
        ensures
            n == self@,
    {
        self.0
    }

    /// Two identifiers with the same number are the same identifier.
    pub broadcast proof fn lemma_view_injective(a: VertexIdx, b: VertexIdx)
        requires
            #[trigger] a@ == #[trigger] b@,
        ensures
            a == b,
    {
    }
}

/// The source of vertex identifiers for one family of graphs.
///
/// It counts upwards from where it was started and never holds `usize::MAX`.
#[derive(Clone, Copy, Debug)]
pub struct IdxCounter {
    next: usize,
}

impl View for IdxCounter {
    type V = usize;

    /// The number of the identifier that is handed out next.
    closed spec fn view(&self) -> usize {
        self.next
    }
}

impl IdxCounter {
    #[verifier::type_invariant]
    spec fn below_max(self) -> bool {
        self.next < usize::MAX
    }

    /// The counter value that comes after `n`.
    pub open spec fn following(n: usize) -> usize {
        ((n + 1) % (usize::MAX as int)) as usize
    }

    /// A counter that starts at zero.
    pub fn new() -> (counter: IdxCounter)
        ensures
            counter@ == 0,
    {
        IdxCounter { next: 0 }
    }

    /// A counter that starts at `first`, or `None` if `first` is `usize::MAX`, which is not an
    /// identifier number.
    pub fn starting_at(first: usize) -> (counter: Option<IdxCounter>)
        ensures
            first < usize::MAX <==> counter is Some,
            counter matches Some(c) ==> c@ == first,
    {
        if first < usize::MAX {
            Some(IdxCounter { next: first })
        } else {
            None
        }
    }

    /// The number of the identifier that is handed out next.
    pub fn position(&self) -> (n: usize)
        ensures
            n == self@,
            n < usize::MAX,
    {
        proof {
            use_type_invariant(self);
        }
        self.next
    }
}

} // verus!

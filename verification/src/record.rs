//! What every value kept by the store has in common.

use vstd::prelude::*;

verus! {

/// A value the store can keep: it has a mathematical view, a condition under
/// which its representation is sound, and it can be copied faithfully.
pub trait Record: View + Sized {
    /// Whether the representation is sound. Constructors establish it and
    /// every operation preserves it.
    spec fn wf(&self) -> bool;

    /// A copy with the same view.
    fn duplicate(&self) -> (out: Self)
        requires
            self.wf(),
        ensures
            out.wf(),
            out@ == self@,
    ;
}

/// A record as the store hands it out: together with the identifier under
/// which it is kept.
pub trait Entry: Sized {
    /// What is kept under the identifier.
    type Held: Record;

    /// The identifier.
    spec fn id(&self) -> Seq<char>;

    /// The record.
    spec fn held(&self) -> Self::Held;

    /// The entry that pairs `id` with `held`.
    fn entry(id: String, held: Self::Held) -> (out: Self)
        ensures
            out.id() == id@,
            out.held() == held,
    ;
}

/// The identifiers of `entries`, in their order.
pub open spec fn ids<T: Entry>(entries: Seq<T>) -> Seq<Seq<char>> {
    Seq::new(entries.len(), |i: int| entries[i].id())
}

/// The views of what `entries` hold, in their order.
pub open spec fn views<T: Entry>(entries: Seq<T>) -> Seq<<T::Held as View>::V> {
    Seq::new(entries.len(), |i: int| entries[i].held()@)
}

} // verus!

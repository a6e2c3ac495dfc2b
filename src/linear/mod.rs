use vstd::prelude::*;

use vstd::laws_eq::obeys_concrete_eq;
use vstd::pervasive::cloned;

use crate::linear::array::first_at;
use crate::Error;

mod arena;
pub mod array;
pub mod list;
pub mod list_node;
pub mod list_raw;
pub mod queue;
pub mod stack_raw;
pub mod string;

verus! {

/// The common contract of position-based lists. Positions are 1-based; a returned
/// position of `0` means "not found".
pub trait List<T> where T: Clone + PartialEq {
    /// The values, in order.
    spec fn items(&self) -> Seq<T>;

    /// The representation is consistent.
    spec fn wf(&self) -> bool;

    /// The most values the list can hold.
    spec fn room(&self) -> nat;

    /// An empty list.
    fn init_list() -> (r: Self) where Self: Sized
        ensures
            r.wf(),
            r.items() == Seq::<T>::empty(),
    ;

    /// Gives the list up, with everything it holds.
    fn destroy_list(self) where Self: Sized
        requires
            self.wf(),
    ;

    /// Removes every value.
    fn clear_list(&mut self)
        requires
            old(self).wf(),
        ensures
            final(self).wf(),
            final(self).room() == old(self).room(),
            final(self).items() == Seq::<T>::empty(),
    ;

    /// Whether the list holds nothing.
    fn list_empty(&self) -> (r: bool)
        requires
            self.wf(),
        ensures
            r == (self.items().len() == 0),
    ;

    /// How many values the list holds.
    fn list_length(&self) -> (r: usize)
        requires
            self.wf(),
        ensures
            r == self.items().len(),
    ;

    /// A copy of the value at position `i`, or `None` when there is none.
    fn get_elem(&self, i: usize) -> (r: Option<T>)
        requires
            self.wf(),
        ensures
            1 <= i <= self.items().len() ==> r is Some && cloned(self.items()[i - 1], r->Some_0),
            !(1 <= i <= self.items().len()) ==> r is None,
    ;

    /// The position of the first value equal to `e`, or `0` when there is none.
    fn locate_elem(&self, e: T) -> (r: usize)
        requires
            self.wf(),
            obeys_concrete_eq::<T>(),
        ensures
            r == 0 <==> !self.items().contains(e),
            r != 0 ==> first_at(self.items(), e, r - 1),
    ;

    /// A copy of the value just before the first occurrence of `cur_e`; `None` when `cur_e`
    /// does not occur or comes first.
    fn prior_elem(&self, cur_e: T, _pre_e: &T) -> (r: Option<T>)
        requires
            self.wf(),
            obeys_concrete_eq::<T>(),
        ensures
            r is Some <==> exists|k: int| first_at(self.items(), cur_e, k) && k > 0,
            forall|k: int|
                first_at(self.items(), cur_e, k) && k > 0 ==> r is Some && cloned(
                    self.items()[k - 1],
                    r->Some_0,
                ),
    ;

    /// A copy of the value just after the first occurrence of `cur_e`; `None` when `cur_e`
    /// does not occur or comes last.
    fn next_elem(&self, cur_e: T, _next_e: &T) -> (r: Option<T>)
        requires
            self.wf(),
            obeys_concrete_eq::<T>(),
        ensures
            r is Some <==> exists|k: int| first_at(self.items(), cur_e, k) && k + 1 < self.items().len(),
            forall|k: int|
                first_at(self.items(), cur_e, k) && k + 1 < self.items().len() ==> r is Some && cloned(
                    self.items()[k + 1],
                    r->Some_0,
                ),
    ;

    /// Inserts `e` before position `i` (`length + 1` appends). An invalid position is
    /// reported first, then a full list; neither changes anything.
    fn list_insert(&mut self, i: usize, e: T) -> (r: Result<(), Error>)
        requires
            old(self).wf(),
        ensures
            final(self).wf(),
            final(self).room() == old(self).room(),
            !(1 <= i <= old(self).items().len() + 1) ==> r == Err::<(), Error>(Error::IndexErr)
                && final(self).items() == old(self).items(),
            1 <= i <= old(self).items().len() + 1 && old(self).items().len() >= old(self).room() ==> r
                == Err::<(), Error>(Error::FullErr) && final(self).items() == old(self).items(),
            1 <= i <= old(self).items().len() + 1 && old(self).items().len() < old(self).room() ==> r
                == Ok::<(), Error>(()) && final(self).items() == old(self).items().insert(i - 1, e),
    ;

    /// Removes the value at position `i`; an invalid position is reported and changes nothing.
    fn list_delete(&mut self, i: usize) -> (r: Result<(), Error>)
        requires
            old(self).wf(),
        ensures
            final(self).wf(),
            final(self).room() == old(self).room(),
            1 <= i <= old(self).items().len() ==> r == Ok::<(), Error>(()) && final(self).items()
                == old(self).items().remove(i - 1),
            !(1 <= i <= old(self).items().len()) ==> r == Err::<(), Error>(Error::IndexErr)
                && final(self).items() == old(self).items(),
    ;

    /// Copies of the values, in order.
    fn traverse_list(&self) -> (r: Vec<T>)
        requires
            self.wf(),
        ensures
            r@.len() == self.items().len(),
            forall|k: int| 0 <= k < r@.len() ==> cloned(self.items()[k], #[trigger] r@[k]),
    ;
}

} // verus!

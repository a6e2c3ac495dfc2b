use vstd::prelude::*;

use crate::linear::arena::Arena;

verus! {

/// The head of a manually managed chain. The head itself lives wherever its owner puts it;
/// every node after it is taken from an arena that the head owns, and links are arena indices.
pub struct NodeRaw {
    /// The value of the head node.
    pub data: i32,
    next: Arena,
}

/// Why an operation on a raw chain failed.
#[derive(Debug, PartialEq, Eq, Structural)]
pub enum LinkErr {
    /// No node was given.
    Node,
    /// The position is zero or outside the chain.
    Index,
}

impl View for NodeRaw {
    type V = Seq<i32>;

    /// The values of the nodes after the head, in order.
    closed spec fn view(&self) -> Seq<i32> {
        self.next@
    }
}

impl NodeRaw {
    /// The links are consistent and every arena slot is accounted for.
    pub closed spec fn wf(&self) -> bool {
        self.next.wf()
    }

    /// The value of the head node.
    pub closed spec fn value(&self) -> i32 {
        self.data
    }

    /// How many node slots the head has ever taken.
    pub closed spec fn taken(&self) -> nat {
        self.next.allocated()
    }

    /// How many node slots have been given back and wait for reuse.
    pub closed spec fn released(&self) -> nat {
        self.next.released()
    }

    /// A head holding `0` with nothing after it.
    pub fn new() -> (r: Self)
        ensures
            r.wf(),
            r.value() == 0,
            r@ == Seq::<i32>::empty(),
            r.taken() == 0,
    {
        Self { data: 0, next: Arena::new() }
    }

    /// Every slot is either in the chain or free, exactly once.
    pub proof fn lemma_slots(&self)
        requires
            self.wf(),
        ensures
            self@.len() + self.released() == self.taken(),
    {
        self.next.lemma_counts();
    }

    /// Inserts `e` at position `i` (1-based), after walking `i - 1` links from the head.
    pub fn insert(&mut self, i: isize, e: i32) -> (r: Result<(), LinkErr>)
        requires
            old(self).wf(),
        ensures
            final(self).wf(),
            final(self).value() == old(self).value(),
            r is Ok <==> 1 <= i <= old(self)@.len() + 1,
            r is Ok ==> final(self)@ == old(self)@.insert(i - 1, e),
            r is Err ==> r == Err::<(), LinkErr>(LinkErr::Index) && final(self)@ == old(self)@,
    {
        if i < 1 {
            return Err(LinkErr::Index);
        }
        if self.next.insert_at((i - 1) as usize, e) {
            Ok(())
        } else {
            Err(LinkErr::Index)
        }
    }

    /// Unlinks the node at position `i` (1-based) and hands it back on its own,
    /// linked to nothing. `None` when there is no such node.
    pub fn delete(&mut self, i: isize) -> (r: Option<Box<NodeRaw>>)
        requires
            old(self).wf(),
        ensures
            final(self).wf(),
            final(self).value() == old(self).value(),
            r is Some <==> 1 <= i <= old(self)@.len(),
            r is Some ==> r->Some_0.value() == old(self)@[i - 1] && r->Some_0@.len() == 0
                && r->Some_0.wf() && final(self)@ == old(self)@.remove(i - 1),
            r is None ==> final(self)@ == old(self)@,
    {
        if i < 1 {
            return None;
        }
        match self.next.remove_at((i - 1) as usize) {
            None => None,
            Some(v) => Some(Box::new(NodeRaw { data: v, next: Arena::new() })),
        }
    }

    /// The value at position `i` (1-based), or `None` when there is no such node.
    pub fn get_ref(&self, i: isize) -> (r: Option<&i32>)
        requires
            self.wf(),
        ensures
            r is Some <==> 1 <= i <= self@.len(),
            r is Some ==> *r.unwrap() == self@[i - 1],
    {
        if i < 1 {
            return None;
        }
        self.next.get_ref((i - 1) as usize)
    }

    /// Mutable access to the value at position `i` (1-based), or `None` when there is no such node.
    pub fn get_mut(&mut self, i: isize) -> (r: Option<&mut i32>)
        requires
            old(self).wf(),
        ensures
            final(self).wf(),
            final(self).value() == old(self).value(),
            r is Some <==> 1 <= i <= old(self)@.len(),
            r is Some ==> *r.unwrap() == old(self)@[i - 1] && final(self)@ == old(self)@.update(
                i - 1,
                *final(r.unwrap()),
            ),
            r is None ==> final(self)@ == old(self)@,
    {
        if i < 1 {
            return None;
        }
        self.next.get_mut((i - 1) as usize)
    }

    /// Inserts `e` right after the given head; without a head there is nothing to link to.
    pub fn insert_next_node(node: Option<&mut NodeRaw>, e: i32) -> (r: Result<(), LinkErr>)
        requires
            node matches Some(n) ==> n.wf(),
        ensures
            node is None ==> r == Err::<(), LinkErr>(LinkErr::Node),
            node is Some ==> r is Ok && final(node.unwrap()).wf() && final(node.unwrap()).value()
                == node.unwrap().value() && final(node.unwrap())@ == seq![e].add(node.unwrap()@),
    {
        match node {
            None => Err(LinkErr::Node),
            Some(n) => {
                let ok = n.next.insert_at(0, e);
                Ok(())
            },
        }
    }

    /// Releases every node after the head, one at a time from the front, and returns how
    /// many were released: each node once, with nothing left behind.
    pub fn clear(&mut self) -> (released: usize)
        requires
            old(self).wf(),
        ensures
            final(self).wf(),
            final(self).value() == old(self).value(),
            released == old(self)@.len(),
            final(self)@ == Seq::<i32>::empty(),
            final(self).taken() == old(self).taken(),
            final(self).released() == final(self).taken(),
    {
        self.next.clear()
    }
}

/// Inserting at a valid position `i` and then deleting at `i` gives back the chain as it was:
/// the deletion succeeds, hands back `v`, and the sequence after it is the one before the insertion.
pub proof fn lemma_insert_then_delete(before: Seq<i32>, i: int, v: i32)
    requires
        1 <= i <= before.len() + 1,
    ensures
        1 <= i <= before.insert(i - 1, v).len(),
        before.insert(i - 1, v)[i - 1] == v,
        before.insert(i - 1, v).remove(i - 1) == before,
{
    assert(before.insert(i - 1, v).remove(i - 1) =~= before);
}

} // verus!

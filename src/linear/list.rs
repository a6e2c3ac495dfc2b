use vstd::prelude::*;

verus! {

/// A node of the ownership chain: one value and the link that owns its successor.
#[derive(Debug)]
pub struct Node {
    elem: i32,
    next: Link,
}

/// Either the end of the chain or an owned successor node.
#[derive(Debug)]
pub enum Link {
    Null,
    More(Box<Node>),
}

/// A singly linked list in which every node exclusively owns its successor.
#[derive(Debug)]
pub struct List {
    head: Link,
}

impl Link {
    /// The values held from this link to the end of the chain.
    pub closed spec fn values(&self) -> Seq<i32>
        decreases self,
    {
        match self {
            Link::Null => Seq::empty(),
            Link::More(node) => seq![node.elem].add(node.next.values()),
        }
    }
}

impl Node {
    /// The value held by this node.
    pub closed spec fn value(&self) -> i32 {
        self.elem
    }

    /// The values of the nodes that this node owns, in order.
    pub closed spec fn rest(&self) -> Seq<i32> {
        self.next.values()
    }

    /// Returns a reference to the element in this node.
    pub fn elem_ref(&self) -> (r: &i32)
        ensures
            *r == self.value(),
    {
        &self.elem
    }

    /// Returns a mutable reference to the element in this node.
    pub fn elem_mut(&mut self) -> (r: &mut i32)
        ensures
            *r == old(self).value(),
            final(self).value() == *final(r),
            final(self).rest() == old(self).rest(),
    {
        &mut self.elem
    }

    /// Returns the element held by this node.
    pub fn elem(&self) -> (r: i32)
        ensures
            r == self.value(),
    {
        self.elem
    }
}

impl View for List {
    type V = Seq<i32>;

    closed spec fn view(&self) -> Seq<i32> {
        self.head.values()
    }
}

impl List {
    /// Creates an empty list.
    pub fn new() -> (r: Self)
        ensures
            r@ == Seq::<i32>::empty(),
    {
        List { head: Link::Null }
    }

    /// Puts `elem` at the front of the list.
    pub fn push(&mut self, elem: i32)
        ensures
            final(self)@ == seq![elem].add(old(self)@),
    {
        let mut next = Link::Null;
        std::mem::swap(&mut self.head, &mut next);
        self.head = Link::More(Box::new(Node { elem, next }));
    }

    /// Removes and returns the first element, or `None` when the list is empty.
    pub fn pop(&mut self) -> (r: Option<i32>)
        ensures
            old(self)@.len() == 0 ==> r is None && final(self)@ == old(self)@,
            old(self)@.len() > 0 ==> r == Some(old(self)@[0]) && final(self)@ == old(self)@.skip(1),
    {
        let mut head = Link::Null;
        std::mem::swap(&mut self.head, &mut head);
        match head {
            Link::Null => None,
            Link::More(node) => {
                let node = *node;
                assert(node.next.values() =~= old(self)@.skip(1));
                self.head = node.next;
                Some(node.elem)
            },
        }
    }

    /// Inserts `elem` before the `i`-th element (1-based, `i == 1` is the head).
    /// A position of zero or past `length + 1` returns `false` and leaves the list as it was.
    pub fn insert(&mut self, i: usize, elem: i32) -> (ok: bool)
        ensures
            ok == (1 <= i <= old(self)@.len() + 1),
            ok ==> final(self)@ == old(self)@.insert(i - 1, elem),
            !ok ==> final(self)@ == old(self)@,
    {
        if i < 1 {
            return false;
        }
        let ghost orig = self@;
        let mut current = &mut self.head;
        let mut position: usize = 0;
        while position < i - 1
            invariant
                orig == old(self)@,
                position <= i - 1,
                position <= orig.len(),
                current.values() == orig.skip(position as int),
                after_borrow(self.head).values() == orig.take(position as int) + final(current).values(),
            decreases i - 1 - position,
        {
            let ghost here = *current;
            match current {
                Link::More(node) => {
                    let ghost e = node.elem;
                    proof {
                        lemma_step(here, orig, position as int);
                    }
                    current = &mut node.next;
                    assert(orig.take(position as int) + seq![e].add(final(current).values())
                        =~= orig.take(position + 1) + final(current).values());
                    position += 1;
                },
                Link::Null => {
                    assert(orig.take(position as int) =~= orig);
                    return false;
                },
            }
        }
        let mut next = Link::Null;
        std::mem::swap(current, &mut next);
        *current = Link::More(Box::new(Node { elem, next }));
        assert(orig.take(position as int) + seq![elem].add(orig.skip(position as int))
            =~= orig.insert(position as int, elem));
        true
    }

    /// Removes the `i`-th element (1-based). A position of zero or past the length
    /// returns `false` and leaves the list as it was.
    pub fn delete(&mut self, i: usize) -> (ok: bool)
        ensures
            ok == (1 <= i <= old(self)@.len()),
            ok ==> final(self)@ == old(self)@.remove(i - 1),
            !ok ==> final(self)@ == old(self)@,
    {
        if i < 1 {
            return false;
        }
        if i == 1 {
            let mut head = Link::Null;
            std::mem::swap(&mut self.head, &mut head);
            return match head {
                Link::More(node) => {
                    let node = *node;
                    assert(node.next.values() =~= old(self)@.remove(0));
                    self.head = node.next;
                    true
                },
                Link::Null => false,
            };
        }
        let ghost orig = self@;
        let mut current = &mut self.head;
        let mut step: usize = 0;
        while step < i - 2
            invariant
                orig == old(self)@,
                i >= 2,
                step <= i - 2,
                step <= orig.len(),
                current.values() == orig.skip(step as int),
                after_borrow(self.head).values() == orig.take(step as int) + final(current).values(),
            decreases i - 2 - step,
        {
            let ghost here = *current;
            match current {
                Link::More(node) => {
                    let ghost e = node.elem;
                    proof {
                        lemma_step(here, orig, step as int);
                    }
                    current = &mut node.next;
                    assert(orig.take(step as int) + seq![e].add(final(current).values())
                        =~= orig.take(step + 1) + final(current).values());
                    step += 1;
                },
                Link::Null => {
                    assert(orig.take(step as int) =~= orig);
                    return false;
                },
            }
        }
        let ghost here = *current;
        match current {
            Link::More(prev_node) => {
                let ghost e = prev_node.elem;
                proof {
                    lemma_step(here, orig, step as int);
                }
                let mut target = Link::Null;
                std::mem::swap(&mut prev_node.next, &mut target);
                match target {
                    Link::More(node) => {
                        let node = *node;
                        proof {
                            lemma_step(Link::More(Box::new(node)), orig, step + 1);
                        }
                        assert(orig.take(step as int) + seq![e].add(node.next.values())
                            =~= orig.remove(step + 1));
                        prev_node.next = node.next;
                        true
                    },
                    Link::Null => {
                        assert(orig.take(step as int) + seq![e] =~= orig);
                        false
                    },
                }
            },
            Link::Null => {
                assert(orig.take(step as int) =~= orig);
                false
            },
        }
    }
}

impl Drop for List {
    /// Takes the nodes off one at a time from the front, so that a long chain is not
    /// dropped by nested calls.
    fn drop(&mut self)
        opens_invariants none
        no_unwind
    {
        let mut cur = Link::Null;
        std::mem::swap(&mut self.head, &mut cur);
        loop
            decreases cur.values().len(),
        {
            match cur {
                Link::Null => break,
                Link::More(node) => {
                    let node = *node;
                    assert(cur.values().len() == 1 + node.next.values().len());
                    cur = node.next;
                },
            }
        }
    }
}

/// One step along a chain: a node at offset `k` holds `s[k]` and owns the values from `k + 1`.
proof fn lemma_step(here: Link, s: Seq<i32>, k: int)
    requires
        0 <= k <= s.len(),
        here.values() == s.skip(k),
        here is More,
    ensures
        k < s.len() && here->More_0.elem == s[k],
        here->More_0.next.values() == s.skip(k + 1),
{
    let node = here->More_0;
    assert(here.values() == seq![node.elem].add(node.next.values()));
    assert(here.values()[0] == node.elem);
    assert(node.next.values() =~= here.values().skip(1));
    assert(node.next.values() =~= s.skip(k + 1));
}

/// Inserting at a valid position `i` and then deleting at `i` gives back the list as it was:
/// the deletion succeeds, and the sequence after it is the one before the insertion.
pub proof fn lemma_insert_then_delete(before: Seq<i32>, i: int, v: i32)
    requires
        1 <= i <= before.len() + 1,
    ensures
        1 <= i <= before.insert(i - 1, v).len(),
        before.insert(i - 1, v).remove(i - 1) == before,
{
    assert(before.insert(i - 1, v).remove(i - 1) =~= before);
}

} // verus!

use vstd::prelude::*;

use crate::linear::arena::Arena;

verus! {

/// A node of a sentinel-headed chain; the sentinel holds no value.
pub struct ListNode<T> {
    /// The value held by the node, `None` for the sentinel.
    pub data: Option<T>,
    /// The owned successor.
    pub next: Option<Box<ListNode<T>>>,
}

impl<T> ListNode<T> {
    /// The data of this node followed by the data of every node it owns, in order.
    /// Index `k` of it is the node reached after `k` hops.
    pub open spec fn chain(&self) -> Seq<Option<T>>
        decreases self,
    {
        match &self.next {
            None => seq![self.data],
            Some(n) => seq![self.data].add(n.chain()),
        }
    }

    /// Creates a sentinel node, holding no value and owning nothing.
    pub fn new() -> (r: Self)
        ensures
            r.data is None,
            r.next is None,
            r.chain() == seq![None::<T>],
    {
        ListNode { data: None, next: None }
    }

    /// The node reached after `index` hops (`get(0)` is this node), or `None` past the end.
    pub fn get(&self, index: usize) -> (r: Option<&Self>)
        ensures
            r is Some <==> index < self.chain().len(),
            r is Some ==> r->Some_0.chain() == self.chain().skip(index as int),
    {
        let mut current = self;
        let mut i: usize = 0;
        while i < index
            invariant
                i <= index,
                i < self.chain().len(),
                current.chain() == self.chain().skip(i as int),
            decreases index - i,
        {
            match &current.next {
                Some(n) => {
                    proof {
                        lemma_hop(*current, self.chain(), i as int);
                    }
                    current = &**n;
                },
                None => {
                    proof {
                        lemma_last(*current, self.chain(), i as int);
                    }
                    return None;
                },
            }
            i += 1;
        }
        Some(current)
    }

    /// Mutable access to the node reached after `index` hops (`get_mut(0)` is this node),
    /// or `None` past the end.
    pub fn get_mut(&mut self, index: usize) -> (r: Option<&mut Self>)
        ensures
            r is Some <==> index < old(self).chain().len(),
            r is Some ==> r.unwrap().chain() == old(self).chain().skip(index as int)
                && final(self).chain() == old(self).chain().take(index as int) + final(r.unwrap()).chain(),
            r is None ==> final(self).chain() == old(self).chain(),
    {
        let ghost orig = self.chain();
        let mut current = &mut *self;
        if index == 0 {
            assert(orig.skip(0) =~= orig);
            assert(orig.take(0) + final(current).chain() =~= final(current).chain());
            return Some(current);
        }
        let mut count: usize = 0;
        while count < index - 1
            invariant
                orig == old(self).chain(),
                count <= index - 1,
                count < orig.len(),
                current.chain() == orig.skip(count as int),
                after_borrow(*self).chain() == orig.take(count as int) + final(current).chain(),
            decreases index - 1 - count,
        {
            if current.next.is_none() {
                proof {
                    lemma_last(*current, orig, count as int);
                }
                assert(orig.take(count as int) + current.chain() =~= orig);
                return None;
            }
            proof {
                lemma_hop(*current, orig, count as int);
            }
            let ghost d = current.data;
            current = current.next.as_mut().unwrap();
            assert(orig.take(count as int) + seq![d].add(final(current).chain())
                =~= orig.take(count + 1) + final(current).chain());
            count += 1;
        }
        if current.next.is_none() {
            proof {
                lemma_last(*current, orig, count as int);
            }
            assert(orig.take(count as int) + current.chain() =~= orig);
            return None;
        }
        proof {
            lemma_hop(*current, orig, count as int);
        }
        let ghost d = current.data;
        let next = current.next.as_mut().unwrap();
        assert(orig.take(count as int) + seq![d].add(final(next).chain())
            =~= orig.take(count + 1) + final(next).chain());
        Some(&mut **next)
    }

    /// Removes the last node; does nothing when only this node is left.
    pub fn pop_tail(&mut self)
        ensures
            old(self).chain().len() == 1 ==> final(self).chain() == old(self).chain(),
            old(self).chain().len() > 1 ==> final(self).chain() == old(self).chain().drop_last(),
    {
        proof {
            lemma_chain_len(*self);
        }
        let ghost orig = self.chain();
        assert(orig.skip(0) =~= orig);
        if self.next.is_none() {
            proof {
                lemma_last(*self, orig, 0);
            }
            return;
        }
        proof {
            lemma_hop(*self, orig, 0);
        }
        let mut current = &mut *self;
        let ghost mut k: int = 0;
        while current.next.as_ref().unwrap().next.is_some()
            invariant
                orig == old(self).chain(),
                0 <= k,
                k + 1 < orig.len(),
                current.next is Some,
                current.chain() == orig.skip(k),
                after_borrow(*self).chain() == orig.take(k) + final(current).chain(),
            decreases orig.len() - k,
        {
            proof {
                lemma_hop(*current, orig, k);
            }
            let ghost d = current.data;
            current = current.next.as_mut().unwrap();
            assert(orig.take(k) + seq![d].add(final(current).chain())
                =~= orig.take(k + 1) + final(current).chain());
            proof {
                k = k + 1;
                lemma_chain_len(*current.next.unwrap());
            }
        }
        proof {
            lemma_hop(*current, orig, k);
            lemma_last(*current.next.unwrap(), orig, k + 1);
        }
        let ghost d = current.data;
        current.next = None;
        assert(current.chain() == seq![d]);
        assert(orig.take(k) + seq![d] =~= orig.drop_last());
    }

    /// Appends `data` after the last node.
    pub fn push(&mut self, data: T)
        ensures
            final(self).chain() == old(self).chain().push(Some(data)),
    {
        let ghost orig = self.chain();
        let mut tail = &mut *self;
        let ghost mut k: int = 0;
        while tail.next.is_some()
            invariant
                orig == old(self).chain(),
                0 <= k < orig.len(),
                tail.chain() == orig.skip(k),
                after_borrow(*self).chain() == orig.take(k) + final(tail).chain(),
            decreases orig.len() - k,
        {
            proof {
                lemma_hop(*tail, orig, k);
            }
            let ghost d = tail.data;
            tail = tail.next.as_mut().unwrap();
            assert(orig.take(k) + seq![d].add(final(tail).chain())
                =~= orig.take(k + 1) + final(tail).chain());
            proof {
                k = k + 1;
            }
        }
        let ghost d = tail.data;
        proof {
            lemma_last(*tail, orig, k);
        }
        let node = ListNode { data: Some(data), next: None };
        assert(node.chain() == seq![Some(data)]);
        tail.next = Some(Box::new(node));
        assert(tail.chain() == seq![d].add(seq![Some(data)]));
        assert(orig.take(k) + seq![d].add(seq![Some(data)]) =~= orig.push(Some(data)));
    }

    /// Puts a new node holding `data` at offset `index` (just after the node at `index - 1`).
    pub fn insert(&mut self, index: usize, data: T)
        requires
            1 <= index <= old(self).chain().len(),
        ensures
            final(self).chain() == old(self).chain().insert(index as int, Some(data)),
    {
        let ghost orig = self.chain();
        let current = self.get_mut(index - 1).unwrap();
        let ghost d = current.data;
        let ghost rest = current.chain().skip(1);
        proof {
            lemma_unfold(*current);
            lemma_chain_len(*current);
            assert(d == orig[index - 1]);
            assert(rest =~= orig.skip(index as int));
        }
        let new_node = Box::new(ListNode { data: Some(data), next: current.next.take() });
        assert(new_node.chain() == seq![Some(data)].add(rest));
        current.next = Some(new_node);
        assert(current.chain() == seq![d].add(seq![Some(data)].add(rest)));
        assert(orig.take(index - 1) + seq![d].add(seq![Some(data)].add(rest))
            =~= orig.insert(index as int, Some(data)));
    }

    /// Unlinks the node at offset `index`; the sentinel (offset zero) cannot be removed.
    pub fn remove(&mut self, index: usize)
        requires
            1 <= index < old(self).chain().len(),
        ensures
            final(self).chain() == old(self).chain().remove(index as int),
    {
        let ghost orig = self.chain();
        let current = self.get_mut(index - 1).unwrap();
        let ghost d = current.data;
        proof {
            lemma_unfold(*current);
            assert(current.chain().len() >= 2);
            lemma_hop(*current, orig, index - 1);
        }
        let removed_node = current.next.take().unwrap();
        proof {
            lemma_unfold(*removed_node);
        }
        let ghost rest = removed_node.chain().skip(1);
        current.next = removed_node.next;
        proof {
            lemma_unfold(*current);
        }
        assert(current.chain() == seq![d].add(rest));
        assert(orig.take(index - 1) + seq![d].add(rest) =~= orig.remove(index as int));
    }

    /// The number of nodes after this one.
    pub fn length(&mut self) -> (count: usize)
        requires
            old(self).chain().len() - 1 <= usize::MAX,
        ensures
            count == old(self).chain().len() - 1,
            final(self).chain() == old(self).chain(),
    {
        let mut count: usize = 0;
        let mut current = &*self;
        proof {
            lemma_chain_len(*self);
        }
        while current.next.is_some()
            invariant
                count < self.chain().len(),
                self.chain().len() - 1 <= usize::MAX,
                current.chain() == self.chain().skip(count as int),
            decreases self.chain().len() - count,
        {
            proof {
                lemma_hop(*current, self.chain(), count as int);
            }
            count += 1;
            current = &**current.next.as_ref().unwrap();
        }
        proof {
            lemma_last(*current, self.chain(), count as int);
        }
        count
    }
}

/// Every node starts its own chain, so a chain is never empty.
proof fn lemma_chain_len<T>(node: ListNode<T>)
    ensures
        node.chain().len() >= 1,
        node.chain()[0] == node.data,
{
    match &node.next {
        None => {},
        Some(n) => {},
    }
}

/// A node handed back by [`delete`]: the value it carries, linked to nothing.
pub struct LNode {
    pub data: i32,
    pub next: Option<usize>,
}

/// The handle of a head-first chain: it owns the head node, which may be replaced as a whole.
/// Nodes live in an arena and link to each other by index; a fresh handle has no head yet.
pub struct LinkList {
    nodes: Arena,
}

impl View for LinkList {
    type V = Seq<i32>;

    /// The value of the head followed by the values of the nodes after it.
    closed spec fn view(&self) -> Seq<i32> {
        self.nodes@
    }
}

impl LinkList {
    /// The links are consistent and every arena slot is accounted for.
    pub closed spec fn wf(&self) -> bool {
        self.nodes.wf()
    }

    /// How many node slots the handle has ever taken.
    pub closed spec fn taken(&self) -> nat {
        self.nodes.allocated()
    }

    /// How many node slots have been given back and wait for reuse.
    pub closed spec fn released(&self) -> nat {
        self.nodes.released()
    }

    /// A handle that refers to no head yet.
    pub fn new() -> (r: Self)
        ensures
            r.wf(),
            r@ == Seq::<i32>::empty(),
            r.taken() == 0,
    {
        LinkList { nodes: Arena::new() }
    }

    /// The value at offset `k` (the head is offset zero), or `None` past the end.
    pub fn get(&self, k: usize) -> (r: Option<i32>)
        requires
            self.wf(),
        ensures
            r is Some <==> k < self@.len(),
            r is Some ==> r == Some(self@[k as int]),
    {
        self.nodes.get(k)
    }

    /// Every slot is either in the chain or free, exactly once.
    pub proof fn lemma_slots(&self)
        requires
            self.wf(),
        ensures
            self@.len() + self.released() == self.taken(),
    {
        self.nodes.lemma_counts();
    }
}

/// Gives the handle a fresh head holding `0`, releasing whatever chain it held before.
pub fn init_list(list: &mut LinkList) -> (ok: bool)
    requires
        old(list).wf(),
    ensures
        ok,
        final(list).wf(),
        final(list)@ == seq![0i32],
{
    let _ = list.nodes.clear();
    let _ = list.nodes.insert_at(0, 0);
    assert(Seq::<i32>::empty().insert(0, 0) =~= seq![0i32]);
    true
}

/// Splices a node holding `e` in after the node at offset `i - 1` (the head is offset zero),
/// walking `i - 1` links. Position zero, a position past the chain and a handle without a head
/// return `false` and change nothing.
pub fn list_insert(list: &mut LinkList, i: usize, e: i32) -> (ok: bool)
    requires
        old(list).wf(),
    ensures
        final(list).wf(),
        ok == (1 <= i <= old(list)@.len()),
        ok ==> final(list)@ == old(list)@.insert(i as int, e),
        !ok ==> final(list)@ == old(list)@,
{
    if i == 0 {
        return false;
    }
    list.nodes.insert_at(i, e)
}

/// Deletes by swap-then-unlink: walks `i` links to the node at offset `i`, swaps its value
/// with that of its successor, and unlinks the successor, which is handed back. The node
/// handed back therefore carries the value that was at offset `i`, and the value that was at
/// offset `i + 1` now sits at offset `i`. Both nodes must exist.
pub fn delete(list: &mut LinkList, i: usize) -> (r: Box<LNode>)
    requires
        old(list).wf(),
        i + 1 < old(list)@.len(),
    ensures
        final(list).wf(),
        r.data == old(list)@[i as int],
        r.next is None,
        final(list)@ == old(list)@.remove(i as int),
{
    let v = list.nodes.swap_unlink(i);
    Box::new(LNode { data: v, next: None })
}

/// Releases every node of the chain, head included, one at a time from the front, and
/// returns how many were released: each node once, with nothing left behind.
pub fn destroy_list(list: &mut LinkList) -> (released: usize)
    requires
        old(list).wf(),
    ensures
        final(list).wf(),
        released == old(list)@.len(),
        final(list)@ == Seq::<i32>::empty(),
        final(list).taken() == old(list).taken(),
        final(list).released() == final(list).taken(),
{
    list.nodes.clear()
}

/// A chain is the node's own data followed by the chain of its successor, if any.
proof fn lemma_unfold<T>(node: ListNode<T>)
    ensures
        node.next is None ==> node.chain() == seq![node.data],
        node.next is Some ==> node.chain() == seq![node.data].add(node.next->Some_0.chain()),
        node.chain().skip(1) == (match node.next {
            None => Seq::<Option<T>>::empty(),
            Some(n) => n.chain(),
        }),
{
    lemma_chain_len(node);
    match &node.next {
        None => {
            assert(node.chain().skip(1) =~= Seq::<Option<T>>::empty());
        },
        Some(n) => {
            assert(node.chain().skip(1) =~= n.chain());
        },
    }
}

/// One hop along a chain: the successor of the node at offset `k` starts the chain from `k + 1`.
proof fn lemma_hop<T>(here: ListNode<T>, s: Seq<Option<T>>, k: int)
    requires
        0 <= k,
        k < s.len(),
        here.chain() == s.skip(k),
        here.next is Some,
    ensures
        k + 1 < s.len(),
        here.data == s[k],
        here.next->Some_0.chain() == s.skip(k + 1),
{
    let n = here.next->Some_0;
    lemma_chain_len(*n);
    assert(here.chain() == seq![here.data].add(n.chain()));
    assert(here.chain()[0] == here.data);
    assert(n.chain() =~= here.chain().skip(1));
    assert(n.chain() =~= s.skip(k + 1));
}

/// A node without successor is the last one of the chain.
proof fn lemma_last<T>(here: ListNode<T>, s: Seq<Option<T>>, k: int)
    requires
        0 <= k,
        k < s.len(),
        here.chain() == s.skip(k),
        here.next is None,
    ensures
        k + 1 == s.len(),
        here.data == s[k],
{
    assert(here.chain() == seq![here.data]);
    assert(here.chain()[0] == here.data);
}

/// Sentinel list: inserting a node at a valid offset `index` (`1..=length + 1`) and then removing
/// the node at `index` gives back the chain as it was; the removal's requirement is met.
pub proof fn lemma_insert_then_remove<T>(before: Seq<Option<T>>, index: int, data: T)
    requires
        1 <= index <= before.len(),
    ensures
        1 <= index < before.insert(index, Some(data)).len(),
        before.insert(index, Some(data)).remove(index) == before,
{
    assert(before.insert(index, Some(data)).remove(index) =~= before);
}

/// Head-first chain: inserting at position `i` and then deleting at `i` gives back the chain as
/// it was, for every position that has a node after it once the insertion is done
/// (`1..=length`, where `length` counts the nodes after the head). The deletion's requirement
/// is met, and the node it hands back carries `v`.
pub proof fn lemma_list_insert_then_delete(before: Seq<i32>, i: int, v: i32)
    requires
        1 <= i < before.len(),
    ensures
        i + 1 < before.insert(i, v).len(),
        before.insert(i, v)[i] == v,
        before.insert(i, v).remove(i) == before,
{
    assert(before.insert(i, v).remove(i) =~= before);
}

} // verus!

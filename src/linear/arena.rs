use vstd::prelude::*;

verus! {

/// One slot of an arena: a value and the index of the slot that follows it in the chain.
#[derive(Clone, Copy, Debug)]
pub struct Slot {
    pub data: i32,
    pub next: Option<usize>,
}

/// The link that follows offset `k` of a chain whose slots are `order`
/// (offset `-1` stands for the entry link).
pub open spec fn link_after(order: Seq<usize>, k: int) -> Option<usize> {
    if k + 1 < order.len() {
        Some(order[k + 1])
    } else {
        None
    }
}

/// `order` lists, without repetition, the slots met by following the links from `first`.
pub open spec fn linked(slots: Seq<Slot>, order: Seq<usize>, first: Option<usize>) -> bool {
    &&& order.no_duplicates()
    &&& forall|k: int| 0 <= k < order.len() ==> #[trigger] order[k] < slots.len()
    &&& forall|k: int|
        0 <= k < order.len() ==> slots[#[trigger] order[k] as int].next == link_after(order, k)
    &&& first == link_after(order, -1)
}

/// Every slot is either in the chain or in the free list, and in exactly one place.
pub open spec fn accounted(n: nat, order: Seq<usize>, free: Seq<usize>) -> bool {
    &&& free.no_duplicates()
    &&& forall|j: int| 0 <= j < free.len() ==> #[trigger] free[j] < n
    &&& order.disjoint(free)
    &&& order.len() + free.len() == n
}

/// The values along a chain.
pub open spec fn values_of(slots: Seq<Slot>, order: Seq<usize>) -> Seq<i32> {
    order.map_values(|i: usize| slots[i as int].data)
}

/// A singly linked chain whose nodes live in a growable vector and refer to each other
/// by index. Slots that leave the chain go to a free list, from which later insertions
/// take them again.
pub struct Arena {
    slots: Vec<Slot>,
    free: Vec<usize>,
    first: Option<usize>,
    order: Ghost<Seq<usize>>,
}

impl View for Arena {
    type V = Seq<i32>;

    closed spec fn view(&self) -> Seq<i32> {
        values_of(self.slots@, self.order@)
    }
}

impl Arena {
    /// The links are consistent and every slot is accounted for.
    pub closed spec fn wf(&self) -> bool {
        &&& linked(self.slots@, self.order@, self.first)
        &&& accounted(self.slots@.len(), self.order@, self.free@)
    }

    /// How many slots were ever taken from the allocator.
    pub closed spec fn allocated(&self) -> nat {
        self.slots@.len()
    }

    /// How many slots sit in the free list.
    pub closed spec fn released(&self) -> nat {
        self.free@.len()
    }

    pub proof fn lemma_counts(&self)
        requires
            self.wf(),
        ensures
            self@.len() + self.released() == self.allocated(),
    {
    }

    pub fn new() -> (r: Self)
        ensures
            r.wf(),
            r@ == Seq::<i32>::empty(),
            r.allocated() == 0,
    {
        let r = Arena { slots: Vec::new(), free: Vec::new(), first: None, order: Ghost(Seq::empty()) };
        assert(r@ =~= Seq::<i32>::empty());
        r
    }

    /// The slot at offset `k`, found by following the links; `None` when the chain is shorter.
    fn find(&self, k: usize) -> (r: Option<usize>)
        requires
            self.wf(),
        ensures
            k < self@.len() ==> r == Some(self.order@[k as int]),
            k >= self@.len() ==> r is None,
    {
        let mut cur = match self.first {
            None => return None,
            Some(c) => c,
        };
        let mut j: usize = 0;
        while j < k
            invariant
                self.wf(),
                j <= k,
                j < self.order@.len(),
                cur == self.order@[j as int],
            decreases k - j,
        {
            match self.slots[cur].next {
                None => return None,
                Some(n) => {
                    cur = n;
                },
            }
            j += 1;
        }
        Some(cur)
    }

    /// A slot holding `slot`: one from the free list when there is one, else a new one.
    fn take_slot(&mut self, slot: Slot) -> (idx: usize)
        requires
            old(self).wf(),
        ensures
            idx < final(self).slots@.len(),
            final(self).slots@[idx as int] == slot,
            final(self).slots@.len() >= old(self).slots@.len(),
            forall|j: int|
                0 <= j < old(self).slots@.len() && j != idx ==> final(self).slots@[j] == old(self).slots@[j],
            !old(self).order@.contains(idx),
            final(self).order == old(self).order,
            final(self).first == old(self).first,
            accounted(final(self).slots@.len(), old(self).order@.push(idx), final(self).free@),
    {
        let ghost order = self.order@;
        match self.free.pop() {
            Some(idx) => {
                let ghost f0 = old(self).free@;
                assert(f0[f0.len() - 1] == idx);
                self.slots[idx] = slot;
                assert forall|a: int, b: int| 0 <= a < order.len() + 1 && 0 <= b < self.free@.len()
                    implies order.push(idx)[a] != self.free@[b] by {
                    assert(self.free@[b] == f0[b]);
                }
                assert(order.push(idx).disjoint(self.free@));
                idx
            },
            None => {
                let idx = self.slots.len();
                self.slots.push(slot);
                assert(order.push(idx).disjoint(self.free@));
                idx
            },
        }
    }

    /// Puts `v` at offset `k`, walking `k - 1` links to the slot before it.
    /// Fails, changing nothing, when the chain is shorter than `k`.
    pub fn insert_at(&mut self, k: usize, v: i32) -> (ok: bool)
        requires
            old(self).wf(),
        ensures
            final(self).wf(),
            ok == (k <= old(self)@.len()),
            ok ==> final(self)@ == old(self)@.insert(k as int, v),
            !ok ==> final(self)@ == old(self)@,
    {
        let ghost s0 = self.slots@;
        let ghost order = self.order@;
        if k == 0 {
            let idx = self.take_slot(Slot { data: v, next: self.first });
            self.first = Some(idx);
            proof {
                lemma_splice_in(s0, self.slots@, order, old(self).first, 0, idx, v);
                lemma_accounted_insert(self.slots@.len(), order, self.free@, 0, idx);
            }
            self.order = Ghost(order.insert(0, idx));
            return true;
        }
        let prev = match self.find(k - 1) {
            None => return false,
            Some(p) => p,
        };
        let next = self.slots[prev].next;
        let idx = self.take_slot(Slot { data: v, next });
        self.slots[prev].next = Some(idx);
        proof {
            lemma_splice_in(s0, self.slots@, order, self.first, k as int, idx, v);
            lemma_accounted_insert(self.slots@.len(), order, self.free@, k as int, idx);
        }
        self.order = Ghost(order.insert(k as int, idx));
        true
    }

    /// Unlinks the slot at offset `k`, walking `k - 1` links to the slot before it, and
    /// returns its value; the slot goes to the free list.
    /// Fails, changing nothing, when the chain is not longer than `k`.
    pub fn remove_at(&mut self, k: usize) -> (r: Option<i32>)
        requires
            old(self).wf(),
        ensures
            final(self).wf(),
            final(self).allocated() == old(self).allocated(),
            k < old(self)@.len() ==> r == Some(old(self)@[k as int]) && final(self)@ == old(self)@.remove(k as int),
            k >= old(self)@.len() ==> r is None && final(self)@ == old(self)@,
    {
        let ghost s0 = self.slots@;
        let ghost order = self.order@;
        if k == 0 {
            let idx = match self.first {
                None => return None,
                Some(i) => i,
            };
            let slot = self.slots[idx];
            self.first = slot.next;
            self.free.push(idx);
            proof {
                lemma_splice_out(s0, self.slots@, order, old(self).first, 0);
                lemma_accounted_remove(self.slots@.len(), order, old(self).free@, 0);
            }
            self.order = Ghost(order.remove(0));
            return Some(slot.data);
        }
        let prev = match self.find(k - 1) {
            None => return None,
            Some(p) => p,
        };
        let target = match self.slots[prev].next {
            None => return None,
            Some(t) => t,
        };
        let slot = self.slots[target];
        self.slots[prev].next = slot.next;
        self.free.push(target);
        proof {
            lemma_splice_out(s0, self.slots@, order, self.first, k as int);
            lemma_accounted_remove(self.slots@.len(), order, old(self).free@, k as int);
            assert(values_of(s0, order).remove(k as int).update(k - 1, s0[order[k - 1] as int].data)
                =~= values_of(s0, order).remove(k as int));
        }
        self.order = Ghost(order.remove(k as int));
        Some(slot.data)
    }

    /// Removes offset `k` without touching the link before it: the value of offset `k + 1`
    /// moves into the slot at offset `k`, and the slot at offset `k + 1` is unlinked and freed.
    /// Returns the value that was at offset `k`.
    pub fn swap_unlink(&mut self, k: usize) -> (r: i32)
        requires
            old(self).wf(),
            k + 1 < old(self)@.len(),
        ensures
            final(self).wf(),
            final(self).allocated() == old(self).allocated(),
            r == old(self)@[k as int],
            final(self)@ == old(self)@.remove(k as int),
    {
        let ghost s0 = self.slots@;
        let ghost order = self.order@;
        let cur = self.find(k).unwrap();
        let succ = self.slots[cur].next.unwrap();
        let kept = self.slots[cur].data;
        let moved = self.slots[succ];
        self.slots[cur] = Slot { data: moved.data, next: moved.next };
        self.slots[succ].data = kept;
        self.free.push(succ);
        proof {
            lemma_splice_out(s0, self.slots@, order, self.first, k + 1);
            lemma_accounted_remove(self.slots@.len(), order, old(self).free@, k + 1);
            assert(values_of(s0, order).remove(k + 1).update(k as int, moved.data)
                =~= values_of(s0, order).remove(k as int));
        }
        self.order = Ghost(order.remove(k + 1));
        kept
    }

    /// Releases every slot of the chain, one at a time from the front, and returns how many
    /// were released. Afterwards every slot ever taken sits in the free list exactly once.
    pub fn clear(&mut self) -> (released: usize)
        requires
            old(self).wf(),
        ensures
            final(self).wf(),
            released == old(self)@.len(),
            final(self)@ == Seq::<i32>::empty(),
            final(self).allocated() == old(self).allocated(),
            final(self).released() == final(self).allocated(),
    {
        let total = self.slots.len();
        let mut count: usize = 0;
        while !self.is_empty()
            invariant
                self.wf(),
                count + self@.len() == old(self)@.len(),
                self.allocated() == old(self).allocated(),
                old(self)@.len() <= total,
            decreases self@.len(),
        {
            let _ = self.remove_at(0);
            count += 1;
        }
        assert(self@ =~= Seq::<i32>::empty());
        count
    }

    /// Mutable access to the value at offset `k`, or `None` past the end.
    pub fn get_mut(&mut self, k: usize) -> (r: Option<&mut i32>)
        requires
            old(self).wf(),
        ensures
            final(self).wf(),
            k < old(self)@.len() ==> r is Some && *r.unwrap() == old(self)@[k as int] && final(self)@ == old(self)@.update(k as int, *final(r.unwrap())),
            k >= old(self)@.len() ==> r is None && final(self)@ == old(self)@,
    {
        match self.find(k) {
            None => None,
            Some(s) => Some(&mut self.slots[s].data),
        }
    }

    /// Whether the chain holds no slot.
    pub fn is_empty(&self) -> (r: bool)
        requires
            self.wf(),
        ensures
            r == (self@.len() == 0),
    {
        self.first.is_none()
    }

    /// A reference to the value at offset `k`, or `None` past the end.
    pub fn get_ref(&self, k: usize) -> (r: Option<&i32>)
        requires
            self.wf(),
        ensures
            k < self@.len() ==> r is Some && *r.unwrap() == self@[k as int],
            k >= self@.len() ==> r is None,
    {
        match self.find(k) {
            None => None,
            Some(s) => Some(&self.slots[s].data),
        }
    }

    /// The value at offset `k`, or `None` past the end.
    pub fn get(&self, k: usize) -> (r: Option<i32>)
        requires
            self.wf(),
        ensures
            k < self@.len() ==> r == Some(self@[k as int]),
            k >= self@.len() ==> r is None,
    {
        match self.find(k) {
            None => None,
            Some(s) => Some(self.slots[s].data),
        }
    }
}

/// Position `m` of `order.insert(k, x)`.
proof fn lemma_insert_at<A>(order: Seq<A>, k: int, x: A, m: int)
    requires
        0 <= k <= order.len(),
        0 <= m <= order.len(),
    ensures
        order.insert(k, x).len() == order.len() + 1,
        order.insert(k, x)[m] == if m < k {
            order[m]
        } else if m == k {
            x
        } else {
            order[m - 1]
        },
{
    order.insert_ensures(k, x);
    if m > k {
        assert(order.insert(k, x)[(m - 1) + 1] == order[m - 1]);
    }
}

/// Position `m` of `order.remove(k)`.
proof fn lemma_remove_at<A>(order: Seq<A>, k: int, m: int)
    requires
        0 <= k < order.len(),
        0 <= m < order.len() - 1,
    ensures
        order.remove(k).len() == order.len() - 1,
        order.remove(k)[m] == if m < k {
            order[m]
        } else {
            order[m + 1]
        },
{
    order.remove_ensures(k);
}

/// The bookkeeping does not depend on where in the chain a new slot goes.
proof fn lemma_accounted_insert(n: nat, order: Seq<usize>, free: Seq<usize>, k: int, idx: usize)
    requires
        accounted(n, order.push(idx), free),
        0 <= k <= order.len(),
    ensures
        accounted(n, order.insert(k, idx), free),
{
    let o2 = order.insert(k, idx);
    assert forall|a: int, b: int| 0 <= a < o2.len() && 0 <= b < free.len() implies o2[a] != free[b] by {
        lemma_insert_at(order, k, idx, a);
        if a < k {
            assert(order.push(idx)[a] == o2[a]);
        } else if a == k {
            assert(order.push(idx)[order.len() as int] == idx);
        } else {
            assert(order.push(idx)[a - 1] == o2[a]);
        }
    }
}

/// A slot that leaves the chain joins the free list.
proof fn lemma_accounted_remove(n: nat, order: Seq<usize>, free: Seq<usize>, k: int)
    requires
        accounted(n, order, free),
        order.no_duplicates(),
        forall|m: int| 0 <= m < order.len() ==> #[trigger] order[m] < n,
        0 <= k < order.len(),
    ensures
        accounted(n, order.remove(k), free.push(order[k])),
{
    let o2 = order.remove(k);
    let f2 = free.push(order[k]);
    assert forall|a: int| 0 <= a < o2.len() implies o2[a] == if a < k {
        order[a]
    } else {
        order[a + 1]
    } by {
        lemma_remove_at(order, k, a);
    }
    assert forall|a: int, b: int| 0 <= a < f2.len() && 0 <= b < f2.len() && a != b implies f2[a]
        != f2[b] by {
        if a == free.len() {
            assert(order[k] != free[b]);
        } else if b == free.len() {
            assert(order[k] != free[a]);
        }
    }
    assert forall|a: int, b: int| 0 <= a < o2.len() && 0 <= b < f2.len() implies o2[a] != f2[b] by {
        if b == free.len() {
        } else {
            if a < k {
                assert(order[a] != free[b]);
            } else {
                assert(order[a + 1] != free[b]);
            }
        }
    }
}

/// Unlinking the slot at offset `k`: the link before it now skips it.
proof fn lemma_splice_out(s0: Seq<Slot>, s: Seq<Slot>, order: Seq<usize>, first: Option<usize>, k: int)
    requires
        linked(s0, order, first),
        0 <= k < order.len(),
        s.len() == s0.len(),
        forall|m: int|
            0 <= m < order.len() && m != k - 1 && m != k ==> s[#[trigger] order[m] as int] == s0[order[m] as int],
        k > 0 ==> s[order[k - 1] as int].next == link_after(order, k),
    ensures
        linked(s, order.remove(k), if k == 0 { link_after(order, 0) } else { first }),
        k == 0 ==> values_of(s, order.remove(k)) == values_of(s0, order).remove(k),
        k > 0 ==> values_of(s, order.remove(k)) == values_of(s0, order).remove(k).update(
            k - 1,
            s[order[k - 1] as int].data,
        ),
{
    let o2 = order.remove(k);
    assert forall|m: int| 0 <= m < o2.len() implies o2[m] == if m < k {
        order[m]
    } else {
        order[m + 1]
    } by {
        lemma_remove_at(order, k, m);
    }
    assert forall|a: int, b: int| 0 <= a < o2.len() && 0 <= b < o2.len() && a != b implies o2[a] != o2[b] by {
        let a1 = if a < k { a } else { a + 1 };
        let b1 = if b < k { b } else { b + 1 };
        assert(o2[a] == order[a1] && o2[b] == order[b1]);
    }
    assert forall|m: int| 0 <= m < o2.len() implies s[#[trigger] o2[m] as int].next == link_after(o2, m) by {
        if m < k - 1 {
            assert(s[order[m] as int] == s0[order[m] as int]);
        } else if m == k - 1 {
        } else {
            assert(s[order[m + 1] as int] == s0[order[m + 1] as int]);
        }
    }
    if k == 0 {
        assert(values_of(s, o2) =~= values_of(s0, order).remove(k)) by {
            assert forall|m: int| 0 <= m < o2.len() implies values_of(s, o2)[m] == values_of(s0, order).remove(k)[m] by {
                lemma_remove_at(values_of(s0, order), k, m);
                assert(s[order[m + 1] as int] == s0[order[m + 1] as int]);
            }
        }
    } else {
        assert(values_of(s, o2) =~= values_of(s0, order).remove(k).update(k - 1, s[order[k - 1] as int].data)) by {
            assert forall|m: int| 0 <= m < o2.len() implies values_of(s, o2)[m] == values_of(s0, order).remove(k).update(k - 1, s[order[k - 1] as int].data)[m] by {
                lemma_remove_at(values_of(s0, order), k, m);
                if m < k - 1 {
                    assert(s[order[m] as int] == s0[order[m] as int]);
                } else if m > k - 1 {
                    assert(s[order[m + 1] as int] == s0[order[m + 1] as int]);
                }
            }
        }
    }
}

/// Splicing slot `idx` in at offset `k` of a chain.
proof fn lemma_splice_in(
    s0: Seq<Slot>,
    s: Seq<Slot>,
    order: Seq<usize>,
    first: Option<usize>,
    k: int,
    idx: usize,
    v: i32,
)
    requires
        linked(s0, order, first),
        0 <= k <= order.len(),
        !order.contains(idx),
        idx < s.len(),
        s.len() >= s0.len(),
        s[idx as int] == (Slot { data: v, next: link_after(order, k - 1) }),
        forall|m: int|
            0 <= m < order.len() && m != k - 1 ==> s[#[trigger] order[m] as int] == s0[order[m] as int],
        k > 0 ==> s[order[k - 1] as int] == (Slot { data: s0[order[k - 1] as int].data, next: Some(idx) }),
    ensures
        linked(s, order.insert(k, idx), if k == 0 { Some(idx) } else { first }),
        values_of(s, order.insert(k, idx)) == values_of(s0, order).insert(k, v),
{
    let o2 = order.insert(k, idx);
    assert forall|m: int| 0 <= m < o2.len() implies o2[m] == if m < k {
        order[m]
    } else if m == k {
        idx
    } else {
        order[m - 1]
    } by {
        lemma_insert_at(order, k, idx, m);
    }
    assert forall|a: int, b: int| 0 <= a < o2.len() && 0 <= b < o2.len() && a != b implies o2[a] != o2[b] by {
        if a != k && b != k {
        } else if a == k {
            if b < k {
                assert(order[b] == o2[b]);
            } else {
                assert(order[b - 1] == o2[b]);
            }
        } else {
            if a < k {
                assert(order[a] == o2[a]);
            } else {
                assert(order[a - 1] == o2[a]);
            }
        }
    }
    assert forall|m: int| 0 <= m < o2.len() implies s[#[trigger] o2[m] as int].next == link_after(o2, m) by {
        if m < k - 1 {
            assert(s[order[m] as int] == s0[order[m] as int]);
        } else if m == k - 1 {
        } else if m == k {
        } else {
            assert(s[order[m - 1] as int] == s0[order[m - 1] as int]);
        }
    }
    assert(values_of(s, o2) =~= values_of(s0, order).insert(k, v)) by {
        assert forall|m: int| 0 <= m < o2.len() implies values_of(s, o2)[m] == values_of(
            s0,
            order,
        ).insert(k, v)[m] by {
            lemma_insert_at(values_of(s0, order), k, v, m);
            if m < k - 1 || m > k {
                let j = if m < k { m } else { m - 1 };
                assert(s[order[j] as int] == s0[order[j] as int]);
            }
        }
    }
}
} // verus!

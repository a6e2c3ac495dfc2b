use vstd::prelude::*;

verus! {

/// A circular queue over `N` slots. One slot always stays empty, so at most `N - 1` values
/// are held at a time.
pub struct Queue<T, const N: usize> where T: std::fmt::Debug {
    queue: Vec<Option<T>>,
    front: usize,
    rear: usize,
}

/// Offset `i` of a ring of `n` slots, for `0 <= i < 2 * n`.
pub open spec fn ring(i: int, n: int) -> int {
    if i < n {
        i
    } else {
        i - n
    }
}

/// The next slot after `i` in a ring of `n` slots.
fn advance(i: usize, n: usize) -> (r: usize)
    requires
        0 < n,
        i < n,
    ensures
        r == ring(i + 1, n as int),
{
    proof {
        if i + 1 < n {
            vstd::arithmetic::div_mod::lemma_small_mod((i + 1) as nat, n as nat);
        } else {
            vstd::arithmetic::div_mod::lemma_mod_self_0(n as int);
        }
    }
    (i + 1) % n
}

impl<T, const N: usize> Queue<T, N> where T: std::fmt::Debug {
    /// How many values are held.
    pub closed spec fn count(&self) -> int {
        if self.rear >= self.front {
            self.rear - self.front
        } else {
            self.rear + N - self.front
        }
    }

    /// The slots line up with the ring and every held value is present.
    pub closed spec fn wf(&self) -> bool {
        &&& N >= 1
        &&& self.queue@.len() == N
        &&& self.front < N
        &&& self.rear < N
        &&& forall|j: int|
            0 <= j < self.count() ==> (#[trigger] self.queue@[ring(self.front + j, N as int)]) is Some
    }

    /// The values from the front to the rear.
    pub closed spec fn view(&self) -> Seq<T> {
        Seq::new(self.count() as nat, |j: int| self.queue@[ring(self.front + j, N as int)]->Some_0)
    }

    /// An empty queue.
    pub fn new() -> (r: Self)
        requires
            N >= 1,
        ensures
            r.wf(),
            r.view() == Seq::<T>::empty(),
    {
        let mut queue: Vec<Option<T>> = Vec::new();
        let mut i: usize = 0;
        while i < N
            invariant
                i <= N,
                queue@.len() == i,
            decreases N - i,
        {
            queue.push(None);
            i += 1;
        }
        let r = Self { queue, front: 0, rear: 0 };
        assert(r.view() =~= Seq::<T>::empty());
        r
    }

    /// Whether the queue holds nothing.
    pub fn is_empty(&self) -> (r: bool)
        requires
            self.wf(),
        ensures
            r == (self.view().len() == 0),
    {
        self.front == self.rear
    }

    /// Whether no more value fits.
    fn is_full(&self) -> (r: bool)
        requires
            self.wf(),
        ensures
            r == (self.view().len() == N - 1),
    {
        advance(self.rear, N) == self.front
    }

    /// How many values the queue can hold at once.
    pub fn capacity(&self) -> (r: usize)
        requires
            self.wf(),
        ensures
            r == N - 1,
    {
        N - 1
    }

    /// Adds `data` at the rear; an error, changing nothing, when the queue is full.
    pub fn push(&mut self, data: T) -> (r: Result<(), &str>)
        requires
            old(self).wf(),
        ensures
            final(self).wf(),
            r is Ok <==> old(self).view().len() < N - 1,
            r is Ok ==> final(self).view() == old(self).view().push(data),
            r is Err ==> r == Err::<(), &str>("queue is full") && final(self).view() == old(self).view(),
    {
        if self.is_full() {
            return Err("queue is full");
        }
        let ghost before = self.view();
        let rear = self.rear;
        self.queue.set(rear, Some(data));
        self.rear = advance(rear, N);
        assert forall|j: int| 0 <= j < self.count() implies (#[trigger] self.queue@[ring(
            self.front + j,
            N as int,
        )]) is Some by {
            if j < self.count() - 1 {
                assert(ring(self.front + j, N as int) != rear);
            }
        }
        assert forall|j: int| 0 <= j < before.len() implies self.view()[j] == before[j] by {
            assert(ring(self.front + j, N as int) != rear);
        }
        assert(self.view() =~= before.push(data));
        Ok(())
    }

    /// Removes and returns the front value, or `None` when the queue is empty.
    pub fn pop(&mut self) -> (r: Option<T>)
        requires
            old(self).wf(),
        ensures
            final(self).wf(),
            old(self).view().len() == 0 ==> r is None && final(self).view() == old(self).view(),
            old(self).view().len() > 0 ==> r == Some(old(self).view()[0]) && final(self).view()
                == old(self).view().skip(1),
    {
        if self.is_empty() {
            return None;
        }
        let ghost before = self.view();
        let front = self.front;
        assert(self.queue@[ring(self.front + 0, N as int)] is Some);
        let mut data = None;
        std::mem::swap(&mut self.queue[front], &mut data);
        self.front = advance(front, N);
        assert forall|j: int| 0 <= j < self.count() implies (#[trigger] self.queue@[ring(
            self.front + j,
            N as int,
        )]) is Some by {
            assert(ring(self.front + j, N as int) == ring(front + (j + 1), N as int));
            assert(ring(front + (j + 1), N as int) != front);
            assert(old(self).queue@[ring(front + (j + 1), N as int)] is Some);
        }
        assert forall|j: int| 0 <= j < self.count() implies self.view()[j] == before.skip(1)[j] by {
            assert(ring(self.front + j, N as int) == ring(front + (j + 1), N as int));
        }
        assert(self.view() =~= before.skip(1));
        data
    }
}

} // verus!

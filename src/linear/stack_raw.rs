use vstd::prelude::*;

verus! {

/// A node of a linked stack: one value and the node below it.
#[derive(Debug)]
pub struct Node<T> {
    pub data: T,
    next: Option<Box<Node<T>>>,
}

/// A stack kept as a chain of nodes from the top down, with its size counted alongside.
#[derive(Debug)]
pub struct LinkStack<T> {
    top: Option<Box<Node<T>>>,
    size: usize,
}

/// The values from `link` down to the bottom of the stack.
pub closed spec fn values_from<T>(link: Option<Box<Node<T>>>) -> Seq<T>
    decreases link,
{
    match link {
        None => Seq::empty(),
        Some(node) => seq![node.data].add(values_from(node.next)),
    }
}

impl<T> View for LinkStack<T> {
    type V = Seq<T>;

    /// The values from the top down.
    closed spec fn view(&self) -> Seq<T> {
        values_from(self.top)
    }
}

impl<T> LinkStack<T> {
    /// The size kept alongside matches the chain.
    pub closed spec fn wf(&self) -> bool {
        self.size == self@.len()
    }

    /// An empty stack.
    pub fn new() -> (r: Self)
        ensures
            r.wf(),
            r@ == Seq::<T>::empty(),
    {
        LinkStack { top: None, size: 0 }
    }

    /// Whether the stack holds nothing.
    pub fn is_empty(&self) -> (r: bool)
        requires
            self.wf(),
        ensures
            r == (self@.len() == 0),
    {
        match &self.top {
            None => true,
            Some(_) => false,
        }
    }

    /// How many values the stack holds.
    pub fn size(&self) -> (r: usize)
        requires
            self.wf(),
        ensures
            r == self@.len(),
    {
        self.size
    }

    /// Puts `data` on top.
    pub fn push(&mut self, data: T)
        requires
            old(self).wf(),
            old(self)@.len() < usize::MAX,
        ensures
            final(self).wf(),
            final(self)@ == seq![data].add(old(self)@),
    {
        let mut below = None;
        std::mem::swap(&mut self.top, &mut below);
        self.top = Some(Box::new(Node { data, next: below }));
        self.size += 1;
    }

    /// Removes and returns the top value, or `None` when the stack is empty.
    pub fn pop(&mut self) -> (r: Option<T>)
        requires
            old(self).wf(),
        ensures
            final(self).wf(),
            old(self)@.len() == 0 ==> r is None && final(self)@ == old(self)@,
            old(self)@.len() > 0 ==> r == Some(old(self)@[0]) && final(self)@ == old(self)@.skip(1),
    {
        let mut top = None;
        std::mem::swap(&mut self.top, &mut top);
        match top {
            None => None,
            Some(node) => {
                let node = *node;
                assert(values_from(node.next) =~= old(self)@.skip(1));
                self.top = node.next;
                self.size -= 1;
                Some(node.data)
            },
        }
    }
}

impl<T> Drop for LinkStack<T> {
    /// Takes the nodes off one at a time from the top, so that a tall stack is not dropped
    /// by nested calls.
    fn drop(&mut self)
        opens_invariants none
        no_unwind
    {
        let mut cur = None;
        std::mem::swap(&mut self.top, &mut cur);
        loop
            decreases values_from(cur).len(),
        {
            match cur {
                None => break,
                Some(node) => {
                    let node = *node;
                    assert(values_from(cur).len() == 1 + values_from(node.next).len());
                    cur = node.next;
                },
            }
        }
        self.size = 0;
    }
}

} // verus!

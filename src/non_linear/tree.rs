use vstd::prelude::*;

use vstd::pervasive::cloned;

verus! {

/// A node of a binary tree: a value and two optional owned subtrees.
#[derive(Debug, PartialEq, Eq)]
pub struct BinaryNode<T> {
    pub data: T,
    left: Option<Box<BinaryNode<T>>>,
    right: Option<Box<BinaryNode<T>>>,
}

/// The values of a subtree in order: left subtree, node, right subtree.
pub closed spec fn in_order<T>(node: BinaryNode<T>) -> Seq<T>
    decreases node,
{
    let l = match node.left {
        None => Seq::empty(),
        Some(n) => in_order(*n),
    };
    let r = match node.right {
        None => Seq::empty(),
        Some(n) => in_order(*n),
    };
    l.push(node.data) + r
}

/// The values of an optional subtree in order.
pub closed spec fn subtree_in_order<T>(link: Option<Box<BinaryNode<T>>>) -> Seq<T> {
    match link {
        None => Seq::empty(),
        Some(n) => in_order(*n),
    }
}

/// `n` holds `data` and has no children.
pub open spec fn is_leaf<T: Clone>(n: BinaryNode<T>, data: T) -> bool {
    n.value() == data && n.left_child() is None && n.right_child() is None
}

impl<T> BinaryNode<T> where T: Clone {
    /// The left subtree.
    pub closed spec fn left_child(&self) -> Option<BinaryNode<T>> {
        match self.left {
            None => None,
            Some(n) => Some(*n),
        }
    }

    /// The right subtree.
    pub closed spec fn right_child(&self) -> Option<BinaryNode<T>> {
        match self.right {
            None => None,
            Some(n) => Some(*n),
        }
    }

    /// A leaf holding `data`.
    pub fn new(data: T) -> (r: Self)
        ensures
            r.value() == data,
            r.left_child() is None,
            r.right_child() is None,
    {
        Self { data, left: None, right: None }
    }

    /// Gives this node a new left child, a leaf holding `data`, in place of any left subtree.
    pub fn left(&mut self, data: T) -> (r: &Self)
        ensures
            final(self).value() == old(self).value(),
            (final(self).left_child() matches Some(c) && is_leaf(c, data)),
            final(self).right_child() == old(self).right_child(),
            *r == *final(self),
    {
        self.left = Some(Box::new(BinaryNode::new(data)));
        self
    }

    /// Gives this node a new right child, a leaf holding `data`, in place of any right subtree.
    pub fn right(&mut self, data: T) -> (r: &Self)
        ensures
            final(self).value() == old(self).value(),
            final(self).left_child() == old(self).left_child(),
            (final(self).right_child() matches Some(c) && is_leaf(c, data)),
            *r == *final(self),
    {
        self.right = Some(Box::new(BinaryNode::new(data)));
        self
    }

    /// Gives this node a new left child, a leaf holding `data`, and hands the node back for
    /// further changes.
    pub fn left_mut(&mut self, data: T) -> (r: &mut Self)
        ensures
            r.value() == old(self).value(),
            (r.left_child() matches Some(c) && is_leaf(c, data)),
            r.right_child() == old(self).right_child(),
            *final(self) == *final(r),
    {
        self.left = Some(Box::new(BinaryNode::new(data)));
        self
    }

    /// Gives this node a new right child, a leaf holding `data`, and hands the node back for
    /// further changes.
    pub fn right_mut(&mut self, data: T) -> (r: &mut Self)
        ensures
            r.value() == old(self).value(),
            r.left_child() == old(self).left_child(),
            (r.right_child() matches Some(c) && is_leaf(c, data)),
            *final(self) == *final(r),
    {
        self.right = Some(Box::new(BinaryNode::new(data)));
        self
    }

    /// This node, for further changes.
    pub fn node(&mut self) -> (r: &mut Self)
        ensures
            *r == *old(self),
            *final(self) == *final(r),
    {
        self
    }

    /// The left subtree, for changes in place; `None` when there is none.
    pub fn next_left_node(&mut self) -> (r: Option<&mut Self>)
        ensures
            old(self).left_child() is None ==> r is None && *final(self) == *old(self),
            old(self).left_child() is Some ==> r is Some && *r.unwrap() == old(self).left_child().unwrap()
                && final(self).value() == old(self).value() && final(self).right_child() == old(self).right_child()
                && final(self).left_child() == Some(*final(r.unwrap())),
    {
        match self.left.as_mut() {
            Some(left) => Some(&mut **left),
            None => None,
        }
    }

    /// The right subtree, for changes in place; `None` when there is none.
    pub fn next_right_node(&mut self) -> (r: Option<&mut BinaryNode<T>>)
        ensures
            old(self).right_child() is None ==> r is None && *final(self) == *old(self),
            old(self).right_child() is Some ==> r is Some && *r.unwrap() == old(self).right_child().unwrap()
                && final(self).value() == old(self).value() && final(self).left_child() == old(self).left_child()
                && final(self).right_child() == Some(*final(r.unwrap())),
    {
        match self.right.as_mut() {
            Some(right) => Some(&mut **right),
            None => None,
        }
    }

    /// The value of this node.
    pub fn get_data(&self) -> (r: &T)
        ensures
            *r == self.value(),
    {
        &self.data
    }

    /// Mutable access to the value of this node.
    pub fn mut_data(&mut self) -> (r: &mut T)
        ensures
            *r == old(self).value(),
            final(self).value() == *final(r),
            final(self).left_child() == old(self).left_child(),
            final(self).right_child() == old(self).right_child(),
    {
        &mut self.data
    }

    fn _in_order_traverse_ref<'a>(&'a self, result: &mut Vec<&'a T>)
        ensures
            final(result)@.len() == old(result)@.len() + in_order(*self).len(),
            forall|k: int| 0 <= k < old(result)@.len() ==> final(result)@[k] == old(result)@[k],
            forall|k: int|
                0 <= k < in_order(*self).len() ==> *final(result)@[old(result)@.len() + k]
                    == in_order(*self)[k],
        decreases self,
    {
        let ghost start = result@.len();
        let ghost l = subtree_in_order(self.left);
        let ghost rr = subtree_in_order(self.right);
        if let Some(left) = &self.left {
            left._in_order_traverse_ref(result);
        }
        assert(result@.len() == start + l.len());
        result.push(self.get_data());
        if let Some(right) = &self.right {
            right._in_order_traverse_ref(result);
        }
        assert(in_order(*self) == l.push(self.data) + rr);
    }

    /// The values of the subtree rooted here, in order.
    pub fn in_order_traverse_mut(&self) -> (r: Vec<&T>)
        ensures
            r@.len() == in_order(*self).len(),
            forall|k: int| 0 <= k < r@.len() ==> *r@[k] == in_order(*self)[k],
    {
        let mut result = Vec::new();
        self._in_order_traverse_ref(&mut result);
        result
    }

    /// The value of this node.
    pub closed spec fn value(&self) -> T {
        self.data
    }
}

/// `b` is a copy of `a`: the same shape, and each value a clone of the one it stands for.
pub closed spec fn copies<T: Clone>(a: BinaryNode<T>, b: BinaryNode<T>) -> bool
    decreases a,
{
    &&& cloned(a.data, b.data)
    &&& match a.left {
        None => b.left is None,
        Some(x) => b.left matches Some(y) && copies(*x, *y),
    }
    &&& match a.right {
        None => b.right is None,
        Some(x) => b.right matches Some(y) && copies(*x, *y),
    }
}

impl<T> Clone for BinaryNode<T> where T: Clone {
    fn clone(&self) -> (r: Self)
        ensures
            copies(*self, r),
        decreases self,
    {
        let left = match &self.left {
            Some(n) => Some(Box::new((&**n).clone())),
            None => None,
        };
        let right = match &self.right {
            Some(n) => Some(Box::new((&**n).clone())),
            None => None,
        };
        BinaryNode { data: self.data.clone(), left, right }
    }
}

/// A binary tree: an optional root node that owns the rest.
#[derive(Clone, Debug)]
pub struct BinaryTree<T>(Option<Box<BinaryNode<T>>>);

impl<T> BinaryTree<T> where T: Clone {
    /// The root node, if any.
    pub closed spec fn root(&self) -> Option<BinaryNode<T>> {
        match self.0 {
            None => None,
            Some(n) => Some(*n),
        }
    }

    /// The values of the tree in order.
    pub closed spec fn values(&self) -> Seq<T> {
        subtree_in_order(self.0)
    }

    /// An empty tree.
    pub fn new() -> (r: BinaryTree<T>)
        ensures
            r.root() is None,
            r.values() == Seq::<T>::empty(),
    {
        BinaryTree(None)
    }

    /// Makes `root` the root, in place of the whole former tree.
    pub fn set_root(&mut self, root: BinaryNode<T>)
        ensures
            final(self).root() == Some(root),
            final(self).values() == in_order(root),
    {
        self.0 = Some(Box::new(root));
    }

    /// A tree whose root is a leaf holding `data`.
    pub fn with_root(data: T) -> (r: BinaryTree<T>)
        ensures
            (r.root() matches Some(n) && is_leaf(n, data)),
            r.values() == seq![data],
    {
        let r = BinaryTree(Some(Box::new(BinaryNode::new(data))));
        assert(in_order(BinaryNode::<T> { data, left: None, right: None }) =~= seq![data]);
        r
    }

    /// Whether the tree has no root.
    pub fn if_empty(&self) -> (r: bool)
        ensures
            r == (self.root() is None),
    {
        self.0.is_none()
    }

    /// The values of the tree in order.
    pub fn in_order_traverse(&self) -> (r: Vec<&T>)
        ensures
            r@.len() == self.values().len(),
            forall|k: int| 0 <= k < r@.len() ==> *r@[k] == self.values()[k],
    {
        let mut result = Vec::new();
        if let Some(root) = &self.0 {
            root._in_order_traverse_ref(&mut result);
        }
        result
    }
}

impl<T> std::ops::Deref for BinaryTree<T> {
    type Target = Option<Box<BinaryNode<T>>>;

    fn deref(&self) -> &Self::Target {
        &self.0
    }
}

impl<T> std::ops::DerefMut for BinaryTree<T> {
    fn deref_mut(&mut self) -> &mut Self::Target {
        &mut self.0
    }
}

} // verus!

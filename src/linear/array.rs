use vstd::prelude::*;

use vstd::laws_eq::obeys_concrete_eq;
use vstd::pervasive::cloned;

use crate::linear::List;
use crate::Error;

verus! {

/// A sequential list that holds at most 100 values.
#[derive(Clone, Debug, PartialEq)]
pub struct SqList<T> where T: PartialEq + Eq {
    element: Vec<T>,
    length: usize,
}

impl<T> List<T> for SqList<T> where T: Clone + Eq + std::fmt::Debug {
    closed spec fn items(&self) -> Seq<T> {
        self.element@
    }

    closed spec fn wf(&self) -> bool {
        self.length == self.element@.len() && self.length <= 100
    }

    closed spec fn room(&self) -> nat {
        100
    }

    fn init_list() -> (r: Self) {
        Self { element: Vec::new(), length: 0 }
    }

    fn destroy_list(self) {
    }

    fn clear_list(&mut self) {
        self.element.clear();
        self.length = 0;
    }

    fn list_empty(&self) -> (r: bool) {
        self.length == 0
    }

    fn list_length(&self) -> (r: usize) {
        self.length
    }

    fn get_elem(&self, i: usize) -> (r: Option<T>) {
        if i == 0 || i > self.length {
            return None;
        }
        Some(self.element[i - 1].clone())
    }

    fn locate_elem(&self, e: T) -> (r: usize) {
        let mut i: usize = 0;
        while i < self.length
            invariant
                self.wf(),
                obeys_concrete_eq::<T>(),
                i <= self.length,
                forall|j: int| 0 <= j < i ==> self.element@[j] != e,
            decreases self.length - i,
        {
            proof {
                reveal(obeys_concrete_eq);
            }
            if self.element[i] == e {
                return i + 1;
            }
            i += 1;
        }
        0
    }

    fn prior_elem(&self, cur_e: T, _pre_e: &T) -> (r: Option<T>) {
        let mut i: usize = 0;
        while i < self.length
            invariant
                self.wf(),
                obeys_concrete_eq::<T>(),
                i <= self.length,
                forall|j: int| 0 <= j < i ==> self.element@[j] != cur_e,
            decreases self.length - i,
        {
            proof {
                reveal(obeys_concrete_eq);
            }
            if self.element[i] == cur_e {
                assert(first_at(self.items(), cur_e, i as int));
                if i == 0 {
                    return None;
                }
                return Some(self.element[i - 1].clone());
            }
            i += 1;
        }
        None
    }

    fn next_elem(&self, cur_e: T, _next_e: &T) -> (r: Option<T>) {
        if self.length == 0 {
            return None;
        }
        let mut i: usize = 0;
        while i < self.length - 1
            invariant
                self.wf(),
                self.length >= 1,
                obeys_concrete_eq::<T>(),
                i <= self.length - 1,
                forall|j: int| 0 <= j < i ==> self.element@[j] != cur_e,
            decreases self.length - i,
        {
            proof {
                reveal(obeys_concrete_eq);
            }
            if self.element[i] == cur_e {
                assert(first_at(self.items(), cur_e, i as int));
                return Some(self.element[i + 1].clone());
            }
            i += 1;
        }
        None
    }

    fn list_insert(&mut self, i: usize, e: T) -> (r: Result<(), Error>) {
        if i == 0 || i > self.length + 1 {
            return Err(Error::IndexErr);
        }
        if self.length >= 100 {
            return Err(Error::FullErr);
        }
        self.element.insert(i - 1, e);
        self.length += 1;
        Ok(())
    }

    fn list_delete(&mut self, i: usize) -> (r: Result<(), Error>) {
        if i == 0 || i > self.length {
            return Err(Error::IndexErr);
        }
        let _ = self.element.remove(i - 1);
        self.length -= 1;
        Ok(())
    }

    fn traverse_list(&self) -> (r: Vec<T>) {
        let mut out: Vec<T> = Vec::new();
        let mut i: usize = 0;
        while i < self.length
            invariant
                self.wf(),
                i <= self.length,
                out@.len() == i,
                forall|k: int| 0 <= k < i ==> cloned(self.element@[k], #[trigger] out@[k]),
            decreases self.length - i,
        {
            out.push(self.element[i].clone());
            i += 1;
        }
        out
    }
}

/// A list kept in a fixed array of 100 slots; the first `length` slots hold the values.
pub struct ArrayList<T> {
    pub element: [Option<T>; 100],
    pub length: usize,
}

/// `i` is the first offset of `s` that holds `e`.
pub open spec fn first_at<T>(s: Seq<T>, e: T, i: int) -> bool {
    0 <= i < s.len() && s[i] == e && forall|j: int| 0 <= j < i ==> s[j] != e
}

impl<T> ArrayList<T> where T: Copy + PartialEq + std::fmt::Debug {
    /// The first `length` slots are filled and the others empty.
    pub open spec fn wf(&self) -> bool {
        &&& self.length <= 100
        &&& forall|i: int| 0 <= i < self.length ==> (#[trigger] self.element@[i]) is Some
        &&& forall|i: int| self.length <= i < 100 ==> (#[trigger] self.element@[i]) is None
    }

    /// The values, in order.
    pub open spec fn view(&self) -> Seq<T> {
        Seq::new(self.length as nat, |i: int| self.element@[i]->Some_0)
    }

    /// An empty list.
    pub fn new() -> (r: Self)
        ensures
            r.wf(),
            r.view() == Seq::<T>::empty(),
    {
        let r = Self { element: [None;100], length: 0 };
        assert(r.view() =~= Seq::<T>::empty());
        r
    }

    /// The value at position `index` (1-based); an error when there is none.
    pub fn get_element(&self, index: usize) -> (r: Result<T, &'static str>)
        requires
            self.wf(),
        ensures
            1 <= index <= self.view().len() ==> r == Ok::<T, &'static str>(self.view()[index - 1]),
            !(1 <= index <= self.view().len()) ==> r == Err::<T, &'static str>("数组越界"),
    {
        if index == 0 {
            return Err("数组越界");
        }
        let idx = index - 1;
        if idx >= self.length {
            return Err("数组越界");
        };
        match self.element[idx] {
            Some(value) => Ok(value),
            None => Err("元素不存在!"),
        }
    }

    /// Inserts `element` before position `position` (1-based; `length + 1` appends).
    /// An invalid position is reported first, then a full array; neither changes the list.
    pub fn insert(&mut self, position: usize, element: T) -> (r: Result<(), &'static str>)
        requires
            old(self).wf(),
        ensures
            final(self).wf(),
            !(1 <= position <= old(self).view().len() + 1) ==> r == Err::<(), &'static str>("数组越界")
                && final(self).view() == old(self).view(),
            1 <= position <= old(self).view().len() + 1 && old(self).view().len() >= 100 ==> r
                == Err::<(), &'static str>("数组已满") && final(self).view() == old(self).view(),
            1 <= position <= old(self).view().len() + 1 && old(self).view().len() < 100 ==> r
                == Ok::<(), &'static str>(()) && final(self).view() == old(self).view().insert(
                position - 1,
                element,
            ),
    {
        if position == 0 || position > self.length + 1 {
            return Err("数组越界");
        };
        let index = position - 1;
        if self.length >= 100 {
            return Err("数组已满");
        };
        let ghost e0 = self.element@;
        let n = self.length;
        let mut i = n;
        while i > index
            invariant
                n == self.length,
                n < 100,
                index <= i <= n,
                forall|k: int| 0 <= k <= i ==> self.element@[k] == e0[k],
                forall|k: int| i < k <= n ==> self.element@[k] == e0[k - 1],
                forall|k: int| n < k < 100 ==> self.element@[k] == e0[k],
            decreases i,
        {
            self.element[i] = self.element[i - 1];
            i -= 1;
        }
        self.element[index] = Some(element);
        self.length += 1;
        assert forall|k: int| 0 <= k < 100 implies (self.element@[k] is Some <==> k < self.length) by {
            if k < index {
                assert(e0[k] is Some);
            } else if k > index && k <= n {
                assert(e0[k - 1] is Some);
            } else if k > n {
                assert(e0[k] is None);
            }
        }
        assert(self.view() =~= old(self).view().insert(index as int, element));
        Ok(())
    }

    /// The position (1-based) of the first value equal to `element`; an error when there is none.
    pub fn locate_index(&self, element: T) -> (r: Result<usize, &'static str>)
        requires
            self.wf(),
            obeys_concrete_eq::<T>(),
        ensures
            r is Ok ==> first_at(self.view(), element, r->Ok_0 - 1),
            r is Err <==> !self.view().contains(element),
            r is Err ==> r == Err::<usize, &'static str>("查找失败"),
    {
        proof {
            reveal(obeys_concrete_eq);
        }
        let mut i: usize = 0;
        while i < self.length
            invariant
                self.wf(),
                obeys_concrete_eq::<T>(),
                i <= self.length,
                forall|j: int| 0 <= j < i ==> self.view()[j] != element,
            decreases self.length - i,
        {
            assert(self.element@[i as int] is Some);
            proof {
                reveal(obeys_concrete_eq);
            }
            if let Some(value) = self.element[i] {
                if value == element {
                    assert(self.view()[i as int] == element);
                    return Ok(i + 1);
                }
            }
            i += 1;
        }
        assert(!self.view().contains(element));
        Err("查找失败")
    }

    /// Removes the value at position `index` (1-based); an error, changing nothing, when there is none.
    pub fn delete(&mut self, index: usize) -> (r: Result<(), &'static str>)
        requires
            old(self).wf(),
        ensures
            final(self).wf(),
            1 <= index <= old(self).view().len() ==> r == Ok::<(), &'static str>(()) && final(self).view() == old(self).view().remove(index - 1),
            !(1 <= index <= old(self).view().len()) ==> r == Err::<(), &'static str>(
                "数组操作越界!",
            ) && final(self).view() == old(self).view(),
    {
        if index == 0 || index > self.length {
            return Err("数组操作越界!");
        };
        let ghost e0 = self.element@;
        let n = self.length;
        let mut i = index;
        while i < n
            invariant
                n == self.length,
                1 <= index <= i <= n <= 100,
                forall|k: int| 0 <= k < index - 1 ==> self.element@[k] == e0[k],
                forall|k: int| index - 1 <= k < i - 1 ==> self.element@[k] == e0[k + 1],
                forall|k: int| i - 1 <= k < 100 ==> self.element@[k] == e0[k],
            decreases n - i,
        {
            self.element[i - 1] = self.element[i];
            i += 1;
        }
        self.element[n - 1] = None;
        self.length -= 1;
        assert forall|k: int| 0 <= k < 100 implies (self.element@[k] is Some <==> k < self.length) by {
            if k < index - 1 {
                assert(e0[k] is Some);
            } else if k < n - 1 {
                assert(e0[k + 1] is Some);
            } else if k >= n {
                assert(e0[k] is None);
            }
        }
        assert(self.view() =~= old(self).view().remove(index - 1));
        Ok(())
    }

    /// Empties the list.
    pub fn clear(&mut self)
        requires
            old(self).wf(),
        ensures
            final(self).wf(),
            final(self).view() == Seq::<T>::empty(),
    {
        let mut index: usize = 0;
        while index < self.length
            invariant
                self.length <= 100,
                index <= self.length,
                forall|k: int| 0 <= k < index ==> (#[trigger] self.element@[k]) is None,
                forall|k: int| self.length <= k < 100 ==> (#[trigger] self.element@[k]) is None,
            decreases self.length - index,
        {
            self.element[index] = None;
            index += 1;
        };
        self.length = 0;
        assert(self.view() =~= Seq::<T>::empty());
    }

    /// How many values the list holds.
    pub fn length(&self) -> (r: usize)
        requires
            self.wf(),
        ensures
            r == self.view().len(),
    {
        self.length
    }

    /// The value just before the first occurrence of `cur_e`. Errors: the list is empty,
    /// `cur_e` is the first value, or `cur_e` does not occur.
    pub fn prior_element(&self, cur_e: T) -> (r: Result<T, &'static str>)
        requires
            self.wf(),
            obeys_concrete_eq::<T>(),
        ensures
            self.view().len() == 0 ==> r == Err::<T, &'static str>("数组为空"),
            self.view().len() > 0 && self.view()[0] == cur_e ==> r == Err::<T, &'static str>(
                "当前元素为第一个元素,没有前驱",
            ),
            self.view().len() > 0 && self.view()[0] != cur_e && self.view().contains(cur_e) ==> exists|k: int|
                first_at(self.view(), cur_e, k) && r == Ok::<T, &'static str>(self.view()[k - 1]),
            self.view().len() > 0 && !self.view().contains(cur_e) ==> r == Err::<T, &'static str>(
                "元素不存在!",
            ),
    {
        if !self.empty() {
            return Err("数组为空");
        };
        proof {
            reveal(obeys_concrete_eq);
        }
        let first = match self.element[0] {
            Some(v) => v == cur_e,
            None => false,
        };
        if first {
            assert(self.view()[0] == cur_e);
            return Err("当前元素为第一个元素,没有前驱");
        };
        let mut index: usize = 1;
        while index < self.length
            invariant
                self.wf(),
                obeys_concrete_eq::<T>(),
                1 <= index <= self.length,
                forall|j: int| 0 <= j < index ==> self.view()[j] != cur_e,
            decreases self.length - index,
        {
            proof {
                reveal(obeys_concrete_eq);
            }
            assert(self.element@[index as int] is Some);
            let hit = match self.element[index] {
                Some(v) => v == cur_e,
                None => false,
            };
            if hit {
                assert(first_at(self.view(), cur_e, index as int));
                assert(self.element@[index - 1] is Some);
                return Ok(self.element[index - 1].unwrap());
            };
            index += 1;
        };
        Err("元素不存在!")
    }

    /// The value just after the first occurrence of `cur_e`. Errors: the list is empty,
    /// `cur_e` is the last value, or `cur_e` does not occur.
    pub fn next_element(&self, cur_e: T) -> (r: Result<T, &'static str>)
        requires
            self.wf(),
            obeys_concrete_eq::<T>(),
        ensures
            self.view().len() == 0 ==> r == Err::<T, &'static str>("数组为空"),
            self.view().len() > 0 && self.view().last() == cur_e ==> r == Err::<T, &'static str>(
                "当前元素为最后一个元素,没有后继",
            ),
            self.view().len() > 0 && self.view().last() != cur_e && self.view().contains(cur_e) ==> exists|k: int|
                first_at(self.view(), cur_e, k) && r == Ok::<T, &'static str>(self.view()[k + 1]),
            self.view().len() > 0 && !self.view().contains(cur_e) ==> r == Err::<T, &'static str>(
                "元素不存在!",
            ),
    {
        if !self.empty() {
            return Err("数组为空");
        }
        proof {
            reveal(obeys_concrete_eq);
        }
        let last = match self.element[self.length - 1] {
            Some(v) => v == cur_e,
            None => false,
        };
        if last {
            assert(self.view()[self.length - 1] == cur_e);
            return Err("当前元素为最后一个元素,没有后继");
        }
        let mut index: usize = 0;
        while index < self.length - 1
            invariant
                self.wf(),
                self.length >= 1,
                obeys_concrete_eq::<T>(),
                self.view().last() != cur_e,
                index <= self.length - 1,
                forall|j: int| 0 <= j < index ==> self.view()[j] != cur_e,
            decreases self.length - index,
        {
            proof {
                reveal(obeys_concrete_eq);
            }
            assert(self.element@[index as int] is Some);
            let hit = match self.element[index] {
                Some(v) => v == cur_e,
                None => false,
            };
            if hit {
                assert(first_at(self.view(), cur_e, index as int));
                assert(self.element@[index + 1] is Some);
                return Ok(self.element[index + 1].unwrap());
            }
            index += 1;
        }
        Err("元素不存在!")
    }

    /// Whether the list holds at least one value.
    pub fn empty(&self) -> (r: bool)
        requires
            self.wf(),
        ensures
            r == (self.view().len() != 0),
    {
        self.length != 0
    }
}

} // verus!

use vstd::prelude::*;

verus! {

/// A bounded stack of characters.
pub struct Stack {
    data: Vec<char>,
    top: usize,
    cap: usize,
}

impl View for Stack {
    type V = Seq<char>;

    /// The characters from the bottom to the top.
    closed spec fn view(&self) -> Seq<char> {
        self.data@
    }
}

/// The message of the error returned when the stack holds nothing.
pub open spec fn empty_message() -> &'static str {
    "此栈为空！"
}

impl Stack {
    /// The count kept beside the characters matches them, and the bound is respected.
    pub closed spec fn wf(&self) -> bool {
        self.top == self.data@.len() && self.top <= self.cap
    }

    /// How many characters the stack can hold.
    pub closed spec fn bound(&self) -> nat {
        self.cap as nat
    }

    /// An empty stack that holds at most `length` characters.
    pub fn new(length: usize) -> (r: Stack)
        ensures
            r.wf(),
            r@ == Seq::<char>::empty(),
            r.bound() == length,
    {
        Stack { data: Vec::with_capacity(length), top: 0, cap: length }
    }

    /// Whether the stack holds nothing.
    pub fn is_empty(&self) -> (r: bool)
        requires
            self.wf(),
        ensures
            r == (self@.len() == 0),
    {
        self.top == 0
    }

    /// Puts `c` on top; `false`, changing nothing, when the stack is full.
    pub fn push(&mut self, c: char) -> (r: bool)
        requires
            old(self).wf(),
        ensures
            final(self).wf(),
            final(self).bound() == old(self).bound(),
            r == (old(self)@.len() < old(self).bound()),
            r ==> final(self)@ == old(self)@.push(c),
            !r ==> final(self)@ == old(self)@,
    {
        if self.top == self.cap {
            return false;
        }
        self.data.push(c);
        self.top += 1;
        true
    }

    /// Removes and returns the top character; an error when the stack is empty.
    pub fn pop(&mut self) -> (r: Result<char, &str>)
        requires
            old(self).wf(),
        ensures
            final(self).wf(),
            final(self).bound() == old(self).bound(),
            old(self)@.len() == 0 ==> r == Err::<char, &str>(empty_message()) && final(self)@
                == old(self)@,
            old(self)@.len() > 0 ==> r == Ok::<char, &str>(old(self)@.last()) && final(self)@
                == old(self)@.drop_last(),
    {
        if self.is_empty() {
            return Err("此栈为空！");
        }
        self.top -= 1;
        let del = self.data.pop().unwrap();
        Ok(del)
    }

    /// How many characters the stack holds.
    pub fn len(&self) -> (r: usize)
        requires
            self.wf(),
        ensures
            r == self@.len(),
    {
        self.top
    }

    /// The top character; an error when the stack is empty.
    pub fn peek(&self) -> (r: Result<&char, &str>)
        requires
            self.wf(),
        ensures
            self@.len() == 0 ==> r == Err::<&char, &str>(empty_message()),
            self@.len() > 0 ==> r is Ok && *r->Ok_0 == self@.last(),
    {
        if self.is_empty() {
            return Err("此栈为空！");
        }
        Ok(&self.data[self.top - 1])
    }

    /// Mutable access to the top character; an error when the stack is empty.
    pub fn peek_mut(&mut self) -> (r: Result<&mut char, &str>)
        requires
            old(self).wf(),
        ensures
            final(self).wf(),
            final(self).bound() == old(self).bound(),
            old(self)@.len() == 0 ==> r is Err && r->Err_0 == empty_message() && final(self)@
                == old(self)@,
            old(self)@.len() > 0 ==> r is Ok && *r->Ok_0 == old(self)@.last() && final(self)@
                == old(self)@.update(old(self)@.len() - 1, *final(r->Ok_0)),
    {
        if self.is_empty() {
            return Err("此栈为空！");
        }
        let index = self.top - 1;
        Ok(&mut self.data[index])
    }
}

/// Whether `c` opens a bracket.
pub open spec fn is_open(c: char) -> bool {
    c == '(' || c == '[' || c == '{'
}

/// Whether `c`, read against the innermost open bracket `top`, breaks the pairing:
/// a closing bracket must close a bracket of its own kind.
pub open spec fn breaks_pair(c: char, top: char) -> bool {
    (c == ')' && top != '(') || (c == ']' && top != '[') || (c == '}' && top != '{')
}

/// Reading `s` from offset `i` with the brackets in `open` still unclosed: every character
/// that does not open a bracket closes the innermost open one, a closing bracket must match
/// its kind, and nothing may remain open at the end.
pub open spec fn balanced_from(s: Seq<char>, i: int, open: Seq<char>) -> bool
    decreases s.len() - i,
{
    if i >= s.len() {
        open.len() == 0
    } else if is_open(s[i]) {
        balanced_from(s, i + 1, open.push(s[i]))
    } else if open.len() == 0 {
        false
    } else if breaks_pair(s[i], open.last()) {
        false
    } else {
        balanced_from(s, i + 1, open.drop_last())
    }
}

/// Whether the brackets of `s` pair up.
pub open spec fn brackets_balanced(s: Seq<char>) -> bool {
    balanced_from(s, 0, Seq::empty())
}

/// Checks that the brackets of `s` pair up.
pub fn brack_check(s: &String) -> (r: bool)
    ensures
        r == brackets_balanced(s@),
{
    let text = s.as_str();
    let n = text.unicode_len();
    let mut s_stack = Stack::new(n);
    let mut i: usize = 0;
    while i < n
        invariant
            text@ == s@,
            n == s@.len(),
            i <= n,
            s_stack.wf(),
            s_stack.bound() == n,
            s_stack@.len() <= i,
            brackets_balanced(s@) == balanced_from(s@, i as int, s_stack@),
        decreases n - i,
    {
        let c = text.get_char(i);
        if c == '(' || c == '[' || c == '{' {
            s_stack.push(c);
        } else {
            if s_stack.is_empty() {
                return false;
            }
            let top_elem = s_stack.pop().unwrap();
            if c == ')' && top_elem != '(' {
                return false;
            }
            if c == ']' && top_elem != '[' {
                return false;
            }
            if c == '}' && top_elem != '{' {
                return false;
            }
        }
        i += 1;
    }
    s_stack.is_empty()
}

} // verus!

use vstd::prelude::*;

use vstd::laws_eq::obeys_concrete_eq;

verus! {

/// A string over a borrowed slice of characters.
#[derive(Clone)]
pub struct String<'a> {
    /// The characters.
    pub ch: &'a [char],
    /// How many characters there are.
    pub len: usize,
}

/// `p` occurs in `s` starting at offset `k`.
pub open spec fn occurs_at<T>(s: Seq<T>, p: Seq<T>, k: int) -> bool {
    0 <= k && k + p.len() <= s.len() && s.subrange(k, k + p.len()) == p
}

/// `k` is the first offset, not before `from`, at which `p` occurs in `s`.
pub open spec fn first_occurrence_from<T>(s: Seq<T>, p: Seq<T>, from: int, k: int) -> bool {
    from <= k && occurs_at(s, p, k) && forall|j: int| from <= j < k ==> !occurs_at(s, p, j)
}

impl<'a> String<'a> {
    /// The length recorded beside the characters is theirs.
    pub open spec fn wf(&self) -> bool {
        self.len == self.ch@.len()
    }

    /// A string over `ch`.
    pub fn new(ch: &'a [char]) -> (r: String<'a>)
        ensures
            r.wf(),
            r.ch@ == ch@,
    {
        String { ch, len: ch.len() }
    }

    /// Brute-force search for `other` from offset `pos`: the first offset not before `pos`
    /// at which `other` occurs, or `0` when it does not occur there. An empty `other`
    /// gives `pos`.
    #[allow(non_snake_case)]
    pub fn index_BF(&self, other: &String, pos: usize) -> (r: usize)
        requires
            self.wf(),
            other.wf(),
        ensures
            other.len == 0 ==> r == pos,
            other.len > 0 && (exists|k: int| first_occurrence_from(self.ch@, other.ch@, pos as int, k))
                ==> first_occurrence_from(self.ch@, other.ch@, pos as int, r as int),
            other.len > 0 && !(exists|k: int| first_occurrence_from(self.ch@, other.ch@, pos as int, k))
                ==> r == 0,
    {
        let ghost s = self.ch@;
        let ghost p = other.ch@;
        let mut i = pos;
        let mut j: usize = 0;
        while i < self.len && j < other.len
            invariant
                s == self.ch@,
                p == other.ch@,
                self.wf(),
                other.wf(),
                j <= other.len,
                other.len == 0 ==> i == pos,
                pos <= i - j,
                j <= i,
                j > 0 ==> i <= self.len,
                forall|t: int| 0 <= t < j ==> s[i - j + t] == p[t],
                forall|k: int| pos <= k < i - j ==> !occurs_at(s, p, k),
            decreases self.len - (i - j), other.len - j,
        {
            if self.ch[i] == other.ch[j] {
                i += 1;
                j += 1;
            } else {
                assert(!occurs_at(s, p, i - j)) by {
                    if occurs_at(s, p, i - j) {
                        assert(s.subrange(i - j, i - j + p.len())[j as int] == p[j as int]);
                    }
                }
                i = i - j + 1;
                j = 0;
            }
        }
        if j == other.len {
            if j > 0 {
                assert(s.subrange(i - j, i - j + p.len()) =~= p);
                assert(first_occurrence_from(s, p, pos as int, i - j));
            }
            i - j
        } else {
            assert forall|k: int| pos <= k implies !first_occurrence_from(s, p, pos as int, k) by {
                if k >= i - j && occurs_at(s, p, k) {
                    assert(k + p.len() > i);
                }
            }
            0
        }
    }
}

/// `b` is a proper border of the prefix of length `q` of `p`: the first `b` items of that
/// prefix are also its last `b` items, and `b < q`.
pub open spec fn border<T>(p: Seq<T>, q: int, b: int) -> bool {
    0 <= b < q <= p.len() && forall|t: int| 0 <= t < b ==> p[t] == #[trigger] p[q - b + t]
}

/// `b` is the longest proper border of the prefix of length `q` of `p`.
pub open spec fn longest_border<T>(p: Seq<T>, q: int, b: int) -> bool {
    border(p, q, b) && forall|c: int| #[trigger] border(p, q, c) ==> c <= b
}

/// A border of a border is a border.
proof fn lemma_border_of_border<T>(p: Seq<T>, q: int, b: int, c: int)
    requires
        border(p, q, b),
        border(p, b, c),
    ensures
        border(p, q, c),
{
    assert forall|t: int| 0 <= t < c implies p[t] == #[trigger] p[q - c + t] by {
        assert(p[t] == p[b - c + t]);
        assert(p[(b - c + t)] == p[q - b + (b - c + t)]);
    }
}

/// Of two borders of one prefix, the shorter is a border of the longer.
proof fn lemma_shorter_border<T>(p: Seq<T>, q: int, b: int, c: int)
    requires
        border(p, q, b),
        border(p, q, c),
        c < b,
    ensures
        border(p, b, c),
{
    assert forall|t: int| 0 <= t < c implies p[t] == #[trigger] p[b - c + t] by {
        assert(p[t] == p[q - c + t]);
        assert(p[b - c + t] == p[q - b + (b - c + t)]);
    }
}

/// A nonempty border of the prefix of length `q + 1` is one item longer than a border of the
/// prefix of length `q`, extended by an item equal to `p[q]`.
proof fn lemma_border_step<T>(p: Seq<T>, q: int, b: int)
    requires
        border(p, q + 1, b),
        b >= 1,
    ensures
        border(p, q, b - 1),
        p[b - 1] == p[q],
{
    assert(p[b - 1] == p[q + 1 - b + (b - 1)]);
    assert forall|t: int| 0 <= t < b - 1 implies p[t] == #[trigger] p[q - (b - 1) + t] by {
        assert(p[t] == p[q + 1 - b + t]);
    }
}

/// For each prefix of `pattern`, the length of its longest proper border: entry `i` is for
/// the prefix of length `i + 1`.
fn next<T>(pattern: &[T]) -> (r: Vec<usize>)
    where
        T: PartialEq + Eq,
    requires
        obeys_concrete_eq::<T>(),
    ensures
        r@.len() == pattern@.len(),
        forall|i: int| 0 <= i < r@.len() ==> longest_border(pattern@, i + 1, #[trigger] r@[i] as int),
{
    let ghost p = pattern@;
    let mut next = vec![0; pattern.len()];
    if pattern.len() == 0 {
        return next;
    }
    next[0] = 0;
    assert(longest_border(p, 1, 0));
    let mut i: usize = 1;
    let mut j: usize = 0;
    while i < pattern.len()
        invariant
            p == pattern@,
            obeys_concrete_eq::<T>(),
            next@.len() == p.len(),
            1 <= i <= p.len(),
            j < i,
            border(p, i as int, j as int),
            forall|k: int| 0 <= k < i ==> longest_border(p, k + 1, #[trigger] next@[k] as int),
            i < p.len() ==> forall|b: int| #[trigger] border(p, i + 1, b) ==> b <= j + 1,
        decreases p.len() - i, j,
    {
        proof {
            reveal(obeys_concrete_eq);
        }
        if pattern[i] == pattern[j] {
            j += 1;
            next[i] = j;
            assert(border(p, i + 1, j as int)) by {
                assert forall|t: int| 0 <= t < j implies p[t] == #[trigger] p[i + 1 - j + t] by {
                    if t < j - 1 {
                        assert(p[t] == p[i - (j - 1) + t]);
                    }
                }
            }
            i += 1;
            proof {
                if i < p.len() {
                    assert forall|b: int| #[trigger] border(p, i + 1, b) implies b <= j + 1 by {
                        if b >= 1 {
                            lemma_border_step(p, i as int, b);
                            assert(longest_border(p, i as int, next@[i - 1] as int));
                        }
                    }
                }
            }
        } else if j == 0 {
            next[i] = 0;
            assert(longest_border(p, i + 1, 0)) by {
                assert(border(p, i + 1, 0));
                assert forall|c: int| #[trigger] border(p, i + 1, c) implies c <= 0 by {
                    if c >= 1 {
                        lemma_border_step(p, i as int, c);
                    }
                }
            }
            i += 1;
            proof {
                if i < p.len() {
                    assert forall|b: int| #[trigger] border(p, i + 1, b) implies b <= j + 1 by {
                        if b >= 1 {
                            lemma_border_step(p, i as int, b);
                            assert(longest_border(p, i as int, next@[i - 1] as int));
                        }
                    }
                }
            }
        } else {
            let ghost old_j = j as int;
            assert(longest_border(p, old_j, next@[old_j - 1] as int));
            j = next[j - 1];
            proof {
                lemma_border_of_border(p, i as int, old_j, j as int);
                assert forall|b: int| #[trigger] border(p, i + 1, b) implies b <= j + 1 by {
                    if b >= 1 {
                        lemma_border_step(p, i as int, b);
                        if b - 1 == old_j {
                            assert(p[old_j] == p[i as int]);
                        } else if b - 1 < old_j {
                            lemma_shorter_border(p, i as int, old_j, b - 1);
                        }
                    }
                }
            }
        }
    }
    next
}

/// Knuth-Morris-Pratt search: the first offset of `main` at which `pattern` occurs, or `None`
/// when it does not occur. An empty pattern occurs at offset zero.
#[allow(non_snake_case)]
pub fn index_KMP<T>(main: &[T], pattern: &[T]) -> (r: Option<usize>)
    where
        T: PartialEq + Eq,
    requires
        obeys_concrete_eq::<T>(),
    ensures
        r is Some <==> exists|k: int| occurs_at(main@, pattern@, k),
        r is Some ==> first_occurrence_from(main@, pattern@, 0, r->Some_0 as int),
{
    let ghost s = main@;
    let ghost p = pattern@;
    if pattern.len() == 0 {
        assert(s.subrange(0, 0) =~= p);
        assert(occurs_at(s, p, 0));
        return Some(0);
    }
    let next = next(pattern);
    let mut i: usize = 0;
    let mut j: usize = 0;
    while i < main.len() && j < pattern.len()
        invariant
            s == main@,
            p == pattern@,
            p.len() > 0,
            obeys_concrete_eq::<T>(),
            next@.len() == p.len(),
            forall|k: int| 0 <= k < next@.len() ==> longest_border(p, k + 1, #[trigger] next@[k] as int),
            j <= i <= s.len(),
            j <= p.len(),
            forall|t: int| 0 <= t < j ==> s[i - j + t] == p[t],
            forall|k: int| 0 <= k < i - j ==> !occurs_at(s, p, k),
        decreases s.len() - (i - j), p.len() - j,
    {
        proof {
            reveal(obeys_concrete_eq);
        }
        if main[i] == pattern[j] {
            i += 1;
            j += 1;
        } else if j == 0 {
            assert(!occurs_at(s, p, i as int)) by {
                if occurs_at(s, p, i as int) {
                    assert(s.subrange(i as int, i + p.len())[0] == p[0]);
                }
            }
            i += 1;
        } else {
            let ghost old_j = j as int;
            let ghost st = i - j;
            assert(longest_border(p, old_j, next@[old_j - 1] as int));
            j = next[j - 1];
            assert forall|t: int| 0 <= t < j implies s[i - j + t] == p[t] by {
                assert(p[t] == p[old_j - j + t]);
                assert(s[i - old_j + (old_j - j + t)] == p[old_j - j + t]);
            }
            assert forall|k: int| 0 <= k < i - j implies !occurs_at(s, p, k) by {
                if st <= k && occurs_at(s, p, k) {
                    let b = i - k;
                    if k == st {
                        assert(s.subrange(k, k + p.len())[old_j] == p[old_j]);
                    } else {
                        assert(border(p, old_j, b)) by {
                            assert forall|t: int| 0 <= t < b implies p[t] == #[trigger] p[old_j - b + t] by {
                                assert(s.subrange(k, k + p.len())[t] == p[t]);
                                assert(s[i - old_j + (old_j - b + t)] == p[old_j - b + t]);
                            }
                        }
                    }
                }
            }
        }
    }
    if j == pattern.len() {
        assert(s.subrange(i - j, i - j + p.len()) =~= p);
        assert(occurs_at(s, p, i - j));
        Some(i - j)
    } else {
        assert forall|k: int| !occurs_at(s, p, k) by {
            if k >= i - j && occurs_at(s, p, k) {
                assert(k + p.len() > s.len());
            }
        }
        None
    }
}

} // verus!

//! A set of texts kept in ascending order without repeats, as an ordered set
//! of strings hands them out.

use vstd::prelude::*;

use crate::fga_store::{lemma_seq_lt_irreflexive, lemma_seq_lt_transitive, seq_lt, seq_lt_exec};
use crate::text::{chars_of, str_eq};

verus! {

/// Two different texts are ordered one way or the other.
pub proof fn lemma_seq_lt_total(a: Seq<char>, b: Seq<char>)
    requires
        a != b,
    ensures
        seq_lt(a, b) || seq_lt(b, a),
    decreases a.len(),
{
    if a.len() == 0 || b.len() == 0 {
        if a.len() == 0 && b.len() == 0 {
            assert(a =~= b);
        }
    } else if a[0] == b[0] {
        if a.drop_first() =~= b.drop_first() {
            assert(a =~= b) by {
                assert forall|i: int| 0 <= i < a.len() implies a[i] == b[i] by {
                    if i > 0 {
                        assert(a[i] == a.drop_first()[i - 1]);
                        assert(b[i] == b.drop_first()[i - 1]);
                    }
                }
            }
        } else {
            lemma_seq_lt_total(a.drop_first(), b.drop_first());
        }
    }
}

pub open spec fn strictly_ascending(s: Seq<Seq<char>>) -> bool {
    forall|i: int, j: int| 0 <= i < j < s.len() ==> seq_lt(#[trigger] s[i], #[trigger] s[j])
}

pub open spec fn texts(v: Seq<String>) -> Seq<Seq<char>> {
    v.map_values(|s: String| s@)
}

/// Texts in ascending order without repeats.
#[derive(Debug)]
pub struct SortedStrings {
    pub items: Vec<String>,
}

impl SortedStrings {
    pub open spec fn wf(&self) -> bool {
        strictly_ascending(texts(self.items@))
    }

    /// The texts held.
    pub open spec fn contents(&self) -> Set<Seq<char>> {
        texts(self.items@).to_set()
    }

    /// No texts.
    pub fn new() -> (r: SortedStrings)
        ensures
            r.wf(),
            r.items@.len() == 0,
    {
        SortedStrings { items: Vec::new() }
    }

    /// Adds a text; a text held already is not added again.
    pub fn insert(&mut self, s: String)
        requires
            old(self).wf(),
        ensures
            final(self).wf(),
            final(self).contents() == old(self).contents().insert(s@),
    {
        let ghost old_items = texts(self.items@);
        let sv = chars_of(s.as_str());
        let mut lo: usize = 0;
        let mut hi: usize = self.items.len();
        while lo < hi
            invariant
                lo <= hi <= self.items@.len(),
                texts(self.items@) == old_items,
                strictly_ascending(old_items),
                sv@ == s@,
                forall|j: int| 0 <= j < lo ==> seq_lt(#[trigger] old_items[j], s@),
                forall|j: int| hi <= j < old_items.len() ==> !seq_lt(#[trigger] old_items[j], s@),
            decreases hi - lo,
        {
            let mid = lo + (hi - lo) / 2;
            let iv = chars_of(self.items[mid].as_str());
            proof {
                assert(old_items[mid as int] == iv@);
            }
            if seq_lt_exec(iv.as_slice(), sv.as_slice()) {
                proof {
                    assert forall|j: int| 0 <= j < mid + 1 implies seq_lt(#[trigger] old_items[j], s@) by {
                        if j < mid {
                            assert(seq_lt(old_items[j], old_items[mid as int]));
                            lemma_seq_lt_transitive(old_items[j], old_items[mid as int], s@);
                        }
                    }
                }
                lo = mid + 1;
            } else {
                proof {
                    assert forall|j: int| mid <= j < old_items.len() implies !seq_lt(#[trigger] old_items[j], s@) by {
                        if j > mid && seq_lt(old_items[j], s@) {
                            assert(seq_lt(old_items[mid as int], old_items[j]));
                            lemma_seq_lt_transitive(old_items[mid as int], old_items[j], s@);
                        }
                    }
                }
                hi = mid;
            }
        }
        let p = lo;
        // p is the first position whose text is not before `s`
        proof {
            assert forall|j: int| 0 <= j < p implies seq_lt(#[trigger] old_items[j], s@) by {}
        }
        if p < self.items.len() && str_eq(self.items[p].as_str(), s.as_str()) {
            proof {
                assert(old_items[p as int] == s@);
                assert(old_items.to_set().contains(s@));
                assert(old_items.to_set().insert(s@) =~= old_items.to_set());
            }
            return;
        }
        self.items.insert(p, s);
        proof {
            let n = texts(self.items@);
            assert(n =~= old_items.insert(p as int, s@));
            assert forall|i: int, j: int| 0 <= i < j < n.len() implies seq_lt(#[trigger] n[i], #[trigger] n[j]) by {
                if j < p {
                    assert(n[i] == old_items[i] && n[j] == old_items[j]);
                } else if j == p {
                    assert(n[i] == old_items[i]);
                } else if i == p {
                    assert(n[j] == old_items[j - 1]);
                    let q = p as int;
                    if q < old_items.len() {
                        assert(old_items[q] != s@);
                        lemma_seq_lt_total(old_items[q], s@);
                        if j - 1 > q {
                            lemma_seq_lt_transitive(s@, old_items[q], old_items[j - 1]);
                        }
                    }
                } else if i < p {
                    assert(n[i] == old_items[i] && n[j] == old_items[j - 1]);
                } else {
                    assert(n[i] == old_items[i - 1] && n[j] == old_items[j - 1]);
                }
            }
            assert forall|x: Seq<char>| n.to_set().contains(x) <==> old_items.to_set().insert(s@).contains(x) by {
                if n.to_set().contains(x) {
                    let k = choose|k: int| 0 <= k < n.len() && n[k] == x;
                    if k < p {
                        assert(old_items[k] == x);
                    } else if k > p {
                        assert(old_items[k - 1] == x);
                    }
                }
                if old_items.to_set().contains(x) {
                    let k = choose|k: int| 0 <= k < old_items.len() && old_items[k] == x;
                    if k < p {
                        assert(n[k] == x);
                    } else {
                        assert(n[k + 1] == x);
                    }
                }
                if x == s@ {
                    assert(n[p as int] == x);
                }
            }
            assert(n.to_set() =~= old_items.to_set().insert(s@));
        }
    }

    /// Whether `s` is held.
    pub fn contains(&self, s: &str) -> (r: bool)
        requires
            self.wf(),
        ensures
            r == self.contents().contains(s@),
    {
        let ghost items = texts(self.items@);
        let sv = chars_of(s);
        let mut lo: usize = 0;
        let mut hi: usize = self.items.len();
        while lo < hi
            invariant
                lo <= hi <= self.items@.len(),
                items == texts(self.items@),
                strictly_ascending(items),
                sv@ == s@,
                forall|j: int| 0 <= j < lo ==> seq_lt(#[trigger] items[j], s@),
                forall|j: int| hi <= j < items.len() ==> !seq_lt(#[trigger] items[j], s@),
            decreases hi - lo,
        {
            let mid = lo + (hi - lo) / 2;
            let iv = chars_of(self.items[mid].as_str());
            proof {
                assert(items[mid as int] == iv@);
            }
            if seq_lt_exec(iv.as_slice(), sv.as_slice()) {
                proof {
                    assert forall|j: int| 0 <= j < mid + 1 implies seq_lt(#[trigger] items[j], s@) by {
                        if j < mid {
                            assert(seq_lt(items[j], items[mid as int]));
                            lemma_seq_lt_transitive(items[j], items[mid as int], s@);
                        }
                    }
                }
                lo = mid + 1;
            } else {
                proof {
                    assert forall|j: int| mid <= j < items.len() implies !seq_lt(#[trigger] items[j], s@) by {
                        if j > mid && seq_lt(items[j], s@) {
                            assert(seq_lt(items[mid as int], items[j]));
                            lemma_seq_lt_transitive(items[mid as int], items[j], s@);
                        }
                    }
                }
                hi = mid;
            }
        }
        if lo < self.items.len() && str_eq(self.items[lo].as_str(), s) {
            proof {
                assert(items[lo as int] == s@);
                assert(items.to_set().contains(s@));
            }
            return true;
        }
        proof {
            if self.contents().contains(s@) {
                let k = choose|k: int| 0 <= k < items.len() && items[k] == s@;
                if k < lo {
                    assert(seq_lt(items[k], s@));
                    lemma_seq_lt_irreflexive(s@);
                } else if k > lo {
                    assert(seq_lt(items[lo as int], items[k]));
                    assert(!seq_lt(items[lo as int], s@));
                } 
            }
        }
        false
    }

    /// The texts in ascending order.
    pub fn into_vec(self) -> (r: Vec<String>)
        ensures
            r@ == self.items@,
    {
        self.items
    }
}

/// A sorted set holds as many texts as its list has entries.
pub proof fn lemma_sorted_len(s: &SortedStrings)
    requires
        s.wf(),
    ensures
        s.items@.len() == s.contents().len(),
{
    let t = texts(s.items@);
    assert forall|i: int, j: int| 0 <= i < t.len() && 0 <= j < t.len() && i != j implies t[i] != t[j] by {
        if i < j {
            assert(seq_lt(t[i], t[j]));
            if t[i] == t[j] {
                lemma_seq_lt_irreflexive(t[i]);
            }
        } else {
            assert(seq_lt(t[j], t[i]));
            if t[i] == t[j] {
                lemma_seq_lt_irreflexive(t[i]);
            }
        }
    }
    assert(t.no_duplicates());
    t.unique_seq_to_set();
}

} // verus!

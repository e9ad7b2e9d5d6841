//! Vectors kept in strictly increasing order of a text key: the ordered maps
//! and sets of a plan.
use vstd::prelude::*;

use crate::text::{lemma_text_order, text_less, text_lt};

verus! {

/// A value that is found by a text key.
pub trait Keyed {
    spec fn key(&self) -> Seq<char>;

    fn key_text(&self) -> (r: &str)
        ensures
            r@ == self.key(),
    ;
}

/// Keys strictly increase along `s`, so no key occurs twice.
pub open spec fn keys_sorted<T: Keyed>(s: Seq<T>) -> bool {
    forall|i: int, j: int|
        0 <= i < j < s.len() ==> text_lt(#[trigger] s[i].key(), #[trigger] s[j].key())
}

pub open spec fn has_key<T: Keyed>(s: Seq<T>, k: Seq<char>) -> bool {
    exists|i: int| 0 <= i < s.len() && #[trigger] s[i].key() == k
}

/// The position of the entry with key `k`.
pub open spec fn key_index<T: Keyed>(s: Seq<T>, k: Seq<char>) -> int {
    choose|i: int| 0 <= i < s.len() && #[trigger] s[i].key() == k
}

/// `p` is where an entry with key `k` goes in `s`: everything before it is
/// smaller and everything from it on is larger.
pub open spec fn is_slot<T: Keyed>(s: Seq<T>, k: Seq<char>, p: int) -> bool {
    &&& 0 <= p <= s.len()
    &&& forall|i: int| 0 <= i < p ==> text_lt(#[trigger] s[i].key(), k)
    &&& forall|i: int| p <= i < s.len() ==> text_lt(k, #[trigger] s[i].key())
}

pub open spec fn slot<T: Keyed>(s: Seq<T>, k: Seq<char>) -> int {
    choose|p: int| is_slot(s, k, p)
}

/// In a sorted sequence a key has one position.
pub proof fn lemma_key_index<T: Keyed>(s: Seq<T>, k: Seq<char>, i: int)
    requires
        keys_sorted(s),
        0 <= i < s.len(),
        s[i].key() == k,
    ensures
        has_key(s, k),
        key_index(s, k) == i,
{
    lemma_text_order();
    let j = key_index(s, k);
    assert(s[j].key() == k);
    if j < i {
        assert(text_lt(s[j].key(), s[i].key()));
    } else if i < j {
        assert(text_lt(s[i].key(), s[j].key()));
    }
}

/// A key that is absent has exactly one slot.
pub proof fn lemma_slot<T: Keyed>(s: Seq<T>, k: Seq<char>, p: int)
    requires
        is_slot(s, k, p),
    ensures
        slot(s, k) == p,
        !has_key(s, k),
{
    lemma_text_order();
    let q = slot(s, k);
    assert(is_slot(s, k, q));
    if q < p {
        assert(text_lt(s[q].key(), k));
        assert(text_lt(k, s[q].key()));
    } else if p < q {
        assert(text_lt(s[p].key(), k));
        assert(text_lt(k, s[p].key()));
    }
    if has_key(s, k) {
        let i = choose|i: int| 0 <= i < s.len() && #[trigger] s[i].key() == k;
        if i < p {
            assert(text_lt(s[i].key(), k));
        } else {
            assert(text_lt(k, s[i].key()));
        }
    }
}

/// Inserting at the slot of its key keeps the sequence sorted.
pub proof fn lemma_insert_sorted<T: Keyed>(s: Seq<T>, p: int, x: T)
    requires
        keys_sorted(s),
        is_slot(s, x.key(), p),
    ensures
        keys_sorted(s.insert(p, x)),
{
    lemma_text_order();
    let t = s.insert(p, x);
    assert forall|i: int, j: int| 0 <= i < j < t.len() implies text_lt(
        #[trigger] t[i].key(),
        #[trigger] t[j].key(),
    ) by {
        if j < p {
        } else if j == p {
            assert(t[i] == s[i]);
        } else if i < p {
            assert(t[i] == s[i] && t[j] == s[j - 1]);
            assert(text_lt(s[i].key(), x.key()));
            assert(text_lt(x.key(), s[j - 1].key()));
        } else if i == p {
            assert(t[j] == s[j - 1]);
        } else {
            assert(t[i] == s[i - 1] && t[j] == s[j - 1]);
        }
    }
}

/// Replacing an entry by one with the same key keeps the sequence sorted.
pub proof fn lemma_update_sorted<T: Keyed>(s: Seq<T>, i: int, x: T)
    requires
        keys_sorted(s),
        0 <= i < s.len(),
        x.key() == s[i].key(),
    ensures
        keys_sorted(s.update(i, x)),
{
    let t = s.update(i, x);
    assert forall|a: int, b: int| 0 <= a < b < t.len() implies text_lt(
        #[trigger] t[a].key(),
        #[trigger] t[b].key(),
    ) by {
        assert(t[a].key() == s[a].key());
        assert(t[b].key() == s[b].key());
    }
}

/// Inserting an entry keeps every key that was there.
pub proof fn lemma_insert_has_key<T: Keyed>(s: Seq<T>, p: int, x: T, k: Seq<char>)
    requires
        0 <= p <= s.len(),
        has_key(s, k),
    ensures
        has_key(s.insert(p, x), k),
{
    let i = choose|i: int| 0 <= i < s.len() && #[trigger] s[i].key() == k;
    let t = s.insert(p, x);
    if i < p {
        assert(t[i] == s[i]);
    } else {
        assert(t[i + 1] == s[i]);
    }
}

/// Whether the keys of `v` strictly increase.
pub fn is_sorted<T: Keyed>(v: &Vec<T>) -> (r: bool)
    ensures
        r == keys_sorted(v@),
{
    proof {
        lemma_text_order();
    }
    let mut i: usize = 1;
    if v.len() == 0 {
        return true;
    }
    while i < v.len()
        invariant
            1 <= i <= v@.len(),
            forall|a: int, b: int| 0 <= a < b < i ==> text_lt(#[trigger] v@[a].key(), #[trigger] v@[b].key()),
        decreases v.len() - i,
    {
        if !text_less(v[i - 1].key_text(), v[i].key_text()) {
            assert(!text_lt(v@[i - 1].key(), v@[i as int].key()));
            return false;
        }
        assert forall|a: int, b: int| 0 <= a < b < i + 1 implies text_lt(
            #[trigger] v@[a].key(),
            #[trigger] v@[b].key(),
        ) by {
            lemma_text_order();
            if b == i && a < i - 1 {
                assert(text_lt(v@[a].key(), v@[i - 1].key()));
            }
        }
        i = i + 1;
    }
    true
}

/// Finds `k` in a sorted vector: its position when present, else its slot.
pub fn locate<T: Keyed>(v: &Vec<T>, k: &str) -> (r: (usize, bool))
    requires
        keys_sorted(v@),
    ensures
        r.1 == has_key(v@, k@),
        r.1 ==> r.0 < v@.len() && v@[r.0 as int].key() == k@ && key_index(v@, k@) == r.0,
        !r.1 ==> is_slot(v@, k@, r.0 as int) && slot(v@, k@) == r.0,
{
    proof {
        lemma_text_order();
    }
    let mut i: usize = 0;
    while i < v.len() && text_less(v[i].key_text(), k)
        invariant
            i <= v@.len(),
            keys_sorted(v@),
            forall|j: int| 0 <= j < i ==> text_lt(#[trigger] v@[j].key(), k@),
        decreases v.len() - i,
    {
        i = i + 1;
    }
    if i < v.len() && !text_less(k, v[i].key_text()) {
        proof {
            lemma_key_index(v@, k@, i as int);
        }
        (i, true)
    } else {
        proof {
            if i < v.len() {
                assert forall|j: int| i <= j < v@.len() implies text_lt(
                    k@,
                    #[trigger] v@[j].key(),
                ) by {
                    if j > i {
                        assert(text_lt(v@[i as int].key(), v@[j].key()));
                    }
                }
            }
            lemma_slot(v@, k@, i as int);
        }
        (i, false)
    }
}

} // verus!

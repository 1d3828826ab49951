//! Searching, sorting and concatenating sequences.
use vstd::prelude::*;

verus! {

/// Index of the first element satisfying `p`.
pub open spec fn first_index<T>(s: Seq<T>, p: spec_fn(T) -> bool) -> Option<int>
    decreases s.len(),
{
    if s.len() == 0 {
        None
    } else if p(s[0]) {
        Some(0)
    } else {
        match first_index(s.drop_first(), p) {
            Some(i) => Some(i + 1),
            None => None,
        }
    }
}

/// Index of the last element satisfying `p`.
pub open spec fn last_index<T>(s: Seq<T>, p: spec_fn(T) -> bool) -> Option<int>
    decreases s.len(),
{
    if s.len() == 0 {
        None
    } else if p(s.last()) {
        Some(s.len() - 1)
    } else {
        last_index(s.drop_last(), p)
    }
}

/// The first of two optional indices that is present.
pub open spec fn or_index(a: Option<int>, b: Option<int>) -> Option<int> {
    match a {
        Some(i) => Some(i),
        None => b,
    }
}

pub proof fn lemma_first_index<T>(s: Seq<T>, p: spec_fn(T) -> bool)
    ensures
        match first_index(s, p) {
            Some(i) => 0 <= i < s.len() && p(s[i]) && forall|j: int| 0 <= j < i ==> !p(#[trigger] s[j]),
            None => forall|j: int| 0 <= j < s.len() ==> !p(#[trigger] s[j]),
        },
    decreases s.len(),
{
    if s.len() > 0 && !p(s[0]) {
        lemma_first_index(s.drop_first(), p);
        assert forall|j: int| 0 < j < s.len() implies s[j] == s.drop_first()[j - 1] by {}
    }
}

pub proof fn lemma_last_index<T>(s: Seq<T>, p: spec_fn(T) -> bool)
    ensures
        match last_index(s, p) {
            Some(i) => 0 <= i < s.len() && p(s[i]) && forall|j: int|
                i < j < s.len() ==> !p(#[trigger] s[j]),
            None => forall|j: int| 0 <= j < s.len() ==> !p(#[trigger] s[j]),
        },
    decreases s.len(),
{
    if s.len() > 0 && !p(s.last()) {
        lemma_last_index(s.drop_last(), p);
        assert forall|j: int| 0 <= j < s.len() - 1 implies s[j] == s.drop_last()[j] by {}
    }
}

/// The first index found by a search is the one `first_index` names.
pub proof fn lemma_first_index_is<T>(s: Seq<T>, p: spec_fn(T) -> bool, i: int)
    requires
        0 <= i <= s.len(),
        i < s.len() ==> p(s[i]),
        forall|j: int| 0 <= j < i ==> !p(#[trigger] s[j]),
    ensures
        first_index(s, p) == (if i < s.len() { Some(i) } else { None::<int> }),
{
    lemma_first_index(s, p);
    match first_index(s, p) {
        Some(k) => {
            if k < i {
                assert(!p(s[k]));
            }
            if k > i && i < s.len() {
                assert(!p(s[i]));
            }
        },
        None => {
            if i < s.len() {
                assert(!p(s[i]));
            }
        },
    }
}

/// The last index found by a search is the one `last_index` names.
pub proof fn lemma_last_index_is<T>(s: Seq<T>, p: spec_fn(T) -> bool, i: int)
    requires
        -1 <= i < s.len(),
        i >= 0 ==> p(s[i]),
        forall|j: int| i < j < s.len() ==> !p(#[trigger] s[j]),
    ensures
        last_index(s, p) == (if i >= 0 { Some(i) } else { None::<int> }),
{
    lemma_last_index(s, p);
    match last_index(s, p) {
        Some(k) => {
            if k > i {
                assert(!p(s[k]));
            }
            if k < i && i >= 0 {
                assert(!p(s[i]));
            }
        },
        None => {
            if i >= 0 {
                assert(!p(s[i]));
            }
        },
    }
}

/// `x` inserted into `s` after every element whose key is at most `x`'s.
pub open spec fn insert_by<T>(s: Seq<T>, x: T, key: spec_fn(T) -> int) -> Seq<T> {
    match first_index(s, |y: T| key(y) > key(x)) {
        Some(i) => s.insert(i, x),
        None => s.push(x),
    }
}

/// The stable sort of `s` by `key`: elements ordered by key, elements of
/// equal key in the order they have in `s`.
pub open spec fn sort_by<T>(s: Seq<T>, key: spec_fn(T) -> int) -> Seq<T>
    decreases s.len(),
{
    if s.len() == 0 {
        s
    } else {
        insert_by(sort_by(s.drop_last(), key), s.last(), key)
    }
}

pub proof fn lemma_sort_by_len<T>(s: Seq<T>, key: spec_fn(T) -> int)
    ensures
        sort_by(s, key).len() == s.len(),
    decreases s.len(),
{
    if s.len() > 0 {
        lemma_sort_by_len(s.drop_last(), key);
        lemma_first_index(sort_by(s.drop_last(), key), |y: T| key(y) > key(s.last()));
    }
}

/// The sorted result is ordered by key.
pub proof fn lemma_sort_by_sorted<T>(s: Seq<T>, key: spec_fn(T) -> int)
    ensures
        forall|i: int, j: int|
            0 <= i < j < sort_by(s, key).len() ==> key(#[trigger] sort_by(s, key)[i]) <= key(
                #[trigger] sort_by(s, key)[j],
            ),
    decreases s.len(),
{
    if s.len() > 0 {
        let t = sort_by(s.drop_last(), key);
        let x = s.last();
        lemma_sort_by_sorted(s.drop_last(), key);
        lemma_first_index(t, |y: T| key(y) > key(x));
        let r = sort_by(s, key);
        assert forall|i: int, j: int| 0 <= i < j < r.len() implies key(#[trigger] r[i]) <= key(
            #[trigger] r[j],
        ) by {
            match first_index(t, |y: T| key(y) > key(x)) {
                Some(k) => {
                    if j < k {
                    } else if j == k {
                        if i > 0 {
                            assert(key(t[i]) <= key(t[k - 1]) || i == k - 1);
                        }
                    } else if i < k {
                        assert(key(t[j - 1]) >= key(t[k]));
                    } else if i == k {
                        assert(key(t[j - 1]) >= key(t[k]));
                    } else {
                        assert(r[i] == t[i - 1]);
                        assert(r[j] == t[j - 1]);
                    }
                },
                None => {},
            }
        }
    }
}

/// Sorting only rearranges: every element of the result is one of `s`.
pub proof fn lemma_sort_by_elements<T>(s: Seq<T>, key: spec_fn(T) -> int)
    ensures
        forall|i: int|
            0 <= i < sort_by(s, key).len() ==> exists|j: int|
                0 <= j < s.len() && #[trigger] sort_by(s, key)[i] == s[j],
    decreases s.len(),
{
    if s.len() > 0 {
        let t = sort_by(s.drop_last(), key);
        let x = s.last();
        lemma_sort_by_elements(s.drop_last(), key);
        lemma_first_index(t, |y: T| key(y) > key(x));
        let r = sort_by(s, key);
        assert forall|i: int| 0 <= i < r.len() implies exists|j: int|
            0 <= j < s.len() && #[trigger] r[i] == s[j] by {
            match first_index(t, |y: T| key(y) > key(x)) {
                Some(k) => {
                    if i < k {
                        let j = choose|j: int| 0 <= j < s.len() - 1 && t[i] == s.drop_last()[j];
                        assert(r[i] == s[j]);
                    } else if i == k {
                        assert(r[i] == s[s.len() - 1]);
                    } else {
                        let j = choose|j: int| 0 <= j < s.len() - 1 && t[i - 1] == s.drop_last()[j];
                        assert(r[i] == s[j]);
                    }
                },
                None => {
                    if i < t.len() {
                        let j = choose|j: int| 0 <= j < s.len() - 1 && t[i] == s.drop_last()[j];
                        assert(r[i] == s[j]);
                    } else {
                        assert(r[i] == s[s.len() - 1]);
                    }
                },
            }
        }
    }
}

/// Concatenation of `f` applied to every element of `s`, in order.
pub open spec fn concat_map<T>(s: Seq<T>, f: spec_fn(T) -> Seq<char>) -> Seq<char>
    decreases s.len(),
{
    if s.len() == 0 {
        Seq::empty()
    } else {
        concat_map(s.drop_last(), f) + f(s.last())
    }
}

/// Concatenation of `f(i)` for `i` in `lo..hi`.
pub open spec fn concat_range(lo: int, hi: int, f: spec_fn(int) -> Seq<char>) -> Seq<char>
    decreases hi - lo,
{
    if hi <= lo {
        Seq::empty()
    } else {
        concat_range(lo, hi - 1, f) + f(hi - 1)
    }
}

} // verus!

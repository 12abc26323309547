//! Stable orderings, given as the permutation of positions that sorts a list.

use vstd::prelude::*;

verus! {

/// Every position below `n` stands in `perm` exactly once.
pub open spec fn is_permutation(perm: Seq<usize>, n: nat) -> bool {
    &&& perm.len() == n
    &&& forall|i: int| 0 <= i < n ==> (#[trigger] perm[i]) < n
    &&& forall|i: int, j: int| 0 <= i < j < n ==> #[trigger] perm[i] != #[trigger] perm[j]
}

/// `perm` lists the positions of `keys` by ascending key, equal keys in their
/// original order.
pub open spec fn ascending(perm: Seq<usize>, keys: Seq<u64>) -> bool {
    forall|i: int, j: int|
        #![trigger perm[i], perm[j]]
        0 <= i < j < perm.len() ==> keys[perm[i] as int] < keys[perm[j] as int] || (
        keys[perm[i] as int] == keys[perm[j] as int] && perm[i] < perm[j])
}

/// `perm` lists the positions of `keys` by descending key, equal keys in their
/// original order.
pub open spec fn descending(perm: Seq<usize>, keys: Seq<u64>) -> bool {
    forall|i: int, j: int|
        #![trigger perm[i], perm[j]]
        0 <= i < j < perm.len() ==> keys[perm[i] as int] > keys[perm[j] as int] || (
        keys[perm[i] as int] == keys[perm[j] as int] && perm[i] < perm[j])
}

/// `items` in the order that `perm` gives.
pub open spec fn permute<T>(items: Seq<T>, perm: Seq<usize>) -> Seq<T> {
    Seq::new(perm.len(), |i: int| items[perm[i] as int])
}

/// The positions of `keys` by ascending key; the sort is stable.
pub fn ascending_order(keys: &Vec<u64>) -> (perm: Vec<usize>)
    ensures
        is_permutation(perm@, keys@.len()),
        ascending(perm@, keys@),
{
    let mut perm: Vec<usize> = Vec::new();
    let mut n: usize = 0;
    while n < keys.len()
        invariant
            n <= keys.len(),
            is_permutation(perm@, n as nat),
            ascending(perm@, keys@),
        decreases keys.len() - n,
    {
        let mut p: usize = perm.len();
        while p > 0 && keys[perm[p - 1]] > keys[n]
            invariant
                p <= perm.len(),
                n < keys.len(),
                is_permutation(perm@, n as nat),
                forall|i: int|
                    p <= i < perm@.len() ==> keys@[(#[trigger] perm@[i]) as int] > keys@[n as int],
            decreases p,
        {
            p = p - 1;
        }
        let ghost before = perm@;
        perm.insert(p, n);
        proof {
            assert(perm@ == before.insert(p as int, n));
            if p > 0 {
                assert forall|i: int| 0 <= i < p implies keys@[(#[trigger] before[i]) as int]
                    <= keys@[n as int] by {
                    let last = before[p - 1];
                }
            }
            assert forall|i: int, j: int| 0 <= i < j < perm@.len() implies #[trigger] perm@[i]
                != #[trigger] perm@[j] by {
                let i0: int = if i < p {
                    i
                } else {
                    i - 1
                };
                let j0: int = if j < p {
                    j
                } else {
                    j - 1
                };
                if i != p && j != p {
                    assert(before[i0] != before[j0]);
                } else if i == p {
                    assert(before[j0] < n);
                } else {
                    assert(before[i0] < n);
                }
            }
            assert forall|i: int, j: int|
                #![trigger perm@[i], perm@[j]]
                0 <= i < j < perm@.len() implies keys@[perm@[i] as int] < keys@[perm@[j] as int]
                || (keys@[perm@[i] as int] == keys@[perm@[j] as int] && perm@[i] < perm@[j]) by {
                let i0: int = if i < p {
                    i
                } else {
                    i - 1
                };
                let j0: int = if j < p {
                    j
                } else {
                    j - 1
                };
                if i != p && j != p {
                    let a = before[i0];
                    let b = before[j0];
                } else if i == p {
                    assert(before[j0] < n);
                } else {
                    assert(before[i0] < n);
                }
            }
        }
        n = n + 1;
    }
    perm
}

/// The positions of `keys` by descending key; the sort is stable.
pub fn descending_order(keys: &Vec<u64>) -> (perm: Vec<usize>)
    ensures
        is_permutation(perm@, keys@.len()),
        descending(perm@, keys@),
{
    let mut flipped: Vec<u64> = Vec::new();
    let mut i: usize = 0;
    while i < keys.len()
        invariant
            i <= keys.len(),
            flipped@.len() == i,
            forall|j: int| 0 <= j < i ==> #[trigger] flipped@[j] == u64::MAX - keys@[j],
        decreases keys.len() - i,
    {
        flipped.push(u64::MAX - keys[i]);
        i = i + 1;
    }
    let perm = ascending_order(&flipped);
    proof {
        assert forall|i: int, j: int|
            #![trigger perm@[i], perm@[j]]
            0 <= i < j < perm@.len() implies keys@[perm@[i] as int] > keys@[perm@[j] as int] || (
        keys@[perm@[i] as int] == keys@[perm@[j] as int] && perm@[i] < perm@[j]) by {
            assert(flipped@[perm@[i] as int] == u64::MAX - keys@[perm@[i] as int]);
            assert(flipped@[perm@[j] as int] == u64::MAX - keys@[perm@[j] as int]);
        }
    }
    perm
}

/// Two orderings of the same keys are the same ordering.
pub proof fn law_ascending_unique(a: Seq<usize>, b: Seq<usize>, keys: Seq<u64>)
    requires
        is_permutation(a, keys.len()),
        is_permutation(b, keys.len()),
        ascending(a, keys),
        ascending(b, keys),
    ensures
        a == b,
    decreases keys.len(),
{
    assert forall|i: int| 0 <= i < a.len() implies a[i] == b[i] by {
        lemma_ascending_agree(a, b, keys, i);
    }
    assert(a =~= b);
}

/// Positions that stand in neither ordering's first `n` places, and that the
/// two orderings disagree on, cannot exist.
proof fn lemma_ascending_agree(a: Seq<usize>, b: Seq<usize>, keys: Seq<u64>, n: int)
    requires
        is_permutation(a, keys.len()),
        is_permutation(b, keys.len()),
        ascending(a, keys),
        ascending(b, keys),
        0 <= n < keys.len(),
    ensures
        a[n] == b[n],
    decreases n,
{
    assert forall|i: int| 0 <= i < n implies a[i] == b[i] by {
        lemma_ascending_agree(a, b, keys, i);
    }
    lemma_permutation_covers(a, keys.len(), b[n] as int);
    lemma_permutation_covers(b, keys.len(), a[n] as int);
    let i = choose|i: int| 0 <= i < a.len() && a[i] == b[n];
    let j = choose|j: int| 0 <= j < b.len() && b[j] == a[n];
    if i < n {
        assert(b[i] == b[n]);
    }
    if j < n {
        assert(a[j] == a[n]);
    }
    if i > n && j > n {
        assert(a[n] != a[i]);
        assert(b[n] != b[j]);
    }
}

/// Every position below the length occurs in a permutation.
pub proof fn lemma_permutation_covers(perm: Seq<usize>, n: nat, x: int)
    requires
        is_permutation(perm, n),
        0 <= x < n,
    ensures
        exists|i: int| 0 <= i < perm.len() && (#[trigger] perm[i]) as int == x,
{
    let image = perm.map_values(|p: usize| p as int);
    let all = vstd::set_lib::set_int_range(0, n as int);
    vstd::set_lib::lemma_int_range(0, n as int);
    assert(image.no_duplicates()) by {
        assert forall|i: int, j: int| 0 <= i < image.len() && 0 <= j < image.len() && i
            != j implies image[i] != image[j] by {
            if i < j {
                assert(perm[i] != perm[j]);
            } else {
                assert(perm[j] != perm[i]);
            }
        }
    }
    image.unique_seq_to_set();
    assert(image.to_set().subset_of(all)) by {
        assert forall|v: int| image.to_set().contains(v) implies all.contains(v) by {
            let k = choose|k: int| 0 <= k < image.len() && image[k] == v;
            assert(perm[k] < n);
        }
    }
    vstd::set_lib::lemma_subset_equality(image.to_set(), all);
    assert(all.contains(x));
    assert(image.to_set().contains(x));
    let k = choose|k: int| 0 <= k < image.len() && image[k] == x;
    assert(perm[k] as int == x);
}

/// Whether `a` stands before `b` in the order of their characters.
pub open spec fn text_less(a: Seq<char>, b: Seq<char>) -> bool
    decreases b.len(),
{
    if b.len() == 0 {
        false
    } else if a.len() == 0 {
        true
    } else if a[0] != b[0] {
        a[0] < b[0]
    } else {
        text_less(a.skip(1), b.skip(1))
    }
}

/// Of two texts one stands before the other, unless they are the same.
proof fn lemma_text_total(a: Seq<char>, b: Seq<char>)
    ensures
        a == b ==> !text_less(a, b),
        a != b ==> text_less(a, b) != text_less(b, a),
    decreases b.len(),
{
    if a.len() > 0 && b.len() > 0 && a[0] == b[0] {
        lemma_text_total(a.skip(1), b.skip(1));
        if a.skip(1) == b.skip(1) {
            assert(a =~= seq![a[0]] + a.skip(1));
            assert(b =~= seq![b[0]] + b.skip(1));
        }
    } else if a.len() == 0 && b.len() == 0 {
        assert(a =~= b);
    }
}

proof fn lemma_text_transitive(a: Seq<char>, b: Seq<char>, c: Seq<char>)
    requires
        text_less(a, b),
        text_less(b, c),
    ensures
        text_less(a, c),
    decreases c.len(),
{
    if a.len() > 0 && a[0] == b[0] && b[0] == c[0] {
        lemma_text_transitive(a.skip(1), b.skip(1), c.skip(1));
    }
}

fn is_text_less(a: &Vec<char>, b: &Vec<char>) -> (r: bool)
    ensures
        r == text_less(a@, b@),
{
    let mut i: usize = 0;
    assert(a@.skip(0) =~= a@);
    assert(b@.skip(0) =~= b@);
    while i < a.len() && i < b.len() && a[i] == b[i]
        invariant
            i <= a@.len(),
            i <= b@.len(),
            text_less(a@, b@) == text_less(a@.skip(i as int), b@.skip(i as int)),
        decreases a@.len() - i,
    {
        assert(a@.skip(i as int).skip(1) =~= a@.skip(i + 1));
        assert(b@.skip(i as int).skip(1) =~= b@.skip(i + 1));
        i = i + 1;
    }
    if i == b.len() {
        false
    } else if i == a.len() {
        true
    } else {
        a[i] < b[i]
    }
}

/// `perm` lists the positions of `keys` in the order of the texts, equal texts
/// in their original order.
pub open spec fn text_ascending(perm: Seq<usize>, keys: Seq<Seq<char>>) -> bool {
    forall|i: int, j: int|
        #![trigger perm[i], perm[j]]
        0 <= i < j < perm.len() ==> text_less(keys[perm[i] as int], keys[perm[j] as int]) || (
        keys[perm[i] as int] == keys[perm[j] as int] && perm[i] < perm[j])
}

/// The positions of `keys` in the order of the texts; the sort is stable.
pub fn text_order(keys: &Vec<Vec<char>>) -> (perm: Vec<usize>)
    ensures
        is_permutation(perm@, keys@.len()),
        text_ascending(perm@, keys@.map_values(|k: Vec<char>| k@)),
{
    let ghost texts = keys@.map_values(|k: Vec<char>| k@);
    let mut perm: Vec<usize> = Vec::new();
    let mut n: usize = 0;
    while n < keys.len()
        invariant
            n <= keys.len(),
            texts == keys@.map_values(|k: Vec<char>| k@),
            is_permutation(perm@, n as nat),
            text_ascending(perm@, texts),
        decreases keys.len() - n,
    {
        let mut p: usize = perm.len();
        while p > 0 && is_text_less(&keys[n], &keys[perm[p - 1]])
            invariant
                p <= perm.len(),
                n < keys.len(),
                texts == keys@.map_values(|k: Vec<char>| k@),
                is_permutation(perm@, n as nat),
                forall|i: int|
                    p <= i < perm@.len() ==> text_less(
                        texts[n as int],
                        texts[(#[trigger] perm@[i]) as int],
                    ),
            decreases p,
        {
            p = p - 1;
        }
        let ghost before = perm@;
        let ghost key = texts[n as int];
        perm.insert(p, n);
        proof {
            assert(perm@ == before.insert(p as int, n));
            if p > 0 {
                let last = texts[before[p - 1] as int];
                assert(!text_less(key, last));
                lemma_text_total(key, last);
                assert forall|i: int| 0 <= i < p implies text_less(
                    texts[(#[trigger] before[i]) as int],
                    key,
                ) || texts[before[i] as int] == key by {
                    if i < p - 1 {
                        let t = texts[before[i] as int];
                        let l = before[p - 1];
                        if text_less(t, last) && text_less(last, key) {
                            lemma_text_transitive(t, last, key);
                        }
                    }
                }
            }
            assert forall|i: int, j: int| 0 <= i < j < perm@.len() implies #[trigger] perm@[i]
                != #[trigger] perm@[j] by {
                let i0: int = if i < p {
                    i
                } else {
                    i - 1
                };
                let j0: int = if j < p {
                    j
                } else {
                    j - 1
                };
                if i != p && j != p {
                    assert(before[i0] != before[j0]);
                } else if i == p {
                    assert(before[j0] < n);
                } else {
                    assert(before[i0] < n);
                }
            }
            assert forall|i: int, j: int|
                #![trigger perm@[i], perm@[j]]
                0 <= i < j < perm@.len() implies text_less(
                texts[perm@[i] as int],
                texts[perm@[j] as int],
            ) || (texts[perm@[i] as int] == texts[perm@[j] as int] && perm@[i] < perm@[j]) by {
                let i0: int = if i < p {
                    i
                } else {
                    i - 1
                };
                let j0: int = if j < p {
                    j
                } else {
                    j - 1
                };
                if i != p && j != p {
                    let a = before[i0];
                    let b = before[j0];
                } else if i == p {
                    assert(before[j0] < n);
                } else {
                    assert(before[i0] < n);
                }
            }
        }
        n = n + 1;
    }
    perm
}

/// Two orderings of the same texts are the same ordering.
pub proof fn law_text_order_unique(a: Seq<usize>, b: Seq<usize>, keys: Seq<Seq<char>>)
    requires
        is_permutation(a, keys.len()),
        is_permutation(b, keys.len()),
        text_ascending(a, keys),
        text_ascending(b, keys),
    ensures
        a == b,
{
    assert forall|i: int| 0 <= i < a.len() implies a[i] == b[i] by {
        lemma_text_order_agree(a, b, keys, i);
    }
    assert(a =~= b);
}

proof fn lemma_text_order_agree(a: Seq<usize>, b: Seq<usize>, keys: Seq<Seq<char>>, n: int)
    requires
        is_permutation(a, keys.len()),
        is_permutation(b, keys.len()),
        text_ascending(a, keys),
        text_ascending(b, keys),
        0 <= n < keys.len(),
    ensures
        a[n] == b[n],
    decreases n,
{
    assert forall|i: int| 0 <= i < n implies a[i] == b[i] by {
        lemma_text_order_agree(a, b, keys, i);
    }
    lemma_permutation_covers(a, keys.len(), b[n] as int);
    lemma_permutation_covers(b, keys.len(), a[n] as int);
    let i = choose|i: int| 0 <= i < a.len() && a[i] == b[n];
    let j = choose|j: int| 0 <= j < b.len() && b[j] == a[n];
    if i < n {
        assert(b[i] == b[n]);
    }
    if j < n {
        assert(a[j] == a[n]);
    }
    if i > n && j > n {
        assert(a[n] != a[i]);
        assert(b[n] != b[j]);
        lemma_text_total(keys[a[n] as int], keys[b[n] as int]);
    }
}

/// Texts are ordered by their first character that differs, and a text that another
/// continues comes first.
pub proof fn law_texts_are_ordered_by_first_difference(
    common: Seq<char>,
    x: char,
    y: char,
    a: Seq<char>,
    b: Seq<char>,
)
    requires
        x < y,
    ensures
        text_less(common + seq![x] + a, common + seq![y] + b),
        !text_less(common + seq![y] + b, common + seq![x] + a),
        text_less(common, common + seq![y] + b),
        !text_less(common + seq![y] + b, common),
        !text_less(common, common),
    decreases common.len(),
{
    let s = common + seq![x] + a;
    let t = common + seq![y] + b;
    if common.len() == 0 {
        assert(s[0] == x && t[0] == y);
        assert(common == Seq::<char>::empty());
    } else {
        let rest = common.skip(1);
        law_texts_are_ordered_by_first_difference(rest, x, y, a, b);
        assert(s[0] == common[0] && t[0] == common[0]);
        assert(s.skip(1) == rest + seq![x] + a);
        assert(t.skip(1) == rest + seq![y] + b);
    }
}

} // verus!

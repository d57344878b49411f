//! Sorted listings of the keys of a table: strings in code-point order and
//! integers in numeric order, each key once.
use vstd::prelude::*;
use crate::lexorder::{lex_lt, lemma_lex_total, lemma_lex_trans, less};
use crate::text::{chars_of, views};

verus! {

/// `s` holds exactly the members of `keys`, each once, in strictly
/// increasing code-point order.
pub open spec fn is_sorted_listing(s: Seq<Seq<char>>, keys: Set<Seq<char>>) -> bool {
    &&& forall|x: Seq<char>| s.contains(x) <==> keys.contains(x)
    &&& forall|i: int, j: int| 0 <= i < j < s.len() ==> lex_lt(#[trigger] s[i], #[trigger] s[j])
}

/// The members of `keys` in code-point order.
pub open spec fn sorted_listing(keys: Set<Seq<char>>) -> Seq<Seq<char>> {
    choose|s: Seq<Seq<char>>| is_sorted_listing(s, keys)
}

proof fn lemma_listing_prefix(a: Seq<Seq<char>>, b: Seq<Seq<char>>, keys: Set<Seq<char>>, i: int)
    requires
        is_sorted_listing(a, keys),
        is_sorted_listing(b, keys),
        0 <= i,
        forall|m: int| 0 <= m < i && m < a.len() && m < b.len() ==> a[m] == b[m],
    ensures
        forall|m: int| 0 <= m < a.len() && m < b.len() ==> a[m] == b[m],
    decreases a.len() - i,
{
    if i < a.len() && i < b.len() {
        assert(keys.contains(a[i]));
        assert(b.contains(a[i]));
        let j = choose|j: int| 0 <= j < b.len() && b[j] == a[i];
        assert(a.contains(b[i]));
        let k = choose|k: int| 0 <= k < a.len() && a[k] == b[i];
        lemma_lex_total(a[i], a[i]);
        lemma_lex_total(b[i], b[i]);
        lemma_lex_total(a[i], b[i]);
        if j < i {
            assert(a[j] == b[j]);
            assert(lex_lt(a[j], a[i]));
            assert(false);
        }
        if k < i {
            assert(a[k] == b[k]);
            assert(lex_lt(b[k], b[i]));
            assert(false);
        }
        if j > i && k > i {
            assert(lex_lt(b[i], b[j]));
            assert(lex_lt(a[i], a[k]));
            assert(false);
        }
        assert(a[i] == b[i]);
        assert forall|m: int| 0 <= m < i + 1 && m < a.len() && m < b.len() implies a[m] == b[m] by {
            if m < i {
            }
        }
        lemma_listing_prefix(a, b, keys, i + 1);
    }
}

/// Law: a set of strings has only one sorted listing.
pub proof fn lemma_sorted_listing_unique(a: Seq<Seq<char>>, b: Seq<Seq<char>>, keys: Set<Seq<char>>)
    requires
        is_sorted_listing(a, keys),
        is_sorted_listing(b, keys),
    ensures
        a == b,
{
    lemma_listing_prefix(a, b, keys, 0);
    if a.len() > b.len() {
        let x = a[b.len() as int];
        assert(keys.contains(x));
        assert(b.contains(x));
        let j = choose|j: int| 0 <= j < b.len() && b[j] == x;
        assert(a[j] == b[j]);
        assert(lex_lt(a[j], a[b.len() as int]));
        lemma_lex_total(x, x);
    } else if b.len() > a.len() {
        let x = b[a.len() as int];
        assert(keys.contains(x));
        assert(a.contains(x));
        let j = choose|j: int| 0 <= j < a.len() && a[j] == x;
        assert(a[j] == b[j]);
        assert(lex_lt(b[j], b[a.len() as int]));
        lemma_lex_total(x, x);
    }
    assert(a =~= b);
}

/// Whether `a` comes strictly before `b` in code-point order, the order of
/// `String`'s comparison.
pub fn str_less(a: &str, b: &str) -> (res: bool)
    ensures
        res == lex_lt(a@, b@),
{
    let ca = chars_of(a);
    let cb = chars_of(b);
    less(ca.as_slice(), cb.as_slice())
}

/// The strings of `items`, sorted in code-point order. The items are
/// pairwise distinct.
pub fn sort_strings(items: &Vec<String>) -> (res: Vec<String>)
    requires
        forall|i: int, j: int| 0 <= i < j < items@.len() ==> items@[i]@ != items@[j]@,
    ensures
        is_sorted_listing(views(res@), views(items@).to_set()),
        views(res@) == sorted_listing(views(items@).to_set()),
{
    let n = items.len();
    let mut res: Vec<String> = Vec::new();
    let mut i: usize = 0;
    while i < n
        invariant
            n == items@.len(),
            i <= n,
            forall|a: int, b: int| 0 <= a < b < items@.len() ==> items@[a]@ != items@[b]@,
            forall|x: Seq<char>|
                views(res@).contains(x) <==> exists|j: int| 0 <= j < i && items@[j]@ == x,
            forall|a: int, b: int|
                0 <= a < b < res@.len() ==> lex_lt(#[trigger] res@[a]@, #[trigger] res@[b]@),
        decreases n - i,
    {
        let item = items[i].clone();
        let mut k: usize = 0;
        while k < res.len() && str_less(res[k].as_str(), item.as_str())
            invariant
                k <= res@.len(),
                forall|a: int| 0 <= a < k ==> lex_lt(#[trigger] res@[a]@, item@),
            decreases res@.len() - k,
        {
            k = k + 1;
        }
        proof {
            assert(!views(res@).contains(item@)) by {
                if views(res@).contains(item@) {
                    let j = choose|j: int| 0 <= j < i && items@[j]@ == item@;
                    assert(items@[j]@ != items@[i as int]@);
                }
            }
            if k < res@.len() {
                assert(views(res@)[k as int] == res@[k as int]@);
                lemma_lex_total(res@[k as int]@, item@);
                assert(lex_lt(item@, res@[k as int]@));
                assert forall|b: int| k <= b < res@.len() implies lex_lt(item@, #[trigger] res@[b]@) by {
                    if b > k {
                        lemma_lex_trans(item@, res@[k as int]@, res@[b]@);
                    }
                }
            }
        }
        let ghost old_res = res@;
        res.insert(k, item);
        proof {
            assert forall|a: int, b: int|
                0 <= a < b < res@.len() implies lex_lt(#[trigger] res@[a]@, #[trigger] res@[b]@) by {
                if a < k && b == k {
                } else if a < k && b > k {
                    assert(res@[b] == old_res[b - 1]);
                    assert(lex_lt(old_res[a]@, old_res[b - 1]@));
                } else if a == k {
                    assert(res@[b] == old_res[b - 1]);
                } else if a > k {
                    assert(res@[a] == old_res[a - 1]);
                    assert(res@[b] == old_res[b - 1]);
                }
            }
            assert forall|x: Seq<char>|
                views(res@).contains(x) <==> exists|j: int| 0 <= j < i + 1 && items@[j]@ == x by {
                if views(res@).contains(x) {
                    let p = choose|p: int| 0 <= p < views(res@).len() && views(res@)[p] == x;
                    if p < k {
                        assert(views(old_res)[p] == x);
                        assert(views(old_res).contains(x));
                    } else if p > k {
                        assert(views(old_res)[p - 1] == x);
                        assert(views(old_res).contains(x));
                    }
                }
                if exists|j: int| 0 <= j < i + 1 && items@[j]@ == x {
                    let j = choose|j: int| 0 <= j < i + 1 && items@[j]@ == x;
                    if j < i {
                        assert(views(old_res).contains(x));
                        let p = choose|p: int| 0 <= p < views(old_res).len() && views(old_res)[p] == x;
                        if p < k {
                            assert(views(res@)[p] == x);
                        } else {
                            assert(views(res@)[p + 1] == x);
                        }
                    } else {
                        assert(views(res@)[k as int] == x);
                    }
                }
            }
        }
        i = i + 1;
    }
    proof {
        let s = views(res@);
        let keys = views(items@).to_set();
        assert forall|x: Seq<char>| s.contains(x) <==> keys.contains(x) by {
            if exists|j: int| 0 <= j < n && items@[j]@ == x {
                let j = choose|j: int| 0 <= j < n && items@[j]@ == x;
                assert(views(items@)[j] == x);
            }
            if keys.contains(x) {
                let j = choose|j: int| 0 <= j < views(items@).len() && views(items@)[j] == x;
                assert(items@[j]@ == x);
            }
        }
        assert forall|a: int, b: int| 0 <= a < b < s.len() implies lex_lt(#[trigger] s[a], #[trigger] s[b]) by {
            assert(s[a] == res@[a]@ && s[b] == res@[b]@);
        }
        assert(is_sorted_listing(s, keys));
        lemma_sorted_listing_unique(s, sorted_listing(keys), keys);
    }
    res
}

/// `s` holds exactly the members of `keys`, each once, in strictly
/// increasing order.
pub open spec fn is_sorted_number_listing(s: Seq<u64>, keys: Set<u64>) -> bool {
    &&& forall|x: u64| s.contains(x) <==> keys.contains(x)
    &&& forall|i: int, j: int| 0 <= i < j < s.len() ==> #[trigger] s[i] < #[trigger] s[j]
}

/// The members of `keys` in increasing order.
pub open spec fn sorted_numbers(keys: Set<u64>) -> Seq<u64> {
    choose|s: Seq<u64>| is_sorted_number_listing(s, keys)
}

proof fn lemma_number_listing_prefix(a: Seq<u64>, b: Seq<u64>, keys: Set<u64>, i: int)
    requires
        is_sorted_number_listing(a, keys),
        is_sorted_number_listing(b, keys),
        0 <= i,
        forall|m: int| 0 <= m < i && m < a.len() && m < b.len() ==> a[m] == b[m],
    ensures
        forall|m: int| 0 <= m < a.len() && m < b.len() ==> a[m] == b[m],
    decreases a.len() - i,
{
    if i < a.len() && i < b.len() {
        assert(keys.contains(a[i]));
        assert(b.contains(a[i]));
        let j = choose|j: int| 0 <= j < b.len() && b[j] == a[i];
        assert(a.contains(b[i]));
        let k = choose|k: int| 0 <= k < a.len() && a[k] == b[i];
        if j < i {
            assert(a[j] == b[j]);
            assert(a[j] < a[i]);
        }
        if k < i {
            assert(a[k] == b[k]);
            assert(b[k] < b[i]);
        }
        if j > i && k > i {
            assert(b[i] < b[j]);
            assert(a[i] < a[k]);
        }
        assert(a[i] == b[i]);
        assert forall|m: int| 0 <= m < i + 1 && m < a.len() && m < b.len() implies a[m] == b[m] by {
            if m < i {
            }
        }
        lemma_number_listing_prefix(a, b, keys, i + 1);
    }
}

/// Law: a set of numbers has only one sorted listing.
pub proof fn lemma_sorted_numbers_unique(a: Seq<u64>, b: Seq<u64>, keys: Set<u64>)
    requires
        is_sorted_number_listing(a, keys),
        is_sorted_number_listing(b, keys),
    ensures
        a == b,
{
    lemma_number_listing_prefix(a, b, keys, 0);
    if a.len() > b.len() {
        let x = a[b.len() as int];
        assert(keys.contains(x));
        assert(b.contains(x));
        let j = choose|j: int| 0 <= j < b.len() && b[j] == x;
        assert(a[j] == b[j]);
        assert(a[j] < a[b.len() as int]);
    } else if b.len() > a.len() {
        let x = b[a.len() as int];
        assert(keys.contains(x));
        assert(a.contains(x));
        let j = choose|j: int| 0 <= j < a.len() && a[j] == x;
        assert(a[j] == b[j]);
        assert(b[j] < b[a.len() as int]);
    }
    assert(a =~= b);
}

/// The numbers of `items`, pairwise distinct, in increasing order.
pub fn sort_numbers(items: &Vec<u64>) -> (res: Vec<u64>)
    requires
        forall|i: int, j: int| 0 <= i < j < items@.len() ==> items@[i] != items@[j],
    ensures
        is_sorted_number_listing(res@, items@.to_set()),
        res@ == sorted_numbers(items@.to_set()),
{
    let n = items.len();
    let mut res: Vec<u64> = Vec::new();
    let mut i: usize = 0;
    while i < n
        invariant
            n == items@.len(),
            i <= n,
            forall|a: int, b: int| 0 <= a < b < items@.len() ==> items@[a] != items@[b],
            forall|x: u64| res@.contains(x) <==> exists|j: int| 0 <= j < i && items@[j] == x,
            forall|a: int, b: int| 0 <= a < b < res@.len() ==> #[trigger] res@[a] < #[trigger] res@[b],
        decreases n - i,
    {
        let item = items[i];
        let mut k: usize = 0;
        while k < res.len() && res[k] < item
            invariant
                k <= res@.len(),
                forall|a: int| 0 <= a < k ==> #[trigger] res@[a] < item,
            decreases res@.len() - k,
        {
            k = k + 1;
        }
        proof {
            assert(!res@.contains(item)) by {
                if res@.contains(item) {
                    let j = choose|j: int| 0 <= j < i && items@[j] == item;
                    assert(items@[j] != items@[i as int]);
                }
            }
            if k < res@.len() {
                assert(res@[k as int] != item);
            }
        }
        let ghost old_res = res@;
        res.insert(k, item);
        proof {
            assert forall|a: int, b: int| 0 <= a < b < res@.len() implies #[trigger] res@[a] < #[trigger] res@[b] by {
                if a < k && b > k {
                    assert(res@[b] == old_res[b - 1]);
                    assert(old_res[a] < old_res[b - 1]);
                } else if a == k && b > k {
                    assert(res@[b] == old_res[b - 1]);
                    assert(old_res[k as int] <= old_res[b - 1]);
                } else if a > k {
                    assert(res@[a] == old_res[a - 1]);
                    assert(res@[b] == old_res[b - 1]);
                }
            }
            assert forall|x: u64| res@.contains(x) <==> exists|j: int| 0 <= j < i + 1 && items@[j] == x by {
                if res@.contains(x) {
                    let p = choose|p: int| 0 <= p < res@.len() && res@[p] == x;
                    if p < k {
                        assert(old_res[p] == x);
                        assert(old_res.contains(x));
                    } else if p > k {
                        assert(old_res[p - 1] == x);
                        assert(old_res.contains(x));
                    }
                }
                if exists|j: int| 0 <= j < i + 1 && items@[j] == x {
                    let j = choose|j: int| 0 <= j < i + 1 && items@[j] == x;
                    if j < i {
                        assert(old_res.contains(x));
                        let p = choose|p: int| 0 <= p < old_res.len() && old_res[p] == x;
                        if p < k {
                            assert(res@[p] == x);
                        } else {
                            assert(res@[p + 1] == x);
                        }
                    } else {
                        assert(res@[k as int] == x);
                    }
                }
            }
        }
        i = i + 1;
    }
    proof {
        let keys = items@.to_set();
        assert forall|x: u64| res@.contains(x) <==> keys.contains(x) by {
            if keys.contains(x) {
                let j = choose|j: int| 0 <= j < items@.len() && items@[j] == x;
            }
        }
        lemma_sorted_numbers_unique(res@, sorted_numbers(keys), keys);
    }
    res
}

} // verus!

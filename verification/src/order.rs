//! Lexicographic order on texts and on keys made of several texts, and a stable sort by key.

use vstd::prelude::*;

verus! {

/// `a` comes no later than `b` when texts are compared character by character, by code point;
/// a proper prefix comes first.
pub open spec fn text_le(a: Seq<char>, b: Seq<char>) -> bool
    decreases a.len(),
{
    if a.len() == 0 {
        true
    } else if b.len() == 0 {
        false
    } else if a[0] != b[0] {
        (a[0] as int) < (b[0] as int)
    } else {
        text_le(a.drop_first(), b.drop_first())
    }
}

/// `a` comes no later than `b` when keys are compared text by text, each by [`text_le`].
pub open spec fn key_le(a: Seq<Seq<char>>, b: Seq<Seq<char>>) -> bool
    decreases a.len(),
{
    if a.len() == 0 {
        true
    } else if b.len() == 0 {
        false
    } else if a[0] != b[0] {
        text_le(a[0], b[0])
    } else {
        key_le(a.drop_first(), b.drop_first())
    }
}

/// Of two texts one comes no later than the other.
pub proof fn lemma_text_le_total(a: Seq<char>, b: Seq<char>)
    ensures
        text_le(a, b) || text_le(b, a),
    decreases a.len(),
{
    if a.len() > 0 && b.len() > 0 && a[0] == b[0] {
        lemma_text_le_total(a.drop_first(), b.drop_first());
    }
}

/// A text comes no later than itself.
pub proof fn lemma_text_le_refl(a: Seq<char>)
    ensures
        text_le(a, a),
    decreases a.len(),
{
    if a.len() > 0 {
        lemma_text_le_refl(a.drop_first());
    }
}

/// Two texts that each come no later than the other are the same text.
pub proof fn lemma_text_le_antisym(a: Seq<char>, b: Seq<char>)
    requires
        text_le(a, b),
        text_le(b, a),
    ensures
        a == b,
    decreases a.len(),
{
    if a.len() > 0 && b.len() > 0 {
        lemma_text_le_antisym(a.drop_first(), b.drop_first());
        assert(a =~= seq![a[0]] + a.drop_first());
        assert(b =~= seq![b[0]] + b.drop_first());
    } else {
        assert(a =~= b);
    }
}

/// The order on texts is transitive.
pub proof fn lemma_text_le_trans(a: Seq<char>, b: Seq<char>, c: Seq<char>)
    requires
        text_le(a, b),
        text_le(b, c),
    ensures
        text_le(a, c),
    decreases a.len(),
{
    if a.len() > 0 && b.len() > 0 && c.len() > 0 && a[0] == b[0] && b[0] == c[0] {
        lemma_text_le_trans(a.drop_first(), b.drop_first(), c.drop_first());
    }
}

/// Of two keys one comes no later than the other.
pub proof fn lemma_key_le_total(a: Seq<Seq<char>>, b: Seq<Seq<char>>)
    ensures
        key_le(a, b) || key_le(b, a),
    decreases a.len(),
{
    if a.len() > 0 && b.len() > 0 {
        if a[0] == b[0] {
            lemma_key_le_total(a.drop_first(), b.drop_first());
        } else {
            lemma_text_le_total(a[0], b[0]);
        }
    }
}

/// A key comes no later than itself.
pub proof fn lemma_key_le_refl(a: Seq<Seq<char>>)
    ensures
        key_le(a, a),
    decreases a.len(),
{
    if a.len() > 0 {
        lemma_key_le_refl(a.drop_first());
    }
}

/// The order on keys is transitive.
pub proof fn lemma_key_le_trans(a: Seq<Seq<char>>, b: Seq<Seq<char>>, c: Seq<Seq<char>>)
    requires
        key_le(a, b),
        key_le(b, c),
    ensures
        key_le(a, c),
    decreases a.len(),
{
    if a.len() > 0 && b.len() > 0 && c.len() > 0 {
        if a[0] == b[0] && b[0] == c[0] {
            lemma_key_le_trans(a.drop_first(), b.drop_first(), c.drop_first());
        } else if a[0] == b[0] {
        } else if b[0] == c[0] {
        } else {
            lemma_text_le_trans(a[0], b[0], c[0]);
            if a[0] == c[0] {
                lemma_text_le_antisym(a[0], b[0]);
            }
        }
    }
}

/// Two keys that each come no later than the other are the same key.
pub proof fn lemma_key_le_antisym(a: Seq<Seq<char>>, b: Seq<Seq<char>>)
    requires
        key_le(a, b),
        key_le(b, a),
    ensures
        a == b,
    decreases a.len(),
{
    if a.len() > 0 && b.len() > 0 {
        if a[0] != b[0] {
            lemma_text_le_antisym(a[0], b[0]);
        }
        lemma_key_le_antisym(a.drop_first(), b.drop_first());
        assert(a =~= seq![a[0]] + a.drop_first());
        assert(b =~= seq![b[0]] + b.drop_first());
    } else {
        assert(a =~= b);
    }
}

/// The code point of `c`.
pub fn code_point(c: char) -> (n: u32)
    ensures
        n as int == c as int,
{
    c as u32
}

/// Decides [`text_le`].
pub fn text_no_later(a: &Vec<char>, b: &Vec<char>) -> (r: bool)
    ensures
        r == text_le(a@, b@),
{
    let mut i: usize = 0;
    assert(a@.skip(0) =~= a@ && b@.skip(0) =~= b@);
    while i < a.len() && i < b.len() && a[i] == b[i]
        invariant
            i <= a.len(),
            i <= b.len(),
            text_le(a@, b@) == text_le(a@.skip(i as int), b@.skip(i as int)),
        decreases a.len() - i,
    {
        assert(a@.skip(i as int).drop_first() =~= a@.skip(i as int + 1));
        assert(b@.skip(i as int).drop_first() =~= b@.skip(i as int + 1));
        i = i + 1;
    }
    let ghost ra = a@.skip(i as int);
    let ghost rb = b@.skip(i as int);
    assert(ra.len() == a.len() - i && rb.len() == b.len() - i);
    if i >= a.len() {
        true
    } else if i >= b.len() {
        false
    } else {
        assert(ra[0] == a[i as int] && rb[0] == b[i as int]);
        code_point(a[i]) < code_point(b[i])
    }
}


/// The texts that a vector of character vectors holds.
pub open spec fn texts(v: Seq<Vec<char>>) -> Seq<Seq<char>> {
    Seq::new(v.len(), |i: int| v[i]@)
}

/// The keys that a vector of keys holds, each as a sequence of texts.
pub open spec fn keys_of(v: Seq<Vec<Vec<char>>>) -> Seq<Seq<Seq<char>>> {
    Seq::new(v.len(), |i: int| texts(v[i]@))
}

/// Decides [`key_le`].
pub fn key_no_later(a: &Vec<Vec<char>>, b: &Vec<Vec<char>>) -> (r: bool)
    ensures
        r == key_le(texts(a@), texts(b@)),
{
    let ghost ta = texts(a@);
    let ghost tb = texts(b@);
    let mut i: usize = 0;
    assert(ta.skip(0) =~= ta && tb.skip(0) =~= tb);
    while i < a.len() && i < b.len()
        invariant
            i <= a.len(),
            i <= b.len(),
            ta == texts(a@),
            tb == texts(b@),
            key_le(ta, tb) == key_le(ta.skip(i as int), tb.skip(i as int)),
        decreases a.len() - i,
    {
        let ghost ra = ta.skip(i as int);
        let ghost rb = tb.skip(i as int);
        assert(ra[0] == a[i as int]@ && rb[0] == b[i as int]@);
        let le = text_no_later(&a[i], &b[i]);
        let ge = text_no_later(&b[i], &a[i]);
        if !(le && ge) {
            proof {
                if ra[0] == rb[0] {
                    lemma_text_le_refl(ra[0]);
                }
            }
            return le;
        }
        proof {
            lemma_text_le_antisym(ra[0], rb[0]);
            assert(ra.drop_first() =~= ta.skip(i as int + 1));
            assert(rb.drop_first() =~= tb.skip(i as int + 1));
        }
        i = i + 1;
    }
    assert(ta.skip(i as int).len() == a.len() - i && tb.skip(i as int).len() == b.len() - i);
    i >= a.len()
}

/// `v` stands somewhere in `perm`.
pub open spec fn lists(perm: Seq<usize>, v: int) -> bool {
    exists|i: int| 0 <= i < perm.len() && perm[i] == v
}

/// `perm` lists each of the indices below `n` once.
pub open spec fn is_permutation(perm: Seq<usize>, n: nat) -> bool {
    &&& perm.len() == n
    &&& forall|i: int| 0 <= i < perm.len() ==> (#[trigger] perm[i]) < n
    &&& forall|i: int, j: int| 0 <= i < j < perm.len() ==> perm[i] != perm[j]
    &&& forall|v: int| 0 <= v < n ==> lists(perm, v)
}

/// Taken in the order of `perm`, the keys never decrease, and keys that are equal keep the
/// order that they have in `keys`.
pub open spec fn stably_sorted(keys: Seq<Seq<Seq<char>>>, perm: Seq<usize>) -> bool {
    forall|i: int, j: int|
        0 <= i < j < perm.len() ==> {
            &&& key_le(keys[#[trigger] perm[i] as int], keys[#[trigger] perm[j] as int])
            &&& keys[perm[i] as int] == keys[perm[j] as int] ==> perm[i] < perm[j]
        }
}

proof fn lemma_same_prefix(keys: Seq<Seq<Seq<char>>>, p: Seq<usize>, q: Seq<usize>, n: int)
    requires
        is_permutation(p, keys.len()),
        is_permutation(q, keys.len()),
        stably_sorted(keys, p),
        stably_sorted(keys, q),
        0 <= n <= keys.len(),
    ensures
        forall|k: int| 0 <= k < n ==> p[k] == q[k],
    decreases n,
{
    if n > 0 {
        lemma_same_prefix(keys, p, q, n - 1);
        let i = n - 1;
        let x = p[i];
        let y = q[i];
        assert(lists(p, y as int));
        let j = choose|j: int| 0 <= j < p.len() && p[j] == y;
        assert(lists(q, x as int));
        let jq = choose|j: int| 0 <= j < q.len() && q[j] == x;
        if j < i {
            assert(q[j] == p[j]);
        } else if jq < i {
            assert(p[jq] == q[jq]);
        } else if j > i && jq > i {
            assert(key_le(keys[p[i] as int], keys[p[j] as int]));
            assert(key_le(keys[q[i] as int], keys[q[jq] as int]));
            lemma_key_le_antisym(keys[x as int], keys[y as int]);
        }
    }
}

/// Only one order of the items is a stable sort by key.
pub proof fn lemma_stable_order_unique(keys: Seq<Seq<Seq<char>>>, p: Seq<usize>, q: Seq<usize>)
    requires
        is_permutation(p, keys.len()),
        is_permutation(q, keys.len()),
        stably_sorted(keys, p),
        stably_sorted(keys, q),
    ensures
        p == q,
{
    lemma_same_prefix(keys, p, q, keys.len() as int);
    assert(p =~= q);
}

/// The place at which the item `k` goes into `perm`, an order of the items before it: behind
/// the last item whose key is no later than its own.
pub open spec fn place_of(keys: Seq<Seq<Seq<char>>>, perm: Seq<usize>, k: int, below: int) -> int
    decreases below,
{
    if below <= 0 || key_le(keys[perm[below - 1] as int], keys[k]) {
        below
    } else {
        place_of(keys, perm, k, below - 1)
    }
}

proof fn lemma_place_of(keys: Seq<Seq<Seq<char>>>, perm: Seq<usize>, k: int, below: int)
    requires
        0 <= below <= perm.len(),
    ensures
        0 <= place_of(keys, perm, k, below) <= below,
        forall|j: int|
            place_of(keys, perm, k, below) <= j < below ==> !key_le(
                keys[(#[trigger] perm[j]) as int],
                keys[k],
            ),
        place_of(keys, perm, k, below) > 0 ==> key_le(
            keys[perm[place_of(keys, perm, k, below) - 1] as int],
            keys[k],
        ),
    decreases below,
{
    if below > 0 && !key_le(keys[perm[below - 1] as int], keys[k]) {
        lemma_place_of(keys, perm, k, below - 1);
    }
}

proof fn lemma_place_is(keys: Seq<Seq<Seq<char>>>, perm: Seq<usize>, k: int, below: int, p: int)
    requires
        0 <= p <= below <= perm.len(),
        forall|j: int| p <= j < below ==> !key_le(keys[(#[trigger] perm[j]) as int], keys[k]),
        p > 0 ==> key_le(keys[perm[p - 1] as int], keys[k]),
    ensures
        place_of(keys, perm, k, below) == p,
    decreases below,
{
    if below > p {
        assert(!key_le(keys[perm[below - 1] as int], keys[k]));
        lemma_place_is(keys, perm, k, below - 1, p);
    }
}

proof fn lemma_insert_keeps_order(keys: Seq<Seq<Seq<char>>>, before: Seq<usize>, k: int)
    requires
        0 <= k < keys.len(),
        k <= usize::MAX,
        is_permutation(before, k as nat),
        stably_sorted(keys, before),
    ensures
        is_permutation(before.insert(place_of(keys, before, k, k), k as usize), (k + 1) as nat),
        stably_sorted(keys, before.insert(place_of(keys, before, k, k), k as usize)),
{
    lemma_place_of(keys, before, k, k);
    let p = place_of(keys, before, k, k);
    let perm = before.insert(p, k as usize);
    assert forall|i: int, j: int| 0 <= i < j < perm.len() implies {
        &&& key_le(keys[#[trigger] perm[i] as int], keys[#[trigger] perm[j] as int])
        &&& keys[perm[i] as int] == keys[perm[j] as int] ==> perm[i] < perm[j]
    } by {
        if j == p {
            let last = before[p - 1] as int;
            assert(key_le(keys[last], keys[k]));
            if i < p - 1 {
                assert(key_le(keys[before[i] as int], keys[last]));
                lemma_key_le_trans(keys[before[i] as int], keys[last], keys[k]);
            }
        } else if i == p {
            let other = before[j - 1] as int;
            lemma_key_le_total(keys[other], keys[k]);
            lemma_key_le_refl(keys[k]);
        } else {
            let bi = if i < p { i } else { i - 1 };
            let bj = if j < p { j } else { j - 1 };
            assert(perm[i] == before[bi] && perm[j] == before[bj]);
        }
    }
    assert forall|i: int, j: int| 0 <= i < j < perm.len() implies perm[i] != perm[j] by {
        let bi = if i < p { i } else { i - 1 };
        let bj = if j < p { j } else { j - 1 };
        if i != p && j != p {
            assert(perm[i] == before[bi] && perm[j] == before[bj]);
        } else if i == p {
            assert(perm[j] == before[bj]);
        } else {
            assert(perm[i] == before[bi]);
        }
    }
    assert forall|i: int| 0 <= i < perm.len() implies (#[trigger] perm[i]) < k + 1 by {
        if i != p {
            let bi = if i < p { i } else { i - 1 };
            assert(perm[i] == before[bi]);
        }
    }
    assert forall|v: int| 0 <= v < k + 1 implies lists(perm, v) by {
        if v == k {
            assert(perm[p] == v);
        } else {
            assert(lists(before, v));
            let bi = choose|i: int| 0 <= i < before.len() && before[i] == v;
            let i = if bi < p { bi } else { bi + 1 };
            assert(perm[i] == v);
        }
    }
}

/// A stable sort of the first `n` items, built by putting one item after the other in its
/// place.
pub open spec fn order_of_first(keys: Seq<Seq<Seq<char>>>, n: nat) -> Seq<usize>
    decreases n,
{
    if n == 0 {
        Seq::empty()
    } else {
        let before = order_of_first(keys, (n - 1) as nat);
        before.insert(place_of(keys, before, n - 1, n - 1), (n - 1) as usize)
    }
}

proof fn lemma_order_of_first(keys: Seq<Seq<Seq<char>>>, n: nat)
    requires
        n <= keys.len(),
        n <= usize::MAX,
    ensures
        is_permutation(order_of_first(keys, n), n),
        stably_sorted(keys, order_of_first(keys, n)),
    decreases n,
{
    if n > 0 {
        lemma_order_of_first(keys, (n - 1) as nat);
        lemma_insert_keeps_order(keys, order_of_first(keys, (n - 1) as nat), n - 1);
    }
}

/// Every list of keys that a vector can hold has a stable sort, and [`sorted_order`] is it.
pub proof fn lemma_sorted_order(keys: Seq<Seq<Seq<char>>>)
    requires
        keys.len() <= usize::MAX,
    ensures
        is_permutation(sorted_order(keys), keys.len()),
        stably_sorted(keys, sorted_order(keys)),
{
    lemma_order_of_first(keys, keys.len());
}

/// The order in which a stable sort by key visits the items.
pub open spec fn sorted_order(keys: Seq<Seq<Seq<char>>>) -> Seq<usize> {
    choose|perm: Seq<usize>| is_permutation(perm, keys.len()) && stably_sorted(keys, perm)
}

/// The keys of the items after the items have been put in another order: at each place the
/// key of the item that `places` names there.
pub open spec fn rearranged(keys: Seq<Seq<Seq<char>>>, places: Seq<usize>) -> Seq<Seq<Seq<char>>> {
    Seq::new(keys.len(), |i: int| keys[places[i] as int])
}

/// Items whose keys all differ are visited in one order however they were put in: the sort
/// of the rearranged items visits the same items, one after the other, as the sort of the
/// items as they stood.
pub proof fn lemma_order_of_rearranged(keys: Seq<Seq<Seq<char>>>, places: Seq<usize>)
    requires
        keys.len() <= usize::MAX,
        is_permutation(places, keys.len()),
        forall|i: int, j: int| 0 <= i < j < keys.len() ==> keys[i] != keys[j],
    ensures
        forall|i: int|
            0 <= i < keys.len() ==> places[(#[trigger] sorted_order(rearranged(keys, places))[i])
                as int] == sorted_order(keys)[i],
{
    let moved = rearranged(keys, places);
    let inner = sorted_order(moved);
    lemma_sorted_order(moved);
    lemma_sorted_order(keys);
    let through = Seq::new(keys.len(), |i: int| places[inner[i] as int]);
    assert forall|i: int, j: int| 0 <= i < j < through.len() implies through[i] != through[j] by {
        let a = inner[i] as int;
        let b = inner[j] as int;
        assert(a != b);
        if a < b {
            assert(places[a] != places[b]);
        } else {
            assert(places[b] != places[a]);
        }
    }
    assert forall|v: int| 0 <= v < keys.len() implies lists(through, v) by {
        assert(lists(places, v));
        let k = choose|k: int| 0 <= k < places.len() && places[k] == v;
        assert(lists(inner, k));
        let i = choose|i: int| 0 <= i < inner.len() && inner[i] == k;
        assert(through[i] == v);
    }
    assert forall|i: int, j: int| 0 <= i < j < through.len() implies {
        &&& key_le(keys[#[trigger] through[i] as int], keys[#[trigger] through[j] as int])
        &&& keys[through[i] as int] == keys[through[j] as int] ==> through[i] < through[j]
    } by {
        assert(key_le(moved[inner[i] as int], moved[inner[j] as int]));
        let x = through[i] as int;
        let y = through[j] as int;
        assert(x != y);
        if x < y {
            assert(keys[x] != keys[y]);
        } else {
            assert(keys[y] != keys[x]);
        }
    }
    lemma_stable_order_unique(keys, through, sorted_order(keys));
    assert forall|i: int| 0 <= i < keys.len() implies places[(#[trigger] inner[i]) as int]
        == sorted_order(keys)[i] by {
        assert(through[i] == places[inner[i] as int]);
    }
}

/// The order in which a stable sort by key visits the items: a permutation of their indices.
pub fn stable_order(keys: &Vec<Vec<Vec<char>>>) -> (perm: Vec<usize>)
    ensures
        is_permutation(perm@, keys@.len()),
        stably_sorted(keys_of(keys@), perm@),
        perm@ == sorted_order(keys_of(keys@)),
{
    let ghost ks = keys_of(keys@);
    let mut perm: Vec<usize> = Vec::new();
    let mut k: usize = 0;
    while k < keys.len()
        invariant
            k <= keys.len(),
            ks == keys_of(keys@),
            perm.len() == k,
            forall|i: int| 0 <= i < perm.len() ==> (#[trigger] perm[i]) < k,
            forall|i: int, j: int| 0 <= i < j < perm.len() ==> perm[i] != perm[j],
            forall|v: int| 0 <= v < k ==> lists(perm@, v),
            stably_sorted(ks, perm@),
        decreases keys.len() - k,
    {
        let mut p: usize = k;
        while p > 0 && !key_no_later(&keys[perm[p - 1]], &keys[k])
            invariant
                p <= k,
                k < keys.len(),
                perm.len() == k,
                ks == keys_of(keys@),
                forall|i: int| 0 <= i < perm.len() ==> (#[trigger] perm[i]) < k,
                forall|j: int| p <= j < k ==> !key_le(ks[(#[trigger] perm[j]) as int], ks[k as int]),
            decreases p,
        {
            p = p - 1;
        }
        proof {
            assert(is_permutation(perm@, k as nat));
            lemma_place_of(ks, perm@, k as int, k as int);
            lemma_place_is(ks, perm@, k as int, k as int, p as int);
            lemma_insert_keeps_order(ks, perm@, k as int);
        }
        perm.insert(p, k);
        k = k + 1;
    }
    proof {
        let other = sorted_order(ks);
        assert(is_permutation(perm@, ks.len()) && stably_sorted(ks, perm@));
        lemma_stable_order_unique(ks, perm@, other);
    }
    perm
}

} // verus!

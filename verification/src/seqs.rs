//! Facts about sequences that the other modules share.

use vstd::prelude::*;

verus! {

/// The positions of a sequence of length `n`: `0, 1, .., n - 1`.
pub open spec fn positions(n: nat) -> Seq<int> {
    Seq::new(n, |j: int| j)
}

/// A sequence of machine indices, as mathematical integers.
pub open spec fn as_ints(v: Seq<usize>) -> Seq<int> {
    v.map_values(|j: usize| j as int)
}

/// Filtering one element more: the element at `j` is kept or dropped, and
/// what came before is as it was.
pub proof fn lemma_filter_next<A>(s: Seq<A>, p: spec_fn(A) -> bool, j: int)
    requires
        0 <= j < s.len(),
    ensures
        s.take(j + 1).filter(p) == if p(s[j]) {
            s.take(j).filter(p).push(s[j])
        } else {
            s.take(j).filter(p)
        },
{
    assert(s.take(j + 1) =~= s.take(j).push(s[j]));
    s.take(j).lemma_filter_push(s[j], p);
}

/// Filtering nothing gives nothing.
pub proof fn lemma_filter_none<A>(s: Seq<A>, p: spec_fn(A) -> bool)
    ensures
        s.take(0).filter(p) == Seq::<A>::empty(),
{
    reveal(Seq::filter);
    assert(s.take(0) =~= Seq::<A>::empty());
}

/// What a filter keeps: the elements of the sequence that meet the
/// condition.
pub proof fn lemma_filter_members<A>(s: Seq<A>, p: spec_fn(A) -> bool)
    ensures
        forall|x: A| #[trigger] s.filter(p).contains(x) <==> s.contains(x) && p(x),
    decreases s.len(),
{
    reveal(Seq::filter);
    if s.len() > 0 {
        let init = s.drop_last();
        lemma_filter_members(init, p);
        assert forall|x: A| #[trigger] s.filter(p).contains(x) <==> s.contains(x) && p(x) by {
            if s.filter(p).contains(x) {
                let k = choose|k: int| 0 <= k < s.filter(p).len() && s.filter(p)[k] == x;
                if k < init.filter(p).len() {
                    assert(init.filter(p)[k] == x);
                    assert(init.filter(p).contains(x));
                    let m = choose|m: int| 0 <= m < init.len() && init[m] == x;
                    assert(s[m] == x);
                } else {
                    assert(x == s.last());
                    assert(s[s.len() - 1] == x);
                }
            }
            if s.contains(x) && p(x) {
                let m = choose|m: int| 0 <= m < s.len() && s[m] == x;
                if m < init.len() {
                    assert(init[m] == x);
                    assert(init.contains(x));
                    assert(init.filter(p).contains(x));
                    let k = choose|k: int| 0 <= k < init.filter(p).len() && init.filter(p)[k] == x;
                    assert(s.filter(p)[k] == x);
                } else {
                    assert(s.filter(p)[s.filter(p).len() - 1] == x);
                }
            }
        }
    }
}

/// A filter keeps no element twice, if the sequence holds none twice.
pub proof fn lemma_filter_distinct<A>(s: Seq<A>, p: spec_fn(A) -> bool)
    requires
        s.no_duplicates(),
    ensures
        s.filter(p).no_duplicates(),
    decreases s.len(),
{
    reveal(Seq::filter);
    if s.len() > 0 {
        let init = s.drop_last();
        lemma_filter_distinct(init, p);
        lemma_filter_members(init, p);
        if p(s.last()) {
            if init.filter(p).contains(s.last()) {
                let m = choose|m: int| 0 <= m < init.len() && init[m] == s.last();
                assert(s[m] == s[s.len() - 1]);
            }
        }
    }
}

/// Where the keys of a sequence are distinct, so are the keys of what a
/// filter keeps of it.
pub proof fn lemma_filter_keeps_keys_distinct<A, K>(
    s: Seq<A>,
    p: spec_fn(A) -> bool,
    key: spec_fn(A) -> K,
)
    requires
        s.map_values(key).no_duplicates(),
    ensures
        s.filter(p).map_values(key).no_duplicates(),
    decreases s.len(),
{
    reveal(Seq::filter);
    if s.len() > 0 {
        let init = s.drop_last();
        assert(init.map_values(key) =~= s.map_values(key).drop_last());
        lemma_filter_keeps_keys_distinct(init, p, key);
        lemma_filter_members(init, p);
        if p(s.last()) {
            let kept = init.filter(p);
            let all = s.filter(p).map_values(key);
            assert(all =~= kept.map_values(key).push(key(s.last())));
            assert forall|a: int| 0 <= a < kept.len() implies key(#[trigger] kept[a]) != key(
                s.last(),
            ) by {
                assert(kept.contains(kept[a]));
                let m = choose|m: int| 0 <= m < init.len() && init[m] == kept[a];
                assert(s.map_values(key)[m] == key(kept[a]));
                assert(s.map_values(key)[s.len() - 1] == key(s.last()));
            }
            assert forall|a: int, b: int| 0 <= a < all.len() && 0 <= b < all.len() && a
                != b implies all[a] != all[b] by {
                if a < kept.len() && b < kept.len() {
                    assert(kept.map_values(key)[a] == all[a]);
                    assert(kept.map_values(key)[b] == all[b]);
                } else if a < kept.len() {
                    assert(all[a] == key(kept[a]));
                } else {
                    assert(all[b] == key(kept[b]));
                }
            }
        }
    }
}

/// Two sequences that hold the same elements, each once, are equally long.
pub proof fn lemma_same_members_same_length<A>(a: Seq<A>, b: Seq<A>)
    requires
        a.no_duplicates(),
        b.no_duplicates(),
        forall|x: A| a.contains(x) <==> b.contains(x),
    ensures
        a.len() == b.len(),
{
    a.unique_seq_to_set();
    b.unique_seq_to_set();
    assert(a.to_set() =~= b.to_set());
}

/// A filter that every element passes keeps the sequence as it is.
pub proof fn lemma_filter_all<A>(s: Seq<A>, p: spec_fn(A) -> bool)
    requires
        forall|k: int| 0 <= k < s.len() ==> p(#[trigger] s[k]),
    ensures
        s.filter(p) == s,
    decreases s.len(),
{
    reveal(Seq::filter);
    if s.len() > 0 {
        let init = s.drop_last();
        assert forall|k: int| 0 <= k < init.len() implies p(#[trigger] init[k]) by {
            assert(init[k] == s[k]);
        }
        lemma_filter_all(init, p);
        assert(p(s[s.len() - 1]));
        assert(init.push(s.last()) =~= s);
    }
}

/// A filter that every element passes but the one at `i` removes that
/// element.
pub proof fn lemma_filter_removes_one<A>(s: Seq<A>, p: spec_fn(A) -> bool, i: int)
    requires
        0 <= i < s.len(),
        !p(s[i]),
        forall|k: int| 0 <= k < s.len() && k != i ==> p(#[trigger] s[k]),
    ensures
        s.filter(p) == s.remove(i),
    decreases s.len(),
{
    reveal(Seq::filter);
    let init = s.drop_last();
    if i == s.len() - 1 {
        assert forall|k: int| 0 <= k < init.len() implies p(#[trigger] init[k]) by {
            assert(init[k] == s[k]);
        }
        lemma_filter_all(init, p);
        assert(s.remove(i) =~= init);
    } else {
        assert forall|k: int| 0 <= k < init.len() && k != i implies p(#[trigger] init[k]) by {
            assert(init[k] == s[k]);
        }
        assert(init[i] == s[i]);
        lemma_filter_removes_one(init, p, i);
        assert(p(s[s.len() - 1]));
        assert(init.remove(i).push(s.last()) =~= s.remove(i));
    }
}

/// Every element of a flattened sequence stands in one of the sequences
/// that were flattened.
pub proof fn lemma_flatten_members<A>(parts: Seq<Seq<A>>, k: int)
    requires
        0 <= k < parts.flatten().len(),
    ensures
        exists|i: int| 0 <= i < parts.len() && (#[trigger] parts[i]).contains(parts.flatten()[k]),
    decreases parts.len(),
{
    if parts.len() > 0 {
        let first = parts.first();
        let rest = parts.drop_first();
        if k < first.len() {
            assert(first[k] == parts.flatten()[k]);
            assert(parts[0].contains(parts.flatten()[k]));
        } else {
            assert(rest.flatten()[k - first.len()] == parts.flatten()[k]);
            lemma_flatten_members(rest, k - first.len());
            let i = choose|i: int|
                0 <= i < rest.len() && (#[trigger] rest[i]).contains(parts.flatten()[k]);
            assert(parts[i + 1] == rest[i]);
        }
    }
}

/// Every element of one of the sequences that are flattened stands in the
/// flattened sequence.
pub proof fn lemma_flatten_keeps_members<A>(parts: Seq<Seq<A>>, i: int, x: A)
    requires
        0 <= i < parts.len(),
        parts[i].contains(x),
    ensures
        parts.flatten().contains(x),
    decreases parts.len(),
{
    let first = parts.first();
    let rest = parts.drop_first();
    let n = choose|n: int| 0 <= n < parts[i].len() && parts[i][n] == x;
    if i == 0 {
        assert(parts.flatten()[n] == x);
    } else {
        assert(rest[i - 1] == parts[i]);
        lemma_flatten_keeps_members(rest, i - 1, x);
        let m = choose|m: int| 0 <= m < rest.flatten().len() && rest.flatten()[m] == x;
        assert(parts.flatten()[first.len() + m] == x);
    }
}

/// Two sequences of one length, filtered by conditions that agree place by
/// place, give the same keys, where the keys agree place by place.
pub proof fn lemma_filter_alike<A, K>(
    s: Seq<A>,
    t: Seq<A>,
    p: spec_fn(A) -> bool,
    q: spec_fn(A) -> bool,
    key: spec_fn(A) -> K,
)
    requires
        s.len() == t.len(),
        forall|k: int| 0 <= k < s.len() ==> p(#[trigger] s[k]) == q(t[k]),
        forall|k: int| 0 <= k < s.len() ==> key(#[trigger] s[k]) == key(t[k]),
    ensures
        s.filter(p).map_values(key) == t.filter(q).map_values(key),
    decreases s.len(),
{
    reveal(Seq::filter);
    if s.len() > 0 {
        let a = s.drop_last();
        let b = t.drop_last();
        assert forall|k: int| 0 <= k < a.len() implies p(#[trigger] a[k]) == q(b[k]) by {
            assert(a[k] == s[k] && b[k] == t[k]);
        }
        assert forall|k: int| 0 <= k < a.len() implies key(#[trigger] a[k]) == key(b[k]) by {
            assert(a[k] == s[k] && b[k] == t[k]);
        }
        lemma_filter_alike(a, b, p, q, key);
        assert(p(s[s.len() - 1]) == q(t[t.len() - 1]));
        assert(key(s[s.len() - 1]) == key(t[t.len() - 1]));
        if p(s.last()) {
            lemma_map_push(a.filter(p), s.last(), key);
            lemma_map_push(b.filter(q), t.last(), key);
        }
    } else {
        assert(s.filter(p).map_values(key) =~= t.filter(q).map_values(key));
    }
}

/// Two filters, one after the other, may change places, where the second
/// is replaced by a condition that agrees with it on what the first keeps.
pub proof fn lemma_filter_swap<A>(
    s: Seq<A>,
    p: spec_fn(A) -> bool,
    q: spec_fn(A) -> bool,
    r: spec_fn(A) -> bool,
)
    requires
        forall|k: int| 0 <= k < s.len() && p(#[trigger] s[k]) ==> q(s[k]) == r(s[k]),
    ensures
        s.filter(p).filter(q) == s.filter(r).filter(p),
    decreases s.len(),
{
    reveal(Seq::filter);
    if s.len() > 0 {
        let init = s.drop_last();
        let last = s.last();
        assert forall|k: int| 0 <= k < init.len() && p(#[trigger] init[k]) implies q(init[k]) == r(
            init[k],
        ) by {
            assert(init[k] == s[k]);
        }
        lemma_filter_swap(init, p, q, r);
        assert(last == s[s.len() - 1]);
        if p(last) {
            init.filter(p).lemma_filter_push(last, q);
        }
        if r(last) {
            init.filter(r).lemma_filter_push(last, p);
        }
    }
}

/// Filtering the keys of a sequence is filtering the sequence by what the
/// condition says of the key, and taking the keys then.
pub proof fn lemma_filter_of_keys<A, K>(
    s: Seq<A>,
    key: spec_fn(A) -> K,
    on_key: spec_fn(K) -> bool,
    on_element: spec_fn(A) -> bool,
)
    requires
        forall|k: int| 0 <= k < s.len() ==> on_element(#[trigger] s[k]) == on_key(key(s[k])),
    ensures
        s.map_values(key).filter(on_key) == s.filter(on_element).map_values(key),
    decreases s.len(),
{
    reveal(Seq::filter);
    if s.len() > 0 {
        let init = s.drop_last();
        let last = s.last();
        assert forall|k: int| 0 <= k < init.len() implies on_element(#[trigger] init[k]) == on_key(
            key(init[k]),
        ) by {
            assert(init[k] == s[k]);
        }
        lemma_filter_of_keys(init, key, on_key, on_element);
        assert(last == s[s.len() - 1]);
        assert(s.map_values(key) =~= init.map_values(key).push(key(last)));
        init.map_values(key).lemma_filter_push(key(last), on_key);
        if on_element(last) {
            lemma_map_push(init.filter(on_element), last, key);
        }
    } else {
        assert(s.map_values(key).filter(on_key) =~= s.filter(on_element).map_values(key));
    }
}

/// Mapping one element more.
pub proof fn lemma_map_push<A, B>(s: Seq<A>, x: A, f: spec_fn(A) -> B)
    ensures
        s.push(x).map_values(f) == s.map_values(f).push(f(x)),
{
    assert(s.push(x).map_values(f) =~= s.map_values(f).push(f(x)));
}

} // verus!

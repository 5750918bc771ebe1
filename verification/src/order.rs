use vstd::prelude::*;

verus! {

/// `s` with `x` put before the first element that `x` comes `before`
/// (after every element it does not come before).
pub open spec fn insert_by<T>(x: T, s: Seq<T>, before: spec_fn(T, T) -> bool) -> Seq<T>
    decreases s.len(),
{
    if s.len() == 0 {
        seq![x]
    } else if before(x, s[0]) {
        seq![x] + s
    } else {
        seq![s[0]] + insert_by(x, s.drop_first(), before)
    }
}

/// `s` sorted by insertion with the strict order `before`; elements that
/// neither comes before the other keep their order (a stable sort, as
/// std's `sort_by` is).
pub open spec fn sort_by<T>(s: Seq<T>, before: spec_fn(T, T) -> bool) -> Seq<T>
    decreases s.len(),
{
    if s.len() == 0 {
        s
    } else {
        insert_by(s.last(), sort_by(s.drop_last(), before), before)
    }
}

/// Inserting at the first element `x` comes before.
pub proof fn lemma_insert_by_at<T>(x: T, s: Seq<T>, before: spec_fn(T, T) -> bool, j: int)
    requires
        0 <= j <= s.len(),
        forall|k: int| 0 <= k < j ==> !before(x, #[trigger] s[k]),
        j < s.len() ==> before(x, s[j]),
    ensures
        insert_by(x, s, before) == s.take(j) + seq![x] + s.skip(j),
    decreases s.len(),
{
    if s.len() == 0 {
        assert(s.take(j) + seq![x] + s.skip(j) =~= seq![x]);
    } else if j == 0 {
        assert(s.take(j) + seq![x] + s.skip(j) =~= seq![x] + s);
    } else {
        let t = s.drop_first();
        assert forall|k: int| 0 <= k < j - 1 implies !before(x, #[trigger] t[k]) by {
            assert(t[k] == s[k + 1]);
        }
        lemma_insert_by_at(x, t, before, j - 1);
        assert(s.take(j) + seq![x] + s.skip(j) =~= seq![s[0]] + (t.take(j - 1) + seq![x] + t.skip(j - 1)));
    }
}

/// Sorting a sequence and sorting its first `i + 1` elements.
pub proof fn lemma_sort_by_step<T>(s: Seq<T>, before: spec_fn(T, T) -> bool, i: int)
    requires
        0 <= i < s.len(),
    ensures
        sort_by(s.take(i + 1), before) == insert_by(s[i], sort_by(s.take(i), before), before),
{
    assert(s.take(i + 1).drop_last() =~= s.take(i));
}

/// `sort_by` and `insert_by` keep the length.
pub proof fn lemma_sort_by_len<T>(s: Seq<T>, before: spec_fn(T, T) -> bool)
    ensures
        sort_by(s, before).len() == s.len(),
    decreases s.len(),
{
    if s.len() > 0 {
        lemma_sort_by_len(s.drop_last(), before);
        lemma_insert_by_len(s.last(), sort_by(s.drop_last(), before), before);
    }
}

/// `insert_by` adds one element.
pub proof fn lemma_insert_by_len<T>(x: T, s: Seq<T>, before: spec_fn(T, T) -> bool)
    ensures
        insert_by(x, s, before).len() == s.len() + 1,
    decreases s.len(),
{
    if s.len() > 0 && !before(x, s[0]) {
        lemma_insert_by_len(x, s.drop_first(), before);
    }
}

/// The elements of `insert_by` are those of `s` and `x`.
pub proof fn lemma_insert_by_elems<T>(x: T, s: Seq<T>, before: spec_fn(T, T) -> bool)
    ensures
        forall|k: int| 0 <= k < insert_by(x, s, before).len() ==> (insert_by(x, s, before)[k] == x
            || s.contains(#[trigger] insert_by(x, s, before)[k])),
    decreases s.len(),
{
    lemma_insert_by_len(x, s, before);
    if s.len() > 0 && !before(x, s[0]) {
        lemma_insert_by_elems(x, s.drop_first(), before);
        let r = insert_by(x, s, before);
        assert forall|k: int| 0 <= k < r.len() implies (r[k] == x || s.contains(#[trigger] r[k])) by {
            if k == 0 {
                assert(s[0] == r[0]);
            } else {
                let t = insert_by(x, s.drop_first(), before);
                assert(r[k] == t[k - 1]);
                if t[k - 1] != x {
                    let m = choose|m: int| 0 <= m < s.drop_first().len() && s.drop_first()[m] == t[k - 1];
                    assert(s[m + 1] == t[k - 1]);
                }
            }
        }
    } else if s.len() > 0 {
        let r = insert_by(x, s, before);
        assert forall|k: int| 0 <= k < r.len() implies (r[k] == x || s.contains(#[trigger] r[k])) by {
            if k > 0 {
                assert(r[k] == s[k - 1]);
            }
        }
    }
}

/// The elements of `sort_by` are those of `s`.
pub proof fn lemma_sort_by_elems<T>(s: Seq<T>, before: spec_fn(T, T) -> bool)
    ensures
        forall|k: int| 0 <= k < sort_by(s, before).len() ==> s.contains(#[trigger] sort_by(s, before)[k]),
    decreases s.len(),
{
    lemma_sort_by_len(s, before);
    if s.len() > 0 {
        let t = sort_by(s.drop_last(), before);
        lemma_sort_by_elems(s.drop_last(), before);
        lemma_insert_by_elems(s.last(), t, before);
        let r = sort_by(s, before);
        assert forall|k: int| 0 <= k < r.len() implies s.contains(#[trigger] r[k]) by {
            if r[k] == s.last() {
                assert(s[s.len() - 1] == r[k]);
            } else {
                assert(t.contains(r[k]));
                let m = choose|m: int| 0 <= m < t.len() && t[m] == r[k];
                assert(s.drop_last().contains(t[m]));
                let q = choose|q: int| 0 <= q < s.drop_last().len() && s.drop_last()[q] == t[m];
                assert(s[q] == r[k]);
            }
        }
    }
}

/// Whether no element of `s` comes `before` an element ahead of it.
pub open spec fn sorted_by<T>(s: Seq<T>, before: spec_fn(T, T) -> bool) -> bool {
    forall|i: int, j: int| 0 <= i < j < s.len() ==> !before(#[trigger] s[j], #[trigger] s[i])
}

/// Whether `before` is a strict order: irreflexive and transitive.
pub open spec fn strict_order<T>(before: spec_fn(T, T) -> bool) -> bool {
    &&& forall|a: T| !#[trigger] before(a, a)
    &&& forall|a: T, b: T, c: T| #[trigger] before(a, b) && #[trigger] before(b, c) ==> before(a, c)
}

/// Inserting into a sorted sequence keeps it sorted.
pub proof fn lemma_insert_by_sorted<T>(x: T, s: Seq<T>, before: spec_fn(T, T) -> bool)
    requires
        strict_order(before),
        sorted_by(s, before),
    ensures
        sorted_by(insert_by(x, s, before), before),
    decreases s.len(),
{
    let r = insert_by(x, s, before);
    if s.len() == 0 {
    } else if before(x, s[0]) {
        assert forall|i: int, j: int| 0 <= i < j < r.len() implies !before(#[trigger] r[j], #[trigger] r[i]) by {
            assert(r[j] == s[j - 1]);
            if i > 0 {
                assert(r[i] == s[i - 1]);
            } else if j - 1 > 0 {
                if before(s[j - 1], x) {
                    assert(before(s[j - 1], s[0]));
                }
            } else {
                if before(s[0], x) {
                    assert(before(s[0], s[0]));
                }
            }
        }
    } else {
        let t = s.drop_first();
        assert forall|i: int, j: int| 0 <= i < j < t.len() implies !before(#[trigger] t[j], #[trigger] t[i]) by {
            assert(t[i] == s[i + 1] && t[j] == s[j + 1]);
        }
        lemma_insert_by_sorted(x, t, before);
        lemma_insert_by_elems(x, t, before);
        let it = insert_by(x, t, before);
        assert forall|i: int, j: int| 0 <= i < j < r.len() implies !before(#[trigger] r[j], #[trigger] r[i]) by {
            assert(r[j] == it[j - 1]);
            if i > 0 {
                assert(r[i] == it[i - 1]);
            } else {
                assert(r[0] == s[0]);
                if it[j - 1] != x {
                    let m = choose|m: int| 0 <= m < t.len() && t[m] == it[j - 1];
                    assert(s[m + 1] == it[j - 1]);
                }
            }
        }
    }
}

/// Sorting by insertion sorts.
pub proof fn lemma_sort_by_sorted<T>(s: Seq<T>, before: spec_fn(T, T) -> bool)
    requires
        strict_order(before),
    ensures
        sorted_by(sort_by(s, before), before),
    decreases s.len(),
{
    if s.len() > 0 {
        lemma_sort_by_sorted(s.drop_last(), before);
        lemma_insert_by_sorted(s.last(), sort_by(s.drop_last(), before), before);
    }
}

} // verus!

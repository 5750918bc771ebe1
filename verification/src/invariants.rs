use vstd::prelude::*;
use vstd::seq_lib::seq_to_set_is_finite;
use crate::labels::{spec_delete_fold, 
    label_request_valid, label_rows_kept, label_target, labels_after, labels_not_in, spec_label_check,
    spec_unlabel_fold, spec_upsert_labels, has_label_row,
};
use crate::api::{PutParameterRequest, spec_apply_put, tag_room};
use crate::tags::{links_below, lemma_drop_links_pairs, lemma_put_sets_tags, tags_fresh};
use crate::store::{ParamView, VersionView, param_index, params_kept, version_index, versions_kept, lemma_param_index, lemma_version_index, LabelView, StoreView, label_index, labels_kept, labels_of, lemma_label_index, select, spec_after_delete};
use crate::text::{dedup_seq, insert_sorted, sort_seq};
use crate::validate::spec_label_limit;

verus! {

/// Whether no two rows of `ls` tie one label to one parameter.
pub open spec fn labels_unique(ls: Seq<LabelView>) -> bool {
    forall|i: int, j: int|
        0 <= i < j < ls.len() ==> !((#[trigger] ls[i]).param_key == (#[trigger] ls[j]).param_key && ls[i].label == ls[j].label)
}

/// Whether no version of any parameter carries more than 10 labels.
pub open spec fn labels_within_limit(ls: Seq<LabelView>) -> bool {
    forall|n: Seq<char>, v: i64| #[trigger] labels_of(ls, n, v).len() <= spec_label_limit()
}

/// The label table's invariant: one row per label of a parameter, and at
/// most 10 labels per version.
pub open spec fn labels_valid(ls: Seq<LabelView>) -> bool {
    labels_unique(ls) && labels_within_limit(ls)
}

/// A label is among the labels of `version` of `name` exactly when a row
/// ties it there.
pub(crate) proof fn lemma_labels_of_contains(ls: Seq<LabelView>, n: Seq<char>, v: i64, x: Seq<char>)
    ensures
        labels_of(ls, n, v).contains(x) <==> exists|i: int|
            0 <= i < ls.len() && (#[trigger] ls[i]).param_key == n && ls[i].version == v && ls[i].label == x,
    decreases ls.len(),
{
    if ls.len() > 0 {
        let d = ls.drop_last();
        lemma_labels_of_contains(d, n, v, x);
        let prev = labels_of(d, n, v);
        if labels_of(ls, n, v).contains(x) {
            if ls.last().param_key == n && ls.last().version == v {
                let k = choose|k: int| 0 <= k < labels_of(ls, n, v).len() && labels_of(ls, n, v)[k] == x;
                if k < prev.len() {
                    assert(prev[k] == x);
                    let i = choose|i: int| 0 <= i < d.len() && (#[trigger] d[i]).param_key == n && d[i].version == v && d[i].label == x;
                    assert(ls[i] == d[i]);
                } else {
                    assert(ls[ls.len() - 1].label == x);
                }
            } else {
                let i = choose|i: int| 0 <= i < d.len() && (#[trigger] d[i]).param_key == n && d[i].version == v && d[i].label == x;
                assert(ls[i] == d[i]);
            }
        }
        if exists|i: int| 0 <= i < ls.len() && (#[trigger] ls[i]).param_key == n && ls[i].version == v && ls[i].label == x {
            let i = choose|i: int| 0 <= i < ls.len() && (#[trigger] ls[i]).param_key == n && ls[i].version == v && ls[i].label == x;
            if i < ls.len() - 1 {
                assert(d[i] == ls[i]);
                assert(prev.contains(x));
                let k = choose|k: int| 0 <= k < prev.len() && prev[k] == x;
                if ls.last().param_key == n && ls.last().version == v {
                    assert(labels_of(ls, n, v)[k] == x);
                }
            } else {
                assert(labels_of(ls, n, v)[labels_of(ls, n, v).len() - 1] == x);
            }
        }
    }
}

/// With one row per label of a parameter, no label of a version repeats.
proof fn lemma_labels_of_no_dup(ls: Seq<LabelView>, n: Seq<char>, v: i64)
    requires
        labels_unique(ls),
    ensures
        labels_of(ls, n, v).no_duplicates(),
    decreases ls.len(),
{
    if ls.len() > 0 {
        let d = ls.drop_last();
        assert forall|i: int, j: int| 0 <= i < j < d.len() implies !((#[trigger] d[i]).param_key == (#[trigger] d[j]).param_key && d[i].label == d[j].label) by {
            assert(d[i] == ls[i] && d[j] == ls[j]);
        }
        lemma_labels_of_no_dup(d, n, v);
        let last = ls.last();
        if last.param_key == n && last.version == v {
            lemma_labels_of_contains(d, n, v, last.label);
            if labels_of(d, n, v).contains(last.label) {
                let i = choose|i: int| 0 <= i < d.len() && (#[trigger] d[i]).param_key == n && d[i].version == v && d[i].label == last.label;
                assert(ls[i] == d[i]);
                assert(ls[ls.len() - 1] == last);
            }
            let p = labels_of(d, n, v);
            let q = labels_of(ls, n, v);
            assert(q == p.push(last.label));
            assert forall|i: int, j: int| 0 <= i < q.len() && 0 <= j < q.len() && i != j implies q[i] != q[j] by {
                if i < p.len() && j < p.len() {
                    assert(q[i] == p[i] && q[j] == p[j]);
                } else if i < p.len() {
                    assert(q[i] == p[i]);
                    assert(p.contains(p[i]));
                } else if j < p.len() {
                    assert(q[j] == p[j]);
                    assert(p.contains(p[j]));
                }
            }
        }
    }
}

/// Pointing labels at a version keeps one row per label of a parameter.
proof fn lemma_upsert_unique(ls: Seq<LabelView>, name: Seq<char>, new_labels: Seq<Seq<char>>, version: i64)
    requires
        labels_unique(ls),
    ensures
        labels_unique(spec_upsert_labels(ls, name, new_labels, version)),
    decreases new_labels.len(),
{
    if new_labels.len() > 0 {
        lemma_upsert_unique(ls, name, new_labels.drop_last(), version);
        let prev = spec_upsert_labels(ls, name, new_labels.drop_last(), version);
        let l = new_labels.last();
        let i = label_index(prev, name, l);
        lemma_label_index(prev, name, l);
        let t = spec_upsert_labels(ls, name, new_labels, version);
        if i >= 0 {
            assert forall|a: int, b: int| 0 <= a < b < t.len() implies !((#[trigger] t[a]).param_key == (#[trigger] t[b]).param_key && t[a].label == t[b].label) by {
                assert(t[a].param_key == prev[a].param_key && t[a].label == prev[a].label);
                assert(t[b].param_key == prev[b].param_key && t[b].label == prev[b].label);
            }
        } else {
            assert forall|a: int, b: int| 0 <= a < b < t.len() implies !((#[trigger] t[a]).param_key == (#[trigger] t[b]).param_key && t[a].label == t[b].label) by {
                if b < prev.len() {
                    assert(t[a] == prev[a] && t[b] == prev[b]);
                } else {
                    assert(t[a] == prev[a]);
                }
            }
        }
    }
}

/// Every row after pointing labels at a version is a row that was there
/// before, or a row of one of those labels at that version.
proof fn lemma_upsert_rows(ls: Seq<LabelView>, name: Seq<char>, new_labels: Seq<Seq<char>>, version: i64)
    ensures
        forall|j: int| 0 <= j < spec_upsert_labels(ls, name, new_labels, version).len() ==> {
            let r = #[trigger] spec_upsert_labels(ls, name, new_labels, version)[j];
            (r.param_key == name && r.version == version && new_labels.contains(r.label))
                || exists|k: int| 0 <= k < ls.len() && ls[k] == r
        },
    decreases new_labels.len(),
{
    if new_labels.len() > 0 {
        let d = new_labels.drop_last();
        lemma_upsert_rows(ls, name, d, version);
        let prev = spec_upsert_labels(ls, name, d, version);
        let l = new_labels.last();
        let i = label_index(prev, name, l);
        lemma_label_index(prev, name, l);
        let t = spec_upsert_labels(ls, name, new_labels, version);
        assert(new_labels.contains(l)) by {
            assert(new_labels[new_labels.len() - 1] == l);
        }
        assert forall|j: int| 0 <= j < t.len() implies {
            let r = #[trigger] t[j];
            (r.param_key == name && r.version == version && new_labels.contains(r.label))
                || exists|k: int| 0 <= k < ls.len() && ls[k] == r
        } by {
            let in_prev = (i >= 0 && j != i) || (i < 0 && j < prev.len());
            if in_prev {
                assert(t[j] == prev[j]);
                let r = prev[j];
                if r.param_key == name && r.version == version && d.contains(r.label) {
                    let m = choose|m: int| 0 <= m < d.len() && d[m] == r.label;
                    assert(new_labels[m] == r.label);
                }
            }
        }
    }
}

/// Membership in a sorted insertion.
proof fn lemma_insert_sorted_contains(x: Seq<char>, s: Seq<Seq<char>>, y: Seq<char>)
    ensures
        insert_sorted(x, s).contains(y) <==> (y == x || s.contains(y)),
    decreases s.len(),
{
    let r = insert_sorted(x, s);
    if s.len() == 0 {
        assert(r == seq![x]);
        if r.contains(y) {
            let k = choose|k: int| 0 <= k < r.len() && r[k] == y;
            assert(k == 0);
        }
        if y == x {
            assert(r[0] == y);
        }
    } else if crate::text::seq_le(x, s[0]) {
        assert(r == seq![x] + s);
        if r.contains(y) {
            let k = choose|k: int| 0 <= k < r.len() && r[k] == y;
            if k > 0 {
                assert(s[k - 1] == y);
            }
        }
        if y == x {
            assert(r[0] == y);
        } else if s.contains(y) {
            let k = choose|k: int| 0 <= k < s.len() && s[k] == y;
            assert(r[k + 1] == y);
        }
    } else {
        let t = s.drop_first();
        lemma_insert_sorted_contains(x, t, y);
        let rt = insert_sorted(x, t);
        assert(r == seq![s[0]] + rt);
        if r.contains(y) {
            let k = choose|k: int| 0 <= k < r.len() && r[k] == y;
            if k == 0 {
                assert(s[0] == y);
            } else {
                assert(rt[k - 1] == y);
                if t.contains(y) {
                    let m = choose|m: int| 0 <= m < t.len() && t[m] == y;
                    assert(s[m + 1] == y);
                }
            }
        }
        if y == x || s.contains(y) {
            if y == x {
                assert(rt.contains(y));
            } else {
                let k = choose|k: int| 0 <= k < s.len() && s[k] == y;
                if k == 0 {
                    assert(r[0] == y);
                } else {
                    assert(t[k - 1] == y);
                    assert(rt.contains(y));
                }
            }
            if rt.contains(y) {
                let m = choose|m: int| 0 <= m < rt.len() && rt[m] == y;
                assert(r[m + 1] == y);
            }
        }
    }
}

/// Sorting keeps the elements.
pub(crate) proof fn lemma_sort_contains(s: Seq<Seq<char>>, y: Seq<char>)
    ensures
        sort_seq(s).contains(y) <==> s.contains(y),
    decreases s.len(),
{
    if s.len() > 0 {
        let d = s.drop_last();
        lemma_sort_contains(d, y);
        lemma_insert_sorted_contains(s.last(), sort_seq(d), y);
        if s.contains(y) && y != s.last() {
            let k = choose|k: int| 0 <= k < s.len() && s[k] == y;
            assert(k < s.len() - 1);
            assert(d[k] == y);
        }
        if d.contains(y) {
            let k = choose|k: int| 0 <= k < d.len() && d[k] == y;
            assert(s[k] == y);
        }
        if y == s.last() {
            assert(s[s.len() - 1] == y);
        }
    }
}

/// Dropping repeated neighbours keeps the elements.
proof fn lemma_dedup_contains(s: Seq<Seq<char>>, y: Seq<char>)
    ensures
        dedup_seq(s).contains(y) <==> s.contains(y),
    decreases s.len(),
{
    if s.len() > 1 {
        let d = s.drop_last();
        lemma_dedup_contains(d, y);
        let r = dedup_seq(s);
        let rd = dedup_seq(d);
        if s[s.len() - 2] == s.last() {
            assert(r == rd);
            if s.contains(y) {
                let k = choose|k: int| 0 <= k < s.len() && s[k] == y;
                if k == s.len() - 1 {
                    assert(d[s.len() - 2] == y);
                } else {
                    assert(d[k] == y);
                }
            }
            if d.contains(y) {
                let k = choose|k: int| 0 <= k < d.len() && d[k] == y;
                assert(s[k] == y);
            }
        } else {
            assert(r == rd.push(s.last()));
            if s.contains(y) {
                let k = choose|k: int| 0 <= k < s.len() && s[k] == y;
                if k == s.len() - 1 {
                    assert(r[r.len() - 1] == y);
                } else {
                    assert(d[k] == y);
                    let m = choose|m: int| 0 <= m < rd.len() && rd[m] == y;
                    assert(r[m] == y);
                }
            }
            if r.contains(y) {
                let k = choose|k: int| 0 <= k < r.len() && r[k] == y;
                if k == r.len() - 1 {
                    assert(s[s.len() - 1] == y);
                } else {
                    assert(rd[k] == y);
                    let m = choose|m: int| 0 <= m < d.len() && d[m] == y;
                    assert(s[m] == y);
                }
            }
        }
    }
}

/// What is not excluded stays.
proof fn lemma_not_in_contains(ls: Seq<Seq<char>>, excluded: Seq<Seq<char>>, y: Seq<char>)
    requires
        ls.contains(y),
        !excluded.contains(y),
    ensures
        labels_not_in(ls, excluded).contains(y),
    decreases ls.len(),
{
    let r = labels_not_in(ls, excluded);
    if ls.last() == y {
        assert(r[r.len() - 1] == y);
    } else {
        let d = ls.drop_last();
        let k = choose|k: int| 0 <= k < ls.len() && ls[k] == y;
        assert(k < ls.len() - 1);
        assert(d[k] == y);
        lemma_not_in_contains(d, excluded, y);
        let rd = labels_not_in(d, excluded);
        let m = choose|m: int| 0 <= m < rd.len() && rd[m] == y;
        if !excluded.contains(ls.last()) {
            assert(r[m] == y);
        } else {
            assert(r == rd);
        }
    }
}

/// A sequence without repeats is no longer than a sequence holding all
/// its elements.
proof fn lemma_no_dup_len_le(a: Seq<Seq<char>>, b: Seq<Seq<char>>)
    requires
        a.no_duplicates(),
        forall|x: Seq<char>| a.contains(x) ==> b.contains(x),
    ensures
        a.len() <= b.len(),
{
    broadcast use seq_to_set_is_finite;
    a.unique_seq_to_set();
    b.lemma_cardinality_of_set();
    assert(a.to_set().subset_of(b.to_set()));
    vstd::set_lib::lemma_len_subset(a.to_set(), b.to_set());
}

/// A successful label request keeps the label table's invariant: one row
/// per label of a parameter, and no version with more than 10 labels.
pub proof fn lemma_label_keeps_labels_valid(s: StoreView, name: Seq<char>, labels: Seq<Seq<char>>, requested: Option<i64>)
    requires
        labels_valid(s.labels),
        spec_label_check(s, name, labels, requested) is Ok,
    ensures
        labels_valid(spec_upsert_labels(s.labels, name, label_request_valid(labels), label_target(s, name, requested))),
{
    let version = label_target(s, name, requested);
    let vs = label_request_valid(labels);
    let t = spec_upsert_labels(s.labels, name, vs, version);
    lemma_upsert_unique(s.labels, name, vs, version);
    lemma_upsert_rows(s.labels, name, vs, version);
    assert forall|n: Seq<char>, v: i64| #[trigger] labels_of(t, n, v).len() <= spec_label_limit() by {
        let tl = labels_of(t, n, v);
        lemma_labels_of_no_dup(t, n, v);
        if n == name && v == version {
            let e = labels_of(s.labels, name, version);
            let mixed = labels_not_in(sort_seq(e), vs) + vs;
            let after = labels_after(s, name, version, vs);
            assert(after == dedup_seq(sort_seq(mixed)));
            assert forall|x: Seq<char>| tl.contains(x) implies after.contains(x) by {
                lemma_labels_of_contains(t, n, v, x);
                let j = choose|j: int| 0 <= j < t.len() && (#[trigger] t[j]).param_key == n && t[j].version == v && t[j].label == x;
                lemma_dedup_contains(sort_seq(mixed), x);
                lemma_sort_contains(mixed, x);
                if vs.contains(x) {
                    let m = choose|m: int| 0 <= m < vs.len() && vs[m] == x;
                    assert(mixed[labels_not_in(sort_seq(e), vs).len() + m] == x);
                } else {
                    let r = t[j];
                    let k = choose|k: int| 0 <= k < s.labels.len() && s.labels[k] == r;
                    lemma_labels_of_contains(s.labels, name, version, x);
                    lemma_sort_contains(e, x);
                    lemma_not_in_contains(sort_seq(e), vs, x);
                    let m = choose|m: int| 0 <= m < labels_not_in(sort_seq(e), vs).len() && labels_not_in(sort_seq(e), vs)[m] == x;
                    assert(mixed[m] == x);
                }
            }
            lemma_no_dup_len_le(tl, after);
        } else {
            let old_l = labels_of(s.labels, n, v);
            assert(old_l.len() <= spec_label_limit());
            assert forall|x: Seq<char>| tl.contains(x) implies old_l.contains(x) by {
                lemma_labels_of_contains(t, n, v, x);
                let j = choose|j: int| 0 <= j < t.len() && (#[trigger] t[j]).param_key == n && t[j].version == v && t[j].label == x;
                let r = t[j];
                let k = choose|k: int| 0 <= k < s.labels.len() && s.labels[k] == r;
                lemma_labels_of_contains(s.labels, n, v, x);
            }
            lemma_no_dup_len_le(tl, old_l);
        }
    }
}

/// Keeping some rows of the label table keeps its invariant.
proof fn lemma_select_keeps_labels_valid(ls: Seq<LabelView>, keep: Seq<bool>)
    requires
        labels_valid(ls),
        keep.len() == ls.len(),
    ensures
        labels_valid(select(ls, keep)),
    decreases ls.len(),
{
    let t = select(ls, keep);
    assert forall|n: Seq<char>, v: i64| #[trigger] labels_of(t, n, v).len() <= spec_label_limit() by {
        lemma_select_labels_of(ls, keep, n, v);
    }
    lemma_select_unique(ls, keep);
}

/// Keeping some rows keeps no more labels of a version.
proof fn lemma_select_labels_of(ls: Seq<LabelView>, keep: Seq<bool>, n: Seq<char>, v: i64)
    requires
        keep.len() == ls.len(),
    ensures
        labels_of(select(ls, keep), n, v).len() <= labels_of(ls, n, v).len(),
    decreases ls.len(),
{
    if ls.len() > 0 {
        lemma_select_labels_of(ls.drop_last(), keep.take(ls.len() - 1), n, v);
        let r = select(ls.drop_last(), keep.take(ls.len() - 1));
        if keep[ls.len() - 1] {
            assert(select(ls, keep).drop_last() =~= r);
        }
    }
}

/// Keeping some rows keeps one row per label of a parameter.
proof fn lemma_select_unique(ls: Seq<LabelView>, keep: Seq<bool>)
    requires
        labels_unique(ls),
        keep.len() == ls.len(),
    ensures
        labels_unique(select(ls, keep)),
    decreases ls.len(),
{
    if ls.len() > 0 {
        let d = ls.drop_last();
        assert forall|i: int, j: int| 0 <= i < j < d.len() implies !((#[trigger] d[i]).param_key == (#[trigger] d[j]).param_key && d[i].label == d[j].label) by {
            assert(d[i] == ls[i] && d[j] == ls[j]);
        }
        let kd = keep.take(ls.len() - 1);
        lemma_select_unique(d, kd);
        let r = select(d, kd);
        let last = ls.last();
        if keep[ls.len() - 1] {
            let p = |x: LabelView| !(x.param_key == last.param_key && x.label == last.label);
            assert forall|i: int| 0 <= i < d.len() && kd[i] implies p(d[i]) by {
                assert(d[i] == ls[i]);
                assert(ls[ls.len() - 1] == last);
            }
            crate::store::lemma_select_all(d, kd, p);
            let t = select(ls, keep);
            assert(t == r.push(last));
            assert forall|a: int, b: int| 0 <= a < b < t.len() implies !((#[trigger] t[a]).param_key == (#[trigger] t[b]).param_key && t[a].label == t[b].label) by {
                assert(t[a] == r[a]);
                if b < r.len() {
                    assert(t[b] == r[b]);
                } else {
                    assert(p(r[a]));
                }
            }
        }
    }
}

/// A successful unlabel request keeps the label table's invariant.
pub proof fn lemma_unlabel_keeps_labels_valid(ls: Seq<LabelView>, name: Seq<char>, version: i64, labels: Seq<Seq<char>>)
    requires
        labels_valid(ls),
    ensures
        labels_valid(spec_unlabel_fold(ls, name, version, labels).0),
    decreases labels.len(),
{
    if labels.len() > 0 {
        lemma_unlabel_keeps_labels_valid(ls, name, version, labels.drop_last());
        let t = spec_unlabel_fold(ls, name, version, labels.drop_last()).0;
        let l = labels.last();
        if has_label_row(t, name, version, l) {
            lemma_select_keeps_labels_valid(t, label_rows_kept(t, name, l));
        }
    }
}

/// Deleting a parameter keeps the label table's invariant.
pub proof fn lemma_delete_keeps_labels_valid(s: StoreView, name: Seq<char>)
    requires
        labels_valid(s.labels),
    ensures
        labels_valid(spec_after_delete(s, name).labels),
{
    lemma_select_keeps_labels_valid(s.labels, labels_kept(s.labels, name));
}

/// The empty label table keeps the invariant.
pub proof fn lemma_empty_labels_valid()
    ensures
        labels_valid(Seq::<LabelView>::empty()),
{
    assert forall|n: Seq<char>, v: i64| #[trigger] labels_of(Seq::<LabelView>::empty(), n, v).len() <= spec_label_limit() by {
    }
}

/// A put leaves the label table as it was, and so keeps its invariant.
pub proof fn lemma_put_keeps_labels_valid(s: StoreView, r: PutParameterRequest, version: i64, stored: Seq<u8>, now: i64)
    requires
        labels_valid(s.labels),
    ensures
        spec_apply_put(s, r, version, stored, now).labels == s.labels,
        labels_valid(spec_apply_put(s, r, version, stored, now).labels),
{
}

/// Deleting several parameters in turn keeps the label table's invariant.
pub proof fn lemma_delete_many_keeps_labels_valid(s: StoreView, names: Seq<Seq<char>>)
    requires
        labels_valid(s.labels),
    ensures
        labels_valid(spec_delete_fold(s, names).0.labels),
    decreases names.len(),
{
    if names.len() > 0 {
        lemma_delete_many_keeps_labels_valid(s, names.drop_last());
        let t = spec_delete_fold(s, names.drop_last()).0;
        lemma_delete_keeps_labels_valid(t, names.last());
    }
}

/// Whether no two parameter rows share a key.
pub open spec fn params_unique(ps: Seq<ParamView>) -> bool {
    forall|i: int, j: int| 0 <= i < j < ps.len() ==> (#[trigger] ps[i]).key != (#[trigger] ps[j]).key
}

/// Whether the latest version of every parameter, and the version every
/// label points at, has its row.
pub open spec fn versions_present(s: StoreView) -> bool {
    &&& forall|i: int| 0 <= i < s.params.len() ==> version_index(s.versions, (#[trigger] s.params[i]).key, s.params[i].version) >= 0
    &&& forall|i: int| 0 <= i < s.labels.len() ==> version_index(s.versions, (#[trigger] s.labels[i]).param_key, s.labels[i].version) >= 0
}

/// Whether every tag row has its own id and every tag id in use, in the
/// tag table and the link table, is below the next tag id.
pub open spec fn tags_valid(s: StoreView) -> bool {
    tags_fresh(s.tags, s.next_tag_id as int) && links_below(s.links, s.next_tag_id as int)
}

/// The store's invariant: one row per parameter, every latest version
/// and every labelled version present, a valid label table, and tag ids
/// that are unique and below the next one.
pub open spec fn store_valid(s: StoreView) -> bool {
    params_unique(s.params) && versions_present(s) && labels_valid(s.labels) && tags_valid(s)
}

/// A version row found stays found when rows are added after it.
proof fn lemma_version_found_in_larger(vs: Seq<VersionView>, ws: Seq<VersionView>, n: Seq<char>, v: i64)
    requires
        version_index(vs, n, v) >= 0,
        vs.len() <= ws.len(),
        forall|k: int| 0 <= k < vs.len() ==> ws[k] == vs[k],
    ensures
        version_index(ws, n, v) >= 0,
{
    lemma_version_index(vs, n, v);
    lemma_version_index(ws, n, v);
    let k = version_index(vs, n, v);
    assert(ws[k] == vs[k]);
}

/// A kept element is among the selection.
pub(crate) proof fn lemma_select_contains<T>(s: Seq<T>, keep: Seq<bool>, k: int)
    requires
        keep.len() == s.len(),
        0 <= k < s.len(),
        keep[k],
    ensures
        select(s, keep).contains(s[k]),
    decreases s.len(),
{
    let r = select(s.drop_last(), keep.take(s.len() - 1));
    if k == s.len() - 1 {
        assert(select(s, keep)[select(s, keep).len() - 1] == s[k]);
    } else {
        assert(s.drop_last()[k] == s[k]);
        assert(keep.take(s.len() - 1)[k]);
        lemma_select_contains(s.drop_last(), keep.take(s.len() - 1), k);
        let m = choose|m: int| 0 <= m < r.len() && r[m] == s[k];
        if keep[s.len() - 1] {
            assert(select(s, keep)[m] == s[k]);
        }
    }
}

/// A selection keeps pairs apart that were apart.
proof fn lemma_select_params_unique(ps: Seq<ParamView>, keep: Seq<bool>)
    requires
        params_unique(ps),
        keep.len() == ps.len(),
    ensures
        params_unique(select(ps, keep)),
    decreases ps.len(),
{
    if ps.len() > 0 {
        let d = ps.drop_last();
        let kd = keep.take(ps.len() - 1);
        assert forall|i: int, j: int| 0 <= i < j < d.len() implies (#[trigger] d[i]).key != (#[trigger] d[j]).key by {
            assert(d[i] == ps[i] && d[j] == ps[j]);
        }
        lemma_select_params_unique(d, kd);
        if keep[ps.len() - 1] {
            let last = ps.last();
            let p = |x: ParamView| x.key != last.key;
            assert forall|i: int| 0 <= i < d.len() && kd[i] implies p(d[i]) by {
                assert(d[i] == ps[i]);
                assert(ps[ps.len() - 1] == last);
            }
            crate::store::lemma_select_all(d, kd, p);
            let r = select(d, kd);
            let t = select(ps, keep);
            assert forall|a: int, b: int| 0 <= a < b < t.len() implies (#[trigger] t[a]).key != (#[trigger] t[b]).key by {
                assert(t[a] == r[a]);
                if b < r.len() {
                    assert(t[b] == r[b]);
                } else {
                    assert(p(r[a]));
                }
            }
        }
    }
}

/// The empty store keeps the invariant.
pub proof fn lemma_empty_store_valid(s: StoreView)
    requires
        s.params.len() == 0,
        s.versions.len() == 0,
        s.labels.len() == 0,
        s.links.len() == 0,
        s.tags.len() == 0,
    ensures
        store_valid(s),
{
    lemma_empty_labels_valid();
    assert(s.labels =~= Seq::<LabelView>::empty());
}

/// A put keeps the store's invariant: the parameter's row is updated or
/// added, its new version is added, and its tags get fresh ids.
pub proof fn lemma_put_keeps_store_valid(s: StoreView, r: PutParameterRequest, version: i64, stored: Seq<u8>, now: i64)
    requires
        store_valid(s),
        tag_room(s, r),
    ensures
        store_valid(spec_apply_put(s, r, version, stored, now)),
{
    let t = spec_apply_put(s, r, version, stored, now);
    let p = param_index(s.params, r.name@);
    lemma_param_index(s.params, r.name@);
    assert(t.versions.drop_last() =~= s.versions);
    assert(t.versions.last().param_key == r.name@ && t.versions.last().version == version);
    assert(version_index(t.versions, r.name@, version) >= 0);
    assert forall|i: int, j: int| 0 <= i < j < t.params.len() implies (#[trigger] t.params[i]).key != (#[trigger] t.params[j]).key by {
        if p >= 0 {
            if i != p && j != p {
                assert(t.params[i] == s.params[i] && t.params[j] == s.params[j]);
            } else if i == p {
                assert(t.params[j] == s.params[j]);
                assert(s.params[p].key == r.name@);
            } else {
                assert(t.params[i] == s.params[i]);
                assert(s.params[p].key == r.name@);
            }
        } else {
            assert(t.params[i] == s.params[i]);
            if j < s.params.len() {
                assert(t.params[j] == s.params[j]);
            }
        }
    }
    assert forall|i: int| 0 <= i < t.params.len() implies version_index(t.versions, (#[trigger] t.params[i]).key, t.params[i].version) >= 0 by {
        if (p >= 0 && i == p) || (p < 0 && i == s.params.len()) {
        } else {
            assert(t.params[i] == s.params[i]);
            lemma_version_found_in_larger(s.versions, t.versions, s.params[i].key, s.params[i].version);
        }
    }
    assert forall|i: int| 0 <= i < t.labels.len() implies version_index(t.versions, (#[trigger] t.labels[i]).param_key, t.labels[i].version) >= 0 by {
        assert(t.labels[i] == s.labels[i]);
        lemma_version_found_in_larger(s.versions, t.versions, s.labels[i].param_key, s.labels[i].version);
    }
    lemma_put_keeps_labels_valid(s, r, version, stored, now);
    lemma_put_sets_tags(s, r, version, stored, now);
}

/// A successful label request keeps the store's invariant.
pub proof fn lemma_label_keeps_store_valid(s: StoreView, name: Seq<char>, labels: Seq<Seq<char>>, requested: Option<i64>)
    requires
        store_valid(s),
        spec_label_check(s, name, labels, requested) is Ok,
    ensures
        store_valid(StoreView {
            labels: spec_upsert_labels(s.labels, name, label_request_valid(labels), label_target(s, name, requested)),
            ..s
        }),
{
    let version = label_target(s, name, requested);
    let vs = label_request_valid(labels);
    let ls = spec_upsert_labels(s.labels, name, vs, version);
    let t = StoreView { labels: ls, ..s };
    lemma_label_keeps_labels_valid(s, name, labels, requested);
    lemma_upsert_rows(s.labels, name, vs, version);
    assert forall|i: int| 0 <= i < t.labels.len() implies version_index(t.versions, (#[trigger] t.labels[i]).param_key, t.labels[i].version) >= 0 by {
        let row = ls[i];
        if !(row.param_key == name && row.version == version && vs.contains(row.label)) {
            let k = choose|k: int| 0 <= k < s.labels.len() && s.labels[k] == row;
            assert(s.labels[k] == row);
        }
    }
}

/// Every row left by an unlabel request was a row before it.
proof fn lemma_unlabel_rows(ls: Seq<LabelView>, name: Seq<char>, version: i64, labels: Seq<Seq<char>>)
    ensures
        forall|j: int| 0 <= j < spec_unlabel_fold(ls, name, version, labels).0.len() ==> ls.contains(#[trigger] spec_unlabel_fold(ls, name, version, labels).0[j]),
    decreases labels.len(),
{
    if labels.len() > 0 {
        lemma_unlabel_rows(ls, name, version, labels.drop_last());
        let t = spec_unlabel_fold(ls, name, version, labels.drop_last()).0;
        let l = labels.last();
        if has_label_row(t, name, version, l) {
            let p = |x: LabelView| ls.contains(x);
            assert forall|i: int| 0 <= i < t.len() && label_rows_kept(t, name, l)[i] implies p(t[i]) by {
            }
            crate::store::lemma_select_all(t, label_rows_kept(t, name, l), p);
        }
    }
}

/// A successful unlabel request keeps the store's invariant.
pub proof fn lemma_unlabel_keeps_store_valid(s: StoreView, name: Seq<char>, labels: Seq<Seq<char>>, version: i64)
    requires
        store_valid(s),
    ensures
        store_valid(StoreView { labels: spec_unlabel_fold(s.labels, name, version, labels).0, ..s }),
{
    let ls = spec_unlabel_fold(s.labels, name, version, labels).0;
    let t = StoreView { labels: ls, ..s };
    lemma_unlabel_keeps_labels_valid(s.labels, name, version, labels);
    lemma_unlabel_rows(s.labels, name, version, labels);
    assert forall|i: int| 0 <= i < t.labels.len() implies version_index(t.versions, (#[trigger] t.labels[i]).param_key, t.labels[i].version) >= 0 by {
        assert(s.labels.contains(ls[i]));
        let k = choose|k: int| 0 <= k < s.labels.len() && s.labels[k] == ls[i];
        assert(s.labels[k] == ls[i]);
    }
}

/// Deleting a parameter keeps the store's invariant: the rows of every
/// other parameter, and the versions they and their labels name, stay.
pub proof fn lemma_delete_keeps_store_valid(s: StoreView, name: Seq<char>)
    requires
        store_valid(s),
    ensures
        store_valid(spec_after_delete(s, name)),
{
    let t = spec_after_delete(s, name);
    lemma_drop_links_pairs(s, name);
    lemma_delete_keeps_labels_valid(s, name);
    lemma_select_params_unique(s.params, params_kept(s.params, name));
    crate::store::lemma_select_all(s.params, params_kept(s.params, name), |p: ParamView| p.key != name);
    crate::store::lemma_select_all(s.labels, labels_kept(s.labels, name), |l: LabelView| l.param_key != name);
    let pk = params_kept(s.params, name);
    let lk = labels_kept(s.labels, name);
    let vk = versions_kept(s.versions, name);
    assert forall|i: int| 0 <= i < t.params.len() implies version_index(t.versions, (#[trigger] t.params[i]).key, t.params[i].version) >= 0 by {
        let row = t.params[i];
        crate::store::lemma_select_all(s.params, pk, |p: ParamView| s.params.contains(p));
        let k = choose|k: int| 0 <= k < s.params.len() && s.params[k] == row;
        assert(s.params[k] == row);
        lemma_version_index(s.versions, row.key, row.version);
        let vi = version_index(s.versions, row.key, row.version);
        lemma_select_contains(s.versions, vk, vi);
        let m = choose|m: int| 0 <= m < t.versions.len() && t.versions[m] == s.versions[vi];
        lemma_version_index(t.versions, row.key, row.version);
    }
    assert forall|i: int| 0 <= i < t.labels.len() implies version_index(t.versions, (#[trigger] t.labels[i]).param_key, t.labels[i].version) >= 0 by {
        let row = t.labels[i];
        crate::store::lemma_select_all(s.labels, lk, |l: LabelView| s.labels.contains(l));
        let k = choose|k: int| 0 <= k < s.labels.len() && s.labels[k] == row;
        assert(s.labels[k] == row);
        lemma_version_index(s.versions, row.param_key, row.version);
        let vi = version_index(s.versions, row.param_key, row.version);
        lemma_select_contains(s.versions, vk, vi);
        let m = choose|m: int| 0 <= m < t.versions.len() && t.versions[m] == s.versions[vi];
        lemma_version_index(t.versions, row.param_key, row.version);
    }
}

/// Deleting several parameters in turn keeps the store's invariant.
pub proof fn lemma_delete_many_keeps_store_valid(s: StoreView, names: Seq<Seq<char>>)
    requires
        store_valid(s),
    ensures
        store_valid(spec_delete_fold(s, names).0),
    decreases names.len(),
{
    if names.len() > 0 {
        lemma_delete_many_keeps_store_valid(s, names.drop_last());
        let t = spec_delete_fold(s, names.drop_last()).0;
        if param_index(t.params, names.last()) >= 0 {
            lemma_delete_keeps_store_valid(t, names.last());
        }
    }
}

} // verus!

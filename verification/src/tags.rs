use vstd::prelude::*;
use crate::invariants::lemma_select_contains;
use crate::api::{PutParameterRequest, req_tags, spec_apply_put, tag_room};
use crate::model::Tag;
use crate::store::{LinkView, StoreView, TagView, lemma_max_tag_id_push, lemma_select_all, lemma_tag_index, links_kept, max_tag_id, select, spec_add_tags, spec_drop_links, spec_replace_tags, tag_index, tags_kept, used};

verus! {

/// Whether every tag row has its own id, below `next`, the id the next
/// tag row receives.
pub open spec fn tags_fresh(ts: Seq<TagView>, next: int) -> bool {
    &&& forall|i: int| 0 <= i < ts.len() ==> (#[trigger] ts[i]).id < next
    &&& forall|i: int, j: int| 0 <= i < j < ts.len() ==> (#[trigger] ts[i]).id != (#[trigger] ts[j]).id
}

/// Whether every link names a tag id below `next`.
pub open spec fn links_below(ls: Seq<LinkView>, next: int) -> bool {
    forall|i: int| 0 <= i < ls.len() ==> (#[trigger] ls[i]).tag_id < next
}

/// The key and value of the tag row that a link to tag `id` reads.
pub open spec fn tag_pair(ts: Seq<TagView>, id: i64) -> Option<(Seq<char>, Seq<char>)> {
    let t = tag_index(ts, id);
    if t >= 0 {
        Some((ts[t].key, ts[t].value))
    } else {
        None
    }
}

/// The (key, value) pairs of the tags linked to parameter `name`.
pub open spec fn tag_pairs(links: Seq<LinkView>, tags: Seq<TagView>, name: Seq<char>) -> Set<(Seq<char>, Seq<char>)> {
    Set::new(
        |kv: (Seq<char>, Seq<char>)|
            exists|j: int|
                0 <= j < links.len() && (#[trigger] links[j]).param_key == name && tag_pair(tags, links[j].tag_id)
                    == Some(kv),
    )
}

/// The (key, value) pairs of a list of tags.
pub open spec fn given_pairs(ts: Seq<Tag>) -> Set<(Seq<char>, Seq<char>)> {
    Set::new(
        |kv: (Seq<char>, Seq<char>)|
            exists|i: int| 0 <= i < ts.len() && (#[trigger] ts[i]).key@ == kv.0 && ts[i].value@ == kv.1,
    )
}

proof fn lemma_tag_pair_push(ts: Seq<TagView>, y: TagView, x: i64)
    ensures
        tag_pair(ts.push(y), x) == (if y.id == x {
            Some((y.key, y.value))
        } else {
            tag_pair(ts, x)
        }),
{
    assert(ts.push(y).drop_last() =~= ts);
    lemma_tag_index(ts, x);
    if y.id != x {
        let t = tag_index(ts, x);
        if t >= 0 {
            assert(ts.push(y)[t] == ts[t]);
        }
    }
}

proof fn lemma_tag_pair_below(ts: Seq<TagView>, next: int, x: i64)
    requires
        tags_fresh(ts, next),
        tag_pair(ts, x) is Some,
    ensures
        x < next,
{
    lemma_tag_index(ts, x);
    assert(ts[tag_index(ts, x)].id == x);
}

proof fn lemma_tag_index_found(ts: Seq<TagView>, i: int)
    requires
        0 <= i < ts.len(),
    ensures
        tag_index(ts, ts[i].id) >= 0,
    decreases ts.len(),
{
    if ts.last().id != ts[i].id {
        assert(ts.drop_last()[i] == ts[i]);
        lemma_tag_index_found(ts.drop_last(), i);
    }
}

proof fn lemma_tag_pair_row(ts: Seq<TagView>, next: int, i: int)
    requires
        tags_fresh(ts, next),
        0 <= i < ts.len(),
    ensures
        tag_pair(ts, ts[i].id) == Some((ts[i].key, ts[i].value)),
{
    lemma_tag_index_found(ts, i);
    lemma_tag_index(ts, ts[i].id);
    let t = tag_index(ts, ts[i].id);
    if t != i {
        if t < i {
            assert(ts[t].id != ts[i].id);
        } else {
            assert(ts[i].id != ts[t].id);
        }
    }
}

proof fn lemma_max_tag_id_found(ts: Seq<TagView>, k: Seq<char>, v: Seq<char>)
    ensures
        max_tag_id(ts, k, v) matches Some(m) ==> exists|i: int|
            0 <= i < ts.len() && (#[trigger] ts[i]).id == m && ts[i].key == k && ts[i].value == v,
    decreases ts.len(),
{
    if ts.len() > 0 {
        lemma_max_tag_id_found(ts.drop_last(), k, v);
        let r = max_tag_id(ts.drop_last(), k, v);
        if let Some(m) = r {
            let i = choose|i: int|
                0 <= i < ts.drop_last().len() && (#[trigger] ts.drop_last()[i]).id == m && ts.drop_last()[i].key == k
                    && ts.drop_last()[i].value == v;
            assert(ts[i] == ts.drop_last()[i]);
        }
        let n = ts.len() - 1;
        assert(ts[n] == ts.last());
    }
}

proof fn lemma_tag_pair_select(ts: Seq<TagView>, keep: Seq<bool>, x: i64)
    requires
        keep.len() == ts.len(),
        forall|i: int| 0 <= i < ts.len() && (#[trigger] ts[i]).id == x ==> keep[i],
    ensures
        tag_pair(select(ts, keep), x) == tag_pair(ts, x),
    decreases ts.len(),
{
    if ts.len() > 0 {
        let n = ts.len() - 1;
        let d = ts.drop_last();
        let kd = keep.take(n);
        assert forall|i: int| 0 <= i < d.len() && (#[trigger] d[i]).id == x implies kd[i] by {
            assert(d[i] == ts[i]);
        }
        lemma_tag_pair_select(d, kd, x);
        let r = select(d, kd);
        assert(ts =~= d.push(ts.last()));
        lemma_tag_pair_push(d, ts.last(), x);
        assert(ts[n] == ts.last());
        if keep[n] {
            lemma_tag_pair_push(r, ts.last(), x);
        }
    }
}

proof fn lemma_select_tags_fresh(ts: Seq<TagView>, keep: Seq<bool>, next: int)
    requires
        keep.len() == ts.len(),
        tags_fresh(ts, next),
    ensures
        tags_fresh(select(ts, keep), next),
    decreases ts.len(),
{
    if ts.len() > 0 {
        let n = ts.len() - 1;
        let d = ts.drop_last();
        let kd = keep.take(n);
        assert forall|i: int| 0 <= i < d.len() implies (#[trigger] d[i]).id < next by {
            assert(d[i] == ts[i]);
        }
        assert forall|i: int, j: int| 0 <= i < j < d.len() implies (#[trigger] d[i]).id != (#[trigger] d[j]).id by {
            assert(d[i] == ts[i] && d[j] == ts[j]);
        }
        lemma_select_tags_fresh(d, kd, next);
        if keep[n] {
            let last = ts.last();
            assert(ts[n] == last);
            let p = |y: TagView| y.id != last.id;
            assert forall|i: int| 0 <= i < d.len() && kd[i] implies p(d[i]) by {
                assert(d[i] == ts[i]);
            }
            lemma_select_all(d, kd, p);
            let r = select(d, kd);
            let t = select(ts, keep);
            assert forall|i: int| 0 <= i < t.len() implies (#[trigger] t[i]).id < next by {
                if i < r.len() {
                    assert(t[i] == r[i]);
                }
            }
            assert forall|a: int, b: int| 0 <= a < b < t.len() implies (#[trigger] t[a]).id != (#[trigger] t[b]).id by {
                assert(t[a] == r[a]);
                if b < r.len() {
                    assert(t[b] == r[b]);
                } else {
                    assert(p(r[a]));
                }
            }
        }
    }
}

/// Adding the tags of `ts` for `name` keeps the ids fresh, appends one
/// link per tag that reads that tag's key and value, and leaves what every
/// existing id reads as it was.
proof fn lemma_add_tags(links: Seq<LinkView>, tags: Seq<TagView>, next: i64, name: Seq<char>, ts: Seq<Tag>)
    requires
        tags_fresh(tags, next as int),
        links_below(links, next as int),
        next + ts.len() <= i64::MAX,
    ensures
        ({
            let (l, t, n) = spec_add_tags(links, tags, next, name, ts);
            &&& n == next + ts.len()
            &&& tags_fresh(t, n)
            &&& links_below(l, n)
            &&& l.len() == links.len() + ts.len()
            &&& forall|j: int| 0 <= j < links.len() ==> l[j] == links[j]
            &&& forall|k: int|
                0 <= k < ts.len() ==> (#[trigger] l[links.len() + k]).param_key == name && tag_pair(
                    t,
                    l[links.len() + k].tag_id,
                ) == Some((ts[k].key@, ts[k].value@))
            &&& forall|x: i64| x < next ==> #[trigger] tag_pair(t, x) == tag_pair(tags, x)
        }),
    decreases ts.len(),
{
    if ts.len() > 0 {
        let d = ts.drop_last();
        lemma_add_tags(links, tags, next, name, d);
        let (l0, t0, n0) = spec_add_tags(links, tags, next, name, d);
        let row = TagView { id: n0 as i64, key: ts.last().key@, value: ts.last().value@ };
        let t2 = t0.push(row);
        assert forall|i: int| 0 <= i < t2.len() implies (#[trigger] t2[i]).id < n0 + 1 by {
            if i < t0.len() {
                assert(t2[i] == t0[i]);
            }
        }
        assert forall|i: int, j: int| 0 <= i < j < t2.len() implies (#[trigger] t2[i]).id != (#[trigger] t2[j]).id by {
            assert(t2[i] == t0[i]);
            if j < t0.len() {
                assert(t2[j] == t0[j]);
            }
        }
        lemma_max_tag_id_push(t0, row);
        lemma_max_tag_id_found(t2, row.key, row.value);
        let id = max_tag_id(t2, row.key, row.value).unwrap();
        let i = choose|i: int| 0 <= i < t2.len() && (#[trigger] t2[i]).id == id && t2[i].key == row.key && t2[i].value == row.value;
        lemma_tag_pair_row(t2, n0 + 1, i);
        let l = l0.push(LinkView { param_key: name, tag_id: id });
        assert(spec_add_tags(links, tags, next, name, ts) == (l, t2, n0 + 1));
        assert forall|j: int| 0 <= j < links.len() implies l[j] == links[j] by {
            assert(l[j] == l0[j]);
        }
        assert forall|k: int| 0 <= k < ts.len() implies (#[trigger] l[links.len() + k]).param_key == name && tag_pair(
            t2,
            l[links.len() + k].tag_id,
        ) == Some((ts[k].key@, ts[k].value@)) by {
            if k < d.len() {
                assert(d[k] == ts[k]);
                assert(l[links.len() + k] == l0[links.len() + k]);
                let m = l0[links.len() + k].tag_id;
                lemma_tag_pair_below(t0, n0, m);
                lemma_tag_pair_push(t0, row, m);
            } else {
                assert(k == d.len());
            }
        }
        assert forall|j: int| 0 <= j < l.len() implies (#[trigger] l[j]).tag_id < n0 + 1 by {
            if j < l0.len() {
                assert(l[j] == l0[j]);
            }
        }
        assert forall|x: i64| x < next implies #[trigger] tag_pair(t2, x) == tag_pair(tags, x) by {
            lemma_tag_pair_push(t0, row, x);
            assert(tag_pair(t0, x) == tag_pair(tags, x));
        }
    }
}

/// Dropping the links of `name` keeps the ids fresh, leaves `name` no
/// link, and leaves the tags of every other parameter as they were.
pub(crate) proof fn lemma_drop_links_pairs(s: StoreView, name: Seq<char>)
    requires
        tags_fresh(s.tags, s.next_tag_id as int),
        links_below(s.links, s.next_tag_id as int),
    ensures
        ({
            let (l1, t1) = spec_drop_links(s, name);
            &&& tags_fresh(t1, s.next_tag_id as int)
            &&& links_below(l1, s.next_tag_id as int)
            &&& forall|j: int| 0 <= j < l1.len() ==> (#[trigger] l1[j]).param_key != name
            &&& forall|n: Seq<char>| n != name ==> #[trigger] tag_pairs(l1, t1, n) == tag_pairs(s.links, s.tags, n)
        }),
{
    let (l1, t1) = spec_drop_links(s, name);
    let keep = links_kept(s.links, name);
    let tkeep = tags_kept(s.tags, s.links, l1, name);
    lemma_select_all(s.links, keep, |lk: LinkView| lk.param_key != name);
    lemma_select_all(s.links, keep, |lk: LinkView| lk.tag_id < s.next_tag_id);
    lemma_select_tags_fresh(s.tags, tkeep, s.next_tag_id as int);
    lemma_select_all(s.links, keep, |lk: LinkView| s.links.contains(lk));
    assert forall|n: Seq<char>| n != name implies #[trigger] tag_pairs(l1, t1, n) == tag_pairs(s.links, s.tags, n) by {
        assert forall|kv: (Seq<char>, Seq<char>)| tag_pairs(l1, t1, n).contains(kv) == tag_pairs(s.links, s.tags, n).contains(kv) by {
            if tag_pairs(l1, t1, n).contains(kv) {
                let j = choose|j: int| 0 <= j < l1.len() && (#[trigger] l1[j]).param_key == n && tag_pair(t1, l1[j].tag_id) == Some(kv);
                assert(s.links.contains(l1[j]));
                let k = choose|k: int| 0 <= k < s.links.len() && s.links[k] == l1[j];
                let x = l1[j].tag_id;
                assert(used(l1, x));
                lemma_tag_pair_select(s.tags, tkeep, x);
                assert(s.links[k].param_key == n);
            }
            if tag_pairs(s.links, s.tags, n).contains(kv) {
                let k = choose|k: int| 0 <= k < s.links.len() && (#[trigger] s.links[k]).param_key == n && tag_pair(s.tags, s.links[k].tag_id) == Some(kv);
                lemma_select_contains(s.links, keep, k);
                let j = choose|j: int| 0 <= j < l1.len() && l1[j] == s.links[k];
                let x = s.links[k].tag_id;
                assert(l1[j].tag_id == x);
                assert(used(l1, x));
                lemma_tag_pair_select(s.tags, tkeep, x);
                assert(l1[j].param_key == n);
            }
        }
        assert(tag_pairs(l1, t1, n) =~= tag_pairs(s.links, s.tags, n));
    }
}

/// Replacing the tags of `name` by `ts`: afterwards the (key, value)
/// pairs of the tags linked to `name` are exactly those of `ts`, every
/// other parameter keeps the pairs it had, and tag ids stay fresh.
pub proof fn lemma_replace_tags_pairs(s: StoreView, name: Seq<char>, ts: Seq<Tag>)
    requires
        tags_fresh(s.tags, s.next_tag_id as int),
        links_below(s.links, s.next_tag_id as int),
        s.next_tag_id + ts.len() <= i64::MAX,
    ensures
        ({
            let (l, t, n) = spec_replace_tags(s, name, ts);
            &&& tag_pairs(l, t, name) == given_pairs(ts)
            &&& forall|other: Seq<char>| other != name ==> #[trigger] tag_pairs(l, t, other) == tag_pairs(s.links, s.tags, other)
            &&& tags_fresh(t, n)
            &&& links_below(l, n)
            &&& n == s.next_tag_id + ts.len()
        }),
{
    lemma_drop_links_pairs(s, name);
    let (l1, t1) = spec_drop_links(s, name);
    lemma_add_tags(l1, t1, s.next_tag_id, name, ts);
    let (l, t, n) = spec_replace_tags(s, name, ts);
    let m = l1.len();
    assert forall|kv: (Seq<char>, Seq<char>)| tag_pairs(l, t, name).contains(kv) == given_pairs(ts).contains(kv) by {
        if tag_pairs(l, t, name).contains(kv) {
            let j = choose|j: int| 0 <= j < l.len() && (#[trigger] l[j]).param_key == name && tag_pair(t, l[j].tag_id) == Some(kv);
            if j < m {
                assert(l[j] == l1[j]);
            } else {
                let k = j - m;
                assert(l[m + k] == l[j]);
                assert(ts[k].key@ == kv.0);
            }
        }
        if given_pairs(ts).contains(kv) {
            let k = choose|k: int| 0 <= k < ts.len() && (#[trigger] ts[k]).key@ == kv.0 && ts[k].value@ == kv.1;
            assert(l[m + k].param_key == name);
        }
    }
    assert(tag_pairs(l, t, name) =~= given_pairs(ts));
    assert forall|other: Seq<char>| other != name implies #[trigger] tag_pairs(l, t, other) == tag_pairs(s.links, s.tags, other) by {
        assert forall|kv: (Seq<char>, Seq<char>)| tag_pairs(l, t, other).contains(kv) == tag_pairs(l1, t1, other).contains(kv) by {
            if tag_pairs(l, t, other).contains(kv) {
                let j = choose|j: int| 0 <= j < l.len() && (#[trigger] l[j]).param_key == other && tag_pair(t, l[j].tag_id) == Some(kv);
                if j < m {
                    assert(l[j] == l1[j]);
                    let x = l1[j].tag_id;
                    assert(x < s.next_tag_id);
                    assert(tag_pair(t, x) == tag_pair(t1, x));
                } else {
                    let k = j - m;
                    assert(l[m + k] == l[j]);
                }
            }
            if tag_pairs(l1, t1, other).contains(kv) {
                let j = choose|j: int| 0 <= j < l1.len() && (#[trigger] l1[j]).param_key == other && tag_pair(t1, l1[j].tag_id) == Some(kv);
                assert(l[j] == l1[j]);
                lemma_tag_pair_below(t1, s.next_tag_id as int, l1[j].tag_id);
            }
        }
        assert(tag_pairs(l, t, other) =~= tag_pairs(l1, t1, other));
    }
}

/// A put with tags leaves the parameter exactly the (key, value) pairs of
/// the request's tags and every other parameter the pairs it had; a put
/// without tags leaves the link and tag tables as they were. Tag ids stay
/// fresh either way.
pub proof fn lemma_put_sets_tags(s: StoreView, r: PutParameterRequest, version: i64, stored: Seq<u8>, now: i64)
    requires
        tags_fresh(s.tags, s.next_tag_id as int),
        links_below(s.links, s.next_tag_id as int),
        tag_room(s, r),
    ensures
        ({
            let t = spec_apply_put(s, r, version, stored, now);
            &&& r.tags is Some ==> tag_pairs(t.links, t.tags, r.name@) == given_pairs(req_tags(r))
            &&& forall|other: Seq<char>| other != r.name@ ==> #[trigger] tag_pairs(t.links, t.tags, other) == tag_pairs(s.links, s.tags, other)
            &&& r.tags is None ==> t.links == s.links && t.tags == s.tags && t.next_tag_id == s.next_tag_id
            &&& tags_fresh(t.tags, t.next_tag_id as int)
            &&& links_below(t.links, t.next_tag_id as int)
        }),
{
    if let Some(ts) = r.tags {
        lemma_replace_tags_pairs(s, r.name@, ts@);
    }
}

} // verus!

use vstd::prelude::*;
use crate::api::result_is;
use crate::error::{ApiError, ErrorCode, parameter_not_found, parameter_version_label_limit_exceeded, parameter_version_not_found};
use crate::model::SelectorView;
use crate::api::{ParameterView, spec_get_parameter};
use crate::model::spec_parse_selector;
use crate::store::{lemma_param_index, lemma_select_all, lemma_version_index, params_kept, versions_kept, labels_kept, ParamView, VersionView, spec_resolve, LabelRow, LabelView, ParamStore, StoreView, label_index, labels_of, lemma_label_index, param_index, retain_flagged, row_views, select, spec_after_delete, spec_version_has_label, version_index};
use crate::text::{chars_eq, chars_of, dedup_seq, dedup_strings, sort_seq, sort_strings, views};
use crate::validate::{labels_error, msg_invalid_name, names_error, spec_label_limit, spec_valid_label, spec_valid_name, valid_label, validate_labels, validate_parameter_name, validate_parameter_names};

verus! {

/// The labels of `ls` that are valid labels, in order.
pub open spec fn valid_labels_of(ls: Seq<Seq<char>>) -> Seq<Seq<char>>
    decreases ls.len(),
{
    if ls.len() == 0 {
        ls
    } else if spec_valid_label(ls.last()) {
        valid_labels_of(ls.drop_last()).push(ls.last())
    } else {
        valid_labels_of(ls.drop_last())
    }
}

/// The labels of `ls` that are not valid labels, in order.
pub open spec fn invalid_labels_of(ls: Seq<Seq<char>>) -> Seq<Seq<char>>
    decreases ls.len(),
{
    if ls.len() == 0 {
        ls
    } else if !spec_valid_label(ls.last()) {
        invalid_labels_of(ls.drop_last()).push(ls.last())
    } else {
        invalid_labels_of(ls.drop_last())
    }
}

/// The labels of `ls` that are not in `excluded`, in order.
pub open spec fn labels_not_in(ls: Seq<Seq<char>>, excluded: Seq<Seq<char>>) -> Seq<Seq<char>>
    decreases ls.len(),
{
    if ls.len() == 0 {
        ls
    } else if !excluded.contains(ls.last()) {
        labels_not_in(ls.drop_last(), excluded).push(ls.last())
    } else {
        labels_not_in(ls.drop_last(), excluded)
    }
}

/// The label table once each label of `new_labels` points at `version`
/// of `name`: an existing row of the label is moved, otherwise a row is added.
pub open spec fn spec_upsert_labels(ls: Seq<LabelView>, name: Seq<char>, new_labels: Seq<Seq<char>>, version: i64) -> Seq<LabelView>
    decreases new_labels.len(),
{
    if new_labels.len() == 0 {
        ls
    } else {
        let prev = spec_upsert_labels(ls, name, new_labels.drop_last(), version);
        let l = new_labels.last();
        let i = label_index(prev, name, l);
        if i >= 0 {
            prev.update(i, LabelView { param_key: prev[i].param_key, label: prev[i].label, version })
        } else {
            prev.push(LabelView { param_key: name, label: l, version })
        }
    }
}

/// A `LabelParameterVersion` request.
pub struct LabelParameterVersionRequest {
    pub name: String,
    pub labels: Vec<String>,
    pub parameter_version: Option<i64>,
}

/// The valid labels of a label request, sorted without repeats.
pub open spec fn label_request_valid(labels: Seq<Seq<char>>) -> Seq<Seq<char>> {
    dedup_seq(sort_seq(valid_labels_of(labels)))
}

/// The invalid labels of a label request, sorted without repeats.
pub open spec fn label_request_invalid(labels: Seq<Seq<char>>) -> Seq<Seq<char>> {
    dedup_seq(sort_seq(invalid_labels_of(labels)))
}

/// The labels `version` of `name` would carry after labelling with `valid`.
pub open spec fn labels_after(s: StoreView, name: Seq<char>, version: i64, valid: Seq<Seq<char>>) -> Seq<Seq<char>> {
    dedup_seq(sort_seq(labels_not_in(sort_seq(labels_of(s.labels, name, version)), valid) + valid))
}

/// The version a label request labels.
pub open spec fn label_target(s: StoreView, name: Seq<char>, requested: Option<i64>) -> i64 {
    match requested {
        Some(v) => v,
        None => s.params[param_index(s.params, name)].version,
    }
}

/// The answer to a label request: the invalid labels, sorted without
/// repeats, and the version labelled (the latest when none is given);
/// refused when the name or the number of labels is invalid, the
/// parameter or version does not exist, or the version would carry more
/// than 10 labels.
pub open spec fn spec_label_check(s: StoreView, name: Seq<char>, labels: Seq<Seq<char>>, requested: Option<i64>) -> Result<(Seq<Seq<char>>, i64), (ErrorCode, Seq<char>)> {
    let version = label_target(s, name, requested);
    if !spec_valid_name(name) {
        Err((ErrorCode::InvalidParameter, msg_invalid_name()))
    } else if labels.len() == 0 || labels.len() > spec_label_limit() {
        Err((ErrorCode::InvalidParameter, "Invalid number of labels."@))
    } else if param_index(s.params, name) < 0 {
        Err((ErrorCode::ParameterNotFound, "Parameter not found."@))
    } else if version_index(s.versions, name, version) < 0 {
        Err((ErrorCode::ParameterVersionNotFound, "Parameter version not found."@))
    } else if labels_after(s, name, version, label_request_valid(labels)).len() > spec_label_limit() {
        Err((ErrorCode::ParameterVersionLabelLimitExceeded, "A parameter version can have at most 10 labels."@))
    } else {
        Ok((label_request_invalid(labels), version))
    }
}

/// Splits labels into the valid and the invalid ones, each in order.
fn split_labels(labels: &Vec<String>) -> (res: (Vec<String>, Vec<String>))
    ensures
        views(res.0@) == valid_labels_of(views(labels@)),
        views(res.1@) == invalid_labels_of(views(labels@)),
{
    let mut valid: Vec<String> = Vec::new();
    let mut invalid: Vec<String> = Vec::new();
    let mut i: usize = 0;
    while i < labels.len()
        invariant
            i <= labels.len(),
            views(valid@) == valid_labels_of(views(labels@).take(i as int)),
            views(invalid@) == invalid_labels_of(views(labels@).take(i as int)),
        decreases labels.len() - i,
    {
        let l = &labels[i];
        assert(views(labels@).take(i + 1).drop_last() =~= views(labels@).take(i as int));
        assert(views(labels@).take(i + 1).last() == l@);
        if valid_label(l.as_str()) {
            let ghost before = valid@;
            valid.push(l.clone());
            assert(views(valid@) =~= views(before).push(l@));
        } else {
            let ghost before = invalid@;
            invalid.push(l.clone());
            assert(views(invalid@) =~= views(before).push(l@));
        }
        i = i + 1;
    }
    assert(views(labels@).take(i as int) =~= views(labels@));
    (valid, invalid)
}

/// Whether `x` is among `v`.
fn contains_string(v: &Vec<String>, x: &String) -> (res: bool)
    ensures
        res == views(v@).contains(x@),
{
    let xc = chars_of(x.as_str());
    let mut i: usize = 0;
    while i < v.len()
        invariant
            i <= v.len(),
            xc@ == x@,
            forall|k: int| 0 <= k < i ==> #[trigger] views(v@)[k] != x@,
        decreases v.len() - i,
    {
        let yc = chars_of(v[i].as_str());
        assert(views(v@)[i as int] == v@[i as int]@);
        if chars_eq(&xc, &yc) {
            return true;
        }
        i = i + 1;
    }
    false
}

/// The strings of `v` not among `excluded`, in order, followed by `extra`.
fn strings_not_in_then(v: &Vec<String>, excluded: &Vec<String>, extra: &Vec<String>) -> (res: Vec<String>)
    ensures
        views(res@) == labels_not_in(views(v@), views(excluded@)) + views(extra@),
{
    let mut out: Vec<String> = Vec::new();
    let mut i: usize = 0;
    while i < v.len()
        invariant
            i <= v.len(),
            views(out@) == labels_not_in(views(v@).take(i as int), views(excluded@)),
        decreases v.len() - i,
    {
        assert(views(v@).take(i + 1).drop_last() =~= views(v@).take(i as int));
        assert(views(v@).take(i + 1).last() == v@[i as int]@);
        if !contains_string(excluded, &v[i]) {
            let ghost before = out@;
            out.push(v[i].clone());
            assert(views(out@) =~= views(before).push(v@[i as int]@));
        }
        i = i + 1;
    }
    assert(views(v@).take(i as int) =~= views(v@));
    let ghost mid = views(out@);
    let mut j: usize = 0;
    while j < extra.len()
        invariant
            j <= extra.len(),
            views(out@) == mid + views(extra@).take(j as int),
        decreases extra.len() - j,
    {
        let ghost before = out@;
        out.push(extra[j].clone());
        assert(views(out@) =~= views(before).push(extra@[j as int]@));
        assert(views(extra@).take(j + 1) =~= views(extra@).take(j as int).push(extra@[j as int]@));
        j = j + 1;
    }
    assert(views(extra@).take(j as int) =~= views(extra@));
    out
}

impl ParamStore {
    /// Points `label` of `name` at `version`: moves its row, or adds one.
    fn upsert_label(&mut self, name: &str, label: &String, version: i64)
        ensures
            final(self)@.labels == ({
                let i = label_index(old(self)@.labels, name@, label@);
                if i >= 0 {
                    old(self)@.labels.update(i, LabelView { param_key: old(self)@.labels[i].param_key, label: old(self)@.labels[i].label, version })
                } else {
                    old(self)@.labels.push(LabelView { param_key: name@, label: label@, version })
                }
            }),
            final(self)@.params == old(self)@.params,
            final(self)@.versions == old(self)@.versions,
            final(self)@.links == old(self)@.links,
            final(self)@.tags == old(self)@.tags,
            final(self)@.next_tag_id == old(self)@.next_tag_id,
    {
        match self.find_label(name, label.as_str()) {
            Some(i) => {
                let row = LabelRow {
                    param_key: self.labels[i].param_key.clone(),
                    label: self.labels[i].label.clone(),
                    version,
                };
                let ghost before = self@.labels;
                assert(before[i as int] == self.labels@[i as int]@);
                self.labels.set(i, row);
                assert(self@.labels =~= before.update(i as int, row@));
            },
            None => {
                let ghost before = self@.labels;
                self.labels.push(LabelRow { param_key: name.to_owned(), label: label.clone(), version });
                assert(self@.labels =~= before.push(LabelView { param_key: name@, label: label@, version }));
            },
        }
    }

    /// Answers a `LabelParameterVersion` request: the invalid labels and
    /// the version labelled; each valid label then points at that version.
    pub fn label_parameter_version(&mut self, req: &LabelParameterVersionRequest) -> (res: Result<(Vec<String>, i64), ApiError>)
        ensures
            match spec_label_check(old(self)@, req.name@, views(req.labels@), req.parameter_version) {
                Err((c, m)) => res is Err && res->Err_0.is(c, m) && final(self)@ == old(self)@,
                Ok((invalid, version)) => res is Ok && views(res->Ok_0.0@) == invalid && res->Ok_0.1 == version
                    && final(self)@ == (StoreView {
                        labels: spec_upsert_labels(old(self)@.labels, req.name@, label_request_valid(views(req.labels@)), version),
                        ..old(self)@
                    }),
            },
    {
        if let Some(err) = validate_parameter_name(req.name.as_str()) {
            return Err(err);
        }
        if let Some(err) = validate_labels(req.labels.as_slice()) {
            return Err(err);
        }
        let p = match self.find_param(req.name.as_str()) {
            Some(p) => p,
            None => return Err(parameter_not_found()),
        };
        assert(self@.params[p as int].version == self.params@[p as int].version);
        let version = match req.parameter_version {
            Some(v) => v,
            None => self.params[p].version,
        };
        if self.find_version(req.name.as_str(), version).is_none() {
            return Err(parameter_version_not_found());
        }
        let (valid0, invalid0) = split_labels(&req.labels);
        let valid = dedup_strings(sort_strings(valid0));
        let invalid = dedup_strings(sort_strings(invalid0));
        let existing = self.labels_for_version(req.name.as_str(), version);
        let combined = strings_not_in_then(&existing, &valid, &valid);
        let combined = dedup_strings(sort_strings(combined));
        if combined.len() > 10 {
            return Err(parameter_version_label_limit_exceeded());
        }
        let ghost s0 = self@;
        let ghost vl = views(valid@);
        let mut i: usize = 0;
        while i < valid.len()
            invariant
                i <= valid.len(),
                vl == views(valid@),
                self@ == (StoreView { labels: spec_upsert_labels(s0.labels, req.name@, vl.take(i as int), version), ..s0 }),
            decreases valid.len() - i,
        {
            assert(vl.take(i + 1).drop_last() =~= vl.take(i as int));
            assert(vl.take(i + 1).last() == valid@[i as int]@);
            self.upsert_label(req.name.as_str(), &valid[i], version);
            i = i + 1;
        }
        assert(vl.take(i as int) =~= vl);
        Ok((invalid, version))
    }
}

} // verus!

verus! {

proof fn lemma_label_index_update_other(ls: Seq<LabelView>, k: int, r: LabelView, name: Seq<char>, label: Seq<char>)
    requires
        0 <= k < ls.len(),
        !(ls[k].param_key == name && ls[k].label == label),
        !(r.param_key == name && r.label == label),
    ensures
        label_index(ls.update(k, r), name, label) == label_index(ls, name, label),
    decreases ls.len(),
{
    let u = ls.update(k, r);
    if k < ls.len() - 1 {
        assert(u.drop_last() =~= ls.drop_last().update(k, r));
        lemma_label_index_update_other(ls.drop_last(), k, r, name, label);
    } else {
        assert(u.drop_last() =~= ls.drop_last());
    }
}

proof fn lemma_label_index_update_same(ls: Seq<LabelView>, k: int, r: LabelView, name: Seq<char>, label: Seq<char>)
    requires
        k == label_index(ls, name, label),
        k >= 0,
        r.param_key == name && r.label == label,
    ensures
        label_index(ls.update(k, r), name, label) == k,
    decreases ls.len(),
{
    lemma_label_index(ls, name, label);
    let u = ls.update(k, r);
    if k < ls.len() - 1 {
        assert(u.drop_last() =~= ls.drop_last().update(k, r));
        lemma_label_index_update_same(ls.drop_last(), k, r, name, label);
    }
}

/// After the labels of `new_labels` are pointed at `version`, each of them
/// is found pointing at `version`.
proof fn lemma_upsert_finds(ls: Seq<LabelView>, name: Seq<char>, new_labels: Seq<Seq<char>>, version: i64, l: Seq<char>)
    requires
        new_labels.contains(l),
    ensures
        ({
            let t = spec_upsert_labels(ls, name, new_labels, version);
            let i = label_index(t, name, l);
            i >= 0 && t[i].version == version
        }),
    decreases new_labels.len(),
{
    let prev = spec_upsert_labels(ls, name, new_labels.drop_last(), version);
    let last = new_labels.last();
    let i = label_index(prev, name, last);
    lemma_label_index(prev, name, last);
    let t = spec_upsert_labels(ls, name, new_labels, version);
    if last == l {
        if i >= 0 {
            let r = LabelView { param_key: prev[i].param_key, label: prev[i].label, version };
            lemma_label_index_update_same(prev, i, r, name, l);
        } else {
            assert(t.drop_last() =~= prev);
        }
    } else {
        let m = choose|m: int| 0 <= m < new_labels.len() && new_labels[m] == l;
        assert(m < new_labels.len() - 1);
        assert(new_labels.drop_last()[m] == l);
        lemma_upsert_finds(ls, name, new_labels.drop_last(), version, l);
        let j = label_index(prev, name, l);
        lemma_label_index(prev, name, l);
        if i >= 0 {
            let r = LabelView { param_key: prev[i].param_key, label: prev[i].label, version };
            lemma_label_index_update_other(prev, i, r, name, l);
            assert(t[j] == prev[j]);
        } else {
            assert(t.drop_last() =~= prev);
            assert(t.last().label != l);
            assert(t[j] == prev[j]);
        }
    }
}

/// After a successful label request, the parameter read through any of
/// its valid labels (`name:label`) is the version that was labelled.
pub proof fn lemma_label_then_resolve(s: StoreView, name: Seq<char>, labels: Seq<Seq<char>>, requested: Option<i64>, l: Seq<char>)
    requires
        spec_label_check(s, name, labels, requested) is Ok,
        label_request_valid(labels).contains(l),
    ensures
        ({
            let version = spec_label_check(s, name, labels, requested)->Ok_0.1;
            let t = StoreView { labels: spec_upsert_labels(s.labels, name, label_request_valid(labels), version), ..s };
            spec_resolve(t, SelectorView::Label { name, label: l }) == version_index(t.versions, name, version)
                && version_index(t.versions, name, version) >= 0
        }),
{
    let version = spec_label_check(s, name, labels, requested)->Ok_0.1;
    lemma_upsert_finds(s.labels, name, label_request_valid(labels), version, l);
}

/// A label request that names no version labels the version that
/// reading the parameter by its plain name reads, the latest: the version
/// answered is that row's version, and afterwards reading `name:label`
/// reads the same row as reading `name`. A request that names a version
/// labels that version.
pub proof fn lemma_label_defaults_to_latest(s: StoreView, name: Seq<char>, labels: Seq<Seq<char>>, requested: Option<i64>, l: Seq<char>)
    requires
        spec_label_check(s, name, labels, requested) is Ok,
        label_request_valid(labels).contains(l),
    ensures
        ({
            let version = spec_label_check(s, name, labels, requested)->Ok_0.1;
            let t = StoreView { labels: spec_upsert_labels(s.labels, name, label_request_valid(labels), version), ..s };
            &&& requested matches Some(v) ==> version == v
            &&& requested is None ==> spec_resolve(s, SelectorView::Latest(name)) >= 0
                && version == s.versions[spec_resolve(s, SelectorView::Latest(name))].version
            &&& requested is None ==> spec_resolve(t, SelectorView::Label { name, label: l }) == spec_resolve(
                t,
                SelectorView::Latest(name),
            )
        }),
{
    lemma_label_then_resolve(s, name, labels, requested, l);
    let version = spec_label_check(s, name, labels, requested)->Ok_0.1;
    lemma_version_index(s.versions, name, version);
}

} // verus!

verus! {

/// Whether a row of `ls` ties `label` to `version` of `name`.
pub open spec fn has_label_row(ls: Seq<LabelView>, name: Seq<char>, version: i64, label: Seq<char>) -> bool {
    exists|i: int| 0 <= i < ls.len() && (#[trigger] ls[i]).param_key == name && ls[i].version == version && ls[i].label == label
}

/// Flags of the label rows that are not rows of `label` of `name`.
pub open spec fn label_rows_kept(ls: Seq<LabelView>, name: Seq<char>, label: Seq<char>) -> Seq<bool> {
    Seq::new(ls.len(), |i: int| !(ls[i].param_key == name && ls[i].label == label))
}

/// The label table, the removed labels and the invalid labels once each
/// label of `labels` is taken off `version` of `name` in turn: a label
/// that points at that version loses its rows and counts as removed,
/// any other counts as invalid.
pub open spec fn spec_unlabel_fold(ls: Seq<LabelView>, name: Seq<char>, version: i64, labels: Seq<Seq<char>>) -> (Seq<LabelView>, Seq<Seq<char>>, Seq<Seq<char>>)
    decreases labels.len(),
{
    if labels.len() == 0 {
        (ls, Seq::empty(), Seq::empty())
    } else {
        let (t, removed, invalid) = spec_unlabel_fold(ls, name, version, labels.drop_last());
        let l = labels.last();
        if has_label_row(t, name, version, l) {
            (select(t, label_rows_kept(t, name, l)), removed.push(l), invalid)
        } else {
            (t, removed, invalid.push(l))
        }
    }
}

/// An `UnlabelParameterVersion` request.
pub struct UnlabelParameterVersionRequest {
    pub name: String,
    pub labels: Vec<String>,
    pub parameter_version: i64,
}

/// The answer to an unlabel request: the invalid and the removed labels,
/// each sorted without repeats; refused when the name or the number of
/// labels is invalid or the parameter or version does not exist.
pub open spec fn spec_unlabel_check(s: StoreView, name: Seq<char>, labels: Seq<Seq<char>>, version: i64) -> Result<(Seq<Seq<char>>, Seq<Seq<char>>), (ErrorCode, Seq<char>)> {
    let (t, removed, invalid) = spec_unlabel_fold(s.labels, name, version, labels);
    if !spec_valid_name(name) {
        Err((ErrorCode::InvalidParameter, msg_invalid_name()))
    } else if labels.len() == 0 || labels.len() > spec_label_limit() {
        Err((ErrorCode::InvalidParameter, "Invalid number of labels."@))
    } else if param_index(s.params, name) < 0 {
        Err((ErrorCode::ParameterNotFound, "Parameter not found."@))
    } else if version_index(s.versions, name, version) < 0 {
        Err((ErrorCode::ParameterVersionNotFound, "Parameter version not found."@))
    } else {
        Ok((dedup_seq(sort_seq(invalid)), dedup_seq(sort_seq(removed))))
    }
}

impl ParamStore {
    /// Drops the rows of `label` of `name`.
    fn drop_label_rows(&mut self, name: &str, label: &str)
        ensures
            final(self)@ == (StoreView { labels: select(old(self)@.labels, label_rows_kept(old(self)@.labels, name@, label@)), ..old(self)@ }),
    {
        let n = chars_of(name);
        let l = chars_of(label);
        let mut keep: Vec<bool> = Vec::new();
        let mut i: usize = 0;
        while i < self.labels.len()
            invariant
                i <= self.labels.len(),
                n@ == name@,
                l@ == label@,
                keep@ =~= label_rows_kept(self@.labels, name@, label@).take(i as int),
            decreases self.labels.len() - i,
        {
            assert(self@.labels[i as int] == self.labels@[i as int]@);
            let k = chars_of(self.labels[i].param_key.as_str());
            let x = chars_of(self.labels[i].label.as_str());
            keep.push(!(chars_eq(&k, &n) && chars_eq(&x, &l)));
            i = i + 1;
        }
        assert(label_rows_kept(self@.labels, name@, label@).take(i as int) =~= label_rows_kept(self@.labels, name@, label@));
        let ghost before = self.labels@;
        retain_flagged(&mut self.labels, &keep);
        proof {
            crate::store::lemma_select_views(before, keep@);
        }
    }

    /// Answers an `UnlabelParameterVersion` request.
    pub fn unlabel_parameter_version(&mut self, req: &UnlabelParameterVersionRequest) -> (res: Result<(Vec<String>, Vec<String>), ApiError>)
        ensures
            match spec_unlabel_check(old(self)@, req.name@, views(req.labels@), req.parameter_version) {
                Err((c, m)) => res is Err && res->Err_0.is(c, m) && final(self)@ == old(self)@,
                Ok((invalid, removed)) => res is Ok && views(res->Ok_0.0@) == invalid && views(res->Ok_0.1@) == removed
                    && final(self)@ == (StoreView {
                        labels: spec_unlabel_fold(old(self)@.labels, req.name@, req.parameter_version, views(req.labels@)).0,
                        ..old(self)@
                    }),
            },
    {
        if let Some(err) = validate_parameter_name(req.name.as_str()) {
            return Err(err);
        }
        if let Some(err) = validate_labels(req.labels.as_slice()) {
            return Err(err);
        }
        if self.find_param(req.name.as_str()).is_none() {
            return Err(parameter_not_found());
        }
        if self.find_version(req.name.as_str(), req.parameter_version).is_none() {
            return Err(parameter_version_not_found());
        }
        let ghost s0 = self@;
        let ghost ls = views(req.labels@);
        let mut invalid: Vec<String> = Vec::new();
        let mut removed: Vec<String> = Vec::new();
        let mut i: usize = 0;
        assert(views(invalid@) =~= Seq::<Seq<char>>::empty());
        assert(views(removed@) =~= Seq::<Seq<char>>::empty());
        assert(ls.take(0) =~= Seq::<Seq<char>>::empty());
        while i < req.labels.len()
            invariant
                i <= req.labels.len(),
                ls == views(req.labels@),
                ({
                    let (t, rem, inv) = spec_unlabel_fold(s0.labels, req.name@, req.parameter_version, ls.take(i as int));
                    self@ == (StoreView { labels: t, ..s0 }) && views(removed@) == rem && views(invalid@) == inv
                }),
            decreases req.labels.len() - i,
        {
            let label = &req.labels[i];
            assert(ls.take(i + 1).drop_last() =~= ls.take(i as int));
            assert(ls.take(i + 1).last() == label@);
            let ghost prev = spec_unlabel_fold(s0.labels, req.name@, req.parameter_version, ls.take(i as int));
            let ghost next = spec_unlabel_fold(s0.labels, req.name@, req.parameter_version, ls.take(i + 1));
            assert(self@.labels == prev.0);
            if self.parameter_version_has_label(req.name.as_str(), req.parameter_version, label.as_str()) {
                assert(has_label_row(prev.0, req.name@, req.parameter_version, label@));
                assert(next == (select(prev.0, label_rows_kept(prev.0, req.name@, label@)), prev.1.push(label@), prev.2));
                self.drop_label_rows(req.name.as_str(), label.as_str());
                let ghost before = removed@;
                removed.push(label.clone());
                assert(views(removed@) =~= views(before).push(label@));
            } else {
                assert(!has_label_row(prev.0, req.name@, req.parameter_version, label@));
                let ghost before = invalid@;
                invalid.push(label.clone());
                assert(views(invalid@) =~= views(before).push(label@));
            }
            i = i + 1;
        }
        assert(ls.take(i as int) =~= ls);
        let invalid = dedup_strings(sort_strings(invalid));
        let removed = dedup_strings(sort_strings(removed));
        Ok((invalid, removed))
    }

    /// Answers a `DeleteParameter` request.
    pub fn delete_parameter(&mut self, name: &str) -> (res: Result<(), ApiError>)
        ensures
            !spec_valid_name(name@) ==> res is Err && res->Err_0.is(ErrorCode::InvalidParameter, msg_invalid_name()) && final(self)@ == old(self)@,
            spec_valid_name(name@) && param_index(old(self)@.params, name@) < 0 ==> res is Err
                && res->Err_0.is(ErrorCode::ParameterNotFound, "Parameter not found."@) && final(self)@ == old(self)@,
            spec_valid_name(name@) && param_index(old(self)@.params, name@) >= 0 ==> res is Ok
                && final(self)@ == spec_after_delete(old(self)@, name@),
    {
        if let Some(err) = validate_parameter_name(name) {
            return Err(err);
        }
        if !self.delete_parameter_named(name) {
            return Err(parameter_not_found());
        }
        Ok(())
    }
}

/// The store, the deleted names and the names not found once each name
/// of `names` is deleted in turn.
pub open spec fn spec_delete_fold(s: StoreView, names: Seq<Seq<char>>) -> (StoreView, Seq<Seq<char>>, Seq<Seq<char>>)
    decreases names.len(),
{
    if names.len() == 0 {
        (s, Seq::empty(), Seq::empty())
    } else {
        let (t, deleted, invalid) = spec_delete_fold(s, names.drop_last());
        let n = names.last();
        if param_index(t.params, n) >= 0 {
            (spec_after_delete(t, n), deleted.push(n), invalid)
        } else {
            (t, deleted, invalid.push(n))
        }
    }
}

impl ParamStore {
    /// Answers a `DeleteParameters` request: the names deleted and the
    /// names not found, each sorted.
    pub fn delete_parameters(&mut self, names: &Vec<String>) -> (res: Result<(Vec<String>, Vec<String>), ApiError>)
        ensures
            names_error(views(names@), 10) matches Some((c, m)) ==> res is Err && res->Err_0.is(c, m) && final(self)@ == old(self)@,
            names_error(views(names@), 10) is None ==> ({
                let (t, deleted, invalid) = spec_delete_fold(old(self)@, views(names@));
                res is Ok && views(res->Ok_0.0@) == sort_seq(deleted) && views(res->Ok_0.1@) == sort_seq(invalid)
                    && final(self)@ == t
            }),
    {
        if let Some(err) = validate_parameter_names(names.as_slice(), 10) {
            return Err(err);
        }
        let ghost s0 = self@;
        let ghost ns = views(names@);
        let mut deleted: Vec<String> = Vec::new();
        let mut invalid: Vec<String> = Vec::new();
        let mut i: usize = 0;
        assert(views(invalid@) =~= Seq::<Seq<char>>::empty());
        assert(views(deleted@) =~= Seq::<Seq<char>>::empty());
        assert(ns.take(0) =~= Seq::<Seq<char>>::empty());
        while i < names.len()
            invariant
                i <= names.len(),
                ns == views(names@),
                ({
                    let (t, del, inv) = spec_delete_fold(s0, ns.take(i as int));
                    self@ == t && views(deleted@) == del && views(invalid@) == inv
                }),
            decreases names.len() - i,
        {
            let name = &names[i];
            assert(ns.take(i + 1).drop_last() =~= ns.take(i as int));
            assert(ns.take(i + 1).last() == name@);
            if self.delete_parameter_named(name.as_str()) {
                let ghost before = deleted@;
                deleted.push(name.clone());
                assert(views(deleted@) =~= views(before).push(name@));
            } else {
                let ghost before = invalid@;
                invalid.push(name.clone());
                assert(views(invalid@) =~= views(before).push(name@));
            }
            i = i + 1;
        }
        assert(ns.take(i as int) =~= ns);
        Ok((sort_strings(deleted), sort_strings(invalid)))
    }
}

/// Once a parameter is deleted, reading it by any selector of its name
/// answers that the parameter is not found: no parameter, version or
/// label row of it is left.
pub proof fn lemma_get_after_delete(s: StoreView, name: Seq<char>, key: Seq<u8>, request: Seq<char>, with_decryption: bool)
    requires
        spec_valid_name(name),
        spec_parse_selector(request).name() == name,
    ensures
        spec_get_parameter(spec_after_delete(s, name), key, request, with_decryption)
            == Err::<ParameterView, (ErrorCode, Seq<char>)>((ErrorCode::ParameterNotFound, "Parameter not found."@)),
{
    let t = spec_after_delete(s, name);
    lemma_select_all(s.params, params_kept(s.params, name), |p: ParamView| p.key != name);
    lemma_select_all(s.versions, versions_kept(s.versions, name), |v: VersionView| v.param_key != name);
    lemma_select_all(s.labels, labels_kept(s.labels, name), |l: LabelView| l.param_key != name);
    lemma_param_index(t.params, name);
    match spec_parse_selector(request) {
        SelectorView::Latest(n) => {},
        SelectorView::Version { name: n, version } => {
            lemma_version_index(t.versions, name, version);
        },
        SelectorView::Label { name: n, label } => {
            lemma_label_index(t.labels, name, label);
        },
    }
}

/// Whether no row of `ls` ties `label` to `name`.
pub open spec fn no_label_row(ls: Seq<LabelView>, name: Seq<char>, label: Seq<char>) -> bool {
    forall|i: int| 0 <= i < ls.len() ==> !((#[trigger] ls[i]).param_key == name && ls[i].label == label)
}

/// Once a label is taken off a parameter, no row of it is left, and no
/// later step of the same request brings one back.
proof fn lemma_unlabel_fold_removes(ls: Seq<LabelView>, name: Seq<char>, version: i64, labels: Seq<Seq<char>>, l: Seq<char>)
    requires
        spec_unlabel_fold(ls, name, version, labels).1.contains(l),
    ensures
        no_label_row(spec_unlabel_fold(ls, name, version, labels).0, name, l),
    decreases labels.len(),
{
    let (t, removed, invalid) = spec_unlabel_fold(ls, name, version, labels.drop_last());
    let last = labels.last();
    let p = |r: LabelView| !(r.param_key == name && r.label == l);
    if removed.contains(l) {
        lemma_unlabel_fold_removes(ls, name, version, labels.drop_last(), l);
        if has_label_row(t, name, version, last) {
            lemma_select_all(t, label_rows_kept(t, name, last), p);
        }
    } else {
        assert(has_label_row(t, name, version, last) && last == l) by {
            if !has_label_row(t, name, version, last) {
                assert(spec_unlabel_fold(ls, name, version, labels).1 == removed);
            } else if last != l {
                let r2 = spec_unlabel_fold(ls, name, version, labels).1;
                assert(r2 == removed.push(last));
                let k = choose|k: int| 0 <= k < r2.len() && r2[k] == l;
                assert(k < removed.len());
                assert(removed[k] == l);
            }
        }
        lemma_select_all(t, label_rows_kept(t, name, l), p);
    }
}

/// After a successful unlabel request, reading the parameter through a
/// label it removed (`name:label`) answers that the parameter is not
/// found.
pub proof fn lemma_unlabel_then_not_found(s: StoreView, name: Seq<char>, labels: Seq<Seq<char>>, version: i64, key: Seq<u8>, request: Seq<char>, with_decryption: bool)
    requires
        spec_unlabel_check(s, name, labels, version) is Ok,
        spec_parse_selector(request) is Label,
        spec_parse_selector(request)->Label_name == name,
        spec_unlabel_fold(s.labels, name, version, labels).1.contains(spec_parse_selector(request)->Label_label),
    ensures
        spec_get_parameter(StoreView { labels: spec_unlabel_fold(s.labels, name, version, labels).0, ..s }, key, request, with_decryption)
            == Err::<ParameterView, (ErrorCode, Seq<char>)>((ErrorCode::ParameterNotFound, "Parameter not found."@)),
{
    let l = spec_parse_selector(request)->Label_label;
    let t = spec_unlabel_fold(s.labels, name, version, labels).0;
    lemma_unlabel_fold_removes(s.labels, name, version, labels, l);
    lemma_label_index(t, name, l);
}

} // verus!

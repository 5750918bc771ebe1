use vstd::prelude::*;
use crate::api::{Parameter, ParameterView, clone_opt, copy_string, data_type_or_text, msg_internal, spec_parameter_from_version, view_result_is};
use crate::error::{ApiError, ErrorCode, invalid_next_token, invalid_parameter, parameter_not_found};
use crate::model::{parse_selector, spec_parse_selector};
use crate::order::{lemma_sort_by_sorted, insert_by, lemma_insert_by_at, lemma_sort_by_elems, lemma_sort_by_len, lemma_sort_by_step, sort_by};
use crate::paging::{page_bounds, spec_page_bounds, spec_take_page, take_page};
use crate::store::{ParamStore, StoreView, VersionView, labels_of, ov, param_index, row_views, spec_resolve};
use crate::values::{decode_stored_value, spec_decode};
use crate::text::{lemma_seq_lt_irreflexive, lemma_seq_lt_transitive, chars_eq, chars_lt, chars_of, seq_lt, sort_seq, sort_strings, views};
use crate::validate::{msg_invalid_name, spec_max_get_parameters_names, spec_valid_name, validate_parameter_name};

verus! {

/// Index `a` comes before index `b` when its parameter's key sorts first.
pub open spec fn key_before(s: StoreView) -> spec_fn(usize, usize) -> bool {
    |a: usize, b: usize| seq_lt(s.params[a as int].key, s.params[b as int].key)
}

/// The indices `0..n`.
pub open spec fn indices(n: nat) -> Seq<usize> {
    Seq::new(n, |i: int| i as usize)
}

/// The parameter rows in the order of their keys.
pub open spec fn spec_params_by_key(s: StoreView) -> Seq<usize> {
    sort_by(indices(s.params.len()), key_before(s))
}

/// Parameter `a` comes before parameter `b` when its name sorts first.
pub open spec fn name_before() -> spec_fn(ParameterView, ParameterView) -> bool {
    |a: ParameterView, b: ParameterView| seq_lt(a.name, b.name)
}

impl ParamStore {
    /// The indices of the parameter rows in the order of their keys.
    pub fn params_by_key(&self) -> (res: Vec<usize>)
        ensures
            res@ == spec_params_by_key(self@),
            forall|k: int| 0 <= k < res@.len() ==> #[trigger] res@[k] < self@.params.len(),
    {
        let n = self.params.len();
        let mut keys: Vec<Vec<char>> = Vec::new();
        let mut i: usize = 0;
        while i < n
            invariant
                i <= n == self.params.len(),
                keys@.len() == i,
                forall|k: int| 0 <= k < i ==> #[trigger] keys@[k]@ == self@.params[k].key,
            decreases n - i,
        {
            assert(self@.params[i as int] == self.params@[i as int]@);
            keys.push(chars_of(self.params[i].key.as_str()));
            i = i + 1;
        }
        let ghost before = key_before(self@);
        let ghost ids = indices(n as nat);
        let mut order: Vec<usize> = Vec::new();
        let mut i: usize = 0;
        while i < n
            invariant
                i <= n == self.params.len(),
                keys@.len() == n,
                forall|k: int| 0 <= k < n ==> #[trigger] keys@[k]@ == self@.params[k].key,
                before == key_before(self@),
                ids == indices(n as nat),
                order@ == sort_by(ids.take(i as int), before),
                forall|k: int| 0 <= k < order@.len() ==> #[trigger] order@[k] < i,
            decreases n - i,
        {
            let mut j: usize = 0;
            while j < order.len()
                invariant
                    j <= order.len(),
                    i < n,
                    keys@.len() == n,
                    forall|k: int| 0 <= k < n ==> #[trigger] keys@[k]@ == self@.params[k].key,
                    before == key_before(self@),
                    forall|k: int| 0 <= k < order@.len() ==> #[trigger] order@[k] < i,
                    forall|k: int| 0 <= k < j ==> !before(i, #[trigger] order@[k]),
                ensures
                    j <= order.len(),
                    forall|k: int| 0 <= k < j ==> !before(i, #[trigger] order@[k]),
                    j < order.len() ==> before(i, order@[j as int]),
                decreases order.len() - j,
            {
                let o = order[j];
                if chars_lt(&keys[i], &keys[o]) {
                    break;
                }
                j = j + 1;
            }
            proof {
                lemma_insert_by_at(i, order@, before, j as int);
                lemma_sort_by_step(ids, before, i as int);
                assert(ids[i as int] == i);
            }
            let ghost prev = order@;
            order.insert(j, i);
            assert(order@ =~= prev.take(j as int) + seq![i] + prev.skip(j as int));
            assert forall|k: int| 0 <= k < order@.len() implies #[trigger] order@[k] < i + 1 by {
                if k < j {
                    assert(order@[k] == prev[k]);
                } else if k > j {
                    assert(order@[k] == prev[k - 1]);
                }
            }
            i = i + 1;
        }
        assert(ids.take(n as int) =~= ids);
        order
    }
}

/// Sorts answered parameters by name, keeping the order of equal names.
pub fn sort_parameters_by_name(v: Vec<Parameter>) -> (res: Vec<Parameter>)
    ensures
        row_views(res@) == sort_by(row_views(v@), name_before()),
{
    let mut v = v;
    let ghost orig = row_views(v@);
    let n = v.len();
    let mut rev: Vec<Parameter> = Vec::new();
    while v.len() > 0
        invariant
            v@.len() + rev@.len() == n,
            orig.len() == n,
            row_views(v@) == orig.take(v@.len() as int),
            forall|k: int| 0 <= k < rev@.len() ==> #[trigger] rev@[k]@ == orig[n - 1 - k],
        decreases v.len(),
    {
        let ghost before = v@;
        let x = v.pop().unwrap();
        assert(row_views(v@) =~= orig.take(v@.len() as int)) by {
            assert(row_views(before) =~= orig.take(before.len() as int));
        }
        assert(x@ == orig[v@.len() as int]) by {
            assert(row_views(before)[v@.len() as int] == x@);
        }
        rev.push(x);
    }
    let mut res: Vec<Parameter> = Vec::new();
    let mut i: usize = 0;
    while rev.len() > 0
        invariant
            i + rev@.len() == n,
            orig.len() == n,
            forall|k: int| 0 <= k < rev@.len() ==> #[trigger] rev@[k]@ == orig[n - 1 - k],
            row_views(res@) == sort_by(orig.take(i as int), name_before()),
        decreases rev.len(),
    {
        let x = rev.pop().unwrap();
        assert(x@ == orig[i as int]);
        let xn = chars_of(x.name.as_str());
        let mut j: usize = 0;
        while j < res.len()
            invariant
                j <= res.len(),
                xn@ == x@.name,
                forall|k: int| 0 <= k < j ==> !name_before()(x@, #[trigger] row_views(res@)[k]),
            ensures
                j <= res.len(),
                forall|k: int| 0 <= k < j ==> !name_before()(x@, #[trigger] row_views(res@)[k]),
                j < res.len() ==> name_before()(x@, row_views(res@)[j as int]),
            decreases res.len() - j,
        {
            let yn = chars_of(res[j].name.as_str());
            assert(row_views(res@)[j as int] == res@[j as int]@);
            if chars_lt(&xn, &yn) {
                break;
            }
            j = j + 1;
        }
        proof {
            lemma_insert_by_at(x@, row_views(res@), name_before(), j as int);
            lemma_sort_by_step(orig, name_before(), i as int);
        }
        let ghost prev = row_views(res@);
        res.insert(j, x);
        assert(row_views(res@) =~= prev.take(j as int) + seq![x@] + prev.skip(j as int));
        i = i + 1;
    }
    assert(orig.take(n as int) =~= orig);
    res
}


/// A `GetParameters` request.
pub struct GetParametersRequest {
    pub names: Vec<String>,
    pub with_decryption: bool,
}

/// The parameters found for `names` in order, and the names that are
/// invalid or name nothing; an error when a found value cannot be read.
pub open spec fn spec_get_many(s: StoreView, key: Seq<u8>, names: Seq<Seq<char>>, with_decryption: bool) -> Result<(Seq<ParameterView>, Seq<Seq<char>>), (ErrorCode, Seq<char>)>
    decreases names.len(),
{
    if names.len() == 0 {
        Ok((Seq::empty(), Seq::empty()))
    } else {
        match spec_get_many(s, key, names.drop_last(), with_decryption) {
            Err(e) => Err(e),
            Ok((ps, inv)) => {
                let n = names.last();
                let sel = spec_parse_selector(n);
                let idx = spec_resolve(s, sel);
                if !spec_valid_name(sel.name()) || idx < 0 {
                    Ok((ps, inv.push(n)))
                } else {
                    match spec_parameter_from_version(key, s.versions[idx], sel.suffix(), with_decryption) {
                        Ok(p) => Ok((ps.push(p), inv)),
                        Err(e) => Err(e),
                    }
                }
            },
        }
    }
}

/// The answer to a `GetParameters` request: 1 to 10 names are read, the
/// parameters found are sorted by name and the names not found are sorted.
pub open spec fn spec_get_parameters(s: StoreView, key: Seq<u8>, names: Seq<Seq<char>>, with_decryption: bool) -> Result<(Seq<ParameterView>, Seq<Seq<char>>), (ErrorCode, Seq<char>)> {
    if names.len() == 0 || names.len() > spec_max_get_parameters_names() {
        Err((ErrorCode::InvalidParameter, "Invalid number of parameter names."@))
    } else {
        match spec_get_many(s, key, names, with_decryption) {
            Err(e) => Err(e),
            Ok((ps, inv)) => Ok((sort_by(ps, name_before()), sort_seq(inv))),
        }
    }
}

impl ParamStore {
    /// Answers a `GetParameters` request: the parameters found, sorted by
    /// name, and the names that are invalid or name nothing, sorted.
    pub fn get_parameters(&self, req: &GetParametersRequest, key: &[u8; 32]) -> (res: Result<(Vec<Parameter>, Vec<String>), ApiError>)
        ensures
            match spec_get_parameters(self@, key@, views(req.names@), req.with_decryption) {
                Ok((ps, inv)) => res is Ok && row_views(res->Ok_0.0@) == ps && views(res->Ok_0.1@) == inv,
                Err((c, m)) => res is Err && res->Err_0.is(c, m),
            },
    {
        if req.names.len() == 0 || req.names.len() > 10 {
            return Err(invalid_parameter("Invalid number of parameter names."));
        }
        let ghost names = views(req.names@);
        let mut parameters: Vec<Parameter> = Vec::new();
        let mut invalid: Vec<String> = Vec::new();
        let mut i: usize = 0;
        assert(row_views(parameters@) =~= Seq::<ParameterView>::empty());
        assert(views(invalid@) =~= Seq::<Seq<char>>::empty());
        assert(names.take(0) =~= Seq::<Seq<char>>::empty());
        while i < req.names.len()
            invariant
                i <= req.names.len(),
                0 < req.names.len() <= 10,
                names == views(req.names@),
                spec_get_many(self@, key@, names.take(i as int), req.with_decryption) == Ok::<(Seq<ParameterView>, Seq<Seq<char>>), (ErrorCode, Seq<char>)>((row_views(parameters@), views(invalid@))),
            decreases req.names.len() - i,
        {
            let name = &req.names[i];
            assert(names.take(i + 1).drop_last() =~= names.take(i as int));
            assert(names.take(i + 1).last() == name@);
            let selector = parse_selector(name.as_str());
            if validate_parameter_name(selector.name()).is_some() {
                let ghost before = invalid@;
                invalid.push(name.clone());
                assert(views(invalid@) =~= views(before).push(name@));
            } else {
                match self.resolve_version(&selector) {
                    Some(idx) => {
                        match self.parameter_from_version(idx, selector.selector(), req.with_decryption, key) {
                            Ok(p) => {
                                let ghost before = parameters@;
                                parameters.push(p);
                                assert(row_views(parameters@) =~= row_views(before).push(p@));
                            },
                            Err(e) => {
                                proof {
                                    lemma_get_many_err(self@, key@, names, req.with_decryption, i as int);
                                }
                                return Err(e);
                            },
                        }
                    },
                    None => {
                        let ghost before = invalid@;
                        invalid.push(name.clone());
                        assert(views(invalid@) =~= views(before).push(name@));
                    },
                }
            }
            i = i + 1;
        }
        assert(names.take(i as int) =~= names);
        let sorted = sort_parameters_by_name(parameters);
        let inv = sort_strings(invalid);
        Ok((sorted, inv))
    }
}

/// A `GetParameters` answer lists the parameters found in ascending order
/// of name.
pub proof fn lemma_get_parameters_in_name_order(s: StoreView, key: Seq<u8>, names: Seq<Seq<char>>, with_decryption: bool)
    ensures
        spec_get_parameters(s, key, names, with_decryption) matches Ok((ps, _)) ==> forall|i: int, j: int|
            0 <= i < j < ps.len() ==> !seq_lt(#[trigger] ps[j].name, #[trigger] ps[i].name),
{
    let before = name_before();
    assert forall|a: ParameterView| !#[trigger] before(a, a) by {
        lemma_seq_lt_irreflexive(a.name);
    }
    assert forall|a: ParameterView, b: ParameterView, c: ParameterView| #[trigger] before(a, b) && #[trigger] before(b, c) implies before(a, c) by {
        lemma_seq_lt_transitive(a.name, b.name, c.name);
    }
    if let Ok((ps0, _)) = spec_get_many(s, key, names, with_decryption) {
        lemma_sort_by_sorted(ps0, before);
    }
}

/// An error at one name is the answer for every longer list of names.
proof fn lemma_get_many_err(s: StoreView, key: Seq<u8>, names: Seq<Seq<char>>, wd: bool, i: int)
    requires
        0 <= i < names.len(),
        spec_get_many(s, key, names.take(i + 1), wd) is Err,
    ensures
        spec_get_many(s, key, names, wd) == spec_get_many(s, key, names.take(i + 1), wd),
    decreases names.len() - i,
{
    if i + 1 < names.len() {
        assert(names.take(i + 2).drop_last() =~= names.take(i + 1));
        lemma_get_many_err(s, key, names, wd, i + 1);
    } else {
        assert(names.take(i + 1) =~= names);
    }
}

} // verus!

verus! {

/// The indices of the version rows of `name`, in table order.
pub open spec fn version_rows_of(vs: Seq<VersionView>, name: Seq<char>) -> Seq<usize>
    decreases vs.len(),
{
    if vs.len() == 0 {
        Seq::empty()
    } else if vs.last().param_key == name {
        version_rows_of(vs.drop_last(), name).push((vs.len() - 1) as usize)
    } else {
        version_rows_of(vs.drop_last(), name)
    }
}

proof fn lemma_version_rows_of_bound(vs: Seq<VersionView>, name: Seq<char>)
    ensures
        forall|k: int| 0 <= k < version_rows_of(vs, name).len() ==> #[trigger] version_rows_of(vs, name)[k] < vs.len(),
        version_rows_of(vs, name).len() <= vs.len(),
    decreases vs.len(),
{
    if vs.len() > 0 {
        lemma_version_rows_of_bound(vs.drop_last(), name);
    }
}

/// Row `a` comes before row `b` when its version number is smaller.
pub open spec fn version_before(s: StoreView) -> spec_fn(usize, usize) -> bool {
    |a: usize, b: usize| s.versions[a as int].version < s.versions[b as int].version
}

/// The version rows of `name` in ascending order of version.
pub open spec fn spec_history_rows(s: StoreView, name: Seq<char>) -> Seq<usize> {
    sort_by(version_rows_of(s.versions, name), version_before(s))
}

impl ParamStore {
    /// The indices of the version rows of `name` in ascending order of version.
    pub fn history_rows(&self, name: &str) -> (res: Vec<usize>)
        ensures
            res@ == spec_history_rows(self@, name@),
            forall|k: int| 0 <= k < res@.len() ==> #[trigger] res@[k] < self@.versions.len(),
            res@.len() <= self@.versions.len(),
    {
        let n = chars_of(name);
        let mut rows: Vec<usize> = Vec::new();
        let mut i: usize = 0;
        while i < self.versions.len()
            invariant
                i <= self.versions.len(),
                n@ == name@,
                rows@ == version_rows_of(self@.versions.take(i as int), name@),
            decreases self.versions.len() - i,
        {
            assert(self@.versions.take(i + 1).drop_last() =~= self@.versions.take(i as int));
            assert(self@.versions.take(i + 1).last() == self.versions@[i as int]@);
            let k = chars_of(self.versions[i].param_key.as_str());
            if chars_eq(&k, &n) {
                rows.push(i);
            }
            i = i + 1;
        }
        assert(self@.versions.take(i as int) =~= self@.versions);
        proof {
            lemma_version_rows_of_bound(self@.versions, name@);
        }
        let ghost before = version_before(self@);
        let ghost src = rows@;
        let mut order: Vec<usize> = Vec::new();
        let mut i: usize = 0;
        while i < rows.len()
            invariant
                i <= rows.len(),
                rows@ == src,
                src == version_rows_of(self@.versions, name@),
                forall|k: int| 0 <= k < src.len() ==> #[trigger] src[k] < self@.versions.len(),
                before == version_before(self@),
                order@ == sort_by(src.take(i as int), before),
                forall|k: int| 0 <= k < order@.len() ==> #[trigger] order@[k] < self@.versions.len(),
            decreases rows.len() - i,
        {
            let x = rows[i];
            let mut j: usize = 0;
            while j < order.len()
                invariant
                    j <= order.len(),
                    x < self@.versions.len(),
                    before == version_before(self@),
                    forall|k: int| 0 <= k < order@.len() ==> #[trigger] order@[k] < self@.versions.len(),
                    forall|k: int| 0 <= k < j ==> !before(x, #[trigger] order@[k]),
                ensures
                    j <= order.len(),
                    forall|k: int| 0 <= k < j ==> !before(x, #[trigger] order@[k]),
                    j < order.len() ==> before(x, order@[j as int]),
                decreases order.len() - j,
            {
                let o = order[j];
                assert(self@.versions[x as int].version == self.versions@[x as int].version);
                assert(self@.versions[o as int].version == self.versions@[o as int].version);
                if self.versions[x].version < self.versions[o].version {
                    break;
                }
                j = j + 1;
            }
            proof {
                lemma_insert_by_at(x, order@, before, j as int);
                lemma_sort_by_step(src, before, i as int);
            }
            let ghost prev = order@;
            order.insert(j, x);
            assert(order@ =~= prev.take(j as int) + seq![x] + prev.skip(j as int));
            assert forall|k: int| 0 <= k < order@.len() implies #[trigger] order@[k] < self@.versions.len() by {
                if k < j {
                    assert(order@[k] == prev[k]);
                } else if k > j {
                    assert(order@[k] == prev[k - 1]);
                }
            }
            i = i + 1;
        }
        assert(src.take(rows.len() as int) =~= src);
        proof {
            lemma_sort_by_len(src, before);
        }
        order
    }
}

} // verus!

verus! {

/// One version of a parameter as a history answer carries it.
#[derive(Debug)]
pub struct ParameterHistory {
    pub name: String,
    pub param_type: String,
    pub value: String,
    pub version: i64,
    pub last_modified_date: i64,
    pub data_type: String,
    pub tier: String,
    pub labels: Vec<String>,
    pub description: Option<String>,
    pub allowed_pattern: Option<String>,
}

/// A history entry, as text.
pub struct HistoryView {
    pub name: Seq<char>,
    pub param_type: Seq<char>,
    pub value: Seq<char>,
    pub version: i64,
    pub last_modified_date: i64,
    pub data_type: Seq<char>,
    pub tier: Seq<char>,
    pub labels: Seq<Seq<char>>,
    pub description: Option<Seq<char>>,
    pub allowed_pattern: Option<Seq<char>>,
}

impl View for ParameterHistory {
    type V = HistoryView;

    open spec fn view(&self) -> HistoryView {
        HistoryView {
            name: self.name@,
            param_type: self.param_type@,
            value: self.value@,
            version: self.version,
            last_modified_date: self.last_modified_date,
            data_type: self.data_type@,
            tier: self.tier@,
            labels: views(self.labels@),
            description: ov(self.description),
            allowed_pattern: ov(self.allowed_pattern),
        }
    }
}

/// The history entry of version row `idx`: its value read as an answer
/// reads it, and the labels pointing at it, sorted.
pub open spec fn spec_history_entry(s: StoreView, key: Seq<u8>, idx: int, with_decryption: bool) -> Result<HistoryView, (ErrorCode, Seq<char>)> {
    let row = s.versions[idx];
    match spec_decode(key, row.value, row.param_key, row.version, row.param_type, with_decryption) {
        None => Err((ErrorCode::InternalServiceError, msg_internal())),
        Some(v) => Ok(HistoryView {
            name: row.param_key,
            param_type: row.param_type,
            value: v,
            version: row.version,
            last_modified_date: row.last_modified_date,
            data_type: data_type_or_text(row.data_type),
            tier: "Standard"@,
            labels: sort_seq(labels_of(s.labels, row.param_key, row.version)),
            description: row.description,
            allowed_pattern: row.allowed_pattern,
        }),
    }
}

/// The history entries of the version rows `rows`, in order.
pub open spec fn spec_histories(s: StoreView, key: Seq<u8>, rows: Seq<usize>, with_decryption: bool) -> Result<Seq<HistoryView>, (ErrorCode, Seq<char>)>
    decreases rows.len(),
{
    if rows.len() == 0 {
        Ok(Seq::empty())
    } else {
        match spec_histories(s, key, rows.drop_last(), with_decryption) {
            Err(e) => Err(e),
            Ok(hs) => match spec_history_entry(s, key, rows.last() as int, with_decryption) {
                Err(e) => Err(e),
                Ok(h) => Ok(hs.push(h)),
            },
        }
    }
}

/// Whether the store's tables leave room for a page past their ends.
pub open spec fn size_ok(s: StoreView) -> bool {
    s.params.len() + 50 <= usize::MAX && s.versions.len() + 50 <= usize::MAX
}

/// A `GetParameterHistory` request.
pub struct GetParameterHistoryRequest {
    pub name: String,
    pub max_results: Option<u64>,
    pub next_token: Option<String>,
    pub with_decryption: bool,
}

/// The answer to a `GetParameterHistory` request: one page, of at most 50,
/// of the parameter's versions in ascending order, and the token of the
/// next page.
pub open spec fn spec_get_parameter_history(s: StoreView, key: Seq<u8>, name: Seq<char>, max_results: Option<u64>, next_token: Option<Seq<char>>, with_decryption: bool) -> Result<(Seq<HistoryView>, Option<Seq<char>>), (ErrorCode, Seq<char>)> {
    if !spec_valid_name(name) {
        Err((ErrorCode::InvalidParameter, msg_invalid_name()))
    } else if param_index(s.params, name) < 0 {
        Err((ErrorCode::ParameterNotFound, "Parameter not found."@))
    } else {
        match spec_page_bounds(next_token, max_results, 50, 50) {
            None => Err((ErrorCode::InvalidNextToken, "The NextToken value is invalid."@)),
            Some((offset, limit)) => match spec_take_page(spec_history_rows(s, name), offset, limit) {
                None => Err((ErrorCode::InvalidNextToken, "The NextToken value is invalid."@)),
                Some((page, token)) => match spec_histories(s, key, page, with_decryption) {
                    Err(e) => Err(e),
                    Ok(hs) => Ok((hs, token)),
                },
            },
        }
    }
}

impl ParamStore {
    /// The history entry of version row `idx`.
    pub fn history_from_version(&self, idx: usize, with_decryption: bool, key: &[u8; 32]) -> (res: Result<ParameterHistory, ApiError>)
        requires
            idx < self.versions.len(),
        ensures
            view_result_is(res, spec_history_entry(self@, key@, idx as int, with_decryption)),
    {
        let row = &self.versions[idx];
        assert(self@.versions[idx as int] == row@);
        let labels = self.labels_for_version(row.param_key.as_str(), row.version);
        let value = match decode_stored_value(row.value.as_slice(), row.param_key.as_str(), row.version, row.param_type.as_str(), with_decryption, key) {
            Ok(v) => v,
            Err(e) => return Err(e),
        };
        let data_type = match &row.data_type {
            Some(d) => copy_string(d),
            None => "text".to_owned(),
        };
        Ok(ParameterHistory {
            name: copy_string(&row.param_key),
            param_type: copy_string(&row.param_type),
            value,
            version: row.version,
            last_modified_date: row.last_modified_date,
            data_type,
            tier: "Standard".to_owned(),
            labels,
            description: clone_opt(&row.description),
            allowed_pattern: clone_opt(&row.allowed_pattern),
        })
    }

    /// Answers a `GetParameterHistory` request.
    pub fn get_parameter_history(&self, req: &GetParameterHistoryRequest, key: &[u8; 32]) -> (res: Result<(Vec<ParameterHistory>, Option<String>), ApiError>)
        requires
            size_ok(self@),
        ensures
            match spec_get_parameter_history(self@, key@, req.name@, req.max_results, ov(req.next_token), req.with_decryption) {
                Ok((hs, token)) => res is Ok && row_views(res->Ok_0.0@) == hs && ov(res->Ok_0.1) == token,
                Err((c, m)) => res is Err && res->Err_0.is(c, m),
            },
    {
        if let Some(err) = validate_parameter_name(req.name.as_str()) {
            return Err(err);
        }
        if self.find_param(req.name.as_str()).is_none() {
            return Err(parameter_not_found());
        }
        let rows = self.history_rows(req.name.as_str());
        let token: Option<&str> = match &req.next_token {
            Some(t) => Some(t.as_str()),
            None => None,
        };
        let (offset, limit) = match page_bounds(token, req.max_results, 50, 50) {
            Some(b) => b,
            None => return Err(invalid_next_token()),
        };
        assert(spec_page_bounds(ov(req.next_token), req.max_results, 50, 50) == Some((offset, limit)));
        let ghost all_rows = rows@;
        let (page, next) = match take_page(rows, offset, limit) {
            Some(p) => p,
            None => return Err(invalid_next_token()),
        };
        assert(spec_take_page(all_rows, offset, limit) == Some((page@, ov(next))));
        let mut out: Vec<ParameterHistory> = Vec::new();
        let mut i: usize = 0;
        assert(page@.take(0) =~= Seq::<usize>::empty());
        assert(row_views(out@) =~= Seq::<HistoryView>::empty());
        while i < page.len()
            invariant
                i <= page.len(),
                spec_valid_name(req.name@),
                param_index(self@.params, req.name@) >= 0,
                all_rows == spec_history_rows(self@, req.name@),
                spec_page_bounds(ov(req.next_token), req.max_results, 50, 50) == Some((offset, limit)),
                spec_take_page(all_rows, offset, limit) == Some((page@, ov(next))),
                forall|k: int| 0 <= k < all_rows.len() ==> #[trigger] all_rows[k] < self@.versions.len(),
                page@ == all_rows.subrange(offset as int, offset + page@.len()),
                offset + page@.len() <= all_rows.len(),
                spec_histories(self@, key@, page@.take(i as int), req.with_decryption) == Ok::<Seq<HistoryView>, (ErrorCode, Seq<char>)>(row_views(out@)),
            decreases page.len() - i,
        {
            assert(page@.take(i + 1).drop_last() =~= page@.take(i as int));
            assert(page@.take(i + 1).last() == page@[i as int]);
            assert(page@[i as int] == all_rows[offset + i]);
            let idx = page[i];
            match self.history_from_version(idx, req.with_decryption, key) {
                Ok(h) => {
                    let ghost before = out@;
                    out.push(h);
                    assert(row_views(out@) =~= row_views(before).push(h@));
                },
                Err(e) => {
                    proof {
                        lemma_histories_err(self@, key@, page@, req.with_decryption, i as int);
                    }
                    return Err(e);
                },
            }
            i = i + 1;
        }
        assert(page@.take(i as int) =~= page@);
        Ok((out, next))
    }
}

/// The history entries of rows carry the rows' version numbers, row by row.
proof fn lemma_histories_versions(s: StoreView, key: Seq<u8>, rows: Seq<usize>, wd: bool)
    ensures
        spec_histories(s, key, rows, wd) matches Ok(hs) ==> hs.len() == rows.len() && forall|k: int|
            0 <= k < hs.len() ==> #[trigger] hs[k].version == s.versions[rows[k] as int].version,
    decreases rows.len(),
{
    if rows.len() > 0 {
        lemma_histories_versions(s, key, rows.drop_last(), wd);
        if let Ok(hs) = spec_histories(s, key, rows, wd) {
            let prev = spec_histories(s, key, rows.drop_last(), wd)->Ok_0;
            assert forall|k: int| 0 <= k < hs.len() implies #[trigger] hs[k].version == s.versions[rows[k] as int].version by {
                if k < prev.len() {
                    assert(hs[k] == prev[k]);
                    assert(rows[k] == rows.drop_last()[k]);
                }
            }
        }
    }
}

/// A `GetParameterHistory` answer lists the versions in ascending order.
pub proof fn lemma_history_in_version_order(s: StoreView, key: Seq<u8>, name: Seq<char>, max_results: Option<u64>, next_token: Option<Seq<char>>, wd: bool)
    ensures
        spec_get_parameter_history(s, key, name, max_results, next_token, wd) matches Ok((hs, _)) ==> forall|i: int, j: int|
            0 <= i < j < hs.len() ==> #[trigger] hs[i].version <= #[trigger] hs[j].version,
{
    let before = version_before(s);
    assert forall|a: usize, b: usize, c: usize| #[trigger] before(a, b) && #[trigger] before(b, c) implies before(a, c) by {
    }
    let rows = spec_history_rows(s, name);
    lemma_sort_by_sorted(version_rows_of(s.versions, name), before);
    if let Ok((hs, _)) = spec_get_parameter_history(s, key, name, max_results, next_token, wd) {
        let (offset, limit) = spec_page_bounds(next_token, max_results, 50, 50).unwrap();
        let (page, token) = spec_take_page(rows, offset, limit).unwrap();
        lemma_histories_versions(s, key, page, wd);
        assert forall|i: int, j: int| 0 <= i < j < hs.len() implies #[trigger] hs[i].version <= #[trigger] hs[j].version by {
            assert(page[i] == rows[offset + i] && page[j] == rows[offset + j]);
            assert(!before(rows[offset + j], rows[offset + i]));
        }
    }
}

/// An error at one row is the answer for every longer list of rows.
proof fn lemma_histories_err(s: StoreView, key: Seq<u8>, rows: Seq<usize>, wd: bool, i: int)
    requires
        0 <= i < rows.len(),
        spec_histories(s, key, rows.take(i + 1), wd) is Err,
    ensures
        spec_histories(s, key, rows, wd) == spec_histories(s, key, rows.take(i + 1), wd),
    decreases rows.len() - i,
{
    if i + 1 < rows.len() {
        assert(rows.take(i + 2).drop_last() =~= rows.take(i + 1));
        lemma_histories_err(s, key, rows, wd, i + 1);
    } else {
        assert(rows.take(i + 1) =~= rows);
    }
}

/// Whether a row of the label table ties `label` to `version` of `name`.
pub open spec fn label_row_for(s: StoreView, name: Seq<char>, version: i64, label: Seq<char>) -> bool {
    exists|i: int|
        0 <= i < s.labels.len() && (#[trigger] s.labels[i]).param_key == name && s.labels[i].version == version
            && s.labels[i].label == label
}

/// The labels of a history entry are exactly the labels whose rows point
/// at that version of the parameter.
pub proof fn lemma_history_entry_labels(s: StoreView, key: Seq<u8>, idx: int, with_decryption: bool)
    requires
        0 <= idx < s.versions.len(),
        spec_history_entry(s, key, idx, with_decryption) is Ok,
    ensures
        forall|l: Seq<char>|
            #[trigger] spec_history_entry(s, key, idx, with_decryption)->Ok_0.labels.contains(l) <==> label_row_for(
                s,
                s.versions[idx].param_key,
                s.versions[idx].version,
                l,
            ),
{
    let row = s.versions[idx];
    assert forall|l: Seq<char>|
        #[trigger] spec_history_entry(s, key, idx, with_decryption)->Ok_0.labels.contains(l) <==> label_row_for(
            s,
            row.param_key,
            row.version,
            l,
        ) by {
        crate::invariants::lemma_sort_contains(labels_of(s.labels, row.param_key, row.version), l);
        crate::invariants::lemma_labels_of_contains(s.labels, row.param_key, row.version, l);
    }
}

/// The history entries of rows are the entries of those rows, row by row.
proof fn lemma_histories_entries(s: StoreView, key: Seq<u8>, rows: Seq<usize>, wd: bool)
    ensures
        spec_histories(s, key, rows, wd) matches Ok(hs) ==> hs.len() == rows.len() && forall|k: int|
            0 <= k < hs.len() ==> spec_history_entry(s, key, rows[k] as int, wd) == Ok::<HistoryView, (ErrorCode, Seq<char>)>(#[trigger] hs[k]),
    decreases rows.len(),
{
    if rows.len() > 0 {
        lemma_histories_entries(s, key, rows.drop_last(), wd);
        if let Ok(hs) = spec_histories(s, key, rows, wd) {
            let prev = spec_histories(s, key, rows.drop_last(), wd)->Ok_0;
            assert forall|k: int| 0 <= k < hs.len() implies spec_history_entry(s, key, rows[k] as int, wd) == Ok::<HistoryView, (ErrorCode, Seq<char>)>(#[trigger] hs[k]) by {
                if k < prev.len() {
                    assert(hs[k] == prev[k]);
                    assert(rows[k] == rows.drop_last()[k]);
                }
            }
        }
    }
}

proof fn lemma_version_rows_of_name(vs: Seq<VersionView>, name: Seq<char>)
    requires
        vs.len() <= usize::MAX,
    ensures
        forall|k: int| 0 <= k < version_rows_of(vs, name).len() ==> (#[trigger] vs[version_rows_of(vs, name)[k] as int]).param_key == name,
    decreases vs.len(),
{
    if vs.len() > 0 {
        lemma_version_rows_of_name(vs.drop_last(), name);
        lemma_version_rows_of_bound(vs.drop_last(), name);
        let r = version_rows_of(vs.drop_last(), name);
        assert forall|k: int| 0 <= k < version_rows_of(vs, name).len() implies (#[trigger] vs[version_rows_of(vs, name)[k] as int]).param_key == name by {
            if k < r.len() {
                assert(version_rows_of(vs, name)[k] == r[k]);
                assert(vs[r[k] as int] == vs.drop_last()[r[k] as int]);
            } else {
                assert(vs.last().param_key == name);
                assert(version_rows_of(vs, name)[k] == (vs.len() - 1) as usize);
                assert(vs[vs.len() - 1] == vs.last());
            }
        }
    }
}

/// Every entry of a `GetParameterHistory` answer carries exactly the
/// labels whose rows point at its version of the parameter.
pub proof fn lemma_history_labels(s: StoreView, key: Seq<u8>, name: Seq<char>, max_results: Option<u64>, next_token: Option<Seq<char>>, wd: bool)
    requires
        s.versions.len() <= usize::MAX,
    ensures
        spec_get_parameter_history(s, key, name, max_results, next_token, wd) matches Ok((hs, _)) ==> forall|k: int, l: Seq<char>|
            0 <= k < hs.len() ==> (#[trigger] hs[k].labels.contains(l) <==> label_row_for(s, name, hs[k].version, l)),
{
    if let Ok((hs, _)) = spec_get_parameter_history(s, key, name, max_results, next_token, wd) {
        let rows = spec_history_rows(s, name);
        let vr = version_rows_of(s.versions, name);
        let (offset, limit) = spec_page_bounds(next_token, max_results, 50, 50).unwrap();
        let (page, token) = spec_take_page(rows, offset, limit).unwrap();
        lemma_histories_entries(s, key, page, wd);
        lemma_sort_by_elems(vr, version_before(s));
        lemma_sort_by_len(vr, version_before(s));
        lemma_version_rows_of_name(s.versions, name);
        lemma_version_rows_of_bound(s.versions, name);
        assert forall|k: int, l: Seq<char>| 0 <= k < hs.len() implies (#[trigger] hs[k].labels.contains(l) <==> label_row_for(s, name, hs[k].version, l)) by {
            let idx = page[k];
            assert(idx == rows[offset + k]);
            assert(vr.contains(rows[offset + k]));
            let m = choose|m: int| 0 <= m < vr.len() && vr[m] == rows[offset + k];
            assert(s.versions[vr[m] as int].param_key == name);
            assert(vr[m] < s.versions.len());
            lemma_history_entry_labels(s, key, idx as int, wd);
            assert(spec_history_entry(s, key, idx as int, wd) == Ok::<HistoryView, (ErrorCode, Seq<char>)>(hs[k]));
        }
    }
}

} // verus!

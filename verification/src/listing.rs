use vstd::prelude::*;
use crate::api::{Parameter, ParameterView, clone_opt, copy_string, data_type_or_text, spec_parameter_from_version};
use crate::error::{ApiError, ErrorCode, invalid_next_token, msg_unsupported_param, unsupported_param};
use crate::model::{ParameterStringFilter, arn, spec_arn};
use crate::paging::{page_bounds, spec_page_bounds, spec_take_page, take_page};
use crate::queries::{size_ok, spec_params_by_key};
use crate::store::{ParamStore, ParamView, StoreView, VersionView, ov, row_views, spec_has_tag, spec_version_has_label, version_index};
use crate::text::{chars_of, chars_occur_at, spec_starts_with, starts_with, str_eq, string_from_chars, views};
use crate::validate::{filter_message, filters_error, name_error, path_matches, spec_path_matches, spec_string_matches, string_matches, validate_filters, validate_parameter_name};
use crate::order::{lemma_sort_by_len, lemma_sort_by_sorted, sorted_by, strict_order};
use crate::queries::key_before;
use crate::text::{lemma_seq_lt_irreflexive, lemma_seq_lt_transitive, seq_lt};

verus! {

/// The option of a filter: `Equals` when none is given.
pub open spec fn filter_option(f: ParameterStringFilter) -> Seq<char> {
    match f.option {
        Some(o) => o@,
        None => "Equals"@,
    }
}

/// The values of a filter: none when none are given.
pub open spec fn filter_values(f: ParameterStringFilter) -> Seq<Seq<char>> {
    match f.values {
        Some(v) => views(v@),
        None => Seq::empty(),
    }
}

/// The filters of a request, as a sequence.
pub open spec fn req_filters(f: Option<Vec<ParameterStringFilter>>) -> Option<Seq<ParameterStringFilter>> {
    match f {
        Some(v) => Some(v@),
        None => None,
    }
}

/// The option of a filter.
fn option_of(f: &ParameterStringFilter) -> (res: &str)
    ensures
        res@ == filter_option(*f),
{
    match &f.option {
        Some(o) => o.as_str(),
        None => "Equals",
    }
}

/// The error answer for a refused filter.
fn filter_failure(code: ErrorCode) -> (res: ApiError)
    ensures
        res.is(code, filter_message(code)),
{
    let message = if code == ErrorCode::InvalidFilterKey {
        "The filter key is invalid."
    } else if code == ErrorCode::InvalidFilterOption {
        "The filter option is invalid."
    } else {
        "The filter value is invalid."
    };
    ApiError { code, message: message.to_owned() }
}

/// Whether version row `row` passes filter `f` of a by-path listing, or
/// the code the filter is refused with: `Type` compares the type
/// (`Equals`, `BeginsWith`), `Label` looks for a label on the version
/// (`Equals`), `KeyId` passes nothing, and other keys are refused. A
/// filter without values passes every row.
pub open spec fn spec_version_filter(s: StoreView, row: VersionView, f: ParameterStringFilter) -> Result<bool, ErrorCode> {
    let option = filter_option(f);
    let values = filter_values(f);
    if f.key@ == "Type"@ {
        if option != "Equals"@ && option != "BeginsWith"@ {
            Err(ErrorCode::InvalidFilterOption)
        } else {
            Ok(spec_string_matches(row.param_type, option, values))
        }
    } else if f.key@ == "Label"@ {
        if option != "Equals"@ {
            Err(ErrorCode::InvalidFilterOption)
        } else {
            Ok(values.len() == 0 || exists|i: int|
                0 <= i < values.len() && spec_version_has_label(s, row.param_key, row.version, #[trigger] values[i]))
        }
    } else if f.key@ == "KeyId"@ {
        Ok(false)
    } else {
        Err(ErrorCode::InvalidFilterKey)
    }
}

/// The filters `fs` applied in order to version row `row`: the first that
/// fails it or is refused decides.
pub open spec fn spec_version_filters(s: StoreView, row: VersionView, fs: Seq<ParameterStringFilter>) -> Result<bool, ErrorCode>
    decreases fs.len(),
{
    if fs.len() == 0 {
        Ok(true)
    } else {
        match spec_version_filter(s, row, fs[0]) {
            Ok(true) => spec_version_filters(s, row, fs.drop_first()),
            other => other,
        }
    }
}

/// The optional filters of a request applied to version row `row`.
pub open spec fn opt_version_filters(s: StoreView, row: VersionView, filters: Option<Seq<ParameterStringFilter>>) -> Result<bool, ErrorCode> {
    match filters {
        None => Ok(true),
        Some(fs) => spec_version_filters(s, row, fs),
    }
}

/// What parameter row `pi` adds to a by-path listing: nothing when it is
/// not below `path`, has no row for its latest version or fails a filter;
/// its latest version as an answer otherwise.
pub open spec fn spec_by_path_entry(
    s: StoreView,
    key: Seq<u8>,
    pi: int,
    path: Seq<char>,
    recursive: bool,
    filters: Option<Seq<ParameterStringFilter>>,
    with_decryption: bool,
) -> Result<Option<ParameterView>, (ErrorCode, Seq<char>)> {
    let p = s.params[pi];
    let vi = version_index(s.versions, p.key, p.version);
    if !spec_path_matches(p.key, path, recursive) || vi < 0 {
        Ok(None)
    } else {
        match opt_version_filters(s, s.versions[vi], filters) {
            Err(c) => Err((c, filter_message(c))),
            Ok(false) => Ok(None),
            Ok(true) => match spec_parameter_from_version(key, s.versions[vi], None, with_decryption) {
                Err(e) => Err(e),
                Ok(v) => Ok(Some(v)),
            },
        }
    }
}

/// The by-path listing of the parameter rows `order`, in that order; the
/// first error met is the answer.
pub open spec fn spec_by_path(
    s: StoreView,
    key: Seq<u8>,
    order: Seq<usize>,
    path: Seq<char>,
    recursive: bool,
    filters: Option<Seq<ParameterStringFilter>>,
    with_decryption: bool,
) -> Result<Seq<ParameterView>, (ErrorCode, Seq<char>)>
    decreases order.len(),
{
    if order.len() == 0 {
        Ok(Seq::empty())
    } else {
        match spec_by_path(s, key, order.drop_last(), path, recursive, filters, with_decryption) {
            Err(e) => Err(e),
            Ok(ps) => match spec_by_path_entry(s, key, order.last() as int, path, recursive, filters, with_decryption) {
                Err(e) => Err(e),
                Ok(None) => Ok(ps),
                Ok(Some(v)) => Ok(ps.push(v)),
            },
        }
    }
}

/// A `GetParametersByPath` request.
pub struct GetParametersByPathRequest {
    pub path: String,
    pub max_results: Option<u64>,
    pub next_token: Option<String>,
    pub parameter_filters: Option<Vec<ParameterStringFilter>>,
    pub recursive: bool,
    pub with_decryption: bool,
}

/// The answer to a `GetParametersByPath` request: the latest versions of
/// the parameters below the path that pass the filters, in the order of
/// their names, one page of at most 10 at a time.
pub open spec fn spec_get_parameters_by_path(s: StoreView, key: Seq<u8>, r: GetParametersByPathRequest) -> Result<(Seq<ParameterView>, Option<Seq<char>>), (ErrorCode, Seq<char>)> {
    if name_error(r.path@) is Some {
        Err(name_error(r.path@).unwrap())
    } else if filters_error(req_filters(r.parameter_filters)) is Some {
        Err(filters_error(req_filters(r.parameter_filters)).unwrap())
    } else {
        match spec_by_path(s, key, spec_params_by_key(s), r.path@, r.recursive, req_filters(r.parameter_filters), r.with_decryption) {
            Err(e) => Err(e),
            Ok(ps) => match spec_page_bounds(ov(r.next_token), r.max_results, 10, 10) {
                None => Err((ErrorCode::InvalidNextToken, "The NextToken value is invalid."@)),
                Some((offset, limit)) => match spec_take_page(ps, offset, limit) {
                    None => Err((ErrorCode::InvalidNextToken, "The NextToken value is invalid."@)),
                    Some((page, token)) => Ok((page, token)),
                },
            },
        }
    }
}

/// An error at one row is the answer for every longer list of rows.
proof fn lemma_by_path_err(
    s: StoreView,
    key: Seq<u8>,
    order: Seq<usize>,
    path: Seq<char>,
    recursive: bool,
    filters: Option<Seq<ParameterStringFilter>>,
    wd: bool,
    i: int,
)
    requires
        0 <= i < order.len(),
        spec_by_path(s, key, order.take(i + 1), path, recursive, filters, wd) is Err,
    ensures
        spec_by_path(s, key, order, path, recursive, filters, wd) == spec_by_path(s, key, order.take(i + 1), path, recursive, filters, wd),
    decreases order.len() - i,
{
    if i + 1 < order.len() {
        assert(order.take(i + 2).drop_last() =~= order.take(i + 1));
        lemma_by_path_err(s, key, order, path, recursive, filters, wd, i + 1);
    } else {
        assert(order.take(i + 1) =~= order);
    }
}

/// A by-path listing holds at most one answer per row.
proof fn lemma_by_path_len(
    s: StoreView,
    key: Seq<u8>,
    order: Seq<usize>,
    path: Seq<char>,
    recursive: bool,
    filters: Option<Seq<ParameterStringFilter>>,
    wd: bool,
)
    ensures
        spec_by_path(s, key, order, path, recursive, filters, wd) matches Ok(ps) ==> ps.len() <= order.len(),
    decreases order.len(),
{
    if order.len() > 0 {
        lemma_by_path_len(s, key, order.drop_last(), path, recursive, filters, wd);
    }
}

impl ParamStore {
    /// Whether version row `vi` passes filter `f` of a by-path listing.
    pub fn version_filter(&self, vi: usize, f: &ParameterStringFilter) -> (res: Result<bool, ErrorCode>)
        requires
            vi < self.versions.len(),
        ensures
            res == spec_version_filter(self@, self@.versions[vi as int], *f),
    {
        proof {
            reveal_strlit("Type");
            reveal_strlit("Label");
            reveal_strlit("KeyId");
        }
        let row = &self.versions[vi];
        assert(self@.versions[vi as int] == row@);
        let option = option_of(f);
        let empty: Vec<String> = Vec::new();
        let values: &[String] = match &f.values {
            Some(v) => v.as_slice(),
            None => empty.as_slice(),
        };
        assert(views(values@) =~= filter_values(*f));
        let k = f.key.as_str();
        if str_eq(k, "Type") {
            if !str_eq(option, "Equals") && !str_eq(option, "BeginsWith") {
                return Err(ErrorCode::InvalidFilterOption);
            }
            Ok(string_matches(row.param_type.as_str(), option, values))
        } else if str_eq(k, "Label") {
            if !str_eq(option, "Equals") {
                return Err(ErrorCode::InvalidFilterOption);
            }
            let mut i: usize = 0;
            while i < values.len()
                invariant
                    i <= values.len(),
                    vi < self.versions.len(),
                    row@ == self@.versions[vi as int],
                    views(values@) == filter_values(*f),
                    f.key@ == "Label"@,
                    f.key@ != "Type"@,
                    filter_option(*f) == "Equals"@,
                    forall|j: int| 0 <= j < i ==> !spec_version_has_label(self@, row@.param_key, row@.version, #[trigger] views(values@)[j]),
                decreases values.len() - i,
            {
                assert(views(values@)[i as int] == values@[i as int]@);
                if self.parameter_version_has_label(row.param_key.as_str(), row.version, values[i].as_str()) {
                    let ghost vs = filter_values(*f);
                    assert(spec_version_has_label(self@, row@.param_key, row@.version, vs[i as int]));
                    assert(exists|j: int| 0 <= j < vs.len() && spec_version_has_label(self@, row@.param_key, row@.version, #[trigger] vs[j]));
                    return Ok(true);
                }
                i = i + 1;
            }
            Ok(values.len() == 0)
        } else if str_eq(k, "KeyId") {
            Ok(false)
        } else {
            Err(ErrorCode::InvalidFilterKey)
        }
    }

    /// The filters `fs` applied in order to version row `vi`.
    pub fn version_filters(&self, vi: usize, fs: &[ParameterStringFilter]) -> (res: Result<bool, ErrorCode>)
        requires
            vi < self.versions.len(),
        ensures
            res == spec_version_filters(self@, self@.versions[vi as int], fs@),
    {
        let ghost row = self@.versions[vi as int];
        let mut i: usize = 0;
        assert(fs@.skip(0) =~= fs@);
        while i < fs.len()
            invariant
                i <= fs.len(),
                vi < self.versions.len(),
                row == self@.versions[vi as int],
                spec_version_filters(self@, row, fs@) == spec_version_filters(self@, row, fs@.skip(i as int)),
            decreases fs.len() - i,
        {
            assert(fs@.skip(i as int)[0] == fs@[i as int]);
            assert(fs@.skip(i as int).drop_first() =~= fs@.skip(i + 1));
            let r = self.version_filter(vi, &fs[i]);
            match r {
                Ok(true) => {},
                _ => return r,
            }
            i = i + 1;
        }
        assert(fs@.skip(i as int) =~= Seq::<ParameterStringFilter>::empty());
        Ok(true)
    }

    /// What parameter row `pi` adds to a by-path listing.
    pub fn by_path_entry(
        &self,
        pi: usize,
        path: &str,
        recursive: bool,
        filters: &Option<Vec<ParameterStringFilter>>,
        with_decryption: bool,
        key: &[u8; 32],
    ) -> (res: Result<Option<Parameter>, ApiError>)
        requires
            pi < self.params.len(),
        ensures
            match spec_by_path_entry(self@, key@, pi as int, path@, recursive, req_filters(*filters), with_decryption) {
                Ok(None) => res matches Ok(None),
                Ok(Some(v)) => res matches Ok(Some(p)) && p@ == v,
                Err((c, m)) => res is Err && res->Err_0.is(c, m),
            },
    {
        let p = &self.params[pi];
        assert(self@.params[pi as int] == p@);
        if !path_matches(p.key.as_str(), path, recursive) {
            return Ok(None);
        }
        let vi = match self.find_version(p.key.as_str(), p.version) {
            Some(v) => v,
            None => return Ok(None),
        };
        if let Some(fs) = filters {
            match self.version_filters(vi, fs.as_slice()) {
                Err(c) => return Err(filter_failure(c)),
                Ok(false) => return Ok(None),
                Ok(true) => {},
            }
        }
        match self.parameter_from_version(vi, None, with_decryption, key) {
            Ok(x) => Ok(Some(x)),
            Err(e) => Err(e),
        }
    }

    /// Answers a `GetParametersByPath` request.
    pub fn get_parameters_by_path(&self, req: &GetParametersByPathRequest, key: &[u8; 32]) -> (res: Result<(Vec<Parameter>, Option<String>), ApiError>)
        requires
            size_ok(self@),
        ensures
            match spec_get_parameters_by_path(self@, key@, *req) {
                Ok((ps, token)) => res is Ok && row_views(res->Ok_0.0@) == ps && ov(res->Ok_0.1) == token,
                Err((c, m)) => res is Err && res->Err_0.is(c, m),
            },
    {
        if let Some(err) = validate_parameter_name(req.path.as_str()) {
            return Err(err);
        }
        let filters: Option<&[ParameterStringFilter]> = match &req.parameter_filters {
            Some(v) => Some(v.as_slice()),
            None => None,
        };
        assert(match filters {
            Some(f) => Some(f@),
            None => None,
        } == req_filters(req.parameter_filters));
        if let Some(err) = validate_filters(filters) {
            return Err(err);
        }
        assert(name_error(req.path@) is None);
        assert(filters_error(req_filters(req.parameter_filters)) is None);
        let order = self.params_by_key();
        let ghost fs = req_filters(req.parameter_filters);
        let mut parameters: Vec<Parameter> = Vec::new();
        let mut i: usize = 0;
        assert(order@.take(0) =~= Seq::<usize>::empty());
        assert(row_views(parameters@) =~= Seq::<ParameterView>::empty());
        while i < order.len()
            invariant
                i <= order.len(),
                order@ == spec_params_by_key(self@),
                forall|k: int| 0 <= k < order@.len() ==> #[trigger] order@[k] < self@.params.len(),
                fs == req_filters(req.parameter_filters),
                name_error(req.path@) is None,
                filters_error(fs) is None,
                spec_by_path(self@, key@, order@.take(i as int), req.path@, req.recursive, fs, req.with_decryption)
                    == Ok::<Seq<ParameterView>, (ErrorCode, Seq<char>)>(row_views(parameters@)),
            decreases order.len() - i,
        {
            assert(order@.take(i + 1).drop_last() =~= order@.take(i as int));
            assert(order@.take(i + 1).last() == order@[i as int]);
            let pi = order[i];
            match self.by_path_entry(pi, req.path.as_str(), req.recursive, &req.parameter_filters, req.with_decryption, key) {
                Err(e) => {
                    assert(spec_by_path(self@, key@, order@.take(i + 1), req.path@, req.recursive, fs, req.with_decryption)
                        == Err::<Seq<ParameterView>, (ErrorCode, Seq<char>)>((e.code, e.message@)));
                    proof {
                        lemma_by_path_err(self@, key@, order@, req.path@, req.recursive, fs, req.with_decryption, i as int);
                    }
                    return Err(e);
                },
                Ok(None) => {},
                Ok(Some(x)) => {
                    let ghost before = parameters@;
                    parameters.push(x);
                    assert(row_views(parameters@) =~= row_views(before).push(x@));
                },
            }
            i = i + 1;
        }
        assert(order@.take(i as int) =~= order@);
        proof {
            lemma_by_path_len(self@, key@, order@, req.path@, req.recursive, fs, req.with_decryption);
            lemma_sort_by_len(crate::queries::indices(self@.params.len()), crate::queries::key_before(self@));
        }
        let token: Option<&str> = match &req.next_token {
            Some(t) => Some(t.as_str()),
            None => None,
        };
        let (offset, limit) = match page_bounds(token, req.max_results, 10, 10) {
            Some(b) => b,
            None => return Err(invalid_next_token()),
        };
        assert(spec_page_bounds(ov(req.next_token), req.max_results, 10, 10) == Some((offset, limit)));
        let ghost items = parameters@;
        let ghost all = row_views(items);
        assert(all.len() == items.len());
        match take_page(parameters, offset, limit) {
            Some((page, next)) => {
                let ghost end: int = if offset + limit < items.len() { offset + limit } else { items.len() as int };
                assert(page@ == items.subrange(offset as int, end));
                assert(row_views(page@) =~= all.subrange(offset as int, end));
                Ok((page, next))
            },
            None => Err(invalid_next_token()),
        }
    }
}


/// The prefix of the filter keys that select by tag.
pub open spec fn tag_prefix() -> Seq<char> {
    seq!['t', 'a', 'g', ':']
}

/// `key` with every leading `tag:` taken off.
pub open spec fn strip_tag_prefix(key: Seq<char>) -> Seq<char>
    decreases key.len(),
{
    if spec_starts_with(key, tag_prefix()) {
        strip_tag_prefix(key.skip(4))
    } else {
        key
    }
}

/// `key` with every leading `tag:` taken off (std's `trim_start_matches`).
fn trim_tag_prefix(key: &str) -> (res: String)
    ensures
        res@ == strip_tag_prefix(key@),
{
    let chars = chars_of(key);
    let prefix: Vec<char> = vec!['t', 'a', 'g', ':'];
    assert(prefix@ =~= tag_prefix());
    let mut i: usize = 0;
    assert(key@.skip(0) =~= key@);
    while chars.len() - i >= 4 && chars_occur_at(&chars, &prefix, i)
        invariant
            i <= chars.len(),
            chars@ == key@,
            prefix@ == tag_prefix(),
            strip_tag_prefix(key@) == strip_tag_prefix(key@.skip(i as int)),
        decreases chars.len() - i,
    {
        assert(key@.skip(i as int).take(4) =~= key@.subrange(i as int, i + 4));
        assert(key@.skip(i as int).skip(4) =~= key@.skip(i + 4));
        i = i + 4;
    }
    proof {
        if 4 <= key@.skip(i as int).len() {
            assert(key@.skip(i as int).take(4) =~= key@.subrange(i as int, i + 4));
        }
    }
    let mut rest: Vec<char> = Vec::new();
    let mut j: usize = i;
    while j < chars.len()
        invariant
            i <= j <= chars.len(),
            chars@ == key@,
            rest@ == key@.subrange(i as int, j as int),
        decreases chars.len() - j,
    {
        rest.push(chars[j]);
        j = j + 1;
    }
    assert(rest@ =~= key@.skip(i as int));
    string_from_chars(&rest)
}

/// Whether parameter row `p` passes filter `f` of a describe request, or
/// the code the filter is refused with: `Name` compares the name
/// (`Equals`, `BeginsWith`, `Contains`), `Path` takes one path
/// (`Recursive`, `OneLevel`), `Type`, `DataType` and `Tier` compare those
/// (`Equals`, `BeginsWith`; every parameter is in the standard tier), and
/// `tag:<key>` looks for a tag with that key and one of the values
/// (`Equals`); other keys are refused.
pub open spec fn spec_param_filter(s: StoreView, p: ParamView, f: ParameterStringFilter) -> Result<bool, ErrorCode> {
    let option = filter_option(f);
    let values = filter_values(f);
    let k = f.key@;
    let equals_or_begins = option == "Equals"@ || option == "BeginsWith"@;
    if k == "Name"@ {
        if !equals_or_begins && option != "Contains"@ {
            Err(ErrorCode::InvalidFilterOption)
        } else {
            Ok(spec_string_matches(p.key, option, values))
        }
    } else if k == "Path"@ {
        if option != "Recursive"@ && option != "OneLevel"@ {
            Err(ErrorCode::InvalidFilterOption)
        } else if values.len() != 1 {
            Err(ErrorCode::InvalidFilterValue)
        } else {
            Ok(spec_path_matches(p.key, values[0], option == "Recursive"@))
        }
    } else if k == "Type"@ {
        if !equals_or_begins {
            Err(ErrorCode::InvalidFilterOption)
        } else {
            Ok(spec_string_matches(p.param_type, option, values))
        }
    } else if k == "DataType"@ {
        if !equals_or_begins {
            Err(ErrorCode::InvalidFilterOption)
        } else {
            Ok(spec_string_matches(data_type_or_text(p.data_type), option, values))
        }
    } else if k == "Tier"@ {
        if !equals_or_begins {
            Err(ErrorCode::InvalidFilterOption)
        } else {
            Ok(spec_string_matches("Standard"@, option, values))
        }
    } else if spec_starts_with(k, tag_prefix()) {
        if option != "Equals"@ {
            Err(ErrorCode::InvalidFilterOption)
        } else {
            Ok(spec_has_tag(s, p.key, strip_tag_prefix(k), values))
        }
    } else {
        Err(ErrorCode::InvalidFilterKey)
    }
}

/// The filters `fs` applied in order to parameter row `p`: the first that
/// fails it or is refused decides.
pub open spec fn spec_param_filters(s: StoreView, p: ParamView, fs: Seq<ParameterStringFilter>) -> Result<bool, ErrorCode>
    decreases fs.len(),
{
    if fs.len() == 0 {
        Ok(true)
    } else {
        match spec_param_filter(s, p, fs[0]) {
            Ok(true) => spec_param_filters(s, p, fs.drop_first()),
            other => other,
        }
    }
}

/// The optional filters of a request applied to parameter row `p`.
pub open spec fn opt_param_filters(s: StoreView, p: ParamView, filters: Option<Seq<ParameterStringFilter>>) -> Result<bool, ErrorCode> {
    match filters {
        None => Ok(true),
        Some(fs) => spec_param_filters(s, p, fs),
    }
}

/// What a describe answer tells of a parameter.
#[derive(Debug)]
pub struct ParameterMetadata {
    pub name: String,
    pub param_type: String,
    pub version: i64,
    pub last_modified_date: i64,
    pub arn: String,
    pub data_type: String,
    pub tier: String,
    pub description: Option<String>,
    pub allowed_pattern: Option<String>,
}

/// Parameter metadata, as text.
pub struct MetadataView {
    pub name: Seq<char>,
    pub param_type: Seq<char>,
    pub version: i64,
    pub last_modified_date: i64,
    pub arn: Seq<char>,
    pub data_type: Seq<char>,
    pub tier: Seq<char>,
    pub description: Option<Seq<char>>,
    pub allowed_pattern: Option<Seq<char>>,
}

impl View for ParameterMetadata {
    type V = MetadataView;

    open spec fn view(&self) -> MetadataView {
        MetadataView {
            name: self.name@,
            param_type: self.param_type@,
            version: self.version,
            last_modified_date: self.last_modified_date,
            arn: self.arn@,
            data_type: self.data_type@,
            tier: self.tier@,
            description: ov(self.description),
            allowed_pattern: ov(self.allowed_pattern),
        }
    }
}

/// The metadata of parameter row `p`.
pub open spec fn spec_metadata(p: ParamView) -> MetadataView {
    MetadataView {
        name: p.key,
        param_type: p.param_type,
        version: p.version,
        last_modified_date: p.last_modified_date,
        arn: spec_arn(p.key),
        data_type: data_type_or_text(p.data_type),
        tier: "Standard"@,
        description: p.description,
        allowed_pattern: p.allowed_pattern,
    }
}

/// What parameter row `pi` adds to a describe answer: its metadata when
/// it passes the filters.
pub open spec fn spec_describe_entry(s: StoreView, pi: int, filters: Option<Seq<ParameterStringFilter>>) -> Result<Option<MetadataView>, ErrorCode> {
    let p = s.params[pi];
    match opt_param_filters(s, p, filters) {
        Err(c) => Err(c),
        Ok(false) => Ok(None),
        Ok(true) => Ok(Some(spec_metadata(p))),
    }
}

/// The describe listing of the parameter rows `order`, in that order; the
/// first refused filter is the answer.
pub open spec fn spec_describe_list(s: StoreView, order: Seq<usize>, filters: Option<Seq<ParameterStringFilter>>) -> Result<Seq<MetadataView>, ErrorCode>
    decreases order.len(),
{
    if order.len() == 0 {
        Ok(Seq::empty())
    } else {
        match spec_describe_list(s, order.drop_last(), filters) {
            Err(c) => Err(c),
            Ok(ms) => match spec_describe_entry(s, order.last() as int, filters) {
                Err(c) => Err(c),
                Ok(None) => Ok(ms),
                Ok(Some(m)) => Ok(ms.push(m)),
            },
        }
    }
}

/// A `DescribeParameters` request. `filters` and `shared` record whether
/// the request set those fields, which the service does not support.
pub struct DescribeParametersRequest {
    pub max_results: Option<u64>,
    pub next_token: Option<String>,
    pub parameter_filters: Option<Vec<ParameterStringFilter>>,
    pub filters: bool,
    pub shared: bool,
}

/// The first unsupported field a describe request sets, by its wire name.
pub open spec fn spec_describe_unsupported(r: DescribeParametersRequest) -> Option<Seq<char>> {
    if r.filters {
        Some("Filters"@)
    } else if r.shared {
        Some("Shared"@)
    } else {
        None
    }
}

impl DescribeParametersRequest {
    /// The wire name of the first unsupported field the request sets.
    pub fn unsupported_field(&self) -> (res: Option<String>)
        ensures
            ov(res) == spec_describe_unsupported(*self),
    {
        if self.filters {
            Some("Filters".to_owned())
        } else if self.shared {
            Some("Shared".to_owned())
        } else {
            None
        }
    }
}

/// The answer to a `DescribeParameters` request: the metadata of the
/// parameters that pass the filters, in the order of their names, one
/// page of at most 50 at a time. Unsupported fields are refused when
/// `error_on_unsupported`.
pub open spec fn spec_describe_parameters(s: StoreView, r: DescribeParametersRequest, error_on_unsupported: bool) -> Result<(Seq<MetadataView>, Option<Seq<char>>), (ErrorCode, Seq<char>)> {
    if error_on_unsupported && spec_describe_unsupported(r) is Some {
        Err((ErrorCode::InvalidParameter, msg_unsupported_param(spec_describe_unsupported(r).unwrap())))
    } else if filters_error(req_filters(r.parameter_filters)) is Some {
        Err(filters_error(req_filters(r.parameter_filters)).unwrap())
    } else {
        match spec_describe_list(s, spec_params_by_key(s), req_filters(r.parameter_filters)) {
            Err(c) => Err((c, filter_message(c))),
            Ok(ms) => match spec_page_bounds(ov(r.next_token), r.max_results, 50, 50) {
                None => Err((ErrorCode::InvalidNextToken, "The NextToken value is invalid."@)),
                Some((offset, limit)) => match spec_take_page(ms, offset, limit) {
                    None => Err((ErrorCode::InvalidNextToken, "The NextToken value is invalid."@)),
                    Some((page, token)) => Ok((page, token)),
                },
            },
        }
    }
}

/// A refused filter at one row is the answer for every longer list of rows.
proof fn lemma_describe_err(s: StoreView, order: Seq<usize>, filters: Option<Seq<ParameterStringFilter>>, i: int)
    requires
        0 <= i < order.len(),
        spec_describe_list(s, order.take(i + 1), filters) is Err,
    ensures
        spec_describe_list(s, order, filters) == spec_describe_list(s, order.take(i + 1), filters),
    decreases order.len() - i,
{
    if i + 1 < order.len() {
        assert(order.take(i + 2).drop_last() =~= order.take(i + 1));
        lemma_describe_err(s, order, filters, i + 1);
    } else {
        assert(order.take(i + 1) =~= order);
    }
}

/// A describe listing holds at most one entry per row.
proof fn lemma_describe_len(s: StoreView, order: Seq<usize>, filters: Option<Seq<ParameterStringFilter>>)
    ensures
        spec_describe_list(s, order, filters) matches Ok(ms) ==> ms.len() <= order.len(),
    decreases order.len(),
{
    if order.len() > 0 {
        lemma_describe_len(s, order.drop_last(), filters);
    }
}

impl ParamStore {
    /// Whether parameter row `pi` passes filter `f` of a describe request.
    pub fn param_filter(&self, pi: usize, f: &ParameterStringFilter) -> (res: Result<bool, ErrorCode>)
        requires
            pi < self.params.len(),
        ensures
            res == spec_param_filter(self@, self@.params[pi as int], *f),
    {
        proof {
            reveal_strlit("Name");
            reveal_strlit("Path");
            reveal_strlit("Type");
            reveal_strlit("DataType");
            reveal_strlit("Tier");
        }
        let p = &self.params[pi];
        assert(self@.params[pi as int] == p@);
        let option = option_of(f);
        let empty: Vec<String> = Vec::new();
        let values: &[String] = match &f.values {
            Some(v) => v.as_slice(),
            None => empty.as_slice(),
        };
        assert(views(values@) =~= filter_values(*f));
        let k = f.key.as_str();
        let equals_or_begins = str_eq(option, "Equals") || str_eq(option, "BeginsWith");
        if str_eq(k, "Name") {
            if !equals_or_begins && !str_eq(option, "Contains") {
                return Err(ErrorCode::InvalidFilterOption);
            }
            Ok(string_matches(p.key.as_str(), option, values))
        } else if str_eq(k, "Path") {
            let recursive = str_eq(option, "Recursive");
            if !recursive && !str_eq(option, "OneLevel") {
                return Err(ErrorCode::InvalidFilterOption);
            }
            if values.len() != 1 {
                return Err(ErrorCode::InvalidFilterValue);
            }
            assert(views(values@)[0] == values@[0]@);
            Ok(path_matches(p.key.as_str(), values[0].as_str(), recursive))
        } else if str_eq(k, "Type") {
            if !equals_or_begins {
                return Err(ErrorCode::InvalidFilterOption);
            }
            Ok(string_matches(p.param_type.as_str(), option, values))
        } else if str_eq(k, "DataType") {
            if !equals_or_begins {
                return Err(ErrorCode::InvalidFilterOption);
            }
            let data_type: &str = match &p.data_type {
                Some(d) => d.as_str(),
                None => "text",
            };
            Ok(string_matches(data_type, option, values))
        } else if str_eq(k, "Tier") {
            if !equals_or_begins {
                return Err(ErrorCode::InvalidFilterOption);
            }
            Ok(string_matches("Standard", option, values))
        } else if starts_with(k, "tag:") {
            proof {
                reveal_strlit("tag:");
                assert("tag:"@ =~= tag_prefix());
            }
            if !str_eq(option, "Equals") {
                return Err(ErrorCode::InvalidFilterOption);
            }
            let tag_key = trim_tag_prefix(k);
            Ok(self.parameter_has_tag(p.key.as_str(), tag_key.as_str(), values))
        } else {
            proof {
                reveal_strlit("tag:");
                assert("tag:"@ =~= tag_prefix());
            }
            Err(ErrorCode::InvalidFilterKey)
        }
    }

    /// The filters `fs` applied in order to parameter row `pi`.
    pub fn param_filters(&self, pi: usize, fs: &[ParameterStringFilter]) -> (res: Result<bool, ErrorCode>)
        requires
            pi < self.params.len(),
        ensures
            res == spec_param_filters(self@, self@.params[pi as int], fs@),
    {
        let ghost p = self@.params[pi as int];
        let mut i: usize = 0;
        assert(fs@.skip(0) =~= fs@);
        while i < fs.len()
            invariant
                i <= fs.len(),
                pi < self.params.len(),
                p == self@.params[pi as int],
                spec_param_filters(self@, p, fs@) == spec_param_filters(self@, p, fs@.skip(i as int)),
            decreases fs.len() - i,
        {
            assert(fs@.skip(i as int)[0] == fs@[i as int]);
            assert(fs@.skip(i as int).drop_first() =~= fs@.skip(i + 1));
            let r = self.param_filter(pi, &fs[i]);
            match r {
                Ok(true) => {},
                _ => return r,
            }
            i = i + 1;
        }
        assert(fs@.skip(i as int) =~= Seq::<ParameterStringFilter>::empty());
        Ok(true)
    }

    /// The metadata of parameter row `pi`.
    pub fn metadata_from_param(&self, pi: usize) -> (res: ParameterMetadata)
        requires
            pi < self.params.len(),
        ensures
            res@ == spec_metadata(self@.params[pi as int]),
    {
        let p = &self.params[pi];
        assert(self@.params[pi as int] == p@);
        let data_type = match &p.data_type {
            Some(d) => copy_string(d),
            None => "text".to_owned(),
        };
        ParameterMetadata {
            name: copy_string(&p.key),
            param_type: copy_string(&p.param_type),
            version: p.version,
            last_modified_date: p.last_modified_date,
            arn: arn(p.key.as_str()),
            data_type,
            tier: "Standard".to_owned(),
            description: clone_opt(&p.description),
            allowed_pattern: clone_opt(&p.allowed_pattern),
        }
    }

    /// What parameter row `pi` adds to a describe answer.
    pub fn describe_entry(&self, pi: usize, filters: &Option<Vec<ParameterStringFilter>>) -> (res: Result<Option<ParameterMetadata>, ErrorCode>)
        requires
            pi < self.params.len(),
        ensures
            match spec_describe_entry(self@, pi as int, req_filters(*filters)) {
                Ok(None) => res matches Ok(None),
                Ok(Some(m)) => res matches Ok(Some(x)) && x@ == m,
                Err(c) => res == Err::<Option<ParameterMetadata>, ErrorCode>(c),
            },
    {
        if let Some(fs) = filters {
            match self.param_filters(pi, fs.as_slice()) {
                Err(c) => return Err(c),
                Ok(false) => return Ok(None),
                Ok(true) => {},
            }
        }
        Ok(Some(self.metadata_from_param(pi)))
    }

    /// Answers a `DescribeParameters` request.
    pub fn describe_parameters(&self, req: &DescribeParametersRequest, error_on_unsupported: bool) -> (res: Result<(Vec<ParameterMetadata>, Option<String>), ApiError>)
        requires
            size_ok(self@),
        ensures
            match spec_describe_parameters(self@, *req, error_on_unsupported) {
                Ok((ms, token)) => res is Ok && row_views(res->Ok_0.0@) == ms && ov(res->Ok_0.1) == token,
                Err((c, m)) => res is Err && res->Err_0.is(c, m),
            },
    {
        if error_on_unsupported {
            if let Some(field) = req.unsupported_field() {
                return Err(unsupported_param(field.as_str()));
            }
        }
        let filters: Option<&[ParameterStringFilter]> = match &req.parameter_filters {
            Some(v) => Some(v.as_slice()),
            None => None,
        };
        assert(match filters {
            Some(f) => Some(f@),
            None => None,
        } == req_filters(req.parameter_filters));
        if let Some(err) = validate_filters(filters) {
            return Err(err);
        }
        let order = self.params_by_key();
        let ghost fs = req_filters(req.parameter_filters);
        let mut out: Vec<ParameterMetadata> = Vec::new();
        let mut i: usize = 0;
        assert(order@.take(0) =~= Seq::<usize>::empty());
        assert(row_views(out@) =~= Seq::<MetadataView>::empty());
        while i < order.len()
            invariant
                i <= order.len(),
                order@ == spec_params_by_key(self@),
                forall|k: int| 0 <= k < order@.len() ==> #[trigger] order@[k] < self@.params.len(),
                fs == req_filters(req.parameter_filters),
                !(error_on_unsupported && spec_describe_unsupported(*req) is Some),
                filters_error(fs) is None,
                spec_describe_list(self@, order@.take(i as int), fs) == Ok::<Seq<MetadataView>, ErrorCode>(row_views(out@)),
            decreases order.len() - i,
        {
            assert(order@.take(i + 1).drop_last() =~= order@.take(i as int));
            assert(order@.take(i + 1).last() == order@[i as int]);
            let pi = order[i];
            match self.describe_entry(pi, &req.parameter_filters) {
                Err(c) => {
                    assert(spec_describe_list(self@, order@.take(i + 1), fs) == Err::<Seq<MetadataView>, ErrorCode>(c));
                    proof {
                        lemma_describe_err(self@, order@, fs, i as int);
                    }
                    return Err(filter_failure(c));
                },
                Ok(None) => {},
                Ok(Some(m)) => {
                    let ghost before = out@;
                    out.push(m);
                    assert(row_views(out@) =~= row_views(before).push(m@));
                },
            }
            i = i + 1;
        }
        assert(order@.take(i as int) =~= order@);
        proof {
            lemma_describe_len(self@, order@, fs);
            lemma_sort_by_len(crate::queries::indices(self@.params.len()), crate::queries::key_before(self@));
        }
        let token: Option<&str> = match &req.next_token {
            Some(t) => Some(t.as_str()),
            None => None,
        };
        let (offset, limit) = match page_bounds(token, req.max_results, 50, 50) {
            Some(b) => b,
            None => return Err(invalid_next_token()),
        };
        assert(spec_page_bounds(ov(req.next_token), req.max_results, 50, 50) == Some((offset, limit)));
        let ghost items = out@;
        let ghost all = row_views(items);
        assert(all.len() == items.len());
        match take_page(out, offset, limit) {
            Some((page, next)) => {
                let ghost end: int = if offset + limit < items.len() { offset + limit } else { items.len() as int };
                assert(page@ == items.subrange(offset as int, end));
                assert(row_views(page@) =~= all.subrange(offset as int, end));
                Ok((page, next))
            },
            None => Err(invalid_next_token()),
        }
    }
}

/// The order of parameter rows by key is a strict order.
proof fn lemma_key_before_strict(s: StoreView)
    ensures
        strict_order(key_before(s)),
{
    let before = key_before(s);
    assert forall|a: usize| !#[trigger] before(a, a) by {
        lemma_seq_lt_irreflexive(s.params[a as int].key);
    }
    assert forall|a: usize, b: usize, c: usize| #[trigger] before(a, b) && #[trigger] before(b, c) implies before(a, c) by {
        lemma_seq_lt_transitive(s.params[a as int].key, s.params[b as int].key, s.params[c as int].key);
    }
}

/// Whether `x` is the key of one of the parameter rows `order`.
pub open spec fn key_of_some(s: StoreView, order: Seq<usize>, x: Seq<char>) -> bool {
    exists|j: int| 0 <= j < order.len() && x == s.params[#[trigger] order[j] as int].key
}

/// A sorted prefix stays sorted.
proof fn lemma_sorted_drop_last<T>(s: Seq<T>, before: spec_fn(T, T) -> bool)
    requires
        s.len() > 0,
        sorted_by(s, before),
    ensures
        sorted_by(s.drop_last(), before),
{
    let d = s.drop_last();
    assert forall|i: int, j: int| 0 <= i < j < d.len() implies !before(#[trigger] d[j], #[trigger] d[i]) by {
        assert(d[i] == s[i] && d[j] == s[j]);
    }
}

/// The answers of a by-path listing of rows sorted by key carry the
/// rows' keys as names, in ascending order.
proof fn lemma_by_path_sorted(
    s: StoreView,
    key: Seq<u8>,
    order: Seq<usize>,
    path: Seq<char>,
    recursive: bool,
    filters: Option<Seq<ParameterStringFilter>>,
    wd: bool,
)
    requires
        sorted_by(order, key_before(s)),
    ensures
        spec_by_path(s, key, order, path, recursive, filters, wd) matches Ok(ps) ==> {
            &&& forall|k: int| 0 <= k < ps.len() ==> key_of_some(s, order, #[trigger] ps[k].name)
            &&& forall|i: int, j: int| 0 <= i < j < ps.len() ==> !seq_lt(#[trigger] ps[j].name, #[trigger] ps[i].name)
        },
    decreases order.len(),
{
    if order.len() > 0 {
        let d = order.drop_last();
        lemma_sorted_drop_last(order, key_before(s));
        lemma_by_path_sorted(s, key, d, path, recursive, filters, wd);
        if let Ok(ps) = spec_by_path(s, key, order, path, recursive, filters, wd) {
            let prev = spec_by_path(s, key, d, path, recursive, filters, wd)->Ok_0;
            let last = order.last();
            assert(order[order.len() - 1] == last);
            assert forall|k: int| 0 <= k < prev.len() implies key_of_some(s, order, #[trigger] prev[k].name) by {
                assert(key_of_some(s, d, prev[k].name));
                let j = choose|j: int| 0 <= j < d.len() && prev[k].name == s.params[#[trigger] d[j] as int].key;
                assert(order[j] == d[j]);
            }
            if ps.len() > prev.len() {
                let p = s.params[last as int];
                let vi = version_index(s.versions, p.key, p.version);
                crate::store::lemma_version_index(s.versions, p.key, p.version);
                let v = ps[ps.len() - 1];
                assert(v.name == p.key);
                assert(key_of_some(s, order, v.name));
                assert forall|k: int| 0 <= k < ps.len() implies key_of_some(s, order, #[trigger] ps[k].name) by {
                    if k < prev.len() {
                        assert(ps[k] == prev[k]);
                    }
                }
                assert forall|i: int, j: int| 0 <= i < j < ps.len() implies !seq_lt(#[trigger] ps[j].name, #[trigger] ps[i].name) by {
                    assert(ps[i] == prev[i]);
                    if j < prev.len() {
                        assert(ps[j] == prev[j]);
                    } else {
                        let m = choose|m: int| 0 <= m < d.len() && prev[i].name == s.params[#[trigger] d[m] as int].key;
                        assert(order[m] == d[m]);
                        assert(!key_before(s)(order[order.len() - 1], order[m]));
                    }
                }
            }
        }
    }
}

/// A by-path answer lists its parameters in ascending order of name.
pub proof fn lemma_by_path_in_name_order(s: StoreView, key: Seq<u8>, r: GetParametersByPathRequest)
    ensures
        spec_get_parameters_by_path(s, key, r) matches Ok((ps, _)) ==> forall|i: int, j: int|
            0 <= i < j < ps.len() ==> !seq_lt(#[trigger] ps[j].name, #[trigger] ps[i].name),
{
    lemma_key_before_strict(s);
    lemma_sort_by_sorted(crate::queries::indices(s.params.len()), key_before(s));
    let fs = req_filters(r.parameter_filters);
    lemma_by_path_sorted(s, key, spec_params_by_key(s), r.path@, r.recursive, fs, r.with_decryption);
    if let Ok((ps, _)) = spec_get_parameters_by_path(s, key, r) {
        let all = spec_by_path(s, key, spec_params_by_key(s), r.path@, r.recursive, fs, r.with_decryption)->Ok_0;
        let (offset, limit) = spec_page_bounds(ov(r.next_token), r.max_results, 10, 10).unwrap();
        assert forall|i: int, j: int| 0 <= i < j < ps.len() implies !seq_lt(#[trigger] ps[j].name, #[trigger] ps[i].name) by {
            assert(ps[i] == all[offset + i] && ps[j] == all[offset + j]);
        }
    }
}

/// The entries of a describe listing of rows sorted by key carry the
/// rows' keys as names, in ascending order.
proof fn lemma_describe_sorted(s: StoreView, order: Seq<usize>, filters: Option<Seq<ParameterStringFilter>>)
    requires
        sorted_by(order, key_before(s)),
    ensures
        spec_describe_list(s, order, filters) matches Ok(ms) ==> {
            &&& forall|k: int| 0 <= k < ms.len() ==> key_of_some(s, order, #[trigger] ms[k].name)
            &&& forall|i: int, j: int| 0 <= i < j < ms.len() ==> !seq_lt(#[trigger] ms[j].name, #[trigger] ms[i].name)
        },
    decreases order.len(),
{
    if order.len() > 0 {
        let d = order.drop_last();
        lemma_sorted_drop_last(order, key_before(s));
        lemma_describe_sorted(s, d, filters);
        if let Ok(ms) = spec_describe_list(s, order, filters) {
            let prev = spec_describe_list(s, d, filters)->Ok_0;
            let last = order.last();
            assert(order[order.len() - 1] == last);
            assert forall|k: int| 0 <= k < prev.len() implies key_of_some(s, order, #[trigger] prev[k].name) by {
                assert(key_of_some(s, d, prev[k].name));
                let j = choose|j: int| 0 <= j < d.len() && prev[k].name == s.params[#[trigger] d[j] as int].key;
                assert(order[j] == d[j]);
            }
            if ms.len() > prev.len() {
                let v = ms[ms.len() - 1];
                assert(v.name == s.params[last as int].key);
                assert(key_of_some(s, order, v.name));
                assert forall|k: int| 0 <= k < ms.len() implies key_of_some(s, order, #[trigger] ms[k].name) by {
                    if k < prev.len() {
                        assert(ms[k] == prev[k]);
                    }
                }
                assert forall|i: int, j: int| 0 <= i < j < ms.len() implies !seq_lt(#[trigger] ms[j].name, #[trigger] ms[i].name) by {
                    assert(ms[i] == prev[i]);
                    if j < prev.len() {
                        assert(ms[j] == prev[j]);
                    } else {
                        let m = choose|m: int| 0 <= m < d.len() && prev[i].name == s.params[#[trigger] d[m] as int].key;
                        assert(order[m] == d[m]);
                        assert(!key_before(s)(order[order.len() - 1], order[m]));
                    }
                }
            }
        }
    }
}

/// A describe answer lists its parameters in ascending order of name.
pub proof fn lemma_describe_in_name_order(s: StoreView, r: DescribeParametersRequest, error_on_unsupported: bool)
    ensures
        spec_describe_parameters(s, r, error_on_unsupported) matches Ok((ms, _)) ==> forall|i: int, j: int|
            0 <= i < j < ms.len() ==> !seq_lt(#[trigger] ms[j].name, #[trigger] ms[i].name),
{
    lemma_key_before_strict(s);
    lemma_sort_by_sorted(crate::queries::indices(s.params.len()), key_before(s));
    let fs = req_filters(r.parameter_filters);
    lemma_describe_sorted(s, spec_params_by_key(s), fs);
    if let Ok((ms, _)) = spec_describe_parameters(s, r, error_on_unsupported) {
        let all = spec_describe_list(s, spec_params_by_key(s), fs)->Ok_0;
        let (offset, limit) = spec_page_bounds(ov(r.next_token), r.max_results, 50, 50).unwrap();
        assert forall|i: int, j: int| 0 <= i < j < ms.len() implies !seq_lt(#[trigger] ms[j].name, #[trigger] ms[i].name) by {
            assert(ms[i] == all[offset + i] && ms[j] == all[offset + j]);
        }
    }
}

/// Whether `value` is one of `values`.
pub open spec fn one_of(value: Seq<char>, values: Seq<Seq<char>>) -> bool {
    exists|i: int| 0 <= i < values.len() && values[i] == value
}

/// Whether `value` starts with one of `values`.
pub open spec fn starts_with_one_of(value: Seq<char>, values: Seq<Seq<char>>) -> bool {
    exists|i: int| 0 <= i < values.len() && values[i].len() <= value.len() && #[trigger] value.take(values[i].len() as int) == values[i]
}

/// `Equals` and `BeginsWith` string matching, stated directly.
proof fn lemma_string_matches_direct(value: Seq<char>, values: Seq<Seq<char>>)
    ensures
        spec_string_matches(value, "Equals"@, values) == (values.len() == 0 || one_of(value, values)),
        spec_string_matches(value, "BeginsWith"@, values) == (values.len() == 0 || starts_with_one_of(value, values)),
{
    reveal_strlit("Equals");
    reveal_strlit("BeginsWith");
    assert("Equals"@.len() != "BeginsWith"@.len());
    if values.len() > 0 {
        if one_of(value, values) {
            let i = choose|i: int| 0 <= i < values.len() && values[i] == value;
            assert(value == values[i]);
        }
        if spec_string_matches(value, "Equals"@, values) {
            let i = choose|i: int| 0 <= i < values.len() && value == #[trigger] values[i];
            assert(values[i] == value);
        }
        if starts_with_one_of(value, values) {
            let i = choose|i: int| 0 <= i < values.len() && values[i].len() <= value.len() && #[trigger] value.take(values[i].len() as int) == values[i];
            assert(spec_starts_with(value, values[i]));
        }
        if spec_string_matches(value, "BeginsWith"@, values) {
            let i = choose|i: int| 0 <= i < values.len() && spec_starts_with(value, #[trigger] values[i]);
            assert(value.take(values[i].len() as int) == values[i]);
        }
    }
}

/// A by-path `Type` filter: with `Equals`, or no option, a version passes
/// exactly when its type is one of the filter's values; with `BeginsWith`
/// exactly when its type starts with one of them; with no values every
/// version passes; any other option is refused.
pub proof fn lemma_by_path_type_filter(s: StoreView, row: VersionView, f: ParameterStringFilter)
    requires
        f.key@ == "Type"@,
    ensures
        f.option is None || f.option->Some_0@ == "Equals"@ ==> spec_version_filter(s, row, f) == Ok::<bool, ErrorCode>(
            filter_values(f).len() == 0 || one_of(row.param_type, filter_values(f)),
        ),
        f.option is Some && f.option->Some_0@ == "BeginsWith"@ ==> spec_version_filter(s, row, f) == Ok::<bool, ErrorCode>(
            filter_values(f).len() == 0 || starts_with_one_of(row.param_type, filter_values(f)),
        ),
        f.option is Some && f.option->Some_0@ != "Equals"@ && f.option->Some_0@ != "BeginsWith"@
            ==> spec_version_filter(s, row, f) == Err::<bool, ErrorCode>(ErrorCode::InvalidFilterOption),
{
    reveal_strlit("Equals");
    reveal_strlit("BeginsWith");
    reveal_strlit("Type");
    reveal_strlit("Label");
    reveal_strlit("KeyId");
    lemma_string_matches_direct(row.param_type, filter_values(f));
}

/// A describe `Name` filter: with `Equals`, or no option, a parameter
/// passes exactly when its name is one of the filter's values; with
/// `BeginsWith` exactly when its name starts with one of them; with no
/// values every parameter passes; options other than these and
/// `Contains` are refused.
pub proof fn lemma_describe_name_filter(s: StoreView, p: ParamView, f: ParameterStringFilter)
    requires
        f.key@ == "Name"@,
    ensures
        f.option is None || f.option->Some_0@ == "Equals"@ ==> spec_param_filter(s, p, f) == Ok::<bool, ErrorCode>(
            filter_values(f).len() == 0 || one_of(p.key, filter_values(f)),
        ),
        f.option is Some && f.option->Some_0@ == "BeginsWith"@ ==> spec_param_filter(s, p, f) == Ok::<bool, ErrorCode>(
            filter_values(f).len() == 0 || starts_with_one_of(p.key, filter_values(f)),
        ),
        f.option is Some && f.option->Some_0@ != "Equals"@ && f.option->Some_0@ != "BeginsWith"@
            && f.option->Some_0@ != "Contains"@ ==> spec_param_filter(s, p, f) == Err::<bool, ErrorCode>(
            ErrorCode::InvalidFilterOption,
        ),
{
    reveal_strlit("Equals");
    reveal_strlit("BeginsWith");
    reveal_strlit("Contains");
    reveal_strlit("Name");
    lemma_string_matches_direct(p.key, filter_values(f));
}

/// A describe `Type` filter: with `Equals`, or no option, a parameter
/// passes exactly when its type is one of the filter's values; with
/// `BeginsWith` exactly when its type starts with one of them.
pub proof fn lemma_describe_type_filter(s: StoreView, p: ParamView, f: ParameterStringFilter)
    requires
        f.key@ == "Type"@,
    ensures
        f.option is None || f.option->Some_0@ == "Equals"@ ==> spec_param_filter(s, p, f) == Ok::<bool, ErrorCode>(
            filter_values(f).len() == 0 || one_of(p.param_type, filter_values(f)),
        ),
        f.option is Some && f.option->Some_0@ == "BeginsWith"@ ==> spec_param_filter(s, p, f) == Ok::<bool, ErrorCode>(
            filter_values(f).len() == 0 || starts_with_one_of(p.param_type, filter_values(f)),
        ),
{
    reveal_strlit("Equals");
    reveal_strlit("BeginsWith");
    reveal_strlit("Name");
    reveal_strlit("Path");
    reveal_strlit("Type");
    assert("Type"@[0] != "Path"@[0]);
    assert("Type"@[0] != "Name"@[0]);
    lemma_string_matches_direct(p.param_type, filter_values(f));
}

} // verus!

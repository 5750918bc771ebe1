use vstd::prelude::*;
use vstd::utf8::encode_utf8;
use crate::error::{ApiError, ErrorCode, internal_service_error, invalid_allowed_pattern, parameter_already_exists, parameter_not_found, unsupported_param, msg_unsupported_param};
use crate::model::{ParameterType, SelectorView, Tag, arn, parameter_type_name, parse_selector, spec_arn, spec_parse_selector};
use crate::store::{lemma_version_index, lemma_param_index, lemma_param_index_after, lemma_param_index_is_last, ParamRow, ParamStore, ParamView, StoreView, VersionRow, VersionView, ov, param_index, spec_replace_tags, spec_resolve, version_index};
use crate::validate::{byte_len, msg_invalid_name, put_request_error, spec_valid_name, validate_parameter_name, validate_put_request};
use crate::values::{decode_stored_value, encode_value, encodes, lemma_stored_value_reads_back, spec_decode};

verus! {

/// A copy of an optional string.
pub fn clone_opt(o: &Option<String>) -> (res: Option<String>)
    ensures
        ov(res) == ov(*o),
{
    match o {
        Some(s) => Some(s.clone()),
        None => None,
    }
}

/// What `Regex::new(pattern)` and `is_match(value)` of the regex crate
/// give: whether `value` matches `pattern`, or `None` when the pattern
/// does not compile.
pub uninterp spec fn spec_regex_is_match(pattern: Seq<char>, value: Seq<char>) -> Option<bool>;

/// Compiles `pattern` with the regex crate and tests `value` against it;
/// `None` when the pattern does not compile.
#[verifier::external_body]
fn regex_is_match(pattern: &str, value: &str) -> (res: Option<bool>)
    ensures
        res == spec_regex_is_match(pattern@, value@),
{
    match regex::Regex::new(pattern) {
        Ok(r) => Some(r.is_match(value)),
        Err(_) => None,
    }
}

/// A `PutParameter` request. `key_id`, `policies` and `tier` record
/// whether the request set those fields, which the service does not
/// support.
pub struct PutParameterRequest {
    pub name: String,
    pub value: String,
    pub allowed_pattern: Option<String>,
    pub data_type: Option<String>,
    pub description: Option<String>,
    pub overwrite: bool,
    pub tags: Option<Vec<Tag>>,
    pub param_type: ParameterType,
    pub key_id: bool,
    pub policies: bool,
    pub tier: bool,
}

/// The first unsupported field a put request sets, by its wire name.
pub open spec fn spec_put_unsupported(r: PutParameterRequest) -> Option<Seq<char>> {
    if r.key_id {
        Some("KeyId"@)
    } else if r.policies {
        Some("Policies"@)
    } else if r.tier {
        Some("Tier"@)
    } else {
        None
    }
}

impl PutParameterRequest {
    /// The wire name of the first unsupported field the request sets.
    pub fn unsupported_field(&self) -> (res: Option<String>)
        ensures
            ov(res) == spec_put_unsupported(*self),
    {
        if self.key_id {
            Some("KeyId".to_owned())
        } else if self.policies {
            Some("Policies".to_owned())
        } else if self.tier {
            Some("Tier".to_owned())
        } else {
            None
        }
    }
}

/// The tags of a put request, none when it has none.
pub open spec fn req_tags(r: PutParameterRequest) -> Seq<Tag> {
    match r.tags {
        Some(t) => t@,
        None => Seq::empty(),
    }
}

/// The answer to a put request up to the store's write: the version it
/// writes, or the error it is refused with. Unsupported fields are refused
/// when `error_on_unsupported`; then the request is validated, the value
/// is tested against the allowed pattern (`pattern_match` is what the
/// regex gives), and a parameter that exists is refused unless
/// `overwrite`. A new parameter gets version 1, an overwritten one the
/// next version; one whose version counter is full cannot be overwritten
/// and is an internal error.
pub open spec fn spec_put_check(s: StoreView, r: PutParameterRequest, error_on_unsupported: bool, pattern_match: Option<bool>) -> Result<i64, (ErrorCode, Seq<char>)> {
    let p = param_index(s.params, r.name@);
    if error_on_unsupported && spec_put_unsupported(r).is_some() {
        Err((ErrorCode::InvalidParameter, msg_unsupported_param(spec_put_unsupported(r).unwrap())))
    } else if put_request_error(r.name@, r.value@, ov(r.description), ov(r.allowed_pattern), req_tags(r)).is_some() {
        Err(put_request_error(r.name@, r.value@, ov(r.description), ov(r.allowed_pattern), req_tags(r)).unwrap())
    } else if r.allowed_pattern.is_some() && pattern_match != Some(true) {
        Err((ErrorCode::InvalidAllowedPattern, "The parameter value does not match the allowed pattern."@))
    } else if p >= 0 {
        if !r.overwrite {
            Err((ErrorCode::ParameterAlreadyExists, "The parameter already exists."@))
        } else if s.params[p].version == i64::MAX {
            Err((ErrorCode::InternalServiceError, "An internal service error occurred."@))
        } else {
            Ok((s.params[p].version + 1) as i64)
        }
    } else {
        Ok(1)
    }
}

/// Whether `res` is the answer `expected` describes.
pub open spec fn result_is<T>(res: Result<T, ApiError>, expected: Result<T, (ErrorCode, Seq<char>)>) -> bool {
    match expected {
        Ok(v) => res is Ok && res->Ok_0 == v,
        Err((c, m)) => res is Err && res->Err_0.is(c, m),
    }
}

/// The store once a put of `r` writes `version` with stored bytes `stored`
/// at time `now`: the parameter row is updated (or added), a version row
/// is added, and when the request has tags they replace the parameter's tags.
pub open spec fn spec_apply_put(s: StoreView, r: PutParameterRequest, version: i64, stored: Seq<u8>, now: i64) -> StoreView {
    let p = param_index(s.params, r.name@);
    let row = ParamView {
        key: r.name@,
        param_type: parameter_type_name(r.param_type),
        description: ov(r.description),
        data_type: ov(r.data_type),
        allowed_pattern: ov(r.allowed_pattern),
        version,
        last_modified_date: now,
    };
    let vrow = VersionView {
        param_key: r.name@,
        version,
        value: stored,
        param_type: parameter_type_name(r.param_type),
        description: ov(r.description),
        data_type: ov(r.data_type),
        allowed_pattern: ov(r.allowed_pattern),
        last_modified_date: now,
    };
    let base = StoreView {
        params: if p >= 0 { s.params.update(p, row) } else { s.params.push(row) },
        versions: s.versions.push(vrow),
        ..s
    };
    match r.tags {
        Some(ts) => {
            let (l, t, n) = spec_replace_tags(base, r.name@, ts@);
            StoreView { links: l, tags: t, next_tag_id: n as i64, ..base }
        },
        None => base,
    }
}

/// What the regex gives for a put request's allowed pattern and value.
pub open spec fn put_pattern_match(r: PutParameterRequest) -> Option<bool> {
    match r.allowed_pattern {
        Some(p) => spec_regex_is_match(p@, r.value@),
        None => None,
    }
}

/// Whether a put of `r` has room for the ids of its tags.
pub open spec fn tag_room(s: StoreView, r: PutParameterRequest) -> bool {
    s.next_tag_id + req_tags(r).len() <= i64::MAX
}

impl ParamStore {
    /// Decides a put request up to the store's write: the version to
    /// write, or the error. `pattern_match` is what the regex gives for the
    /// request's allowed pattern and value.
    pub fn put_check(&self, req: &PutParameterRequest, error_on_unsupported: bool, pattern_match: Option<bool>) -> (res: Result<i64, ApiError>)
        ensures
            result_is(res, spec_put_check(self@, *req, error_on_unsupported, pattern_match)),
    {
        if error_on_unsupported {
            if let Some(field) = req.unsupported_field() {
                return Err(unsupported_param(field.as_str()));
            }
        }
        let tags: Option<&[Tag]> = match &req.tags {
            Some(t) => Some(t.as_slice()),
            None => None,
        };
        let description: Option<&str> = match &req.description {
            Some(d) => Some(d.as_str()),
            None => None,
        };
        let pattern: Option<&str> = match &req.allowed_pattern {
            Some(d) => Some(d.as_str()),
            None => None,
        };
        if let Some(err) = validate_put_request(req.name.as_str(), req.value.as_str(), description, pattern, tags) {
            return Err(err);
        }
        if req.allowed_pattern.is_some() {
            match pattern_match {
                Some(true) => {},
                _ => return Err(invalid_allowed_pattern()),
            }
        }
        match self.find_param(req.name.as_str()) {
            Some(p) => {
                if !req.overwrite {
                    return Err(parameter_already_exists());
                }
                if self.params[p].version == i64::MAX {
                    return Err(internal_service_error());
                }
                Ok(self.params[p].version + 1)
            },
            None => Ok(1),
        }
    }

    /// Writes a put of `req` as `version` with stored bytes `stored` at
    /// time `now`. Fails, and changes nothing, when the tag ids would
    /// overflow.
    pub fn apply_put(&mut self, req: &PutParameterRequest, version: i64, stored: Vec<u8>, now: i64) -> (res: Result<(), ApiError>)
        ensures
            tag_room(old(self)@, *req) ==> res is Ok && final(self)@ == spec_apply_put(old(self)@, *req, version, stored@, now),
            !tag_room(old(self)@, *req) ==> res is Err && res->Err_0.is(ErrorCode::InternalServiceError, "An internal service error occurred."@)
                && final(self)@ == old(self)@,
    {
        if let Some(tags) = &req.tags {
            if (self.next_tag_id as i128) + (tags.len() as i128) > (i64::MAX as i128) {
                return Err(internal_service_error());
            }
        }
        let row = ParamRow {
            key: req.name.clone(),
            param_type: req.param_type.as_str().to_owned(),
            description: clone_opt(&req.description),
            data_type: clone_opt(&req.data_type),
            allowed_pattern: clone_opt(&req.allowed_pattern),
            version,
            last_modified_date: now,
        };
        let vrow = VersionRow {
            param_key: req.name.clone(),
            version,
            value: stored,
            param_type: req.param_type.as_str().to_owned(),
            description: clone_opt(&req.description),
            data_type: clone_opt(&req.data_type),
            allowed_pattern: clone_opt(&req.allowed_pattern),
            last_modified_date: now,
        };
        let ghost s0 = self@;
        match self.find_param(req.name.as_str()) {
            Some(p) => {
                self.params.set(p, row);
            },
            None => {
                self.params.push(row);
            },
        }
        self.versions.push(vrow);
        let ghost base = self@;
        assert(base.params =~= spec_apply_put(s0, *req, version, stored@, now).params);
        assert(base.versions =~= spec_apply_put(s0, *req, version, stored@, now).versions);
        if let Some(tags) = &req.tags {
            assert(tags@ == req_tags(*req));
            self.replace_tags(req.name.as_str(), tags.as_slice());
        }
        Ok(())
    }

    /// Answers a put request: the version written, or the error. A secure
    /// string is stored encrypted under `key`.
    pub fn put_parameter(&mut self, req: &PutParameterRequest, error_on_unsupported: bool, key: &[u8; 32], now: i64) -> (res: Result<i64, ApiError>)
        ensures
            spec_put_check(old(self)@, *req, error_on_unsupported, put_pattern_match(*req)) matches Err((c, m))
                ==> res is Err && res->Err_0.is(c, m) && final(self)@ == old(self)@,
            spec_put_check(old(self)@, *req, error_on_unsupported, put_pattern_match(*req)) matches Ok(v)
                ==> tag_room(old(self)@, *req) ==> res == Ok::<i64, ApiError>(v) && exists|stored: Seq<u8>|
                    encodes(key@, stored, req.value@, req.name@, v, req.param_type)
                        && final(self)@ == #[trigger] spec_apply_put(old(self)@, *req, v, stored, now),
            spec_put_check(old(self)@, *req, error_on_unsupported, put_pattern_match(*req)) is Ok
                ==> !tag_room(old(self)@, *req) ==> res is Err && res->Err_0.is(
                    ErrorCode::InternalServiceError,
                    "An internal service error occurred."@,
                ) && final(self)@ == old(self)@,
    {
        let pm = match &req.allowed_pattern {
            Some(p) => regex_is_match(p.as_str(), req.value.as_str()),
            None => None,
        };
        let version = match self.put_check(req, error_on_unsupported, pm) {
            Ok(v) => v,
            Err(e) => return Err(e),
        };
        let stored = match encode_value(req.value.as_str(), req.name.as_str(), version, req.param_type, key) {
            Ok(b) => b,
            Err(e) => {
                assert(byte_len(req.value@) <= 8192);
                return Err(e);
            },
        };
        let ghost sv = stored@;
        match self.apply_put(req, version, stored, now) {
            Ok(()) => {
                assert(encodes(key@, sv, req.value@, req.name@, version, req.param_type));
                assert(self@ == spec_apply_put(old(self)@, *req, version, sv, now));
                Ok(version)
            },
            Err(e) => Err(e),
        }
    }
}

} // verus!

verus! {

/// A parameter as an answer carries it.
#[derive(Debug)]
pub struct Parameter {
    pub name: String,
    pub param_type: String,
    pub value: String,
    pub version: i64,
    pub selector: Option<String>,
    pub last_modified_date: i64,
    pub arn: String,
    pub data_type: String,
}

/// An answered parameter, as text.
pub struct ParameterView {
    pub name: Seq<char>,
    pub param_type: Seq<char>,
    pub value: Seq<char>,
    pub version: i64,
    pub selector: Option<Seq<char>>,
    pub last_modified_date: i64,
    pub arn: Seq<char>,
    pub data_type: Seq<char>,
}

impl View for Parameter {
    type V = ParameterView;

    open spec fn view(&self) -> ParameterView {
        ParameterView {
            name: self.name@,
            param_type: self.param_type@,
            value: self.value@,
            version: self.version,
            selector: ov(self.selector),
            last_modified_date: self.last_modified_date,
            arn: self.arn@,
            data_type: self.data_type@,
        }
    }
}

/// The data type an answer shows: the stored one, `text` when none was given.
pub open spec fn data_type_or_text(d: Option<Seq<char>>) -> Seq<char> {
    match d {
        Some(t) => t,
        None => "text"@,
    }
}

/// The answer for version row `row` read with `selector` and as `value`.
pub open spec fn parameter_view(row: VersionView, selector: Option<Seq<char>>, value: Seq<char>) -> ParameterView {
    ParameterView {
        name: row.param_key,
        param_type: row.param_type,
        value,
        version: row.version,
        selector,
        last_modified_date: row.last_modified_date,
        arn: spec_arn(row.param_key),
        data_type: data_type_or_text(row.data_type),
    }
}

/// The message of an internal error.
pub open spec fn msg_internal() -> Seq<char> {
    "An internal service error occurred."@
}

/// The answer for version row `row` read with `selector`: an internal
/// error when its value cannot be read.
pub open spec fn spec_parameter_from_version(key: Seq<u8>, row: VersionView, selector: Option<Seq<char>>, with_decryption: bool) -> Result<ParameterView, (ErrorCode, Seq<char>)> {
    match spec_decode(key, row.value, row.param_key, row.version, row.param_type, with_decryption) {
        Some(v) => Ok(parameter_view(row, selector, v)),
        None => Err((ErrorCode::InternalServiceError, msg_internal())),
    }
}

/// Whether `res`, read through the views of its value, is the answer
/// `expected` describes.
pub open spec fn view_result_is<T: View>(res: Result<T, ApiError>, expected: Result<T::V, (ErrorCode, Seq<char>)>) -> bool {
    match expected {
        Ok(v) => res is Ok && res->Ok_0@ == v,
        Err((c, m)) => res is Err && res->Err_0.is(c, m),
    }
}

/// A copy of a string.
pub fn copy_string(s: &String) -> (res: String)
    ensures
        res@ == s@,
{
    s.clone()
}

impl ParamStore {
    /// The answer for version row `idx` read with `selector`.
    pub fn parameter_from_version(&self, idx: usize, selector: Option<String>, with_decryption: bool, key: &[u8; 32]) -> (res: Result<Parameter, ApiError>)
        requires
            idx < self.versions.len(),
        ensures
            view_result_is(res, spec_parameter_from_version(key@, self@.versions[idx as int], ov(selector), with_decryption)),
    {
        let row = &self.versions[idx];
        assert(self@.versions[idx as int] == row@);
        let value = match decode_stored_value(row.value.as_slice(), row.param_key.as_str(), row.version, row.param_type.as_str(), with_decryption, key) {
            Ok(v) => v,
            Err(e) => return Err(e),
        };
        let data_type = match &row.data_type {
            Some(d) => copy_string(d),
            None => "text".to_owned(),
        };
        Ok(Parameter {
            name: copy_string(&row.param_key),
            param_type: copy_string(&row.param_type),
            value,
            version: row.version,
            selector,
            last_modified_date: row.last_modified_date,
            arn: arn(row.param_key.as_str()),
            data_type,
        })
    }
}

/// A `GetParameter` request.
pub struct GetParameterRequest {
    pub name: String,
    pub with_decryption: bool,
}

/// The answer to reading parameter `name` (which may select a version or
/// a label) from store `s`.
pub open spec fn spec_get_parameter(s: StoreView, key: Seq<u8>, name: Seq<char>, with_decryption: bool) -> Result<ParameterView, (ErrorCode, Seq<char>)> {
    let sel = spec_parse_selector(name);
    let idx = spec_resolve(s, sel);
    if !spec_valid_name(sel.name()) {
        Err((ErrorCode::InvalidParameter, msg_invalid_name()))
    } else if idx < 0 {
        Err((ErrorCode::ParameterNotFound, "Parameter not found."@))
    } else {
        spec_parameter_from_version(key, s.versions[idx], sel.suffix(), with_decryption)
    }
}

impl ParamStore {
    /// Answers a `GetParameter` request.
    pub fn get_parameter(&self, req: &GetParameterRequest, key: &[u8; 32]) -> (res: Result<Parameter, ApiError>)
        ensures
            view_result_is(res, spec_get_parameter(self@, key@, req.name@, req.with_decryption)),
    {
        let selector = parse_selector(req.name.as_str());
        if let Some(err) = validate_parameter_name(selector.name()) {
            return Err(err);
        }
        match self.resolve_version(&selector) {
            Some(idx) => self.parameter_from_version(idx, selector.selector(), req.with_decryption, key),
            None => Err(parameter_not_found()),
        }
    }
}

/// After a successful put of `r`, reading the parameter by its name gives
/// the version written and the value put (for a secure string when read
/// with decryption), when the name selects the latest version.
pub proof fn lemma_get_after_put(s: StoreView, r: PutParameterRequest, error_on_unsupported: bool, pattern_match: Option<bool>, stored: Seq<u8>, now: i64, key: Seq<u8>)
    requires
        spec_put_check(s, r, error_on_unsupported, pattern_match) is Ok,
        encodes(key, stored, r.value@, r.name@, spec_put_check(s, r, error_on_unsupported, pattern_match)->Ok_0, r.param_type),
        spec_parse_selector(r.name@) == SelectorView::Latest(r.name@),
    ensures
        ({
            let v = spec_put_check(s, r, error_on_unsupported, pattern_match)->Ok_0;
            let t = spec_apply_put(s, r, v, stored, now);
            &&& spec_get_parameter(t, key, r.name@, true) is Ok
            &&& spec_get_parameter(t, key, r.name@, true)->Ok_0.value == r.value@
            &&& spec_get_parameter(t, key, r.name@, true)->Ok_0.version == v
            &&& r.param_type != ParameterType::SecureString ==> spec_get_parameter(t, key, r.name@, false) == spec_get_parameter(t, key, r.name@, true)
        }),
{
    let v = spec_put_check(s, r, error_on_unsupported, pattern_match)->Ok_0;
    let t = spec_apply_put(s, r, v, stored, now);
    lemma_put_keeps_latest(s, r, v, stored, now);
    lemma_stored_value_reads_back(key, stored, r.value@, r.name@, v, r.param_type);
}

/// A put adds a version and changes no other: reading any other numbered
/// version, of any parameter, answers as it did before the put.
pub proof fn lemma_put_keeps_other_versions(s: StoreView, r: PutParameterRequest, version: i64, stored: Seq<u8>, now: i64, key: Seq<u8>, request: Seq<char>, with_decryption: bool)
    requires
        spec_parse_selector(request) is Version,
        !(spec_parse_selector(request)->Version_name == r.name@ && spec_parse_selector(request)->Version_version == version),
    ensures
        spec_get_parameter(spec_apply_put(s, r, version, stored, now), key, request, with_decryption)
            == spec_get_parameter(s, key, request, with_decryption),
{
    let t = spec_apply_put(s, r, version, stored, now);
    let sel = spec_parse_selector(request);
    let n = sel->Version_name;
    let w = sel->Version_version;
    assert(t.versions.drop_last() =~= s.versions);
    lemma_version_index(s.versions, n, w);
    let i = version_index(s.versions, n, w);
    if i >= 0 {
        assert(t.versions[i] == s.versions[i]);
    }
}

/// After a put of `r` as `version`, the row found for its name is the
/// new parameter row and the version row found for it is the new one.
pub proof fn lemma_put_keeps_latest(s: StoreView, r: PutParameterRequest, version: i64, stored: Seq<u8>, now: i64)
    ensures
        ({
            let t = spec_apply_put(s, r, version, stored, now);
            let p = param_index(t.params, r.name@);
            &&& p >= 0
            &&& t.params[p].version == version
            &&& version_index(t.versions, r.name@, version) == t.versions.len() - 1
            &&& t.versions.last().value == stored
            &&& t.versions.last().param_key == r.name@
            &&& t.versions.last().version == version
            &&& t.versions.last().param_type == parameter_type_name(r.param_type)
        }),
{
    let t = spec_apply_put(s, r, version, stored, now);
    let p0 = param_index(s.params, r.name@);
    lemma_param_index(s.params, r.name@);
    if p0 >= 0 {
        lemma_param_index_after(s.params, r.name@);
        let ps = t.params;
        assert forall|j: int| p0 < j < ps.len() implies ps[j].key != r.name@ by {
            assert(ps[j] == s.params[j]);
        }
        lemma_param_index_is_last(ps, r.name@, p0);
    }
}

} // verus!

verus! {

/// Whether a request that does not say so asks for decrypted values: it
/// does not.
pub fn default_request_with_decryption() -> (res: bool)
    ensures
        !res,
{
    false
}

/// Whether a by-path request that does not say so descends below the
/// path's direct children: it does not.
pub fn default_request_recursive() -> (res: bool)
    ensures
        !res,
{
    false
}

/// Whether a put request that does not say so may overwrite: it may not.
pub fn default_request_overwrite() -> (res: bool)
    ensures
        !res,
{
    false
}

} // verus!

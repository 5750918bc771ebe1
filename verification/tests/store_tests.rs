use vout::api::{GetParameterRequest, PutParameterRequest};
use vout::error::ErrorCode;
use vout::labels::{LabelParameterVersionRequest, UnlabelParameterVersionRequest};
use vout::model::{ParameterType, Tag};
use vout::queries::{GetParameterHistoryRequest, GetParametersRequest};
use vout::store::ParamStore;

const KEY: [u8; 32] = [7u8; 32];

fn put(name: &str, value: &str, t: ParameterType, overwrite: bool) -> PutParameterRequest {
    PutParameterRequest {
        name: name.to_owned(),
        value: value.to_owned(),
        allowed_pattern: None,
        data_type: None,
        description: None,
        overwrite,
        tags: None,
        param_type: t,
        key_id: false,
        policies: false,
        tier: false,
    }
}

fn get(store: &ParamStore, name: &str, with_decryption: bool) -> Result<vout::api::Parameter, vout::error::ApiError> {
    store.get_parameter(&GetParameterRequest { name: name.to_owned(), with_decryption }, &KEY)
}

#[test]
fn put_then_get_reads_the_value_back() {
    let mut store = ParamStore::new();
    let v = store.put_parameter(&put("brick/layer", "hello", ParameterType::String, false), true, &KEY, 1000).unwrap();
    assert_eq!(v, 1);
    let p = get(&store, "brick/layer", false).unwrap();
    assert_eq!(p.value, "hello");
    assert_eq!(p.version, 1);
    assert_eq!(p.param_type, "String");
    assert_eq!(p.data_type, "text");
    assert_eq!(p.arn, "arn:aws:ssm:local:000000000000:parameter/brick/layer");
    assert_eq!(p.last_modified_date, 1000);
    assert_eq!(p.selector, None);
}

#[test]
fn secure_string_reads_back_only_with_decryption() {
    let mut store = ParamStore::new();
    store.put_parameter(&put("db/password", "secret", ParameterType::SecureString, false), true, &KEY, 5).unwrap();
    let plain = get(&store, "db/password", true).unwrap();
    assert_eq!(plain.value, "secret");
    assert_eq!(plain.param_type, "SecureString");
    let hidden = get(&store, "db/password", false).unwrap();
    assert_ne!(hidden.value, "secret");
    let raw = vout::crypto::base64_decode(&hidden.value).unwrap();
    assert_eq!(raw[0], 1u8);
    assert_eq!(raw.len(), 1 + 12 + "secret".len() + 16);
}

#[test]
fn put_existing_needs_overwrite() {
    let mut store = ParamStore::new();
    store.put_parameter(&put("a", "1", ParameterType::String, false), true, &KEY, 1).unwrap();
    let err = store.put_parameter(&put("a", "2", ParameterType::String, false), true, &KEY, 2).unwrap_err();
    assert_eq!(err.code, ErrorCode::ParameterAlreadyExists);
    assert_eq!(err.message, "The parameter already exists.");
    let v = store.put_parameter(&put("a", "2", ParameterType::String, true), true, &KEY, 3).unwrap();
    assert_eq!(v, 2);
    assert_eq!(get(&store, "a", false).unwrap().value, "2");
    assert_eq!(get(&store, "a:1", false).unwrap().value, "1");
    assert_eq!(get(&store, "a:1", false).unwrap().selector, Some(":1".to_owned()));
}

#[test]
fn put_refuses_unsupported_fields_when_asked() {
    let mut store = ParamStore::new();
    let mut req = put("a", "1", ParameterType::String, false);
    req.tier = true;
    let err = store.put_parameter(&req, true, &KEY, 1).unwrap_err();
    assert_eq!(err.code, ErrorCode::InvalidParameter);
    assert_eq!(
        err.message,
        "Unsupported request field 'Tier'. If you need it, please use the official AWS Secrets Manager API instead."
    );
    assert_eq!(store.put_parameter(&req, false, &KEY, 1).unwrap(), 1);
}

#[test]
fn put_checks_the_allowed_pattern() {
    let mut store = ParamStore::new();
    let mut req = put("num", "abc", ParameterType::String, false);
    req.allowed_pattern = Some("^[0-9]+$".to_owned());
    let err = store.put_parameter(&req, true, &KEY, 1).unwrap_err();
    assert_eq!(err.code, ErrorCode::InvalidAllowedPattern);
    req.value = "123".to_owned();
    assert_eq!(store.put_parameter(&req, true, &KEY, 1).unwrap(), 1);
    req.allowed_pattern = Some("(".to_owned());
    req.overwrite = true;
    let err = store.put_parameter(&req, true, &KEY, 2).unwrap_err();
    assert_eq!(err.code, ErrorCode::InvalidAllowedPattern);
}

#[test]
fn put_validates_the_request() {
    let mut store = ParamStore::new();
    let err = store.put_parameter(&put("", "x", ParameterType::String, false), true, &KEY, 1).unwrap_err();
    assert_eq!(err.code, ErrorCode::InvalidParameter);
    assert_eq!(err.message, "Parameter name is invalid.");
    let long = "x".repeat(8193);
    let err = store.put_parameter(&put("n", &long, ParameterType::String, false), true, &KEY, 1).unwrap_err();
    assert_eq!(err.message, "Parameter value is too long.");
    let mut req = put("n", "v", ParameterType::String, false);
    req.tags = Some(vec![Tag { key: String::new(), value: "x".to_owned() }]);
    let err = store.put_parameter(&req, true, &KEY, 1).unwrap_err();
    assert_eq!(err.code, ErrorCode::InvalidParameter);
}

#[test]
fn get_of_unknown_or_invalid_names() {
    let store = ParamStore::new();
    let err = get(&store, "missing", false).unwrap_err();
    assert_eq!(err.code, ErrorCode::ParameterNotFound);
    assert_eq!(err.message, "Parameter not found.");
    let err = get(&store, "has space", false).unwrap_err();
    assert_eq!(err.code, ErrorCode::InvalidParameter);
    assert_eq!(err.message, "Parameter name is invalid.");
}

#[test]
fn label_then_get_by_label() {
    let mut store = ParamStore::new();
    store.put_parameter(&put("app", "v1", ParameterType::String, false), true, &KEY, 1).unwrap();
    store.put_parameter(&put("app", "v2", ParameterType::String, true), true, &KEY, 2).unwrap();
    let (invalid, version) = store
        .label_parameter_version(&LabelParameterVersionRequest {
            name: "app".to_owned(),
            labels: vec!["prod".to_owned(), "1bad".to_owned()],
            parameter_version: Some(1),
        })
        .unwrap();
    assert_eq!(version, 1);
    assert_eq!(invalid, vec!["1bad".to_owned()]);
    let p = get(&store, "app:prod", false).unwrap();
    assert_eq!(p.value, "v1");
    assert_eq!(p.selector, Some(":prod".to_owned()));
    let (invalid, removed) = store
        .unlabel_parameter_version(&UnlabelParameterVersionRequest {
            name: "app".to_owned(),
            labels: vec!["prod".to_owned(), "none".to_owned()],
            parameter_version: 1,
        })
        .unwrap();
    assert_eq!(removed, vec!["prod".to_owned()]);
    assert_eq!(invalid, vec!["none".to_owned()]);
    assert_eq!(get(&store, "app:prod", false).unwrap_err().code, ErrorCode::ParameterNotFound);
}

#[test]
fn label_errors() {
    let mut store = ParamStore::new();
    let req = LabelParameterVersionRequest { name: "nope".to_owned(), labels: vec!["x".to_owned()], parameter_version: None };
    assert_eq!(store.label_parameter_version(&req).unwrap_err().code, ErrorCode::ParameterNotFound);
    store.put_parameter(&put("p", "v", ParameterType::String, false), true, &KEY, 1).unwrap();
    let req = LabelParameterVersionRequest { name: "p".to_owned(), labels: vec!["x".to_owned()], parameter_version: Some(9) };
    assert_eq!(store.label_parameter_version(&req).unwrap_err().code, ErrorCode::ParameterVersionNotFound);
    let req = LabelParameterVersionRequest { name: "p".to_owned(), labels: vec![], parameter_version: None };
    assert_eq!(store.label_parameter_version(&req).unwrap_err().code, ErrorCode::InvalidParameter);
    let many: Vec<String> = (0..10).map(|i| format!("l{i}")).collect();
    let req = LabelParameterVersionRequest { name: "p".to_owned(), labels: many, parameter_version: None };
    store.label_parameter_version(&req).unwrap();
    let req = LabelParameterVersionRequest { name: "p".to_owned(), labels: vec!["eleventh".to_owned()], parameter_version: None };
    let err = store.label_parameter_version(&req).unwrap_err();
    assert_eq!(err.code, ErrorCode::ParameterVersionLabelLimitExceeded);
    assert_eq!(err.message, "A parameter version can have at most 10 labels.");
}

#[test]
fn delete_then_get_is_not_found() {
    let mut store = ParamStore::new();
    let mut req = put("gone", "v", ParameterType::String, false);
    req.tags = Some(vec![Tag { key: "team".to_owned(), value: "a".to_owned() }]);
    store.put_parameter(&req, true, &KEY, 1).unwrap();
    store
        .label_parameter_version(&LabelParameterVersionRequest {
            name: "gone".to_owned(),
            labels: vec!["prod".to_owned()],
            parameter_version: None,
        })
        .unwrap();
    store.delete_parameter("gone").unwrap();
    assert_eq!(get(&store, "gone", false).unwrap_err().code, ErrorCode::ParameterNotFound);
    assert_eq!(get(&store, "gone:1", false).unwrap_err().code, ErrorCode::ParameterNotFound);
    assert_eq!(get(&store, "gone:prod", false).unwrap_err().code, ErrorCode::ParameterNotFound);
    assert!(store.tags.is_empty());
    assert!(store.param_tags.is_empty());
    assert_eq!(store.delete_parameter("gone").unwrap_err().code, ErrorCode::ParameterNotFound);
    assert_eq!(store.delete_parameter("").unwrap_err().code, ErrorCode::InvalidParameter);
}

#[test]
fn delete_parameters_reports_deleted_and_invalid() {
    let mut store = ParamStore::new();
    store.put_parameter(&put("b", "1", ParameterType::String, false), true, &KEY, 1).unwrap();
    store.put_parameter(&put("a", "1", ParameterType::String, false), true, &KEY, 1).unwrap();
    let (deleted, invalid) = store
        .delete_parameters(&vec!["b".to_owned(), "zz".to_owned(), "a".to_owned(), "b".to_owned()])
        .unwrap();
    assert_eq!(deleted, vec!["a".to_owned(), "b".to_owned()]);
    assert_eq!(invalid, vec!["b".to_owned(), "zz".to_owned()]);
    assert_eq!(store.delete_parameters(&vec![]).unwrap_err().code, ErrorCode::InvalidParameter);
}

#[test]
fn get_parameters_sorts_found_and_invalid() {
    let mut store = ParamStore::new();
    store.put_parameter(&put("z", "1", ParameterType::String, false), true, &KEY, 1).unwrap();
    store.put_parameter(&put("m", "2", ParameterType::String, false), true, &KEY, 1).unwrap();
    let req = GetParametersRequest {
        names: vec!["z".to_owned(), "q".to_owned(), "m".to_owned(), "bad name".to_owned()],
        with_decryption: false,
    };
    let (found, invalid) = store.get_parameters(&req, &KEY).unwrap();
    let names: Vec<&str> = found.iter().map(|p| p.name.as_str()).collect();
    assert_eq!(names, vec!["m", "z"]);
    assert_eq!(invalid, vec!["bad name".to_owned(), "q".to_owned()]);
    let empty = GetParametersRequest { names: vec![], with_decryption: false };
    let err = store.get_parameters(&empty, &KEY).unwrap_err();
    assert_eq!(err.message, "Invalid number of parameter names.");
}

#[test]
fn history_pages_through_versions() {
    let mut store = ParamStore::new();
    for i in 0..3 {
        store.put_parameter(&put("h", &format!("v{i}"), ParameterType::String, true), true, &KEY, i).unwrap();
    }
    let req = GetParameterHistoryRequest { name: "h".to_owned(), max_results: Some(2), next_token: None, with_decryption: false };
    let (page, token) = store.get_parameter_history(&req, &KEY).unwrap();
    let versions: Vec<i64> = page.iter().map(|h| h.version).collect();
    assert_eq!(versions, vec![1, 2]);
    assert_eq!(token, Some("2".to_owned()));
    let req = GetParameterHistoryRequest { name: "h".to_owned(), max_results: Some(2), next_token: token, with_decryption: false };
    let (page, token) = store.get_parameter_history(&req, &KEY).unwrap();
    assert_eq!(page.len(), 1);
    assert_eq!(page[0].value, "v2");
    assert_eq!(page[0].tier, "Standard");
    assert_eq!(token, None);
    let req = GetParameterHistoryRequest { name: "h".to_owned(), max_results: None, next_token: Some("x".to_owned()), with_decryption: false };
    assert_eq!(store.get_parameter_history(&req, &KEY).unwrap_err().code, ErrorCode::InvalidNextToken);
    let req = GetParameterHistoryRequest { name: "none".to_owned(), max_results: None, next_token: None, with_decryption: false };
    assert_eq!(store.get_parameter_history(&req, &KEY).unwrap_err().code, ErrorCode::ParameterNotFound);
}

#[test]
fn get_parameters_looks_names_up_exactly() {
    let mut store = ParamStore::new();
    store.put_parameter(&put("brick/layer", "secret", ParameterType::SecureString, true), true, &KEY, 1).unwrap();
    let req = GetParametersRequest { names: vec!["brick".to_owned(), "brick/".to_owned()], with_decryption: true };
    let (found, invalid) = store.get_parameters(&req, &KEY).unwrap();
    assert!(found.is_empty());
    assert_eq!(invalid, vec!["brick".to_owned(), "brick/".to_owned()]);
    let req = GetParametersRequest { names: vec!["brick/layer".to_owned()], with_decryption: true };
    let (found, _) = store.get_parameters(&req, &KEY).unwrap();
    assert_eq!(found[0].value, "secret");
}

#[test]
fn a_version_outlives_later_puts() {
    let mut store = ParamStore::new();
    store.put_parameter(&put("k", "first", ParameterType::SecureString, true), true, &KEY, 1).unwrap();
    store.put_parameter(&put("k", "second", ParameterType::SecureString, true), true, &KEY, 2).unwrap();
    store.put_parameter(&put("other", "x", ParameterType::String, true), true, &KEY, 3).unwrap();
    assert_eq!(get(&store, "k:1", true).unwrap().value, "first");
    assert_eq!(get(&store, "k:2", true).unwrap().value, "second");
    assert_eq!(get(&store, "k", true).unwrap().version, 2);
    assert_eq!(get(&store, "k:3", true).unwrap_err().code, ErrorCode::ParameterNotFound);
}

#[test]
fn a_label_moves_between_versions() {
    let mut store = ParamStore::new();
    store.put_parameter(&put("m", "one", ParameterType::String, true), true, &KEY, 1).unwrap();
    store.put_parameter(&put("m", "two", ParameterType::String, true), true, &KEY, 2).unwrap();
    for v in [1, 2] {
        store
            .label_parameter_version(&LabelParameterVersionRequest {
                name: "m".to_owned(),
                labels: vec!["prod".to_owned(), "prod".to_owned()],
                parameter_version: Some(v),
            })
            .unwrap();
    }
    let rows: Vec<_> = store.labels.iter().filter(|l| l.param_key == "m" && l.label == "prod").collect();
    assert_eq!(rows.len(), 1);
    assert_eq!(rows[0].version, 2);
    assert_eq!(get(&store, "m:prod", false).unwrap().value, "two");
    assert_eq!(store.labels_for_version("m", 1), Vec::<String>::new());
    assert_eq!(store.labels_for_version("m", 2), vec!["prod".to_owned()]);
}

#[test]
fn full_version_counter_refuses_put() {
    let mut store = ParamStore::new();
    store.put_parameter(&put("a", "1", ParameterType::String, false), true, &KEY, 1).unwrap();
    store.params[0].version = i64::MAX;
    let err = store.put_parameter(&put("a", "2", ParameterType::String, false), true, &KEY, 2).unwrap_err();
    assert_eq!(err.code, ErrorCode::ParameterAlreadyExists);
    let err = store.put_parameter(&put("a", "2", ParameterType::String, true), true, &KEY, 2).unwrap_err();
    assert_eq!(err.code, ErrorCode::InternalServiceError);
    assert_eq!(store.versions.len(), 1);
}

fn tag_pairs_of(store: &ParamStore, name: &str) -> Vec<(String, String)> {
    let mut out = Vec::new();
    for link in store.param_tags.iter().filter(|l| l.param_key == name) {
        let row = store.tags.iter().rev().find(|t| t.id == link.tag_id).unwrap();
        out.push((row.key.clone(), row.value.clone()));
    }
    out.sort();
    out
}

fn tag(k: &str, v: &str) -> Tag {
    Tag { key: k.to_owned(), value: v.to_owned() }
}

#[test]
fn replacing_tags_sets_exactly_the_given_pairs() {
    let mut store = ParamStore::new();
    store.replace_tags("a", &[tag("team", "red"), tag("env", "dev")]);
    store.replace_tags("b", &[tag("team", "red")]);
    store.replace_tags("a", &[tag("env", "prod")]);
    assert_eq!(tag_pairs_of(&store, "a"), vec![("env".to_owned(), "prod".to_owned())]);
    assert_eq!(tag_pairs_of(&store, "b"), vec![("team".to_owned(), "red".to_owned())]);
    let mut req = put("c", "1", ParameterType::String, false);
    req.tags = Some(vec![tag("k", "v"), tag("k2", "v2")]);
    store.put_parameter(&req, true, &KEY, 1).unwrap();
    assert_eq!(tag_pairs_of(&store, "c"), vec![("k".to_owned(), "v".to_owned()), ("k2".to_owned(), "v2".to_owned())]);
    assert_eq!(tag_pairs_of(&store, "b"), vec![("team".to_owned(), "red".to_owned())]);
}

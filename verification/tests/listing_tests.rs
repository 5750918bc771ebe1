use vout::api::PutParameterRequest;
use vout::error::ErrorCode;
use vout::labels::LabelParameterVersionRequest;
use vout::listing::{DescribeParametersRequest, GetParametersByPathRequest};
use vout::model::{ParameterStringFilter, ParameterType, Tag};
use vout::store::ParamStore;

const KEY: [u8; 32] = [3u8; 32];

fn put(store: &mut ParamStore, name: &str, t: ParameterType, tags: Option<Vec<Tag>>) {
    let req = PutParameterRequest {
        name: name.to_owned(),
        value: format!("value of {name}"),
        allowed_pattern: None,
        data_type: None,
        description: Some("d".to_owned()),
        overwrite: true,
        tags,
        param_type: t,
        key_id: false,
        policies: false,
        tier: false,
    };
    store.put_parameter(&req, true, &KEY, 42).unwrap();
}

fn sample() -> ParamStore {
    let mut store = ParamStore::new();
    put(&mut store, "brick/layer", ParameterType::String, Some(vec![Tag { key: "team".to_owned(), value: "red".to_owned() }]));
    put(&mut store, "brick/layer/deep", ParameterType::SecureString, None);
    put(&mut store, "brick/alpha", ParameterType::StringList, Some(vec![Tag { key: "team".to_owned(), value: "blue".to_owned() }]));
    put(&mut store, "other", ParameterType::String, None);
    store
}

fn by_path(path: &str, recursive: bool, filters: Option<Vec<ParameterStringFilter>>) -> GetParametersByPathRequest {
    GetParametersByPathRequest {
        path: path.to_owned(),
        max_results: None,
        next_token: None,
        parameter_filters: filters,
        recursive,
        with_decryption: true,
    }
}

fn filter(key: &str, option: Option<&str>, values: Vec<&str>) -> ParameterStringFilter {
    ParameterStringFilter {
        key: key.to_owned(),
        option: option.map(|o| o.to_owned()),
        values: Some(values.into_iter().map(|v| v.to_owned()).collect()),
    }
}

fn names<T>(items: &[T], name: impl Fn(&T) -> &str) -> Vec<String> {
    items.iter().map(|i| name(i).to_owned()).collect()
}

#[test]
fn by_path_one_level_and_recursive() {
    let store = sample();
    let (ps, token) = store.get_parameters_by_path(&by_path("brick", false, None), &KEY).unwrap();
    assert_eq!(names(&ps, |p| p.name.as_str()), vec!["brick/alpha", "brick/layer"]);
    assert_eq!(token, None);
    let (ps, _) = store.get_parameters_by_path(&by_path("brick/", true, None), &KEY).unwrap();
    assert_eq!(names(&ps, |p| p.name.as_str()), vec!["brick/alpha", "brick/layer", "brick/layer/deep"]);
    assert_eq!(ps[2].value, "value of brick/layer/deep");
}

#[test]
fn by_path_filters() {
    let store = sample();
    let f = vec![filter("Type", Some("BeginsWith"), vec!["String"])];
    let (ps, _) = store.get_parameters_by_path(&by_path("brick", true, Some(f)), &KEY).unwrap();
    assert_eq!(names(&ps, |p| p.name.as_str()), vec!["brick/alpha", "brick/layer"]);
    let f = vec![filter("KeyId", None, vec![])];
    let (ps, _) = store.get_parameters_by_path(&by_path("brick", true, Some(f)), &KEY).unwrap();
    assert!(ps.is_empty());
    let f = vec![filter("Name", None, vec![])];
    let err = store.get_parameters_by_path(&by_path("brick", true, Some(f)), &KEY).unwrap_err();
    assert_eq!(err.code, ErrorCode::InvalidFilterKey);
    assert_eq!(err.message, "The filter key is invalid.");
    let f = vec![filter("Type", Some("Contains"), vec!["x"])];
    let err = store.get_parameters_by_path(&by_path("brick", true, Some(f)), &KEY).unwrap_err();
    assert_eq!(err.code, ErrorCode::InvalidFilterOption);
}

#[test]
fn by_path_label_filter() {
    let mut store = sample();
    store
        .label_parameter_version(&LabelParameterVersionRequest {
            name: "brick/alpha".to_owned(),
            labels: vec!["prod".to_owned()],
            parameter_version: None,
        })
        .unwrap();
    let f = vec![filter("Label", None, vec!["prod"])];
    let (ps, _) = store.get_parameters_by_path(&by_path("brick", true, Some(f)), &KEY).unwrap();
    assert_eq!(names(&ps, |p| p.name.as_str()), vec!["brick/alpha"]);
}

#[test]
fn by_path_pages_of_ten() {
    let mut store = ParamStore::new();
    for i in 0..12 {
        put(&mut store, &format!("p/{i:02}"), ParameterType::String, None);
    }
    let (ps, token) = store.get_parameters_by_path(&by_path("p", false, None), &KEY).unwrap();
    assert_eq!(ps.len(), 10);
    assert_eq!(token, Some("10".to_owned()));
    let mut req = by_path("p", false, None);
    req.next_token = token;
    let (ps, token) = store.get_parameters_by_path(&req, &KEY).unwrap();
    assert_eq!(names(&ps, |p| p.name.as_str()), vec!["p/10", "p/11"]);
    assert_eq!(token, None);
    req.next_token = Some("13".to_owned());
    assert_eq!(store.get_parameters_by_path(&req, &KEY).unwrap_err().code, ErrorCode::InvalidNextToken);
}

#[test]
fn by_path_refuses_bad_paths_and_filters() {
    let store = sample();
    let err = store.get_parameters_by_path(&by_path("", false, None), &KEY).unwrap_err();
    assert_eq!(err.code, ErrorCode::InvalidParameter);
    let f: Vec<ParameterStringFilter> = (0..11).map(|_| filter("Type", None, vec![])).collect();
    let err = store.get_parameters_by_path(&by_path("brick", false, Some(f)), &KEY).unwrap_err();
    assert_eq!(err.code, ErrorCode::InvalidFilterValue);
}

fn describe(filters: Option<Vec<ParameterStringFilter>>) -> DescribeParametersRequest {
    DescribeParametersRequest { max_results: None, next_token: None, parameter_filters: filters, filters: false, shared: false }
}

#[test]
fn describe_lists_metadata_in_name_order() {
    let store = sample();
    let (ms, token) = store.describe_parameters(&describe(None), true).unwrap();
    assert_eq!(names(&ms, |m| m.name.as_str()), vec!["brick/alpha", "brick/layer", "brick/layer/deep", "other"]);
    assert_eq!(token, None);
    assert_eq!(ms[0].tier, "Standard");
    assert_eq!(ms[0].data_type, "text");
    assert_eq!(ms[0].param_type, "StringList");
    assert_eq!(ms[0].description, Some("d".to_owned()));
    assert_eq!(ms[0].arn, "arn:aws:ssm:local:000000000000:parameter/brick/alpha");
}

#[test]
fn describe_filters() {
    let store = sample();
    let (ms, _) = store.describe_parameters(&describe(Some(vec![filter("Name", Some("Contains"), vec!["layer"])])), true).unwrap();
    assert_eq!(names(&ms, |m| m.name.as_str()), vec!["brick/layer", "brick/layer/deep"]);
    let (ms, _) = store.describe_parameters(&describe(Some(vec![filter("Path", Some("OneLevel"), vec!["brick"])])), true).unwrap();
    assert_eq!(names(&ms, |m| m.name.as_str()), vec!["brick/alpha", "brick/layer"]);
    let (ms, _) = store.describe_parameters(&describe(Some(vec![filter("tag:team", None, vec!["blue"])])), true).unwrap();
    assert_eq!(names(&ms, |m| m.name.as_str()), vec!["brick/alpha"]);
    let (ms, _) = store.describe_parameters(&describe(Some(vec![filter("tag:tag:team", None, vec![])])), true).unwrap();
    assert_eq!(names(&ms, |m| m.name.as_str()), vec!["brick/alpha", "brick/layer"]);
    let (ms, _) = store.describe_parameters(&describe(Some(vec![filter("Tier", None, vec!["Standard"])])), true).unwrap();
    assert_eq!(ms.len(), 4);
    let (ms, _) = store.describe_parameters(&describe(Some(vec![filter("Type", None, vec!["SecureString"])])), true).unwrap();
    assert_eq!(names(&ms, |m| m.name.as_str()), vec!["brick/layer/deep"]);
}

#[test]
fn describe_filter_errors() {
    let store = sample();
    let err = store.describe_parameters(&describe(Some(vec![filter("Path", None, vec!["brick"])])), true).unwrap_err();
    assert_eq!(err.code, ErrorCode::InvalidFilterOption);
    assert_eq!(err.message, "The filter option is invalid.");
    let err = store.describe_parameters(&describe(Some(vec![filter("Path", Some("Recursive"), vec![])])), true).unwrap_err();
    assert_eq!(err.code, ErrorCode::InvalidFilterValue);
    assert_eq!(err.message, "The filter value is invalid.");
    let err = store.describe_parameters(&describe(Some(vec![filter("Color", None, vec![])])), true).unwrap_err();
    assert_eq!(err.code, ErrorCode::InvalidFilterKey);
    let err = store.describe_parameters(&describe(Some(vec![filter("", None, vec![])])), true).unwrap_err();
    assert_eq!(err.code, ErrorCode::InvalidFilterKey);
}

#[test]
fn describe_refuses_unsupported_fields() {
    let store = sample();
    let mut req = describe(None);
    req.shared = true;
    let err = store.describe_parameters(&req, true).unwrap_err();
    assert_eq!(
        err.message,
        "Unsupported request field 'Shared'. If you need it, please use the official AWS Secrets Manager API instead."
    );
    assert_eq!(store.describe_parameters(&req, false).unwrap().0.len(), 4);
}

use vstd::prelude::*;
use vstd::utf8::encode_utf8;
use crate::error::{ApiError, ErrorCode, invalid_filter_key, invalid_filter_value, invalid_parameter};
use crate::model::{ParameterStringFilter, Tag};
use crate::text::{chars_of, chars_occur_at, contains, contains_whitespace, has_char, has_whitespace, spec_contains, spec_starts_with, starts_with, str_eq, views};

verus! {

/// The length in bytes of the UTF-8 encoding of `s` (what `str::len` gives).
pub open spec fn byte_len(s: Seq<char>) -> nat {
    encode_utf8(s).len()
}

/// Whether `res` is the answer `expected` describes: nothing, or an error
/// with that code and message.
pub open spec fn answers(res: Option<ApiError>, expected: Option<(ErrorCode, Seq<char>)>) -> bool {
    match expected {
        None => res.is_none(),
        Some((code, message)) => res.is_some() && res.unwrap().is(code, message),
    }
}

/// The length in bytes of the UTF-8 encoding of `s`.
pub fn byte_length(s: &str) -> (res: usize)
    ensures
        res == byte_len(s@),
{
    s.as_bytes().len()
}

/// The most parameter names that one `GetParameters` request may hold.
pub open spec fn spec_max_get_parameters_names() -> nat {
    10
}

/// The most parameter names that one `DeleteParameters` request may hold.
pub open spec fn spec_max_delete_parameters_names() -> nat {
    10
}

/// The most labels that one version may carry.
pub open spec fn spec_label_limit() -> nat {
    10
}

/// The most parameter names that one `GetParameters` request may hold.
pub fn max_get_parameters_names() -> (res: usize)
    ensures
        res == spec_max_get_parameters_names(),
{
    10
}

/// The most parameter names that one `DeleteParameters` request may hold.
pub fn max_delete_parameters_names() -> (res: usize)
    ensures
        res == spec_max_delete_parameters_names(),
{
    10
}

/// The most labels that one version may carry.
pub fn label_limit() -> (res: usize)
    ensures
        res == spec_label_limit(),
{
    10
}

/// Whether `c` is an ASCII letter or digit.
pub open spec fn is_ascii_alnum(c: char) -> bool {
    ('0' <= c && c <= '9') || ('a' <= c && c <= 'z') || ('A' <= c && c <= 'Z')
}

/// Whether `c` may stand in a label.
pub open spec fn is_label_char(c: char) -> bool {
    is_ascii_alnum(c) || c == '_' || c == '-' || c == '.'
}

/// A label is 1 to 100 bytes of letters, digits, `_`, `-` and `.`, and
/// does not begin with a digit.
pub open spec fn spec_valid_label(label: Seq<char>) -> bool {
    &&& label.len() > 0
    &&& byte_len(label) <= 100
    &&& !('0' <= label[0] && label[0] <= '9')
    &&& forall|i: int| 0 <= i < label.len() ==> is_label_char(#[trigger] label[i])
}

/// Whether `label` is a valid label.
pub fn valid_label(label: &str) -> (res: bool)
    ensures
        res == spec_valid_label(label@),
{
    if label.is_empty() || byte_length(label) > 100 {
        return false;
    }
    let chars = chars_of(label);
    if '0' <= chars[0] && chars[0] <= '9' {
        return false;
    }
    let mut i: usize = 0;
    while i < chars.len()
        invariant
            chars@ == label@,
            forall|j: int| 0 <= j < i ==> is_label_char(#[trigger] chars@[j]),
        decreases chars.len() - i,
    {
        let c = chars[i];
        if !(('0' <= c && c <= '9') || ('a' <= c && c <= 'z') || ('A' <= c && c <= 'Z') || c == '_'
            || c == '-' || c == '.') {
            return false;
        }
        i = i + 1;
    }
    true
}

/// A parameter name is 1 to 2048 bytes without whitespace.
pub open spec fn spec_valid_name(name: Seq<char>) -> bool {
    name.len() > 0 && byte_len(name) <= 2048 && !has_whitespace(name)
}

/// The message that refuses a parameter name.
pub open spec fn msg_invalid_name() -> Seq<char> {
    "Parameter name is invalid."@
}

/// The error a parameter name is refused with, if any.
pub open spec fn name_error(name: Seq<char>) -> Option<(ErrorCode, Seq<char>)> {
    if spec_valid_name(name) {
        None
    } else {
        Some((ErrorCode::InvalidParameter, msg_invalid_name()))
    }
}

/// Refuses an invalid parameter name.
pub fn validate_parameter_name(name: &str) -> (res: Option<ApiError>)
    ensures
        answers(res, name_error(name@)),
{
    if name.is_empty() || byte_length(name) > 2048 || contains_whitespace(name) {
        return Some(invalid_parameter("Parameter name is invalid."));
    }
    None
}

/// The error a list of parameter names is refused with, if any.
pub open spec fn names_error(names: Seq<Seq<char>>, max: nat) -> Option<(ErrorCode, Seq<char>)> {
    if names.len() == 0 || names.len() > max {
        Some((ErrorCode::InvalidParameter, "Invalid number of parameter names."@))
    } else if exists|i: int| 0 <= i < names.len() && !spec_valid_name(#[trigger] names[i]) {
        Some((ErrorCode::InvalidParameter, msg_invalid_name()))
    } else {
        None
    }
}

/// Refuses a list of parameter names that is empty, longer than `max`, or
/// holds an invalid name.
pub fn validate_parameter_names(names: &[String], max: usize) -> (res: Option<ApiError>)
    ensures
        answers(res, names_error(views(names@), max as nat)),
{
    if names.len() == 0 || names.len() > max {
        return Some(invalid_parameter("Invalid number of parameter names."));
    }
    let mut i: usize = 0;
    while i < names.len()
        invariant
            0 < names.len() <= max,
            forall|j: int| 0 <= j < i ==> spec_valid_name(#[trigger] views(names@)[j]),
        decreases names.len() - i,
    {
        assert(views(names@)[i as int] == names@[i as int]@);
        if let Some(e) = validate_parameter_name(names[i].as_str()) {
            assert(!spec_valid_name(views(names@)[i as int]));
            return Some(e);
        }
        i = i + 1;
    }
    None
}

/// The error a list of tags is refused with, if any.
pub open spec fn tags_error(tags: Seq<Tag>) -> Option<(ErrorCode, Seq<char>)> {
    if tags.len() > 50 {
        Some((ErrorCode::InvalidParameter, "Too many tags."@))
    } else if exists|i: int| 0 <= i < tags.len() && !valid_tag(#[trigger] tags[i]) {
        Some((ErrorCode::InvalidParameter, "Tag key or value is invalid."@))
    } else {
        None
    }
}

/// A tag has a key of 1 to 128 bytes and a value of at most 256 bytes.
pub open spec fn valid_tag(tag: Tag) -> bool {
    tag.key@.len() > 0 && byte_len(tag.key@) <= 128 && byte_len(tag.value@) <= 256
}

/// Refuses more than 50 tags, or a tag with an empty or long key or a long value.
pub fn validate_tags(tags: &[Tag]) -> (res: Option<ApiError>)
    ensures
        answers(res, tags_error(tags@)),
{
    if tags.len() > 50 {
        return Some(invalid_parameter("Too many tags."));
    }
    let mut i: usize = 0;
    while i < tags.len()
        invariant
            tags.len() <= 50,
            forall|j: int| 0 <= j < i ==> valid_tag(#[trigger] tags@[j]),
        decreases tags.len() - i,
    {
        let tag = &tags[i];
        if tag.key.as_str().is_empty() || byte_length(tag.key.as_str()) > 128
            || byte_length(tag.value.as_str()) > 256 {
            assert(!valid_tag(tags@[i as int]));
            return Some(invalid_parameter("Tag key or value is invalid."));
        }
        i = i + 1;
    }
    None
}

/// The error a put request is refused with before it reaches the store.
pub open spec fn put_request_error(
    name: Seq<char>,
    value: Seq<char>,
    description: Option<Seq<char>>,
    allowed_pattern: Option<Seq<char>>,
    tags: Seq<Tag>,
) -> Option<(ErrorCode, Seq<char>)> {
    if !spec_valid_name(name) {
        name_error(name)
    } else if byte_len(value) > 8192 {
        Some((ErrorCode::InvalidParameter, "Parameter value is too long."@))
    } else if description.is_some() && byte_len(description.unwrap()) > 1024 {
        Some((ErrorCode::InvalidParameter, "Parameter description is too long."@))
    } else if allowed_pattern.is_some() && byte_len(allowed_pattern.unwrap()) > 1024 {
        Some((ErrorCode::InvalidParameter, "AllowedPattern is too long."@))
    } else {
        tags_error(tags)
    }
}

/// The text of an optional string.
pub open spec fn opt_view(s: Option<&str>) -> Option<Seq<char>> {
    match s {
        Some(v) => Some(v@),
        None => None,
    }
}

/// Refuses a put request whose name, value, description, allowed pattern
/// or tags are not acceptable.
pub fn validate_put_request(
    name: &str,
    value: &str,
    description: Option<&str>,
    allowed_pattern: Option<&str>,
    tags: Option<&[Tag]>,
) -> (res: Option<ApiError>)
    ensures
        answers(
            res,
            put_request_error(
                name@,
                value@,
                opt_view(description),
                opt_view(allowed_pattern),
                match tags {
                    Some(t) => t@,
                    None => Seq::empty(),
                },
            ),
        ),
{
    if let Some(err) = validate_parameter_name(name) {
        return Some(err);
    }
    if byte_length(value) > 8192 {
        return Some(invalid_parameter("Parameter value is too long."));
    }
    if let Some(d) = description {
        if byte_length(d) > 1024 {
            return Some(invalid_parameter("Parameter description is too long."));
        }
    }
    if let Some(p) = allowed_pattern {
        if byte_length(p) > 1024 {
            return Some(invalid_parameter("AllowedPattern is too long."));
        }
    }
    match tags {
        Some(t) => validate_tags(t),
        None => {
            let empty: Vec<Tag> = Vec::new();
            let r = validate_tags(empty.as_slice());
            assert(empty@ =~= Seq::<Tag>::empty());
            r
        },
    }
}

/// The error a list of labels is refused with, if any.
pub open spec fn labels_error(labels: Seq<String>) -> Option<(ErrorCode, Seq<char>)> {
    if labels.len() == 0 || labels.len() > spec_label_limit() {
        Some((ErrorCode::InvalidParameter, "Invalid number of labels."@))
    } else {
        None
    }
}

/// Refuses an empty list of labels or one longer than the label limit.
pub fn validate_labels(labels: &[String]) -> (res: Option<ApiError>)
    ensures
        answers(res, labels_error(labels@)),
{
    if labels.len() == 0 || labels.len() > 10 {
        return Some(invalid_parameter("Invalid number of labels."));
    }
    None
}

/// The error one filter is refused with, if any.
pub open spec fn filter_error(f: ParameterStringFilter) -> Option<ErrorCode> {
    if f.key@.len() == 0 {
        Some(ErrorCode::InvalidFilterKey)
    } else if f.values.is_some() && f.values.unwrap()@.len() > 50 {
        Some(ErrorCode::InvalidFilterValue)
    } else {
        None
    }
}

/// The error of the first refused filter of `fs`, if any.
pub open spec fn first_filter_error(fs: Seq<ParameterStringFilter>) -> Option<ErrorCode>
    decreases fs.len(),
{
    if fs.len() == 0 {
        None
    } else {
        match filter_error(fs[0]) {
            Some(c) => Some(c),
            None => first_filter_error(fs.drop_first()),
        }
    }
}

/// The message of a filter error.
pub open spec fn filter_message(code: ErrorCode) -> Seq<char> {
    if code == ErrorCode::InvalidFilterKey {
        "The filter key is invalid."@
    } else if code == ErrorCode::InvalidFilterOption {
        "The filter option is invalid."@
    } else {
        "The filter value is invalid."@
    }
}

/// The error a list of filters is refused with, if any.
pub open spec fn filters_error(filters: Option<Seq<ParameterStringFilter>>) -> Option<(ErrorCode, Seq<char>)> {
    match filters {
        None => None,
        Some(fs) => if fs.len() > 10 {
            Some((ErrorCode::InvalidFilterValue, filter_message(ErrorCode::InvalidFilterValue)))
        } else {
            match first_filter_error(fs) {
                Some(c) => Some((c, filter_message(c))),
                None => None,
            }
        },
    }
}

/// Refuses more than 10 filters, a filter with an empty key, or one with
/// more than 50 values.
pub fn validate_filters(filters: Option<&[ParameterStringFilter]>) -> (res: Option<ApiError>)
    ensures
        answers(
            res,
            filters_error(
                match filters {
                    Some(f) => Some(f@),
                    None => None,
                },
            ),
        ),
{
    let fs = match filters {
        Some(f) => f,
        None => return None,
    };
    if fs.len() > 10 {
        return Some(invalid_filter_value());
    }
    let mut i: usize = 0;
    assert(fs@.skip(0) =~= fs@);
    while i < fs.len()
        invariant
            i <= fs.len() <= 10,
            filters == Some(fs),
            first_filter_error(fs@) == first_filter_error(fs@.skip(i as int)),
        decreases fs.len() - i,
    {
        assert(fs@.skip(i as int)[0] == fs@[i as int]);
        assert(fs@.skip(i as int).drop_first() =~= fs@.skip(i + 1));
        let f = &fs[i];
        if f.key.as_str().is_empty() {
            assert(filter_error(fs@[i as int]) == Some(ErrorCode::InvalidFilterKey));
            assert(first_filter_error(fs@.skip(i as int)) == Some(ErrorCode::InvalidFilterKey));
            return Some(invalid_filter_key());
        }
        if let Some(values) = &f.values {
            if values.len() > 50 {
                assert(filter_error(fs@[i as int]) == Some(ErrorCode::InvalidFilterValue));
                assert(first_filter_error(fs@.skip(i as int)) == Some(
                    ErrorCode::InvalidFilterValue,
                ));
                return Some(invalid_filter_value());
            }
        }
        assert(filter_error(fs@[i as int]) is None);
        i = i + 1;
    }
    assert(fs@.skip(i as int) =~= Seq::<ParameterStringFilter>::empty());
    None
}

/// The prefix that names below `path` start with.
pub open spec fn path_prefix(path: Seq<char>) -> Seq<char> {
    if path.len() > 0 && path.last() == '/' {
        path
    } else {
        path.push('/')
    }
}

/// Whether parameter `name` lies below `path`: directly, or at any depth
/// when `recursive`.
pub open spec fn spec_path_matches(name: Seq<char>, path: Seq<char>, recursive: bool) -> bool {
    let prefix = path_prefix(path);
    spec_starts_with(name, prefix) && (recursive || !has_char(name.skip(prefix.len() as int), '/'))
}

/// Whether parameter `name` lies below `path`: directly, or at any depth
/// when `recursive`.
pub fn path_matches(name: &str, path: &str, recursive: bool) -> (res: bool)
    ensures
        res == spec_path_matches(name@, path@, recursive),
{
    let mut prefix = chars_of(path);
    if !(prefix.len() > 0 && prefix[prefix.len() - 1] == '/') {
        prefix.push('/');
    }
    assert(prefix@ == path_prefix(path@));
    let name_chars = chars_of(name);
    if prefix.len() > name_chars.len() || !chars_occur_at(&name_chars, &prefix, 0) {
        proof {
            if prefix@.len() <= name@.len() {
                assert(name@.subrange(0, prefix@.len() as int) =~= name@.take(prefix@.len() as int));
            }
        }
        return false;
    }
    assert(name@.subrange(0, prefix@.len() as int) =~= name@.take(prefix@.len() as int));
    if recursive {
        return true;
    }
    let mut i: usize = prefix.len();
    while i < name_chars.len()
        invariant
            prefix@.len() <= i <= name_chars.len(),
            name_chars@ == name@,
            prefix@ == path_prefix(path@),
            spec_starts_with(name@, prefix@),
            !recursive,
            forall|j: int| prefix@.len() <= j < i ==> name_chars@[j] != '/',
        decreases name_chars.len() - i,
    {
        if name_chars[i] == '/' {
            let ghost rest = name@.skip(prefix@.len() as int);
            assert(rest[i - prefix@.len()] == '/');
            assert(has_char(rest, '/'));
            return false;
        }
        i = i + 1;
    }
    assert forall|k: int| 0 <= k < name@.skip(prefix@.len() as int).len() implies name@.skip(
        prefix@.len() as int,
    )[k] != '/' by {
        assert(name@.skip(prefix@.len() as int)[k] == name_chars@[k + prefix@.len()]);
    }
    true
}

/// Whether `value` passes a string filter: no values pass everything;
/// otherwise the option `Equals`, `BeginsWith` or `Contains` is tested
/// against each value, and any other option passes nothing.
pub open spec fn spec_string_matches(value: Seq<char>, option: Seq<char>, values: Seq<Seq<char>>) -> bool {
    if values.len() == 0 {
        true
    } else if option == "Equals"@ {
        exists|i: int| 0 <= i < values.len() && value == #[trigger] values[i]
    } else if option == "BeginsWith"@ {
        exists|i: int| 0 <= i < values.len() && spec_starts_with(value, #[trigger] values[i])
    } else if option == "Contains"@ {
        exists|i: int| 0 <= i < values.len() && spec_contains(value, #[trigger] values[i])
    } else {
        false
    }
}

/// Whether `value` passes a string filter with `option` and `values`.
pub fn string_matches(value: &str, option: &str, values: &[String]) -> (res: bool)
    ensures
        res == spec_string_matches(value@, option@, views(values@)),
{
    if values.len() == 0 {
        return true;
    }
    let mode: u8 = if str_eq(option, "Equals") {
        0
    } else if str_eq(option, "BeginsWith") {
        1
    } else if str_eq(option, "Contains") {
        2
    } else {
        return false;
    };
    let mut i: usize = 0;
    while i < values.len()
        invariant
            i <= values.len(),
            mode == 0 ==> option@ == "Equals"@,
            mode == 1 ==> option@ == "BeginsWith"@ && option@ != "Equals"@,
            mode == 2 ==> option@ == "Contains"@ && option@ != "Equals"@ && option@ != "BeginsWith"@,
            mode <= 2,
            forall|j: int| 0 <= j < i ==> !(#[trigger] views(values@)[j] == value@ && mode == 0),
            forall|j: int| 0 <= j < i ==> !(spec_starts_with(value@, #[trigger] views(values@)[j]) && mode == 1),
            forall|j: int| 0 <= j < i ==> !(spec_contains(value@, #[trigger] views(values@)[j]) && mode == 2),
        decreases values.len() - i,
    {
        let expected = values[i].as_str();
        assert(views(values@)[i as int] == expected@);
        let hit = if mode == 0 {
            str_eq(value, expected)
        } else if mode == 1 {
            starts_with(value, expected)
        } else {
            contains(value, expected)
        };
        if hit {
            return true;
        }
        i = i + 1;
    }
    false
}

} // verus!

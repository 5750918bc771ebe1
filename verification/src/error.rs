use vstd::prelude::*;

verus! {

/// The error codes that the API answers with.
#[derive(PartialEq, Eq, Structural, Clone, Copy, Debug)]
pub enum ErrorCode {
    InternalServiceError,
    InvalidNextToken,
    InvalidParameter,
    ResourceExists,
    ResourceNotFound,
    UnknownRoute,
    ParameterNotFound,
    ParameterAlreadyExists,
    ParameterVersionNotFound,
    ParameterVersionLabelLimitExceeded,
    InvalidFilterKey,
    InvalidFilterOption,
    InvalidFilterValue,
    InvalidAllowedPattern,
}

/// The wire name of an error code.
pub open spec fn code_name(code: ErrorCode) -> Seq<char> {
    match code {
        ErrorCode::InternalServiceError => "InternalServiceError"@,
        ErrorCode::InvalidNextToken => "InvalidNextTokenException"@,
        ErrorCode::InvalidParameter => "InvalidParameterException"@,
        ErrorCode::ResourceExists => "ResourceExistsException"@,
        ErrorCode::ResourceNotFound => "ResourceNotFoundException"@,
        ErrorCode::UnknownRoute => "UnknownRoute"@,
        ErrorCode::ParameterNotFound => "ParameterNotFound"@,
        ErrorCode::ParameterAlreadyExists => "ParameterAlreadyExists"@,
        ErrorCode::ParameterVersionNotFound => "ParameterVersionNotFound"@,
        ErrorCode::ParameterVersionLabelLimitExceeded => "ParameterVersionLabelLimitExceeded"@,
        ErrorCode::InvalidFilterKey => "InvalidFilterKey"@,
        ErrorCode::InvalidFilterOption => "InvalidFilterOption"@,
        ErrorCode::InvalidFilterValue => "InvalidFilterValue"@,
        ErrorCode::InvalidAllowedPattern => "InvalidAllowedPatternException"@,
    }
}

impl ErrorCode {
    /// The wire name of this error code.
    pub fn as_str(&self) -> (res: &'static str)
        ensures
            res@ == code_name(*self),
    {
        match self {
            ErrorCode::InternalServiceError => "InternalServiceError",
            ErrorCode::InvalidNextToken => "InvalidNextTokenException",
            ErrorCode::InvalidParameter => "InvalidParameterException",
            ErrorCode::ResourceExists => "ResourceExistsException",
            ErrorCode::ResourceNotFound => "ResourceNotFoundException",
            ErrorCode::UnknownRoute => "UnknownRoute",
            ErrorCode::ParameterNotFound => "ParameterNotFound",
            ErrorCode::ParameterAlreadyExists => "ParameterAlreadyExists",
            ErrorCode::ParameterVersionNotFound => "ParameterVersionNotFound",
            ErrorCode::ParameterVersionLabelLimitExceeded => "ParameterVersionLabelLimitExceeded",
            ErrorCode::InvalidFilterKey => "InvalidFilterKey",
            ErrorCode::InvalidFilterOption => "InvalidFilterOption",
            ErrorCode::InvalidFilterValue => "InvalidFilterValue",
            ErrorCode::InvalidAllowedPattern => "InvalidAllowedPatternException",
        }
    }
}

/// A refused request: the error code and the message that go back to the
/// client with status 400.
#[derive(Debug)]
pub struct ApiError {
    pub code: ErrorCode,
    pub message: String,
}

impl ApiError {
    /// Whether this error has code `code` and message `message`.
    pub open spec fn is(self, code: ErrorCode, message: Seq<char>) -> bool {
        self.code == code && self.message@ == message
    }

    /// The HTTP status that a refused request is answered with.
    pub fn status(&self) -> (res: u16)
        ensures
            res == 400,
    {
        400
    }
}

/// The body of an error answer: the error code and its message.
pub struct ErrorResponse {
    pub error_type: String,
    pub message: String,
}

impl ErrorResponse {
    /// The error answer for `error`.
    pub fn new(error: &ApiError) -> (res: ErrorResponse)
        ensures
            res.error_type@ == code_name(error.code),
            res.message@ == error.message@,
    {
        ErrorResponse { error_type: error.code.as_str().to_owned(), message: error.message.clone() }
    }
}

/// The message of `invalid_parameter` that answers an unreadable body.
pub open spec fn msg_invalid_request_body() -> Seq<char> {
    "Invalid request body."@
}

/// An error with a fixed message.
fn fixed(code: ErrorCode, message: &str) -> (res: ApiError)
    ensures
        res.is(code, message@),
{
    ApiError { code, message: message.to_owned() }
}

/// The answer to a request for a route that does not exist.
pub fn unknown_route() -> (res: ApiError)
    ensures
        res.is(ErrorCode::UnknownRoute, "Unknown route."@),
{
    fixed(ErrorCode::UnknownRoute, "Unknown route.")
}

/// The answer to a request that failed inside the service.
pub fn internal_service_error() -> (res: ApiError)
    ensures
        res.is(ErrorCode::InternalServiceError, "An internal service error occurred."@),
{
    fixed(ErrorCode::InternalServiceError, "An internal service error occurred.")
}

/// The answer to a body that cannot be read as the request.
pub fn invalid_request_body() -> (res: ApiError)
    ensures
        res.is(ErrorCode::InvalidParameter, msg_invalid_request_body()),
{
    fixed(ErrorCode::InvalidParameter, "Invalid request body.")
}

/// The answer to a `NextToken` that names no page.
pub fn invalid_next_token() -> (res: ApiError)
    ensures
        res.is(ErrorCode::InvalidNextToken, "The NextToken value is invalid."@),
{
    fixed(ErrorCode::InvalidNextToken, "The NextToken value is invalid.")
}

/// An invalid-parameter answer with the given message.
pub fn invalid_parameter(message: &str) -> (res: ApiError)
    ensures
        res.is(ErrorCode::InvalidParameter, message@),
{
    fixed(ErrorCode::InvalidParameter, message)
}

/// The message that refuses a request field the service does not support.
pub open spec fn msg_unsupported_param(field: Seq<char>) -> Seq<char> {
    "Unsupported request field '"@ + field
        + "'. If you need it, please use the official AWS Secrets Manager API instead."@
}

/// The answer to a request that sets a field the service does not support.
pub fn unsupported_param(field: &str) -> (res: ApiError)
    ensures
        res.is(ErrorCode::InvalidParameter, msg_unsupported_param(field@)),
{
    let a = crate::text::concat("Unsupported request field '", field);
    let b = crate::text::concat(
        a.as_str(),
        "'. If you need it, please use the official AWS Secrets Manager API instead.",
    );
    ApiError { code: ErrorCode::InvalidParameter, message: b }
}

/// The message that refuses to create something that exists.
pub open spec fn msg_resource_exists(name: Seq<char>) -> Seq<char> {
    "The operation failed because the secret "@ + name + " already exists."@
}

/// The answer to a request that would create something that exists.
pub fn resource_exists(name: &str) -> (res: ApiError)
    ensures
        res.is(ErrorCode::ResourceExists, msg_resource_exists(name@)),
{
    let a = crate::text::concat("The operation failed because the secret ", name);
    let b = crate::text::concat(a.as_str(), " already exists.");
    ApiError { code: ErrorCode::ResourceExists, message: b }
}

/// The answer to a request for something that does not exist.
pub fn resource_not_found() -> (res: ApiError)
    ensures
        res.is(ErrorCode::ResourceNotFound, "Secrets Manager can't find the specified secret."@),
{
    fixed(ErrorCode::ResourceNotFound, "Secrets Manager can't find the specified secret.")
}

/// The answer to a request for a parameter that does not exist.
pub fn parameter_not_found() -> (res: ApiError)
    ensures
        res.is(ErrorCode::ParameterNotFound, "Parameter not found."@),
{
    fixed(ErrorCode::ParameterNotFound, "Parameter not found.")
}

/// The answer to a put without overwrite of a parameter that exists.
pub fn parameter_already_exists() -> (res: ApiError)
    ensures
        res.is(ErrorCode::ParameterAlreadyExists, "The parameter already exists."@),
{
    fixed(ErrorCode::ParameterAlreadyExists, "The parameter already exists.")
}

/// The answer to a request for a version that does not exist.
pub fn parameter_version_not_found() -> (res: ApiError)
    ensures
        res.is(ErrorCode::ParameterVersionNotFound, "Parameter version not found."@),
{
    fixed(ErrorCode::ParameterVersionNotFound, "Parameter version not found.")
}

/// The answer to labelling that would leave a version with too many labels.
pub fn parameter_version_label_limit_exceeded() -> (res: ApiError)
    ensures
        res.is(
            ErrorCode::ParameterVersionLabelLimitExceeded,
            "A parameter version can have at most 10 labels."@,
        ),
{
    fixed(
        ErrorCode::ParameterVersionLabelLimitExceeded,
        "A parameter version can have at most 10 labels.",
    )
}

/// The answer to a filter with an unknown key.
pub fn invalid_filter_key() -> (res: ApiError)
    ensures
        res.is(ErrorCode::InvalidFilterKey, "The filter key is invalid."@),
{
    fixed(ErrorCode::InvalidFilterKey, "The filter key is invalid.")
}

/// The answer to a filter with an option its key does not take.
pub fn invalid_filter_option() -> (res: ApiError)
    ensures
        res.is(ErrorCode::InvalidFilterOption, "The filter option is invalid."@),
{
    fixed(ErrorCode::InvalidFilterOption, "The filter option is invalid.")
}

/// The answer to filters or filter values that are not acceptable.
pub fn invalid_filter_value() -> (res: ApiError)
    ensures
        res.is(ErrorCode::InvalidFilterValue, "The filter value is invalid."@),
{
    fixed(ErrorCode::InvalidFilterValue, "The filter value is invalid.")
}

/// The answer to a value that its allowed pattern refuses, or a pattern
/// that cannot be compiled.
pub fn invalid_allowed_pattern() -> (res: ApiError)
    ensures
        res.is(
            ErrorCode::InvalidAllowedPattern,
            "The parameter value does not match the allowed pattern."@,
        ),
{
    fixed(
        ErrorCode::InvalidAllowedPattern,
        "The parameter value does not match the allowed pattern.",
    )
}

} // verus!

use vstd::prelude::*;
use crate::error::{ApiError, ErrorCode, invalid_parameter};
use crate::text::str_eq;

verus! {

/// Where a request goes: a health probe, one of the parameter-store
/// operations named by its `X-Amz-Target` header, or nowhere.
#[derive(PartialEq, Eq, Structural, Clone, Copy, Debug)]
pub enum Route {
    Health,
    Ready,
    DeleteParameter,
    DeleteParameters,
    DescribeParameters,
    GetParameter,
    GetParameterHistory,
    GetParameters,
    GetParametersByPath,
    LabelParameterVersion,
    PutParameter,
    UnlabelParameterVersion,
    Unknown,
}

/// The operation an `X-Amz-Target` value names, if any.
pub open spec fn target_route(t: Seq<char>) -> Route {
    if t == "AmazonSSM.DeleteParameter"@ {
        Route::DeleteParameter
    } else if t == "AmazonSSM.DeleteParameters"@ {
        Route::DeleteParameters
    } else if t == "AmazonSSM.DescribeParameters"@ {
        Route::DescribeParameters
    } else if t == "AmazonSSM.GetParameter"@ {
        Route::GetParameter
    } else if t == "AmazonSSM.GetParameterHistory"@ {
        Route::GetParameterHistory
    } else if t == "AmazonSSM.GetParameters"@ {
        Route::GetParameters
    } else if t == "AmazonSSM.GetParametersByPath"@ {
        Route::GetParametersByPath
    } else if t == "AmazonSSM.LabelParameterVersion"@ {
        Route::LabelParameterVersion
    } else if t == "AmazonSSM.PutParameter"@ {
        Route::PutParameter
    } else if t == "AmazonSSM.UnlabelParameterVersion"@ {
        Route::UnlabelParameterVersion
    } else {
        Route::Unknown
    }
}

/// Where a request with the given target header, path and method goes:
/// `GET /health` and `GET /ready` without a target are the probes; a
/// target names an operation.
pub open spec fn spec_route(target: Option<Seq<char>>, path: Seq<char>, method: Seq<char>) -> Route {
    match target {
        None => if path == "/health"@ && method == "GET"@ {
            Route::Health
        } else if path == "/ready"@ && method == "GET"@ {
            Route::Ready
        } else {
            Route::Unknown
        },
        Some(t) => target_route(t),
    }
}

/// Where a request goes.
pub fn route(target: Option<&str>, path: &str, method: &str) -> (res: Route)
    ensures
        res == spec_route(match target {
            Some(t) => Some(t@),
            None => None,
        }, path@, method@),
{
    let t = match target {
        None => {
            if str_eq(path, "/health") && str_eq(method, "GET") {
                return Route::Health;
            } else if str_eq(path, "/ready") && str_eq(method, "GET") {
                return Route::Ready;
            }
            return Route::Unknown;
        },
        Some(t) => t,
    };
    if str_eq(t, "AmazonSSM.DeleteParameter") {
        Route::DeleteParameter
    } else if str_eq(t, "AmazonSSM.DeleteParameters") {
        Route::DeleteParameters
    } else if str_eq(t, "AmazonSSM.DescribeParameters") {
        Route::DescribeParameters
    } else if str_eq(t, "AmazonSSM.GetParameter") {
        Route::GetParameter
    } else if str_eq(t, "AmazonSSM.GetParameterHistory") {
        Route::GetParameterHistory
    } else if str_eq(t, "AmazonSSM.GetParameters") {
        Route::GetParameters
    } else if str_eq(t, "AmazonSSM.GetParametersByPath") {
        Route::GetParametersByPath
    } else if str_eq(t, "AmazonSSM.LabelParameterVersion") {
        Route::LabelParameterVersion
    } else if str_eq(t, "AmazonSSM.PutParameter") {
        Route::PutParameter
    } else if str_eq(t, "AmazonSSM.UnlabelParameterVersion") {
        Route::UnlabelParameterVersion
    } else {
        Route::Unknown
    }
}

/// Refuses a body that grows past `limit` bytes: `received` bytes so far
/// and a new chunk of `chunk` bytes.
pub fn check_body_chunk(received: u64, chunk: u64, limit: u64) -> (res: Option<ApiError>)
    ensures
        (received + chunk > limit) ==> (res matches Some(e) && e.is(ErrorCode::InvalidParameter, "Request body is too large."@)),
        (received + chunk <= limit) ==> res is None,
{
    if received as u128 + chunk as u128 > limit as u128 {
        return Some(invalid_parameter("Request body is too large."));
    }
    None
}

} // verus!

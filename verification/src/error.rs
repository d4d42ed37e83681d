//! The error that the HTTP layer reports: a status code and a message.

use vstd::prelude::*;

verus! {

/// HTTP 400.
pub const BAD_REQUEST: u16 = 400;

/// HTTP 502.
pub const BAD_GATEWAY: u16 = 502;

/// HTTP 503.
pub const SERVICE_UNAVAILABLE: u16 = 503;

/// An error answered to the client: its HTTP status and a message.
pub struct ApiError {
    pub status: u16,
    pub message: String,
}

impl ApiError {
    /// A 400 error with the given message.
    pub fn bad_request(m: String) -> (e: Self)
        ensures
            e.status == BAD_REQUEST,
            e.message@ == m@,
    {
        ApiError { status: BAD_REQUEST, message: m }
    }

    /// A 502 error with the given message.
    pub fn bad_gateway(m: String) -> (e: Self)
        ensures
            e.status == BAD_GATEWAY,
            e.message@ == m@,
    {
        ApiError { status: BAD_GATEWAY, message: m }
    }

    /// A 503 error with the given message.
    pub fn service_unavailable(m: String) -> (e: Self)
        ensures
            e.status == SERVICE_UNAVAILABLE,
            e.message@ == m@,
    {
        ApiError { status: SERVICE_UNAVAILABLE, message: m }
    }
}

/// The message for an input that is neither an Amazon product link nor an ASIN.
pub const INVALID_PRODUCT_INPUT: &'static str = "请输入有效的 Amazon 商品链接或 10 位 ASIN。";

} // verus!

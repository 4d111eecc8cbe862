//! Turning a framed request into the response to send.
use vstd::prelude::*;
use bytecodec::DecodeExt;
use vstd::slice::slice_subrange;
use crate::framing::Action;
use crate::header::{boundary_of, declares_transfer_encoding, find_boundary, has_transfer_encoding};
use crate::response::{
    create_error_response, dispatch, dispatched, error_model, error_response, HttpResponse,
    ResponseModel, ServerError,
};

verus! {

/// What decoding `bytes` as an HTTP/1.1 request with a UTF-8 body gives: its
/// method and body, or a diagnostic.
pub uninterp spec fn decoded_request(bytes: Seq<u8>) -> Result<(Seq<char>, Seq<char>), Seq<char>>;

/// The value of a decoding outcome.
pub open spec fn outcome_view(r: Result<(String, String), String>) -> Result<
    (Seq<char>, Seq<char>),
    Seq<char>,
> {
    match r {
        Ok(p) => Ok((p.0@, p.1@)),
        Err(e) => Err(e@),
    }
}

/// Requests this library hands to the decoder: where the header block is
/// complete, none of its lines names a transfer encoding. Chunked bodies are
/// not served, and httpcodec's chunk-size reader overflows on long sizes.
pub open spec fn decodable(data: Seq<u8>) -> bool {
    match boundary_of(data) {
        Some(b) => !has_transfer_encoding(data.subrange(0, b)),
        None => true,
    }
}

/// Relies on httpcodec's `RequestDecoder` over a UTF-8 `BodyDecoder`, run by
/// bytecodec's `DecodeExt::decode_from_bytes`: on success the request's method
/// and body, on failure the error's debug text. Both depend on the bytes alone
/// (the debug text also names the decoder's source locations, fixed by the build).
/// httpcodec picks its chunked body decoder only on a header field named
/// `transfer-encoding`, whose chunk-size arithmetic can overflow; `decodable`
/// leaves those requests out, and no other path of the decoder panics.
#[verifier::external_body]
fn decode_request(data: &[u8]) -> (r: Result<(String, String), String>)
    requires
        decodable(data@),
    ensures
        outcome_view(r) == decoded_request(data@),
{
    let mut decoder = httpcodec::RequestDecoder::<
        httpcodec::BodyDecoder<bytecodec::bytes::Utf8Decoder>,
    >::default();
    match decoder.decode_from_bytes(data) {
        Ok(req) => Ok((req.method().as_str().to_string(), req.body().clone())),
        Err(e) => Err(format!("{:?}", e)),
    }
}

/// The response to a framed request, given what decoding it gave.
pub open spec fn response_to_decoded(d: Result<(Seq<char>, Seq<char>), Seq<char>>) -> ResponseModel {
    match d {
        Ok(p) => dispatched(p.0, p.1),
        Err(e) => error_model(400, "Bad Request"@, "Bad Request: "@ + e),
    }
}

/// The diagnostic for a request that names a transfer encoding.
pub open spec fn unsupported_encoding_text() -> Seq<char> {
    "transfer-encoding is not supported"@
}

/// The response to a framed request: refused where it names a transfer
/// encoding, otherwise the answer to what decoding it gave.
pub open spec fn response_to_request(data: Seq<u8>) -> ResponseModel {
    if decodable(data) {
        response_to_decoded(decoded_request(data))
    } else {
        error_model(400, "Bad Request"@, "Bad Request: "@ + unsupported_encoding_text())
    }
}

/// Decodes a framed request and answers it.
pub fn respond(data: &[u8]) -> (r: HttpResponse)
    ensures
        r@ == response_to_request(data@),
{
    let supported = match find_boundary(data) {
        Some(b) => !declares_transfer_encoding(slice_subrange(data, 0, b)),
        None => true,
    };
    if !supported {
        return create_error_response(
            ServerError::DecodingError(String::from_str("transfer-encoding is not supported")),
        );
    }
    match decode_request(data) {
        Ok(p) => dispatch(p.0.as_str(), p.1.as_str()),
        Err(e) => create_error_response(ServerError::DecodingError(e)),
    }
}

/// The diagnostic for a connection that closed before its request was complete.
pub open spec fn closed_early_text() -> Seq<char> {
    "connection closed before the request was complete"@
}

/// The response once the framer has decided; none while it reads on.
pub open spec fn response_after(action: Action, data: Seq<u8>) -> Option<ResponseModel> {
    match action {
        Action::ReadMore => None,
        Action::Decode => Some(response_to_request(data)),
        Action::RejectTooLarge => Some(error_response(ServerError::RequestTooLarge)),
        Action::FailClosed => Some(
            error_model(
                500,
                "Internal Server Error"@,
                "Internal Server Error: "@ + closed_early_text(),
            ),
        ),
    }
}

/// The value of a response that may be absent.
pub open spec fn response_view(r: Option<HttpResponse>) -> Option<ResponseModel> {
    match r {
        Some(x) => Some(x@),
        None => None,
    }
}

/// The response to send after the framer's decision on the buffer `data`.
pub fn response_for(action: Action, data: &[u8]) -> (r: Option<HttpResponse>)
    ensures
        response_view(r) == response_after(action, data@),
{
    match action {
        Action::ReadMore => None,
        Action::Decode => Some(respond(data)),
        Action::RejectTooLarge => Some(create_error_response(ServerError::RequestTooLarge)),
        Action::FailClosed => Some(
            create_error_response(
                ServerError::IoError(
                    String::from_str("connection closed before the request was complete"),
                ),
            ),
        ),
    }
}

} // verus!

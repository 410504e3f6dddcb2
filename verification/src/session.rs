//! Decision logic of the signing session.
//!
//! The session proper is a blocking request/response loop over one stream:
//! read one framed request, dispatch, write one framed response.  The stream
//! and the keyring live with the host; what is verified here is every
//! decision the loop takes — how a frame is decoded, what each message kind
//! asks the host to do, and the exact bytes of the response frame.

use vstd::prelude::*;
use crate::error::Error;
use crate::rpc::{
    Request, RequestModel, Response, SignRequest, SignResponse, parse_request_msg,
    sign_response_msg_bytes,
};

verus! {

/// What the session does with one incoming message.
pub enum SessionAction {
    /// Look the key up in the keyring, sign the carried bytes, and reply.
    SignWith(SignRequest),
    /// End the session; nothing is written back.
    Terminate,
}

/// The decision for a decoded request: a signing request asks for a
/// signature, the poison pill ends the session.
pub fn plan_request(req: Request) -> (a: SessionAction)
    ensures
        match req@ {
            RequestModel::Sign(r) => a matches SessionAction::SignWith(sr) && sr@ == r,
            RequestModel::PoisonPill => a is Terminate,
        },
{
    match req {
        Request::Sign(r) => SessionAction::SignWith(r),
        Request::PoisonPill => SessionAction::Terminate,
    }
}

/// Decodes one framed request and decides what to do with it: exactly
/// `parse_request_msg` followed by `plan_request`'s mapping.
pub fn handle_frame(data: &[u8]) -> (r: Result<SessionAction, Error>)
    ensures
        match r {
            Ok(a) => match parse_request_msg(data@) {
                Ok(m) => match m {
                    RequestModel::Sign(sr) => a matches SessionAction::SignWith(q) && q@ == sr,
                    RequestModel::PoisonPill => a is Terminate,
                },
                Err(_) => false,
            },
            Err(e) => parse_request_msg(data@) == Err::<RequestModel, Error>(e),
        },
{
    match Request::deserialize(data) {
        Ok(req) => Ok(plan_request(req)),
        Err(e) => Err(e),
    }
}

/// The framed response that carries a signature back to the validator.
pub fn sign_response_frame(sig: Vec<u8>) -> (r: Vec<u8>)
    ensures
        r@ == sign_response_msg_bytes(sig@),
{
    let resp = Response::Sign(SignResponse { sig });
    resp.to_vec()
}

} // verus!

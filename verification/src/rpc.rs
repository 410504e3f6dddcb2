//! The session's request and response envelopes: a signing request carrying
//! a public key and the bytes to sign, the signing response carrying the
//! detached signature, and the poison-pill sentinel that ends a session.
//!
//! Each envelope travels in the same frame as a vote: a length prefix, the
//! message's four-byte registered-name prefix, one payload struct with the
//! fields in ascending order (empty optional fields omitted), and two struct
//! terminators.  The message kind is told apart by the first prefix byte.

use vstd::prelude::*;
use crate::codec::{
    bytes_enc, encode_bytes, encode_uvarint, uvarint_bytes, parse_bytes, parse_expect,
    parse_uvarint, decode_bytes, decode_uvarint, expect_byte, peek_byte, lemma_parse_bytes_of_enc,
    lemma_parse_uvarint_of_enc, lemma_subrange_split, lemma_uvarint_bytes_len,
};
use crate::error::Error;
use crate::vote::{push_byte, K_PAYLOAD, K_TERM};

verus! {

/// Key of request field 1 (public key, length-prefixed bytes).
pub const K_PUBKEY: u8 = 0x0a;
/// Key of request field 2 (message bytes, length-prefixed bytes).
pub const K_MSG: u8 = 0x12;
/// Key of response field 1 (signature, length-prefixed bytes).
pub const K_RSIG: u8 = 0x0a;

/// First byte of the registered-name prefix of a signing request.
pub const REQ_DISFIX_0: u8 = 0x7e;
/// Second byte of the registered-name prefix of a signing request.
pub const REQ_DISFIX_1: u8 = 0x69;
/// Third byte of the registered-name prefix of a signing request.
pub const REQ_DISFIX_2: u8 = 0x3e;
/// Fourth byte of the registered-name prefix of a signing request, with the
/// outer struct tag folded into its low nibble.
pub const REQ_DISFIX_3: u8 = 0xb3;

/// First byte of the registered-name prefix of a signing response.
pub const RESP_DISFIX_0: u8 = 0x13;
/// Second byte of the registered-name prefix of a signing response.
pub const RESP_DISFIX_1: u8 = 0x69;
/// Third byte of the registered-name prefix of a signing response.
pub const RESP_DISFIX_2: u8 = 0x38;
/// Fourth byte of the registered-name prefix of a signing response, with the
/// outer struct tag folded into its low nibble.
pub const RESP_DISFIX_3: u8 = 0x63;

/// First byte of the registered-name prefix of the poison pill.
pub const PILL_DISFIX_0: u8 = 0x49;
/// Second byte of the registered-name prefix of the poison pill.
pub const PILL_DISFIX_1: u8 = 0xcb;
/// Third byte of the registered-name prefix of the poison pill.
pub const PILL_DISFIX_2: u8 = 0xed;
/// Fourth byte of the registered-name prefix of the poison pill, with the
/// outer struct tag folded into its low nibble.
pub const PILL_DISFIX_3: u8 = 0x1b;

/// A request to sign `msg` with the key named by `public_key`.
#[derive(Clone, Debug, PartialEq)]
pub struct SignRequest {
    /// The signer's public key (thirty-two bytes).
    pub public_key: Vec<u8>,
    /// The already-canonicalized bytes to sign verbatim.
    pub msg: Vec<u8>,
}

/// The detached signature over a request's bytes.
#[derive(Clone, Debug, PartialEq)]
pub struct SignResponse {
    /// The signature (sixty-four bytes).
    pub sig: Vec<u8>,
}

/// One incoming message of the session.
#[derive(Clone, Debug, PartialEq)]
pub enum Request {
    /// Sign the carried bytes.
    Sign(SignRequest),
    /// End the session without a response.
    PoisonPill,
}

/// One outgoing message of the session.
#[derive(Clone, Debug, PartialEq)]
pub enum Response {
    /// The signature over the requested bytes.
    Sign(SignResponse),
}

/// Mathematical model of a signing request.
pub struct SignRequestModel {
    /// The public key bytes.
    pub pk: Seq<u8>,
    /// The bytes to sign.
    pub msg: Seq<u8>,
}

/// Mathematical model of an incoming message.
pub enum RequestModel {
    /// A signing request.
    Sign(SignRequestModel),
    /// The session-ending sentinel.
    PoisonPill,
}

impl View for SignRequest {
    type V = SignRequestModel;

    open spec fn view(&self) -> SignRequestModel {
        SignRequestModel { pk: self.public_key@, msg: self.msg@ }
    }
}

impl View for Request {
    type V = RequestModel;

    open spec fn view(&self) -> RequestModel {
        match self {
            Request::Sign(r) => RequestModel::Sign(r@),
            Request::PoisonPill => RequestModel::PoisonPill,
        }
    }
}

impl View for SignResponse {
    type V = Seq<u8>;

    open spec fn view(&self) -> Seq<u8> {
        self.sig@
    }
}

impl SignRequestModel {
    /// Validity of a signing request: the key is absent or thirty-two
    /// bytes, and the message fits its length prefix.
    pub open spec fn wf(self) -> bool {
        &&& self.pk.len() == 0 || self.pk.len() == 32
        &&& self.msg.len() <= 0xffffffff
    }
}

/// The fields of a signing request, in ascending field-number order, empty
/// optional fields omitted.
pub open spec fn sign_request_fields(r: SignRequestModel) -> Seq<u8> {
    (if r.pk.len() == 0 {
        Seq::<u8>::empty()
    } else {
        seq![K_PUBKEY] + bytes_enc(r.pk)
    }) + (if r.msg.len() == 0 {
        Seq::<u8>::empty()
    } else {
        seq![K_MSG] + bytes_enc(r.msg)
    })
}

/// A framed message body: registered-name prefix, payload struct, two
/// terminators.
pub open spec fn frame_body(d0: u8, d1: u8, d2: u8, d3: u8, fields: Seq<u8>) -> Seq<u8> {
    seq![d0, d1, d2, d3, K_PAYLOAD] + fields + seq![K_TERM, K_TERM]
}

/// A whole framed message: the body length as an unsigned varint, then the
/// body.
pub open spec fn frame_msg(d0: u8, d1: u8, d2: u8, d3: u8, fields: Seq<u8>) -> Seq<u8> {
    uvarint_bytes(frame_body(d0, d1, d2, d3, fields).len()) + frame_body(d0, d1, d2, d3, fields)
}

/// A whole signing-request message.
pub open spec fn sign_request_msg_bytes(r: SignRequestModel) -> Seq<u8> {
    frame_msg(REQ_DISFIX_0, REQ_DISFIX_1, REQ_DISFIX_2, REQ_DISFIX_3, sign_request_fields(r))
}

/// A whole signing-response message.
pub open spec fn sign_response_msg_bytes(sig: Seq<u8>) -> Seq<u8> {
    frame_msg(
        RESP_DISFIX_0,
        RESP_DISFIX_1,
        RESP_DISFIX_2,
        RESP_DISFIX_3,
        if sig.len() == 0 {
            Seq::<u8>::empty()
        } else {
            seq![K_RSIG] + bytes_enc(sig)
        },
    )
}

/// The whole poison-pill message.
pub open spec fn poison_pill_msg_bytes() -> Seq<u8> {
    frame_msg(PILL_DISFIX_0, PILL_DISFIX_1, PILL_DISFIX_2, PILL_DISFIX_3, Seq::empty())
}

/// Appends `fields` framed as a complete message under the given
/// registered-name prefix.
fn encode_frame(d0: u8, d1: u8, d2: u8, d3: u8, fields: Vec<u8>) -> (r: Vec<u8>)
    ensures
        r@ == frame_msg(d0, d1, d2, d3, fields@),
{
    let mut body: Vec<u8> = Vec::new();
    push_byte(&mut body, d0);
    push_byte(&mut body, d1);
    push_byte(&mut body, d2);
    push_byte(&mut body, d3);
    push_byte(&mut body, K_PAYLOAD);
    body.extend_from_slice(fields.as_slice());
    push_byte(&mut body, K_TERM);
    push_byte(&mut body, K_TERM);
    proof {
        assert(body@ =~= frame_body(d0, d1, d2, d3, fields@));
    }
    let mut out: Vec<u8> = Vec::new();
    encode_uvarint(body.len() as u64, &mut out);
    out.extend_from_slice(body.as_slice());
    proof {
        assert(out@ =~= frame_msg(d0, d1, d2, d3, fields@));
    }
    out
}

impl SignRequest {
    /// Encodes the request as a complete wire message.
    pub fn serialize(&self) -> (r: Vec<u8>)
        ensures
            r@ == sign_request_msg_bytes(self@),
    {
        let mut fields: Vec<u8> = Vec::new();
        if self.public_key.len() > 0 {
            push_byte(&mut fields, K_PUBKEY);
            encode_bytes(self.public_key.as_slice(), &mut fields);
        }
        if self.msg.len() > 0 {
            push_byte(&mut fields, K_MSG);
            encode_bytes(self.msg.as_slice(), &mut fields);
        }
        proof {
            assert(fields@ =~= sign_request_fields(self@));
        }
        encode_frame(REQ_DISFIX_0, REQ_DISFIX_1, REQ_DISFIX_2, REQ_DISFIX_3, fields)
    }
}

impl Response {
    /// Encodes the response as a complete wire message.
    pub fn to_vec(&self) -> (r: Vec<u8>)
        ensures
            self matches Response::Sign(sr) ==> r@ == sign_response_msg_bytes(sr.sig@),
    {
        match self {
            Response::Sign(sr) => {
                let mut fields: Vec<u8> = Vec::new();
                if sr.sig.len() > 0 {
                    push_byte(&mut fields, K_RSIG);
                    encode_bytes(sr.sig.as_slice(), &mut fields);
                }
                proof {
                    if sr.sig@.len() == 0 {
                        assert(fields@ =~= Seq::<u8>::empty());
                    }
                }
                encode_frame(RESP_DISFIX_0, RESP_DISFIX_1, RESP_DISFIX_2, RESP_DISFIX_3, fields)
            },
        }
    }
}

/// The complete poison-pill frame.
pub fn poison_pill_frame() -> (r: Vec<u8>)
    ensures
        r@ == poison_pill_msg_bytes(),
{
    let fields: Vec<u8> = Vec::new();
    encode_frame(PILL_DISFIX_0, PILL_DISFIX_1, PILL_DISFIX_2, PILL_DISFIX_3, fields)
}

/// Specification-level parse of the signing-request fields.
pub open spec fn parse_sign_request_fields(s: Seq<u8>, i: int) -> Result<
    (SignRequestModel, int),
    Error,
> {
    if i < s.len() && s[i] == K_PUBKEY {
        match parse_bytes(s, i + 1) {
            Err(e) => Err(e),
            Ok((pk, c)) => parse_sr_msg(s, i + 1 + c, pk),
        }
    } else {
        parse_sr_msg(s, i, Seq::empty())
    }
}

/// The optional message field of a signing request.
pub open spec fn parse_sr_msg(s: Seq<u8>, i: int, pk: Seq<u8>) -> Result<
    (SignRequestModel, int),
    Error,
> {
    if i < s.len() && s[i] == K_MSG {
        match parse_bytes(s, i + 1) {
            Err(e) => Err(e),
            Ok((m, c)) => Ok((SignRequestModel { pk, msg: m }, i + 1 + c)),
        }
    } else {
        Ok((SignRequestModel { pk, msg: Seq::empty() }, i))
    }
}

/// The closing of a framed message: two terminators, nothing after them, and
/// a length prefix that equals the body's length.
pub open spec fn parse_frame_end(s: Seq<u8>, j: int, c0: int, blen: u64) -> Result<int, Error> {
    match parse_expect(s, j, K_TERM) {
        Err(e) => Err(e),
        Ok(_) => match parse_expect(s, j + 1, K_TERM) {
            Err(e) => Err(e),
            Ok(_) => if j + 2 == s.len() && blen == s.len() - c0 {
                Ok(j + 2)
            } else {
                Err(Error::Truncated)
            },
        },
    }
}

/// Specification-level parse of an incoming session message, told apart by
/// the first byte of its registered-name prefix.
pub open spec fn parse_request_msg(s: Seq<u8>) -> Result<RequestModel, Error> {
    match parse_uvarint(s, 0) {
        Err(e) => Err(e),
        Ok((blen, c0)) => {
            if c0 >= s.len() {
                Err(Error::Truncated)
            } else if s[c0] == REQ_DISFIX_0 {
                match parse_expect(s, c0, REQ_DISFIX_0) {
                    Err(e) => Err(e),
                    Ok(_) => match parse_expect(s, c0 + 1, REQ_DISFIX_1) {
                        Err(e) => Err(e),
                        Ok(_) => match parse_expect(s, c0 + 2, REQ_DISFIX_2) {
                            Err(e) => Err(e),
                            Ok(_) => match parse_expect(s, c0 + 3, REQ_DISFIX_3) {
                                Err(e) => Err(e),
                                Ok(_) => match parse_expect(s, c0 + 4, K_PAYLOAD) {
                                    Err(e) => Err(e),
                                    Ok(_) => match parse_sign_request_fields(s, c0 + 5) {
                                        Err(e) => Err(e),
                                        Ok((r, j)) => match parse_frame_end(s, j, c0, blen) {
                                            Err(e) => Err(e),
                                            Ok(_) => Ok(RequestModel::Sign(r)),
                                        },
                                    },
                                },
                            },
                        },
                    },
                }
            } else if s[c0] == PILL_DISFIX_0 {
                match parse_expect(s, c0 + 1, PILL_DISFIX_1) {
                    Err(e) => Err(e),
                    Ok(_) => match parse_expect(s, c0 + 2, PILL_DISFIX_2) {
                        Err(e) => Err(e),
                        Ok(_) => match parse_expect(s, c0 + 3, PILL_DISFIX_3) {
                            Err(e) => Err(e),
                            Ok(_) => match parse_expect(s, c0 + 4, K_PAYLOAD) {
                                Err(e) => Err(e),
                                Ok(_) => match parse_frame_end(s, c0 + 5, c0, blen) {
                                    Err(e) => Err(e),
                                    Ok(_) => Ok(RequestModel::PoisonPill),
                                },
                            },
                        },
                    },
                }
            } else {
                Err(Error::UnexpectedField { got: s[c0], want: REQ_DISFIX_0 })
            }
        },
    }
}

/// Specification-level parse of a signing response.
pub open spec fn parse_response_msg(s: Seq<u8>) -> Result<Seq<u8>, Error> {
    match parse_uvarint(s, 0) {
        Err(e) => Err(e),
        Ok((blen, c0)) => match parse_expect(s, c0, RESP_DISFIX_0) {
            Err(e) => Err(e),
            Ok(_) => match parse_expect(s, c0 + 1, RESP_DISFIX_1) {
                Err(e) => Err(e),
                Ok(_) => match parse_expect(s, c0 + 2, RESP_DISFIX_2) {
                    Err(e) => Err(e),
                    Ok(_) => match parse_expect(s, c0 + 3, RESP_DISFIX_3) {
                        Err(e) => Err(e),
                        Ok(_) => match parse_expect(s, c0 + 4, K_PAYLOAD) {
                            Err(e) => Err(e),
                            Ok(_) => if c0 + 5 < s.len() && s[c0 + 5] == K_RSIG {
                                match parse_bytes(s, c0 + 6) {
                                    Err(e) => Err(e),
                                    Ok((sig, c)) => match parse_frame_end(
                                        s,
                                        c0 + 6 + c,
                                        c0,
                                        blen,
                                    ) {
                                        Err(e) => Err(e),
                                        Ok(_) => Ok(sig),
                                    },
                                }
                            } else {
                                match parse_frame_end(s, c0 + 5, c0, blen) {
                                    Err(e) => Err(e),
                                    Ok(_) => Ok(Seq::empty()),
                                }
                            },
                        },
                    },
                },
            },
        },
    }
}

/// Consumes the two terminators and checks the frame's extent; the outcome
/// is exactly `parse_frame_end`.
fn decode_frame_end(data: &[u8], j: usize, c0: usize, blen: u64) -> (r: Result<usize, Error>)
    requires
        j <= data@.len(),
        c0 <= j,
    ensures
        match r {
            Ok(p) => p == j + 2 && parse_frame_end(data@, j as int, c0 as int, blen) == Ok::<
                int,
                Error,
            >(p as int),
            Err(e) => parse_frame_end(data@, j as int, c0 as int, blen) == Err::<int, Error>(e),
        },
{
    let t1 = match expect_byte(data, j, K_TERM) {
        Ok(p) => p,
        Err(e) => {
            return Err(e);
        },
    };
    let t2 = match expect_byte(data, t1, K_TERM) {
        Ok(p) => p,
        Err(e) => {
            return Err(e);
        },
    };
    if t2 != data.len() || blen != ((t2 - c0) as u64) {
        return Err(Error::Truncated);
    }
    Ok(t2)
}

impl Request {
    /// Decodes one incoming session message; the outcome is exactly
    /// `parse_request_msg`.
    #[verifier::rlimit(100)]
    pub fn deserialize(data: &[u8]) -> (r: Result<Request, Error>)
        ensures
            match r {
                Ok(req) => parse_request_msg(data@) == Ok::<RequestModel, Error>(req@),
                Err(e) => parse_request_msg(data@) == Err::<RequestModel, Error>(e),
            },
    {
        let (blen, c0) = match decode_uvarint(data, 0) {
            Ok(v) => v,
            Err(e) => {
                return Err(e);
            },
        };
        let first = match peek_byte(data, c0) {
            Some(b) => b,
            None => {
                return Err(Error::Truncated);
            },
        };
        if first == REQ_DISFIX_0 {
            let p1 = match expect_byte(data, c0, REQ_DISFIX_0) {
                Ok(p) => p,
                Err(e) => {
                    return Err(e);
                },
            };
            let p2 = match expect_byte(data, p1, REQ_DISFIX_1) {
                Ok(p) => p,
                Err(e) => {
                    return Err(e);
                },
            };
            let p3 = match expect_byte(data, p2, REQ_DISFIX_2) {
                Ok(p) => p,
                Err(e) => {
                    return Err(e);
                },
            };
            let p4 = match expect_byte(data, p3, REQ_DISFIX_3) {
                Ok(p) => p,
                Err(e) => {
                    return Err(e);
                },
            };
            let p5 = match expect_byte(data, p4, K_PAYLOAD) {
                Ok(p) => p,
                Err(e) => {
                    return Err(e);
                },
            };
            let mut cur: usize = p5;
            let mut pk: Vec<u8> = Vec::new();
            match peek_byte(data, cur) {
                Some(b) if b == K_PUBKEY => {
                    let (k, p) = match decode_bytes(data, cur + 1) {
                        Ok(v) => v,
                        Err(e) => {
                            return Err(e);
                        },
                    };
                    pk = k;
                    cur = p;
                },
                _ => {},
            }
            assert(parse_sign_request_fields(data@, p5 as int) == parse_sr_msg(
                data@,
                cur as int,
                pk@,
            ));
            let mut msg: Vec<u8> = Vec::new();
            match peek_byte(data, cur) {
                Some(b) if b == K_MSG => {
                    let (m, p) = match decode_bytes(data, cur + 1) {
                        Ok(v) => v,
                        Err(e) => {
                            return Err(e);
                        },
                    };
                    msg = m;
                    cur = p;
                },
                _ => {},
            }
            let req = SignRequest { public_key: pk, msg };
            assert(parse_sign_request_fields(data@, p5 as int) == Ok::<
                (SignRequestModel, int),
                Error,
            >((req@, cur as int)));
            match decode_frame_end(data, cur, c0, blen) {
                Ok(_) => Ok(Request::Sign(req)),
                Err(e) => Err(e),
            }
        } else if first == PILL_DISFIX_0 {
            let p1 = match expect_byte(data, c0 + 1, PILL_DISFIX_1) {
                Ok(p) => p,
                Err(e) => {
                    return Err(e);
                },
            };
            let p2 = match expect_byte(data, p1, PILL_DISFIX_2) {
                Ok(p) => p,
                Err(e) => {
                    return Err(e);
                },
            };
            let p3 = match expect_byte(data, p2, PILL_DISFIX_3) {
                Ok(p) => p,
                Err(e) => {
                    return Err(e);
                },
            };
            let p4 = match expect_byte(data, p3, K_PAYLOAD) {
                Ok(p) => p,
                Err(e) => {
                    return Err(e);
                },
            };
            match decode_frame_end(data, p4, c0, blen) {
                Ok(_) => Ok(Request::PoisonPill),
                Err(e) => Err(e),
            }
        } else {
            Err(Error::UnexpectedField { got: first, want: REQ_DISFIX_0 })
        }
    }
}

impl Response {
    /// Decodes a signing response; the outcome is exactly
    /// `parse_response_msg`.
    #[verifier::rlimit(100)]
    pub fn deserialize(data: &[u8]) -> (r: Result<Response, Error>)
        ensures
            match r {
                Ok(Response::Sign(sr)) => parse_response_msg(data@) == Ok::<Seq<u8>, Error>(
                    sr.sig@,
                ),
                Err(e) => parse_response_msg(data@) == Err::<Seq<u8>, Error>(e),
            },
    {
        let (blen, c0) = match decode_uvarint(data, 0) {
            Ok(v) => v,
            Err(e) => {
                return Err(e);
            },
        };
        let p1 = match expect_byte(data, c0, RESP_DISFIX_0) {
            Ok(p) => p,
            Err(e) => {
                return Err(e);
            },
        };
        let p2 = match expect_byte(data, p1, RESP_DISFIX_1) {
            Ok(p) => p,
            Err(e) => {
                return Err(e);
            },
        };
        let p3 = match expect_byte(data, p2, RESP_DISFIX_2) {
            Ok(p) => p,
            Err(e) => {
                return Err(e);
            },
        };
        let p4 = match expect_byte(data, p3, RESP_DISFIX_3) {
            Ok(p) => p,
            Err(e) => {
                return Err(e);
            },
        };
        let p5 = match expect_byte(data, p4, K_PAYLOAD) {
            Ok(p) => p,
            Err(e) => {
                return Err(e);
            },
        };
        let mut sig: Vec<u8> = Vec::new();
        let mut cur: usize = p5;
        match peek_byte(data, cur) {
            Some(b) if b == K_RSIG => {
                let (sg, p) = match decode_bytes(data, cur + 1) {
                    Ok(v) => v,
                    Err(e) => {
                        return Err(e);
                    },
                };
                sig = sg;
                cur = p;
            },
            _ => {},
        }
        match decode_frame_end(data, cur, c0, blen) {
            Ok(_) => Ok(Response::Sign(SignResponse { sig })),
            Err(e) => Err(e),
        }
    }
}

/// Round trip: decoding the encoding of any well-formed signing request
/// yields that request again.
#[verifier::rlimit(100)]
pub proof fn lemma_sign_request_round_trip(r: SignRequestModel)
    requires
        r.wf(),
    ensures
        parse_request_msg(sign_request_msg_bytes(r)) == Ok::<RequestModel, Error>(
            RequestModel::Sign(r),
        ),
{
    let fields = sign_request_fields(r);
    let body = frame_body(REQ_DISFIX_0, REQ_DISFIX_1, REQ_DISFIX_2, REQ_DISFIX_3, fields);
    let bl = body.len();
    lemma_uvarint_bytes_len(r.pk.len());
    lemma_uvarint_bytes_len(r.msg.len());
    assert(bl < 0x200000000);
    let s = sign_request_msg_bytes(r);
    let ub = uvarint_bytes(bl);
    lemma_uvarint_bytes_len(bl);
    assert(s.subrange(0, s.len() as int) =~= s);
    lemma_subrange_split(s, 0, ub, body);
    assert((bl as u64) as nat == bl);
    lemma_parse_uvarint_of_enc(s, 0, bl as u64);
    let c0 = ub.len() as int;
    let head = seq![REQ_DISFIX_0, REQ_DISFIX_1, REQ_DISFIX_2, REQ_DISFIX_3, K_PAYLOAD];
    assert(body == head + fields + seq![K_TERM, K_TERM]);
    lemma_subrange_split(s, c0, head + fields, seq![K_TERM, K_TERM]);
    lemma_subrange_split(s, c0, head, fields);
    assert(s[c0] == s.subrange(c0, c0 + head.len())[0]);
    assert(s[c0 + 1] == s.subrange(c0, c0 + head.len())[1]);
    assert(s[c0 + 2] == s.subrange(c0, c0 + head.len())[2]);
    assert(s[c0 + 3] == s.subrange(c0, c0 + head.len())[3]);
    assert(s[c0 + 4] == s.subrange(c0, c0 + head.len())[4]);
    let jt = c0 + 5 + fields.len();
    assert(s[jt] == s.subrange(jt, jt + 2)[0]);
    assert(s[jt + 1] == s.subrange(jt, jt + 2)[1]);
    let aseg: Seq<u8> = if r.pk.len() == 0 {
        Seq::empty()
    } else {
        seq![K_PUBKEY] + bytes_enc(r.pk)
    };
    let mseg: Seq<u8> = if r.msg.len() == 0 {
        Seq::empty()
    } else {
        seq![K_MSG] + bytes_enc(r.msg)
    };
    lemma_subrange_split(s, c0 + 5, aseg, mseg);
    let j0 = c0 + 5 + aseg.len();
    if r.pk.len() > 0 {
        lemma_subrange_split(s, c0 + 5, seq![K_PUBKEY], bytes_enc(r.pk));
        assert(s[c0 + 5] == s.subrange(c0 + 5, c0 + 6)[0]);
        lemma_parse_bytes_of_enc(s, c0 + 6, r.pk);
    } else {
        assert(r.pk =~= Seq::<u8>::empty());
    }
    if r.msg.len() > 0 {
        lemma_subrange_split(s, j0, seq![K_MSG], bytes_enc(r.msg));
        assert(s[j0] == s.subrange(j0, j0 + 1)[0]);
        lemma_parse_bytes_of_enc(s, j0 + 1, r.msg);
    } else {
        assert(r.msg =~= Seq::<u8>::empty());
        assert(s[j0] == K_TERM);
    }
    assert(parse_sign_request_fields(s, c0 + 5) == parse_sr_msg(s, j0, r.pk));
    assert(parse_sr_msg(s, j0, r.pk) == Ok::<(SignRequestModel, int), Error>(
        (SignRequestModel { pk: r.pk, msg: r.msg }, jt),
    ));
    assert(r == SignRequestModel { pk: r.pk, msg: r.msg });
    assert(parse_frame_end(s, jt, c0, bl as u64) == Ok::<int, Error>(jt + 2));
    assert(parse_uvarint(s, 0) == Ok::<(u64, int), Error>((bl as u64, c0)));
    assert(parse_expect(s, c0, REQ_DISFIX_0) == Ok::<int, Error>(1));
    assert(parse_expect(s, c0 + 1, REQ_DISFIX_1) == Ok::<int, Error>(1));
    assert(parse_expect(s, c0 + 2, REQ_DISFIX_2) == Ok::<int, Error>(1));
    assert(parse_expect(s, c0 + 3, REQ_DISFIX_3) == Ok::<int, Error>(1));
    assert(parse_expect(s, c0 + 4, K_PAYLOAD) == Ok::<int, Error>(1));
    assert(parse_sign_request_fields(s, c0 + 5) == Ok::<(SignRequestModel, int), Error>((r, jt)));
}

/// Round trip: decoding the encoding of a signing response yields the same
/// signature bytes.
#[verifier::rlimit(100)]
pub proof fn lemma_sign_response_round_trip(sig: Seq<u8>)
    requires
        sig.len() <= 0xffffffff,
    ensures
        parse_response_msg(sign_response_msg_bytes(sig)) == Ok::<Seq<u8>, Error>(sig),
{
    let fields: Seq<u8> = if sig.len() == 0 {
        Seq::empty()
    } else {
        seq![K_RSIG] + bytes_enc(sig)
    };
    let body = frame_body(RESP_DISFIX_0, RESP_DISFIX_1, RESP_DISFIX_2, RESP_DISFIX_3, fields);
    let bl = body.len();
    lemma_uvarint_bytes_len(sig.len());
    assert(bl < 0x200000000);
    let s = sign_response_msg_bytes(sig);
    let ub = uvarint_bytes(bl);
    lemma_uvarint_bytes_len(bl);
    assert(s.subrange(0, s.len() as int) =~= s);
    lemma_subrange_split(s, 0, ub, body);
    assert((bl as u64) as nat == bl);
    lemma_parse_uvarint_of_enc(s, 0, bl as u64);
    let c0 = ub.len() as int;
    let head = seq![RESP_DISFIX_0, RESP_DISFIX_1, RESP_DISFIX_2, RESP_DISFIX_3, K_PAYLOAD];
    assert(body == head + fields + seq![K_TERM, K_TERM]);
    lemma_subrange_split(s, c0, head + fields, seq![K_TERM, K_TERM]);
    lemma_subrange_split(s, c0, head, fields);
    assert(s[c0] == s.subrange(c0, c0 + head.len())[0]);
    assert(s[c0 + 1] == s.subrange(c0, c0 + head.len())[1]);
    assert(s[c0 + 2] == s.subrange(c0, c0 + head.len())[2]);
    assert(s[c0 + 3] == s.subrange(c0, c0 + head.len())[3]);
    assert(s[c0 + 4] == s.subrange(c0, c0 + head.len())[4]);
    let jt = c0 + 5 + fields.len();
    assert(s[jt] == s.subrange(jt, jt + 2)[0]);
    assert(s[jt + 1] == s.subrange(jt, jt + 2)[1]);
    if sig.len() > 0 {
        lemma_subrange_split(s, c0 + 5, seq![K_RSIG], bytes_enc(sig));
        assert(s[c0 + 5] == s.subrange(c0 + 5, c0 + 6)[0]);
        lemma_parse_bytes_of_enc(s, c0 + 6, sig);
    } else {
        assert(sig =~= Seq::<u8>::empty());
        assert(s[c0 + 5] == K_TERM);
    }
    assert(parse_frame_end(s, jt, c0, bl as u64) == Ok::<int, Error>(jt + 2));
}

/// Round trip: the poison-pill frame decodes to the poison pill.
pub proof fn lemma_poison_pill_round_trip()
    ensures
        parse_request_msg(poison_pill_msg_bytes()) == Ok::<RequestModel, Error>(
            RequestModel::PoisonPill,
        ),
{
    let fields: Seq<u8> = Seq::empty();
    let body = frame_body(PILL_DISFIX_0, PILL_DISFIX_1, PILL_DISFIX_2, PILL_DISFIX_3, fields);
    let bl = body.len();
    assert(bl == 7);
    let s = poison_pill_msg_bytes();
    let ub = uvarint_bytes(bl);
    lemma_uvarint_bytes_len(bl);
    assert(s.subrange(0, s.len() as int) =~= s);
    lemma_subrange_split(s, 0, ub, body);
    assert((bl as u64) as nat == bl);
    lemma_parse_uvarint_of_enc(s, 0, bl as u64);
    let c0 = ub.len() as int;
    let head = seq![PILL_DISFIX_0, PILL_DISFIX_1, PILL_DISFIX_2, PILL_DISFIX_3, K_PAYLOAD];
    assert(body == head + fields + seq![K_TERM, K_TERM]);
    lemma_subrange_split(s, c0, head + fields, seq![K_TERM, K_TERM]);
    lemma_subrange_split(s, c0, head, fields);
    assert(s[c0] == s.subrange(c0, c0 + head.len())[0]);
    assert(s[c0 + 1] == s.subrange(c0, c0 + head.len())[1]);
    assert(s[c0 + 2] == s.subrange(c0, c0 + head.len())[2]);
    assert(s[c0 + 3] == s.subrange(c0, c0 + head.len())[3]);
    assert(s[c0 + 4] == s.subrange(c0, c0 + head.len())[4]);
    let jt = c0 + 5;
    assert(s[jt] == s.subrange(jt, jt + 2)[0]);
    assert(s[jt + 1] == s.subrange(jt, jt + 2)[1]);
    assert(PILL_DISFIX_0 != REQ_DISFIX_0);
    assert(parse_frame_end(s, jt, c0, bl as u64) == Ok::<int, Error>(jt + 2));
}

} // verus!

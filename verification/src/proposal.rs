//! The consensus proposal record and its canonical wire form.
//!
//! A proposal follows the same encoding discipline as a vote: a length
//! prefix, the message's four-byte registered-name prefix, one payload
//! struct whose fields appear in ascending field-number order — height,
//! round, timestamp, the parts header of the proposed block, the
//! proof-of-lock round and block reference, and an optional trailing
//! signature — and two struct terminators.

use vstd::prelude::*;
use crate::codec::{
    bytes_enc, encode_bytes, encode_int64, encode_uvarint, encode_varint, int64_bytes,
    uvarint_bytes, varint_bytes, parse_bytes, parse_expect, parse_int64, parse_uvarint,
    parse_varint, decode_bytes, decode_int64, decode_uvarint, decode_varint, expect_byte,
    peek_byte, lemma_parse_bytes_of_enc, lemma_parse_int64_of_enc, lemma_parse_uvarint_of_enc,
    lemma_parse_varint_of_enc, lemma_subrange_split, lemma_uvarint_bytes_len,
    lemma_int64_bytes_len, zigzag,
};
use crate::error::Error;
use crate::vote::{
    BlockID, BlockIdModel, Instant, PartsSetHeader, push_byte, encode_time, encode_parts,
    encode_block_id, decode_time, decode_parts, decode_block_id, time_struct_bytes, parts_bytes,
    block_bytes, parse_time, parse_parts, parse_block, lemma_parse_time_of_enc,
    lemma_parse_parts_of_enc, lemma_parse_block_of_enc, K_PAYLOAD, K_TERM,
};

verus! {

/// Key of proposal field 1 (height, eight bytes).
pub const PK_HEIGHT: u8 = 0x09;
/// Key of proposal field 2 (round, varint).
pub const PK_ROUND: u8 = 0x10;
/// Key of proposal field 3 (timestamp, struct).
pub const PK_TIME: u8 = 0x1b;
/// Key of proposal field 4 (block parts header, struct).
pub const PK_PARTS: u8 = 0x23;
/// Key of proposal field 5 (proof-of-lock round, varint).
pub const PK_POLROUND: u8 = 0x28;
/// Key of proposal field 6 (proof-of-lock block reference, struct).
pub const PK_POLBLOCK: u8 = 0x33;
/// Key of proposal field 7 (signature, interface).
pub const PK_SIG: u8 = 0x3f;

/// First byte of the registered-name prefix of a proposal message.
pub const PROP_DISFIX_0: u8 = 0x5d;
/// Second byte of the registered-name prefix of a proposal message.
pub const PROP_DISFIX_1: u8 = 0x48;
/// Third byte of the registered-name prefix of a proposal message.
pub const PROP_DISFIX_2: u8 = 0x70;
/// Fourth byte of the registered-name prefix of a proposal message, with
/// the outer struct tag folded into its low nibble.
pub const PROP_DISFIX_3: u8 = 0x03;

/// A validator's proposal of a block at a height and round.
#[derive(Clone, Debug, PartialEq)]
pub struct Proposal {
    /// Block height the proposal is for.
    pub height: i64,
    /// Consensus round the proposal is made in.
    pub round: i64,
    /// When the proposal was made.
    pub timestamp: Instant,
    /// How the proposed block is split into parts.
    pub block_parts_header: PartsSetHeader,
    /// The round of the proof-of-lock, if any.
    pub pol_round: i64,
    /// The block the proof-of-lock is about.
    pub pol_block_id: BlockID,
    /// Detached signature (sixty-four bytes), present once signed.
    pub signature: Option<Vec<u8>>,
}

/// Mathematical model of a proposal.
pub struct ProposalModel {
    /// Block height.
    pub height: int,
    /// Consensus round.
    pub round: int,
    /// Seconds since the Unix epoch.
    pub secs: int,
    /// Additional nanoseconds.
    pub nanos: nat,
    /// Number of parts of the proposed block.
    pub parts_total: int,
    /// Hash over the parts of the proposed block.
    pub parts_hash: Seq<u8>,
    /// Proof-of-lock round.
    pub pol_round: int,
    /// Proof-of-lock block reference.
    pub pol_block: BlockIdModel,
    /// Signature bytes, if the proposal is signed.
    pub sig: Option<Seq<u8>>,
}

impl View for Proposal {
    type V = ProposalModel;

    open spec fn view(&self) -> ProposalModel {
        ProposalModel {
            height: self.height as int,
            round: self.round as int,
            secs: self.timestamp.secs as int,
            nanos: self.timestamp.nanos as nat,
            parts_total: self.block_parts_header.total as int,
            parts_hash: self.block_parts_header.hash@,
            pol_round: self.pol_round as int,
            pol_block: self.pol_block_id@,
            sig: crate::vote::opt_bytes_view(self.signature),
        }
    }
}

impl ProposalModel {
    /// Validity of a proposal: non-negative height and round, a timestamp
    /// with fewer than a billion nanoseconds, bounded byte strings, an empty
    /// parts hash exactly when the part count is zero, a valid
    /// proof-of-lock block reference, and a sixty-four-byte signature where
    /// present.
    pub open spec fn wf(self) -> bool {
        &&& 0 <= self.height <= i64::MAX
        &&& 0 <= self.round <= i64::MAX
        &&& i64::MIN <= self.secs <= i64::MAX
        &&& 0 <= self.nanos < 1_000_000_000
        &&& self.parts_hash.len() <= 0xffffffff
        &&& i64::MIN <= self.parts_total <= i64::MAX
        &&& (self.parts_total == 0 <==> self.parts_hash.len() == 0)
        &&& i64::MIN <= self.pol_round <= i64::MAX
        &&& self.pol_block.wf()
        &&& match self.sig {
            Some(s) => s.len() == 64,
            None => true,
        }
    }
}

/// The mandatory run of proposal fields, each under its key.
pub open spec fn proposal_mid_bytes(p: ProposalModel) -> Seq<u8> {
    seq![PK_HEIGHT] + int64_bytes(p.height) + seq![PK_ROUND] + varint_bytes(p.round) + seq![
        PK_TIME,
    ] + time_struct_bytes(p.secs, p.nanos) + seq![PK_PARTS] + parts_bytes(
        p.parts_total,
        p.parts_hash,
    ) + seq![PK_POLROUND] + varint_bytes(p.pol_round) + seq![PK_POLBLOCK] + block_bytes(
        p.pol_block,
    )
}

/// The fields of the proposal payload struct, the empty signature omitted.
pub open spec fn proposal_fields_bytes(p: ProposalModel) -> Seq<u8> {
    proposal_mid_bytes(p) + (match p.sig {
        None => Seq::<u8>::empty(),
        Some(sg) => seq![PK_SIG] + bytes_enc(sg),
    })
}

/// The body of a proposal message.
pub open spec fn proposal_body_bytes(p: ProposalModel) -> Seq<u8> {
    seq![PROP_DISFIX_0, PROP_DISFIX_1, PROP_DISFIX_2, PROP_DISFIX_3, K_PAYLOAD]
        + proposal_fields_bytes(p) + seq![K_TERM, K_TERM]
}

/// A whole proposal message: the body length as an unsigned varint, then
/// the body.
pub open spec fn proposal_msg_bytes(p: ProposalModel) -> Seq<u8> {
    uvarint_bytes(proposal_body_bytes(p).len()) + proposal_body_bytes(p)
}

impl Proposal {
    /// Encodes the proposal as a complete wire message; the result is
    /// exactly `proposal_msg_bytes` of the proposal's model.
    #[verifier::rlimit(100)]
    pub fn serialize(self) -> (r: Vec<u8>)
        ensures
            r@ == proposal_msg_bytes(self@),
    {
        let mut body: Vec<u8> = Vec::new();
        push_byte(&mut body, PROP_DISFIX_0);
        push_byte(&mut body, PROP_DISFIX_1);
        push_byte(&mut body, PROP_DISFIX_2);
        push_byte(&mut body, PROP_DISFIX_3);
        push_byte(&mut body, K_PAYLOAD);
        let ghost b0 = body@;
        proof {
            assert(b0 =~= seq![
                PROP_DISFIX_0,
                PROP_DISFIX_1,
                PROP_DISFIX_2,
                PROP_DISFIX_3,
                K_PAYLOAD,
            ]);
        }
        push_byte(&mut body, PK_HEIGHT);
        encode_int64(self.height, &mut body);
        push_byte(&mut body, PK_ROUND);
        encode_varint(self.round, &mut body);
        push_byte(&mut body, PK_TIME);
        encode_time(&self.timestamp, &mut body);
        push_byte(&mut body, PK_PARTS);
        encode_parts(&self.block_parts_header, &mut body);
        push_byte(&mut body, PK_POLROUND);
        encode_varint(self.pol_round, &mut body);
        push_byte(&mut body, PK_POLBLOCK);
        encode_block_id(&self.pol_block_id, &mut body);
        let ghost b2 = body@;
        proof {
            assert(b2 =~= b0 + proposal_mid_bytes(self@));
        }
        match &self.signature {
            Some(sg) => {
                push_byte(&mut body, PK_SIG);
                encode_bytes(sg.as_slice(), &mut body);
            },
            None => {},
        }
        proof {
            assert(body@ =~= b0 + proposal_fields_bytes(self@));
        }
        push_byte(&mut body, K_TERM);
        push_byte(&mut body, K_TERM);
        proof {
            assert(body@ =~= proposal_body_bytes(self@));
        }
        let mut out: Vec<u8> = Vec::new();
        encode_uvarint(body.len() as u64, &mut out);
        out.extend_from_slice(body.as_slice());
        proof {
            assert(out@ =~= proposal_msg_bytes(self@));
        }
        out
    }
}

/// Proposal fields from the round on.
pub open spec fn parse_pf_round(s: Seq<u8>, i: int, height: int) -> Result<
    (ProposalModel, int),
    Error,
> {
    match parse_expect(s, i, PK_ROUND) {
        Err(e) => Err(e),
        Ok(_) => match parse_varint(s, i + 1) {
            Err(e) => Err(e),
            Ok((r, c)) => parse_pf_time(s, i + 1 + c, height, r),
        },
    }
}

/// Proposal fields from the timestamp on.
pub open spec fn parse_pf_time(s: Seq<u8>, i: int, height: int, round: int) -> Result<
    (ProposalModel, int),
    Error,
> {
    match parse_expect(s, i, PK_TIME) {
        Err(e) => Err(e),
        Ok(_) => match parse_time(s, i + 1) {
            Err(e) => Err(e),
            Ok(((secs, nanos), j)) => parse_pf_parts(s, j, height, round, secs, nanos),
        },
    }
}

/// Proposal fields from the parts header on.
pub open spec fn parse_pf_parts(
    s: Seq<u8>,
    i: int,
    height: int,
    round: int,
    secs: int,
    nanos: nat,
) -> Result<(ProposalModel, int), Error> {
    match parse_expect(s, i, PK_PARTS) {
        Err(e) => Err(e),
        Ok(_) => match parse_parts(s, i + 1) {
            Err(e) => Err(e),
            Ok(((t, ph), j)) => parse_pf_polround(s, j, height, round, secs, nanos, t, ph),
        },
    }
}

/// Proposal fields from the proof-of-lock round on.
pub open spec fn parse_pf_polround(
    s: Seq<u8>,
    i: int,
    height: int,
    round: int,
    secs: int,
    nanos: nat,
    parts_total: int,
    parts_hash: Seq<u8>,
) -> Result<(ProposalModel, int), Error> {
    match parse_expect(s, i, PK_POLROUND) {
        Err(e) => Err(e),
        Ok(_) => match parse_varint(s, i + 1) {
            Err(e) => Err(e),
            Ok((pr, c)) => parse_pf_polblock(
                s,
                i + 1 + c,
                height,
                round,
                secs,
                nanos,
                parts_total,
                parts_hash,
                pr,
            ),
        },
    }
}

/// Proposal fields from the proof-of-lock block reference on.
pub open spec fn parse_pf_polblock(
    s: Seq<u8>,
    i: int,
    height: int,
    round: int,
    secs: int,
    nanos: nat,
    parts_total: int,
    parts_hash: Seq<u8>,
    pol_round: int,
) -> Result<(ProposalModel, int), Error> {
    match parse_expect(s, i, PK_POLBLOCK) {
        Err(e) => Err(e),
        Ok(_) => match parse_block(s, i + 1) {
            Err(e) => Err(e),
            Ok((b, j)) => parse_pf_sig(
                s,
                j,
                height,
                round,
                secs,
                nanos,
                parts_total,
                parts_hash,
                pol_round,
                b,
            ),
        },
    }
}

/// The optional trailing signature of a proposal.
pub open spec fn parse_pf_sig(
    s: Seq<u8>,
    i: int,
    height: int,
    round: int,
    secs: int,
    nanos: nat,
    parts_total: int,
    parts_hash: Seq<u8>,
    pol_round: int,
    pol_block: BlockIdModel,
) -> Result<(ProposalModel, int), Error> {
    if i < s.len() && s[i] == PK_SIG {
        match parse_bytes(s, i + 1) {
            Err(e) => Err(e),
            Ok((sg, c)) => Ok(
                (
                    ProposalModel {
                        height,
                        round,
                        secs,
                        nanos,
                        parts_total,
                        parts_hash,
                        pol_round,
                        pol_block,
                        sig: Some(sg),
                    },
                    i + 1 + c,
                ),
            ),
        }
    } else {
        Ok(
            (
                ProposalModel {
                    height,
                    round,
                    secs,
                    nanos,
                    parts_total,
                    parts_hash,
                    pol_round,
                    pol_block,
                    sig: None,
                },
                i,
            ),
        )
    }
}

/// Specification-level parse of the proposal payload struct's fields.
pub open spec fn parse_proposal_fields(s: Seq<u8>, i: int) -> Result<(ProposalModel, int), Error> {
    match parse_expect(s, i, PK_HEIGHT) {
        Err(e) => Err(e),
        Ok(_) => match parse_int64(s, i + 1) {
            Err(e) => Err(e),
            Ok((h, _)) => parse_pf_round(s, i + 9, h),
        },
    }
}

/// Specification-level parse of a whole proposal message.
pub open spec fn parse_proposal_msg(s: Seq<u8>) -> Result<ProposalModel, Error> {
    match parse_uvarint(s, 0) {
        Err(e) => Err(e),
        Ok((blen, c0)) => match parse_expect(s, c0, PROP_DISFIX_0) {
            Err(e) => Err(e),
            Ok(_) => match parse_expect(s, c0 + 1, PROP_DISFIX_1) {
                Err(e) => Err(e),
                Ok(_) => match parse_expect(s, c0 + 2, PROP_DISFIX_2) {
                    Err(e) => Err(e),
                    Ok(_) => match parse_expect(s, c0 + 3, PROP_DISFIX_3) {
                        Err(e) => Err(e),
                        Ok(_) => match parse_expect(s, c0 + 4, K_PAYLOAD) {
                            Err(e) => Err(e),
                            Ok(_) => match parse_proposal_fields(s, c0 + 5) {
                                Err(e) => Err(e),
                                Ok((p, j)) => match parse_expect(s, j, K_TERM) {
                                    Err(e) => Err(e),
                                    Ok(_) => match parse_expect(s, j + 1, K_TERM) {
                                        Err(e) => Err(e),
                                        Ok(_) => if j + 2 == s.len() && blen == s.len() - c0 {
                                            Ok(p)
                                        } else {
                                            Err(Error::Truncated)
                                        },
                                    },
                                },
                            },
                        },
                    },
                },
            },
        },
    }
}

/// Reads the fields of the proposal payload struct; the outcome is exactly
/// `parse_proposal_fields`.
#[verifier::rlimit(100)]
fn decode_proposal_fields(data: &[u8], pos: usize) -> (r: Result<(Proposal, usize), Error>)
    requires
        pos <= data@.len(),
    ensures
        match r {
            Ok((p, q)) => pos <= q <= data@.len() && parse_proposal_fields(data@, pos as int)
                == Ok::<(ProposalModel, int), Error>((p@, q as int)),
            Err(e) => parse_proposal_fields(data@, pos as int) == Err::<
                (ProposalModel, int),
                Error,
            >(e),
        },
{
    let q1 = match expect_byte(data, pos, PK_HEIGHT) {
        Ok(p) => p,
        Err(e) => {
            return Err(e);
        },
    };
    let (height, q2) = match decode_int64(data, q1) {
        Ok(v) => v,
        Err(e) => {
            return Err(e);
        },
    };
    assert(parse_proposal_fields(data@, pos as int) == parse_pf_round(
        data@,
        q2 as int,
        height as int,
    ));
    let q3 = match expect_byte(data, q2, PK_ROUND) {
        Ok(p) => p,
        Err(e) => {
            return Err(e);
        },
    };
    let (round, q4) = match decode_varint(data, q3) {
        Ok(v) => v,
        Err(e) => {
            return Err(e);
        },
    };
    assert(parse_pf_round(data@, q2 as int, height as int) == parse_pf_time(
        data@,
        q4 as int,
        height as int,
        round as int,
    ));
    let q5 = match expect_byte(data, q4, PK_TIME) {
        Ok(p) => p,
        Err(e) => {
            return Err(e);
        },
    };
    let (timestamp, q6) = match decode_time(data, q5) {
        Ok(v) => v,
        Err(e) => {
            return Err(e);
        },
    };
    assert(parse_pf_time(data@, q4 as int, height as int, round as int) == parse_pf_parts(
        data@,
        q6 as int,
        height as int,
        round as int,
        timestamp.secs as int,
        timestamp.nanos as nat,
    ));
    let q7 = match expect_byte(data, q6, PK_PARTS) {
        Ok(p) => p,
        Err(e) => {
            return Err(e);
        },
    };
    let (block_parts_header, q8) = match decode_parts(data, q7) {
        Ok(v) => v,
        Err(e) => {
            return Err(e);
        },
    };
    assert(parse_pf_parts(
        data@,
        q6 as int,
        height as int,
        round as int,
        timestamp.secs as int,
        timestamp.nanos as nat,
    ) == parse_pf_polround(
        data@,
        q8 as int,
        height as int,
        round as int,
        timestamp.secs as int,
        timestamp.nanos as nat,
        block_parts_header.total as int,
        block_parts_header.hash@,
    ));
    let q9 = match expect_byte(data, q8, PK_POLROUND) {
        Ok(p) => p,
        Err(e) => {
            return Err(e);
        },
    };
    let (pol_round, q10) = match decode_varint(data, q9) {
        Ok(v) => v,
        Err(e) => {
            return Err(e);
        },
    };
    assert(parse_pf_polround(
        data@,
        q8 as int,
        height as int,
        round as int,
        timestamp.secs as int,
        timestamp.nanos as nat,
        block_parts_header.total as int,
        block_parts_header.hash@,
    ) == parse_pf_polblock(
        data@,
        q10 as int,
        height as int,
        round as int,
        timestamp.secs as int,
        timestamp.nanos as nat,
        block_parts_header.total as int,
        block_parts_header.hash@,
        pol_round as int,
    ));
    let q11 = match expect_byte(data, q10, PK_POLBLOCK) {
        Ok(p) => p,
        Err(e) => {
            return Err(e);
        },
    };
    let (pol_block_id, q12) = match decode_block_id(data, q11) {
        Ok(v) => v,
        Err(e) => {
            return Err(e);
        },
    };
    assert(parse_pf_polblock(
        data@,
        q10 as int,
        height as int,
        round as int,
        timestamp.secs as int,
        timestamp.nanos as nat,
        block_parts_header.total as int,
        block_parts_header.hash@,
        pol_round as int,
    ) == parse_pf_sig(
        data@,
        q12 as int,
        height as int,
        round as int,
        timestamp.secs as int,
        timestamp.nanos as nat,
        block_parts_header.total as int,
        block_parts_header.hash@,
        pol_round as int,
        pol_block_id@,
    ));
    let mut signature: Option<Vec<u8>> = None;
    let mut q13: usize = q12;
    match peek_byte(data, q13) {
        Some(b) if b == PK_SIG => {
            let (sg, p) = match decode_bytes(data, q13 + 1) {
                Ok(v) => v,
                Err(e) => {
                    return Err(e);
                },
            };
            signature = Some(sg);
            q13 = p;
        },
        _ => {},
    }
    let prop = Proposal {
        height,
        round,
        timestamp,
        block_parts_header,
        pol_round,
        pol_block_id,
        signature,
    };
    assert(parse_proposal_fields(data@, pos as int) == Ok::<(ProposalModel, int), Error>(
        (prop@, q13 as int),
    ));
    Ok((prop, q13))
}

impl Proposal {
    /// Decodes a complete wire message into a proposal; the outcome is
    /// exactly `parse_proposal_msg`.
    #[verifier::rlimit(100)]
    pub fn deserialize(data: &[u8]) -> (r: Result<Proposal, Error>)
        ensures
            match r {
                Ok(p) => parse_proposal_msg(data@) == Ok::<ProposalModel, Error>(p@),
                Err(e) => parse_proposal_msg(data@) == Err::<ProposalModel, Error>(e),
            },
    {
        let (blen, c0) = match decode_uvarint(data, 0) {
            Ok(v) => v,
            Err(e) => {
                return Err(e);
            },
        };
        let p1 = match expect_byte(data, c0, PROP_DISFIX_0) {
            Ok(p) => p,
            Err(e) => {
                return Err(e);
            },
        };
        let p2 = match expect_byte(data, p1, PROP_DISFIX_1) {
            Ok(p) => p,
            Err(e) => {
                return Err(e);
            },
        };
        let p3 = match expect_byte(data, p2, PROP_DISFIX_2) {
            Ok(p) => p,
            Err(e) => {
                return Err(e);
            },
        };
        let p4 = match expect_byte(data, p3, PROP_DISFIX_3) {
            Ok(p) => p,
            Err(e) => {
                return Err(e);
            },
        };
        let p5 = match expect_byte(data, p4, K_PAYLOAD) {
            Ok(p) => p,
            Err(e) => {
                return Err(e);
            },
        };
        let (prop, j) = match decode_proposal_fields(data, p5) {
            Ok(v) => v,
            Err(e) => {
                return Err(e);
            },
        };
        let t1 = match expect_byte(data, j, K_TERM) {
            Ok(p) => p,
            Err(e) => {
                return Err(e);
            },
        };
        let t2 = match expect_byte(data, t1, K_TERM) {
            Ok(p) => p,
            Err(e) => {
                return Err(e);
            },
        };
        if t2 != data.len() || blen != ((t2 - c0) as u64) {
            return Err(Error::Truncated);
        }
        Ok(prop)
    }
}

/// First half of the proposal fields: height, round and timestamp.
proof fn lemma_parse_prop_a(s: Seq<u8>, j: int, p: ProposalModel)
    requires
        p.wf(),
        0 <= j,
        j + 26 + varint_bytes(p.round).len() <= s.len(),
        s.subrange(j, j + 1) == seq![PK_HEIGHT],
        s.subrange(j + 1, j + 9) == int64_bytes(p.height),
        s.subrange(j + 9, j + 10) == seq![PK_ROUND],
        s.subrange(j + 10, j + 10 + varint_bytes(p.round).len()) == varint_bytes(p.round),
        s.subrange(
            j + 10 + varint_bytes(p.round).len(),
            j + 11 + varint_bytes(p.round).len(),
        ) == seq![PK_TIME],
        s.subrange(
            j + 11 + varint_bytes(p.round).len(),
            j + 26 + varint_bytes(p.round).len(),
        ) == time_struct_bytes(p.secs, p.nanos),
    ensures
        parse_proposal_fields(s, j) == parse_pf_parts(
            s,
            j + 26 + varint_bytes(p.round).len(),
            p.height,
            p.round,
            p.secs,
            p.nanos,
        ),
{
    let rb = varint_bytes(p.round);
    lemma_int64_bytes_len(p.height);
    assert(s[j] == s.subrange(j, j + 1)[0]);
    assert((p.height as i64) as int == p.height);
    lemma_parse_int64_of_enc(s, j + 1, p.height as i64);
    let j1: int = j + 9;
    assert(parse_proposal_fields(s, j) == parse_pf_round(s, j1, p.height));
    assert(s[j1] == s.subrange(j1, j1 + 1)[0]);
    assert((p.round as i64) as int == p.round);
    lemma_parse_varint_of_enc(s, j1 + 1, p.round as i64);
    let j2: int = j1 + 1 + rb.len();
    assert(parse_pf_round(s, j1, p.height) == parse_pf_time(s, j2, p.height, p.round));
    assert(s[j2] == s.subrange(j2, j2 + 1)[0]);
    assert(((p.secs as i64) as int == p.secs) && ((p.nanos as u32) as nat == p.nanos));
    lemma_parse_time_of_enc(s, j2 + 1, p.secs as i64, p.nanos as u32);
    assert(parse_pf_time(s, j2, p.height, p.round) == parse_pf_parts(
        s,
        j2 + 16,
        p.height,
        p.round,
        p.secs,
        p.nanos,
    ));
}

/// Second half of the proposal fields: parts header, proof-of-lock round
/// and proof-of-lock block reference.
proof fn lemma_parse_prop_b(s: Seq<u8>, q: int, p: ProposalModel)
    requires
        p.wf(),
        0 <= q,
        q + 3 + parts_bytes(p.parts_total, p.parts_hash).len() + varint_bytes(p.pol_round).len()
            + block_bytes(p.pol_block).len() <= s.len(),
        s.subrange(q, q + 1) == seq![PK_PARTS],
        s.subrange(q + 1, q + 1 + parts_bytes(p.parts_total, p.parts_hash).len()) == parts_bytes(
            p.parts_total,
            p.parts_hash,
        ),
        s.subrange(
            q + 1 + parts_bytes(p.parts_total, p.parts_hash).len(),
            q + 2 + parts_bytes(p.parts_total, p.parts_hash).len(),
        ) == seq![PK_POLROUND],
        s.subrange(
            q + 2 + parts_bytes(p.parts_total, p.parts_hash).len(),
            q + 2 + parts_bytes(p.parts_total, p.parts_hash).len() + varint_bytes(
                p.pol_round,
            ).len(),
        ) == varint_bytes(p.pol_round),
        s.subrange(
            q + 2 + parts_bytes(p.parts_total, p.parts_hash).len() + varint_bytes(
                p.pol_round,
            ).len(),
            q + 3 + parts_bytes(p.parts_total, p.parts_hash).len() + varint_bytes(
                p.pol_round,
            ).len(),
        ) == seq![PK_POLBLOCK],
        s.subrange(
            q + 3 + parts_bytes(p.parts_total, p.parts_hash).len() + varint_bytes(
                p.pol_round,
            ).len(),
            q + 3 + parts_bytes(p.parts_total, p.parts_hash).len() + varint_bytes(
                p.pol_round,
            ).len() + block_bytes(p.pol_block).len(),
        ) == block_bytes(p.pol_block),
    ensures
        parse_pf_parts(s, q, p.height, p.round, p.secs, p.nanos) == parse_pf_sig(
            s,
            q + 3 + parts_bytes(p.parts_total, p.parts_hash).len() + varint_bytes(
                p.pol_round,
            ).len() + block_bytes(p.pol_block).len(),
            p.height,
            p.round,
            p.secs,
            p.nanos,
            p.parts_total,
            p.parts_hash,
            p.pol_round,
            p.pol_block,
        ),
{
    let pb = parts_bytes(p.parts_total, p.parts_hash);
    let prb = varint_bytes(p.pol_round);
    let bb = block_bytes(p.pol_block);
    assert(s[q] == s.subrange(q, q + 1)[0]);
    lemma_parse_parts_of_enc(s, q + 1, p.parts_total, p.parts_hash);
    let j1: int = q + 1 + pb.len();
    assert(parse_pf_parts(s, q, p.height, p.round, p.secs, p.nanos) == parse_pf_polround(
        s,
        j1,
        p.height,
        p.round,
        p.secs,
        p.nanos,
        p.parts_total,
        p.parts_hash,
    ));
    assert(s[j1] == s.subrange(j1, j1 + 1)[0]);
    assert((p.pol_round as i64) as int == p.pol_round);
    lemma_parse_varint_of_enc(s, j1 + 1, p.pol_round as i64);
    let j2: int = j1 + 1 + prb.len();
    assert(parse_pf_polround(
        s,
        j1,
        p.height,
        p.round,
        p.secs,
        p.nanos,
        p.parts_total,
        p.parts_hash,
    ) == parse_pf_polblock(
        s,
        j2,
        p.height,
        p.round,
        p.secs,
        p.nanos,
        p.parts_total,
        p.parts_hash,
        p.pol_round,
    ));
    assert(s[j2] == s.subrange(j2, j2 + 1)[0]);
    lemma_parse_block_of_enc(s, j2 + 1, p.pol_block);
    assert(parse_pf_polblock(
        s,
        j2,
        p.height,
        p.round,
        p.secs,
        p.nanos,
        p.parts_total,
        p.parts_hash,
        p.pol_round,
    ) == parse_pf_sig(
        s,
        j2 + 1 + bb.len(),
        p.height,
        p.round,
        p.secs,
        p.nanos,
        p.parts_total,
        p.parts_hash,
        p.pol_round,
        p.pol_block,
    ));
}

/// Parsing inverts encoding for the proposal payload fields.  The caller
/// promises that when the proposal is unsigned, the byte after the fields
/// (if any) is not the signature key.
#[verifier::rlimit(100)]
proof fn lemma_parse_proposal_fields_of_enc(s: Seq<u8>, i: int, p: ProposalModel)
    requires
        p.wf(),
        0 <= i,
        i + proposal_fields_bytes(p).len() <= s.len(),
        s.subrange(i, i + proposal_fields_bytes(p).len()) == proposal_fields_bytes(p),
        p.sig is None ==> (i + proposal_fields_bytes(p).len() == s.len() || s[i
            + proposal_fields_bytes(p).len()] != PK_SIG),
    ensures
        parse_proposal_fields(s, i) == Ok::<(ProposalModel, int), Error>(
            (p, i + proposal_fields_bytes(p).len()),
        ),
{
    let hb = int64_bytes(p.height);
    let rb = varint_bytes(p.round);
    let tb = time_struct_bytes(p.secs, p.nanos);
    let pb = parts_bytes(p.parts_total, p.parts_hash);
    let prb = varint_bytes(p.pol_round);
    let bb = block_bytes(p.pol_block);
    let sseg: Seq<u8> = match p.sig {
        None => Seq::empty(),
        Some(sg) => seq![PK_SIG] + bytes_enc(sg),
    };
    let len = proposal_fields_bytes(p).len() as int;
    lemma_int64_bytes_len(p.height);
    crate::codec::lemma_u32_bytes_len(p.nanos);
    lemma_int64_bytes_len(p.secs);
    let p1 = seq![PK_HEIGHT];
    let p2 = p1 + hb;
    let p3 = p2 + seq![PK_ROUND];
    let p4 = p3 + rb;
    let p5 = p4 + seq![PK_TIME];
    let p6 = p5 + tb;
    let p7 = p6 + seq![PK_PARTS];
    let p8 = p7 + pb;
    let p9 = p8 + seq![PK_POLROUND];
    let p10 = p9 + prb;
    let p11 = p10 + seq![PK_POLBLOCK];
    assert(proposal_mid_bytes(p) == p11 + bb);
    lemma_subrange_split(s, i, proposal_mid_bytes(p), sseg);
    lemma_subrange_split(s, i, p11, bb);
    lemma_subrange_split(s, i, p10, seq![PK_POLBLOCK]);
    lemma_subrange_split(s, i, p9, prb);
    lemma_subrange_split(s, i, p8, seq![PK_POLROUND]);
    lemma_subrange_split(s, i, p7, pb);
    lemma_subrange_split(s, i, p6, seq![PK_PARTS]);
    lemma_subrange_split(s, i, p5, tb);
    lemma_subrange_split(s, i, p4, seq![PK_TIME]);
    lemma_subrange_split(s, i, p3, rb);
    lemma_subrange_split(s, i, p2, seq![PK_ROUND]);
    lemma_subrange_split(s, i, p1, hb);
    lemma_parse_prop_a(s, i, p);
    let q: int = i + 26 + rb.len();
    lemma_parse_prop_b(s, q, p);
    let j6: int = q + 3 + pb.len() + prb.len() + bb.len();
    match p.sig {
        Some(sg) => {
            lemma_subrange_split(s, j6, seq![PK_SIG], bytes_enc(sg));
            assert(s[j6] == s.subrange(j6, j6 + 1)[0]);
            lemma_parse_bytes_of_enc(s, j6 + 1, sg);
            assert(j6 + 1 + bytes_enc(sg).len() == i + len);
            assert(p == ProposalModel {
                height: p.height,
                round: p.round,
                secs: p.secs,
                nanos: p.nanos,
                parts_total: p.parts_total,
                parts_hash: p.parts_hash,
                pol_round: p.pol_round,
                pol_block: p.pol_block,
                sig: Some(sg),
            });
        },
        None => {
            assert(j6 == i + len);
            assert(p == ProposalModel {
                height: p.height,
                round: p.round,
                secs: p.secs,
                nanos: p.nanos,
                parts_total: p.parts_total,
                parts_hash: p.parts_hash,
                pol_round: p.pol_round,
                pol_block: p.pol_block,
                sig: None,
            });
        },
    }
}

/// The body of a well-formed proposal message is comfortably shorter than
/// what a 64-bit length prefix can carry.
pub proof fn lemma_proposal_body_len(p: ProposalModel)
    requires
        p.wf(),
    ensures
        proposal_body_bytes(p).len() < 0x500000000,
{
    lemma_int64_bytes_len(p.height);
    assert(zigzag(p.round) < 0x10000000000000000);
    lemma_uvarint_bytes_len(zigzag(p.round));
    lemma_int64_bytes_len(p.secs);
    crate::codec::lemma_u32_bytes_len(p.nanos);
    assert(zigzag(p.parts_total) < 0x10000000000000000);
    lemma_uvarint_bytes_len(zigzag(p.parts_total));
    lemma_uvarint_bytes_len(p.parts_hash.len());
    assert(zigzag(p.pol_round) < 0x10000000000000000);
    lemma_uvarint_bytes_len(zigzag(p.pol_round));
    lemma_uvarint_bytes_len(p.pol_block.hash.len());
    assert(zigzag(p.pol_block.parts_total) < 0x10000000000000000);
    lemma_uvarint_bytes_len(zigzag(p.pol_block.parts_total));
    lemma_uvarint_bytes_len(p.pol_block.parts_hash.len());
    match p.sig {
        Some(sg) => {
            lemma_uvarint_bytes_len(sg.len());
        },
        None => {},
    }
}

/// Layout of an encoded proposal message: where the length prefix, the
/// registered-name prefix, the fields and the terminators sit.
proof fn lemma_proposal_msg_layout(p: ProposalModel)
    requires
        p.wf(),
    ensures
        ({
            let s = proposal_msg_bytes(p);
            let c0 = uvarint_bytes(proposal_body_bytes(p).len()).len() as int;
            let fields = proposal_fields_bytes(p);
            let jt = c0 + 5 + fields.len();
            &&& proposal_body_bytes(p).len() < 0x500000000
            &&& parse_uvarint(s, 0) == Ok::<(u64, int), Error>(
                (proposal_body_bytes(p).len() as u64, c0),
            )
            &&& s.len() == jt + 2
            &&& s[c0] == PROP_DISFIX_0
            &&& s[c0 + 1] == PROP_DISFIX_1
            &&& s[c0 + 2] == PROP_DISFIX_2
            &&& s[c0 + 3] == PROP_DISFIX_3
            &&& s[c0 + 4] == K_PAYLOAD
            &&& s.subrange(c0 + 5, jt) == fields
            &&& s[jt] == K_TERM
            &&& s[jt + 1] == K_TERM
        }),
{
    let body = proposal_body_bytes(p);
    let bl = body.len();
    lemma_proposal_body_len(p);
    let s = proposal_msg_bytes(p);
    let ub = uvarint_bytes(bl);
    lemma_uvarint_bytes_len(bl);
    assert(s.subrange(0, s.len() as int) =~= s);
    lemma_subrange_split(s, 0, ub, body);
    assert((bl as u64) as nat == bl);
    lemma_parse_uvarint_of_enc(s, 0, bl as u64);
    let c0 = ub.len() as int;
    let head = seq![PROP_DISFIX_0, PROP_DISFIX_1, PROP_DISFIX_2, PROP_DISFIX_3, K_PAYLOAD];
    let fields = proposal_fields_bytes(p);
    assert(body == head + fields + seq![K_TERM, K_TERM]);
    lemma_subrange_split(s, c0, head + fields, seq![K_TERM, K_TERM]);
    lemma_subrange_split(s, c0, head, fields);
    assert(s[c0] == s.subrange(c0, c0 + head.len())[0]);
    assert(s[c0 + 1] == s.subrange(c0, c0 + head.len())[1]);
    assert(s[c0 + 2] == s.subrange(c0, c0 + head.len())[2]);
    assert(s[c0 + 3] == s.subrange(c0, c0 + head.len())[3]);
    assert(s[c0 + 4] == s.subrange(c0, c0 + head.len())[4]);
    let jt = c0 + 5 + fields.len();
    assert(s[jt] == s.subrange(jt, jt + 2)[0]);
    assert(s[jt + 1] == s.subrange(jt, jt + 2)[1]);
}

/// Round trip: decoding the encoding of any well-formed proposal yields
/// that proposal again.
pub proof fn lemma_proposal_round_trip(p: ProposalModel)
    requires
        p.wf(),
    ensures
        parse_proposal_msg(proposal_msg_bytes(p)) == Ok::<ProposalModel, Error>(p),
{
    lemma_proposal_msg_layout(p);
    let s = proposal_msg_bytes(p);
    let bl = proposal_body_bytes(p).len();
    let c0 = uvarint_bytes(bl).len() as int;
    let fields = proposal_fields_bytes(p);
    let jt = c0 + 5 + fields.len();
    assert(s[jt] != PK_SIG);
    lemma_parse_proposal_fields_of_enc(s, c0 + 5, p);
    assert(parse_expect(s, c0, PROP_DISFIX_0) == Ok::<int, Error>(1));
    assert(parse_expect(s, c0 + 1, PROP_DISFIX_1) == Ok::<int, Error>(1));
    assert(parse_expect(s, c0 + 2, PROP_DISFIX_2) == Ok::<int, Error>(1));
    assert(parse_expect(s, c0 + 3, PROP_DISFIX_3) == Ok::<int, Error>(1));
    assert(parse_expect(s, c0 + 4, K_PAYLOAD) == Ok::<int, Error>(1));
    assert(parse_proposal_fields(s, c0 + 5) == Ok::<(ProposalModel, int), Error>((p, jt)));
    assert(parse_expect(s, jt, K_TERM) == Ok::<int, Error>(1));
    assert(parse_expect(s, jt + 1, K_TERM) == Ok::<int, Error>(1));
    assert(jt + 2 == s.len());
    assert(bl == s.len() - c0);
}

} // verus!

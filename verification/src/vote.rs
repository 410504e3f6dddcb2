//! The consensus vote record and its canonical wire form.
//!
//! A vote travels as `uvarint(body_len) || body`, where the body opens with
//! the four-byte registered-name prefix of the vote message (its low nibble
//! carrying the outer struct tag), holds one payload struct with the vote's
//! fields in ascending field-number order — optional fields that are empty
//! are omitted entirely — and closes with two struct terminators.
//! `vote_msg_bytes` fixes every byte of that form; `parse_vote_msg` is the
//! specification-level inverse, and `lemma_vote_round_trip` proves that it
//! inverts the encoder on every well-formed vote.

use vstd::prelude::*;
use crate::codec::{
    bytes_enc, encode_bytes, encode_int64, encode_u32, encode_uvarint, encode_varint, int64_bytes,
    u32_bytes, uvarint_bytes, varint_bytes, parse_bytes, parse_expect, parse_int64, parse_u32,
    parse_uvarint, parse_varint, decode_bytes, decode_int64, decode_u32, decode_uvarint,
    decode_varint, expect_byte, peek_byte, lemma_parse_bytes_of_enc, lemma_parse_int64_of_enc,
    lemma_parse_u32_of_enc, lemma_parse_uvarint_of_enc, lemma_parse_varint_of_enc,
    lemma_subrange_split, lemma_uvarint_bytes_len, lemma_int64_bytes_len,
    lemma_u32_bytes_len, zigzag,
};
use crate::error::Error;

verus! {

/// Key of vote field 1 (validator address, length-prefixed bytes).
pub const K_ADDR: u8 = 0x0a;
/// Key of vote field 2 (validator index, varint).
pub const K_INDEX: u8 = 0x10;
/// Key of vote field 3 (height, eight bytes).
pub const K_HEIGHT: u8 = 0x19;
/// Key of vote field 4 (round, varint).
pub const K_ROUND: u8 = 0x20;
/// Key of vote field 5 (timestamp, struct).
pub const K_TIME: u8 = 0x2b;
/// Key of vote field 6 (vote type, varint).
pub const K_VTYPE: u8 = 0x30;
/// Key of vote field 7 (block reference, struct).
pub const K_BLOCK: u8 = 0x3b;
/// Key of vote field 8 (signature, interface).
pub const K_SIG: u8 = 0x47;
/// Key of timestamp field 1 (seconds, eight bytes).
pub const K_SECS: u8 = 0x09;
/// Key of timestamp field 2 (nanoseconds, four bytes).
pub const K_NANOS: u8 = 0x15;
/// Key of block field 1 (hash, length-prefixed bytes).
pub const K_BHASH: u8 = 0x0a;
/// Key of block field 2 (parts header, struct).
pub const K_PARTS: u8 = 0x13;
/// Key of parts field 1 (total, varint).
pub const K_PTOTAL: u8 = 0x08;
/// Key of parts field 2 (hash, length-prefixed bytes).
pub const K_PHASH: u8 = 0x12;
/// Key that opens the payload struct (field 1, struct).
pub const K_PAYLOAD: u8 = 0x0b;
/// The struct terminator byte.
pub const K_TERM: u8 = 0x04;

/// First byte of the registered-name prefix of a vote message.
pub const VOTE_DISFIX_0: u8 = 0x6c;
/// Second byte of the registered-name prefix of a vote message.
pub const VOTE_DISFIX_1: u8 = 0x1d;
/// Third byte of the registered-name prefix of a vote message.
pub const VOTE_DISFIX_2: u8 = 0x3a;
/// Fourth byte of the registered-name prefix of a vote message, with the
/// outer struct tag folded into its low nibble.
pub const VOTE_DISFIX_3: u8 = 0x33;

/// A wall-clock UTC instant with nanosecond precision, as seconds since the
/// Unix epoch plus additional nanoseconds.
#[derive(Clone, Copy, Debug, PartialEq)]
pub struct Instant {
    /// Seconds since the Unix epoch.
    pub secs: i64,
    /// Additional nanoseconds; always below one billion.
    pub nanos: u32,
}

/// Header describing how a block is split into parts.
#[derive(Clone, Debug, PartialEq)]
pub struct PartsSetHeader {
    /// Number of parts; zero exactly when the header is nil.
    pub total: i64,
    /// Hash over the parts; empty exactly when `total` is zero.
    pub hash: Vec<u8>,
}

/// Compact content-addressed reference to a block.
#[derive(Clone, Debug, PartialEq)]
pub struct BlockID {
    /// The block hash; may be empty for a nil reference.
    pub hash: Vec<u8>,
    /// The parts header.
    pub parts_header: PartsSetHeader,
}

/// The two kinds of consensus vote.
#[derive(Clone, Copy, Debug, PartialEq, Eq, Structural)]
pub enum VoteType {
    /// The first voting phase of a round.
    PreVote,
    /// The second, committing phase of a round.
    PreCommit,
}

/// The wire byte of a vote type: 1 for a prevote, 2 for a precommit.
pub open spec fn vote_type_int(vt: VoteType) -> int {
    match vt {
        VoteType::PreVote => 1,
        VoteType::PreCommit => 2,
    }
}

/// The single-character form of a vote type, used by the canonical JSON.
pub fn vote_type_to_char(vt: VoteType) -> (r: char)
    ensures
        r as int == vote_type_int(vt),
{
    match vt {
        VoteType::PreVote => 0x01 as char,
        VoteType::PreCommit => 0x02 as char,
    }
}

/// The vote type named by a character, if any.
pub fn char_to_vote_type(data: char) -> (r: Result<VoteType, Error>)
    ensures
        match r {
            Ok(vt) => vote_type_int(vt) == data as int,
            Err(e) => e == Error::InvalidVoteType && data as int != 1 && data as int != 2,
        },
{
    match data {
        '\u{1}' => Ok(VoteType::PreVote),
        '\u{2}' => Ok(VoteType::PreCommit),
        _ => Err(Error::InvalidVoteType),
    }
}

/// A validator's signed opinion on a block at a height and round.
#[derive(Clone, Debug, PartialEq)]
pub struct Vote {
    /// Address of the voting validator (twenty bytes, or empty).
    pub validator_address: Vec<u8>,
    /// Index of the validator in the validator set.
    pub validator_index: i64,
    /// Block height the vote is about.
    pub height: i64,
    /// Consensus round the vote is about.
    pub round: i64,
    /// When the vote was cast.
    pub timestamp: Instant,
    /// Whether this is a prevote or a precommit.
    pub vote_type: VoteType,
    /// The block the vote refers to.
    pub block_id: BlockID,
    /// Detached signature (sixty-four bytes), present once the vote is
    /// signed.
    pub signature: Option<Vec<u8>>,
}

/// Mathematical model of a block reference.
pub struct BlockIdModel {
    /// The block hash bytes.
    pub hash: Seq<u8>,
    /// Number of parts.
    pub parts_total: int,
    /// Hash over the parts.
    pub parts_hash: Seq<u8>,
}

/// Mathematical model of a vote.
pub struct VoteModel {
    /// Validator address bytes.
    pub addr: Seq<u8>,
    /// Validator index.
    pub index: int,
    /// Block height.
    pub height: int,
    /// Consensus round.
    pub round: int,
    /// Seconds since the Unix epoch.
    pub secs: int,
    /// Additional nanoseconds.
    pub nanos: nat,
    /// Vote type as its wire value (1 or 2).
    pub vote_type: int,
    /// The block reference.
    pub block: BlockIdModel,
    /// Signature bytes, if the vote is signed.
    pub sig: Option<Seq<u8>>,
}

impl View for BlockID {
    type V = BlockIdModel;

    open spec fn view(&self) -> BlockIdModel {
        BlockIdModel {
            hash: self.hash@,
            parts_total: self.parts_header.total as int,
            parts_hash: self.parts_header.hash@,
        }
    }
}

/// The model of an optional byte vector.
pub open spec fn opt_bytes_view(o: Option<Vec<u8>>) -> Option<Seq<u8>> {
    match o {
        Some(v) => Some(v@),
        None => None,
    }
}

impl View for Vote {
    type V = VoteModel;

    open spec fn view(&self) -> VoteModel {
        VoteModel {
            addr: self.validator_address@,
            index: self.validator_index as int,
            height: self.height as int,
            round: self.round as int,
            secs: self.timestamp.secs as int,
            nanos: self.timestamp.nanos as nat,
            vote_type: vote_type_int(self.vote_type),
            block: self.block_id@,
            sig: opt_bytes_view(self.signature),
        }
    }
}

impl BlockIdModel {
    /// Validity of a block reference: bounded byte strings, a part count
    /// that fits its wire field, and an empty parts hash exactly when the
    /// part count is zero.
    pub open spec fn wf(self) -> bool {
        &&& self.hash.len() <= 0xffffffff
        &&& self.parts_hash.len() <= 0xffffffff
        &&& i64::MIN <= self.parts_total <= i64::MAX
        &&& (self.parts_total == 0 <==> self.parts_hash.len() == 0)
    }
}

impl VoteModel {
    /// Validity of a vote: the address is absent or twenty bytes, height and
    /// round are non-negative, the timestamp carries fewer than a billion
    /// nanoseconds, the vote type is 1 or 2, the block reference is valid,
    /// and a signature — if present — is sixty-four bytes.
    pub open spec fn wf(self) -> bool {
        &&& self.addr.len() == 0 || self.addr.len() == 20
        &&& i64::MIN <= self.index <= i64::MAX
        &&& 0 <= self.height <= i64::MAX
        &&& 0 <= self.round <= i64::MAX
        &&& i64::MIN <= self.secs <= i64::MAX
        &&& 0 <= self.nanos < 1_000_000_000
        &&& (self.vote_type == 1 || self.vote_type == 2)
        &&& self.block.wf()
        &&& match self.sig {
            Some(s) => s.len() == 64,
            None => true,
        }
    }
}

impl Vote {
    /// Validity of a vote record; see `VoteModel::wf`.
    pub open spec fn wf(&self) -> bool {
        self@.wf()
    }
}

/// The timestamp struct: seconds as eight big-endian bytes, nanoseconds as
/// four, each under its field key, closed by a struct terminator.
pub open spec fn time_struct_bytes(secs: int, nanos: nat) -> Seq<u8> {
    seq![K_SECS] + int64_bytes(secs) + seq![K_NANOS] + u32_bytes(nanos) + seq![K_TERM]
}

/// The contents of a parts header struct (after its own field key).
pub open spec fn parts_bytes(total: int, hash: Seq<u8>) -> Seq<u8> {
    seq![K_PTOTAL] + varint_bytes(total) + (if hash.len() == 0 {
        Seq::<u8>::empty()
    } else {
        seq![K_PHASH] + bytes_enc(hash)
    }) + seq![K_TERM]
}

/// The contents of a block reference struct (after its own field key).
pub open spec fn block_bytes(b: BlockIdModel) -> Seq<u8> {
    (if b.hash.len() == 0 {
        Seq::<u8>::empty()
    } else {
        seq![K_BHASH] + bytes_enc(b.hash)
    }) + seq![K_PARTS] + parts_bytes(b.parts_total, b.parts_hash) + seq![K_TERM]
}

/// The mandatory middle run of vote fields: index, height, round,
/// timestamp, vote type and block reference, each under its key.
pub open spec fn vote_mid_bytes(v: VoteModel) -> Seq<u8> {
    seq![K_INDEX] + varint_bytes(v.index) + seq![K_HEIGHT] + int64_bytes(v.height) + seq![
        K_ROUND,
    ] + varint_bytes(v.round) + seq![K_TIME] + time_struct_bytes(v.secs, v.nanos) + seq![K_VTYPE]
        + uvarint_bytes(v.vote_type as nat) + seq![K_BLOCK] + block_bytes(v.block)
}

/// The fields of the vote payload struct, in ascending field-number order,
/// empty optional fields omitted.
pub open spec fn vote_fields_bytes(v: VoteModel) -> Seq<u8> {
    (if v.addr.len() == 0 {
        Seq::<u8>::empty()
    } else {
        seq![K_ADDR] + bytes_enc(v.addr)
    }) + vote_mid_bytes(v) + (match v.sig {
        None => Seq::<u8>::empty(),
        Some(sg) => seq![K_SIG] + bytes_enc(sg),
    })
}

/// The body of a vote message: registered-name prefix, payload struct, two
/// struct terminators.
pub open spec fn vote_body_bytes(v: VoteModel) -> Seq<u8> {
    seq![VOTE_DISFIX_0, VOTE_DISFIX_1, VOTE_DISFIX_2, VOTE_DISFIX_3, K_PAYLOAD]
        + vote_fields_bytes(v) + seq![K_TERM, K_TERM]
}

/// A whole vote message: the body length as an unsigned varint, then the
/// body.
pub open spec fn vote_msg_bytes(v: VoteModel) -> Seq<u8> {
    uvarint_bytes(vote_body_bytes(v).len()) + vote_body_bytes(v)
}

/// Appends one byte to the buffer.
pub fn push_byte(out: &mut Vec<u8>, b: u8)
    ensures
        final(out)@ == old(out)@ + seq![b],
{
    let ghost pre = out@;
    out.push(b);
    proof {
        assert(out@ =~= pre + seq![b]);
    }
}

/// Appends the timestamp struct for `t` to `out`.
pub fn encode_time(t: &Instant, out: &mut Vec<u8>)
    ensures
        final(out)@ == old(out)@ + time_struct_bytes(t.secs as int, t.nanos as nat),
{
    push_byte(out, K_SECS);
    encode_int64(t.secs, out);
    push_byte(out, K_NANOS);
    encode_u32(t.nanos, out);
    push_byte(out, K_TERM);
    proof {
        assert(out@ =~= old(out)@ + time_struct_bytes(t.secs as int, t.nanos as nat));
    }
}

/// Appends the parts header struct contents for `h` to `out`.
pub fn encode_parts(h: &PartsSetHeader, out: &mut Vec<u8>)
    ensures
        final(out)@ == old(out)@ + parts_bytes(h.total as int, h.hash@),
{
    push_byte(out, K_PTOTAL);
    encode_varint(h.total, out);
    if h.hash.len() > 0 {
        push_byte(out, K_PHASH);
        encode_bytes(h.hash.as_slice(), out);
    }
    push_byte(out, K_TERM);
    proof {
        assert(out@ =~= old(out)@ + parts_bytes(h.total as int, h.hash@));
    }
}

/// Reads a parts header struct's contents; the outcome is exactly
/// `parse_parts`.
pub fn decode_parts(data: &[u8], pos: usize) -> (r: Result<(PartsSetHeader, usize), Error>)
    requires
        pos <= data@.len(),
    ensures
        match r {
            Ok((h, p)) => pos <= p <= data@.len() && parse_parts(data@, pos as int) == Ok::<
                ((int, Seq<u8>), int),
                Error,
            >(((h.total as int, h.hash@), p as int)),
            Err(e) => parse_parts(data@, pos as int) == Err::<((int, Seq<u8>), int), Error>(e),
        },
{
    let p1 = match expect_byte(data, pos, K_PTOTAL) {
        Ok(p) => p,
        Err(e) => {
            return Err(e);
        },
    };
    let (total, p2) = match decode_varint(data, p1) {
        Ok(v) => v,
        Err(e) => {
            return Err(e);
        },
    };
    let mut hash: Vec<u8> = Vec::new();
    let mut cur: usize = p2;
    match peek_byte(data, cur) {
        Some(b) if b == K_PHASH => {
            let (h, p) = match decode_bytes(data, cur + 1) {
                Ok(v) => v,
                Err(e) => {
                    return Err(e);
                },
            };
            hash = h;
            cur = p;
        },
        _ => {},
    }
    let p3 = match expect_byte(data, cur, K_TERM) {
        Ok(p) => p,
        Err(e) => {
            return Err(e);
        },
    };
    Ok((PartsSetHeader { total, hash }, p3))
}

/// Appends the block reference struct contents for `b` to `out`.
pub fn encode_block_id(b: &BlockID, out: &mut Vec<u8>)
    ensures
        final(out)@ == old(out)@ + block_bytes(b@),
{
    if b.hash.len() > 0 {
        push_byte(out, K_BHASH);
        encode_bytes(b.hash.as_slice(), out);
    }
    push_byte(out, K_PARTS);
    push_byte(out, K_PTOTAL);
    encode_varint(b.parts_header.total, out);
    if b.parts_header.hash.len() > 0 {
        push_byte(out, K_PHASH);
        encode_bytes(b.parts_header.hash.as_slice(), out);
    }
    push_byte(out, K_TERM);
    push_byte(out, K_TERM);
    proof {
        assert(out@ =~= old(out)@ + block_bytes(b@));
    }
}

impl Vote {
    /// Encodes the vote as a complete wire message; the result is exactly
    /// `vote_msg_bytes` of the vote's model.
    #[verifier::rlimit(100)]
    pub fn serialize(self) -> (r: Vec<u8>)
        ensures
            r@ == vote_msg_bytes(self@),
    {
        let mut body: Vec<u8> = Vec::new();
        push_byte(&mut body, VOTE_DISFIX_0);
        push_byte(&mut body, VOTE_DISFIX_1);
        push_byte(&mut body, VOTE_DISFIX_2);
        push_byte(&mut body, VOTE_DISFIX_3);
        push_byte(&mut body, K_PAYLOAD);
        let ghost b0 = body@;
        proof {
            assert(b0 =~= seq![
                VOTE_DISFIX_0,
                VOTE_DISFIX_1,
                VOTE_DISFIX_2,
                VOTE_DISFIX_3,
                K_PAYLOAD,
            ]);
        }
        if self.validator_address.len() > 0 {
            push_byte(&mut body, K_ADDR);
            encode_bytes(self.validator_address.as_slice(), &mut body);
        }
        let ghost b1 = body@;
        proof {
            assert(b1 =~= b0 + (if self@.addr.len() == 0 {
                Seq::<u8>::empty()
            } else {
                seq![K_ADDR] + bytes_enc(self@.addr)
            }));
        }
        push_byte(&mut body, K_INDEX);
        encode_varint(self.validator_index, &mut body);
        push_byte(&mut body, K_HEIGHT);
        encode_int64(self.height, &mut body);
        push_byte(&mut body, K_ROUND);
        encode_varint(self.round, &mut body);
        push_byte(&mut body, K_TIME);
        encode_time(&self.timestamp, &mut body);
        push_byte(&mut body, K_VTYPE);
        let vt: u64 = match self.vote_type {
            VoteType::PreVote => 1,
            VoteType::PreCommit => 2,
        };
        encode_uvarint(vt, &mut body);
        push_byte(&mut body, K_BLOCK);
        encode_block_id(&self.block_id, &mut body);
        let ghost b2 = body@;
        proof {
            assert(b2 =~= b1 + vote_mid_bytes(self@));
        }
        match &self.signature {
            Some(sg) => {
                push_byte(&mut body, K_SIG);
                encode_bytes(sg.as_slice(), &mut body);
            },
            None => {},
        }
        proof {
            assert(body@ =~= b0 + vote_fields_bytes(self@));
        }
        push_byte(&mut body, K_TERM);
        push_byte(&mut body, K_TERM);
        proof {
            assert(body@ =~= vote_body_bytes(self@));
        }
        let mut out: Vec<u8> = Vec::new();
        encode_uvarint(body.len() as u64, &mut out);
        out.extend_from_slice(body.as_slice());
        proof {
            assert(out@ =~= vote_msg_bytes(self@));
        }
        out
    }
}

/// Specification-level parse of a timestamp struct at `i`; yields the
/// seconds, the nanoseconds and the position just past the terminator.
pub open spec fn parse_time(s: Seq<u8>, i: int) -> Result<((int, nat), int), Error> {
    match parse_expect(s, i, K_SECS) {
        Err(e) => Err(e),
        Ok(_) => match parse_int64(s, i + 1) {
            Err(e) => Err(e),
            Ok((secs, _)) => match parse_expect(s, i + 9, K_NANOS) {
                Err(e) => Err(e),
                Ok(_) => match parse_u32(s, i + 10) {
                    Err(e) => Err(e),
                    Ok((nanos, _)) => match parse_expect(s, i + 14, K_TERM) {
                        Err(e) => Err(e),
                        Ok(_) => Ok(((secs, nanos), i + 15)),
                    },
                },
            },
        },
    }
}

/// Specification-level parse of a parts header struct's contents: the part
/// count, then — only if the next byte is its key — the parts hash, then the
/// terminator.
pub open spec fn parse_parts(s: Seq<u8>, i: int) -> Result<((int, Seq<u8>), int), Error> {
    match parse_expect(s, i, K_PTOTAL) {
        Err(e) => Err(e),
        Ok(_) => match parse_varint(s, i + 1) {
            Err(e) => Err(e),
            Ok((total, c)) => {
                let j = i + 1 + c;
                if j < s.len() && s[j] == K_PHASH {
                    match parse_bytes(s, j + 1) {
                        Err(e) => Err(e),
                        Ok((h, c2)) => match parse_expect(s, j + 1 + c2, K_TERM) {
                            Err(e) => Err(e),
                            Ok(_) => Ok(((total, h), j + 2 + c2)),
                        },
                    }
                } else {
                    match parse_expect(s, j, K_TERM) {
                        Err(e) => Err(e),
                        Ok(_) => Ok(((total, Seq::empty()), j + 1)),
                    }
                }
            },
        },
    }
}

/// Tail of a block reference after its optional hash field.
pub open spec fn parse_block_tail(s: Seq<u8>, i: int, hash: Seq<u8>) -> Result<
    (BlockIdModel, int),
    Error,
> {
    match parse_expect(s, i, K_PARTS) {
        Err(e) => Err(e),
        Ok(_) => match parse_parts(s, i + 1) {
            Err(e) => Err(e),
            Ok(((total, ph), j)) => match parse_expect(s, j, K_TERM) {
                Err(e) => Err(e),
                Ok(_) => Ok((BlockIdModel { hash, parts_total: total, parts_hash: ph }, j + 1)),
            },
        },
    }
}

/// Specification-level parse of a block reference struct's contents.
pub open spec fn parse_block(s: Seq<u8>, i: int) -> Result<(BlockIdModel, int), Error> {
    if i < s.len() && s[i] == K_BHASH {
        match parse_bytes(s, i + 1) {
            Err(e) => Err(e),
            Ok((h, c)) => parse_block_tail(s, i + 1 + c, h),
        }
    } else {
        parse_block_tail(s, i, Seq::empty())
    }
}

/// Vote fields from the validator index on.
pub open spec fn parse_vf_index(s: Seq<u8>, i: int, addr: Seq<u8>) -> Result<
    (VoteModel, int),
    Error,
> {
    match parse_expect(s, i, K_INDEX) {
        Err(e) => Err(e),
        Ok(_) => match parse_varint(s, i + 1) {
            Err(e) => Err(e),
            Ok((x, c)) => parse_vf_height(s, i + 1 + c, addr, x),
        },
    }
}

/// Vote fields from the height on.
pub open spec fn parse_vf_height(s: Seq<u8>, i: int, addr: Seq<u8>, index: int) -> Result<
    (VoteModel, int),
    Error,
> {
    match parse_expect(s, i, K_HEIGHT) {
        Err(e) => Err(e),
        Ok(_) => match parse_int64(s, i + 1) {
            Err(e) => Err(e),
            Ok((h, _)) => parse_vf_round(s, i + 9, addr, index, h),
        },
    }
}

/// Vote fields from the round on.
pub open spec fn parse_vf_round(s: Seq<u8>, i: int, addr: Seq<u8>, index: int, height: int) -> Result<
    (VoteModel, int),
    Error,
> {
    match parse_expect(s, i, K_ROUND) {
        Err(e) => Err(e),
        Ok(_) => match parse_varint(s, i + 1) {
            Err(e) => Err(e),
            Ok((r, c)) => parse_vf_time(s, i + 1 + c, addr, index, height, r),
        },
    }
}

/// Vote fields from the timestamp on.
pub open spec fn parse_vf_time(
    s: Seq<u8>,
    i: int,
    addr: Seq<u8>,
    index: int,
    height: int,
    round: int,
) -> Result<(VoteModel, int), Error> {
    match parse_expect(s, i, K_TIME) {
        Err(e) => Err(e),
        Ok(_) => match parse_time(s, i + 1) {
            Err(e) => Err(e),
            Ok(((secs, nanos), j)) => parse_vf_vtype(s, j, addr, index, height, round, secs, nanos),
        },
    }
}

/// Vote fields from the vote type on.
pub open spec fn parse_vf_vtype(
    s: Seq<u8>,
    i: int,
    addr: Seq<u8>,
    index: int,
    height: int,
    round: int,
    secs: int,
    nanos: nat,
) -> Result<(VoteModel, int), Error> {
    match parse_expect(s, i, K_VTYPE) {
        Err(e) => Err(e),
        Ok(_) => match parse_uvarint(s, i + 1) {
            Err(e) => Err(e),
            Ok((vt, c)) => if vt == 1 || vt == 2 {
                parse_vf_block(s, i + 1 + c, addr, index, height, round, secs, nanos, vt as int)
            } else {
                Err(Error::InvalidVoteType)
            },
        },
    }
}

/// Vote fields from the block reference on.
pub open spec fn parse_vf_block(
    s: Seq<u8>,
    i: int,
    addr: Seq<u8>,
    index: int,
    height: int,
    round: int,
    secs: int,
    nanos: nat,
    vt: int,
) -> Result<(VoteModel, int), Error> {
    match parse_expect(s, i, K_BLOCK) {
        Err(e) => Err(e),
        Ok(_) => match parse_block(s, i + 1) {
            Err(e) => Err(e),
            Ok((b, j)) => parse_vf_sig(s, j, addr, index, height, round, secs, nanos, vt, b),
        },
    }
}

/// The optional trailing signature: present exactly when the next byte is
/// its field key.
pub open spec fn parse_vf_sig(
    s: Seq<u8>,
    i: int,
    addr: Seq<u8>,
    index: int,
    height: int,
    round: int,
    secs: int,
    nanos: nat,
    vt: int,
    block: BlockIdModel,
) -> Result<(VoteModel, int), Error> {
    if i < s.len() && s[i] == K_SIG {
        match parse_bytes(s, i + 1) {
            Err(e) => Err(e),
            Ok((sg, c)) => Ok(
                (
                    VoteModel {
                        addr,
                        index,
                        height,
                        round,
                        secs,
                        nanos,
                        vote_type: vt,
                        block,
                        sig: Some(sg),
                    },
                    i + 1 + c,
                ),
            ),
        }
    } else {
        Ok(
            (
                VoteModel {
                    addr,
                    index,
                    height,
                    round,
                    secs,
                    nanos,
                    vote_type: vt,
                    block,
                    sig: None,
                },
                i,
            ),
        )
    }
}

/// Specification-level parse of the vote payload struct's fields, beginning
/// with the optional validator address.
pub open spec fn parse_vote_fields(s: Seq<u8>, i: int) -> Result<(VoteModel, int), Error> {
    if i < s.len() && s[i] == K_ADDR {
        match parse_bytes(s, i + 1) {
            Err(e) => Err(e),
            Ok((a, c)) => parse_vf_index(s, i + 1 + c, a),
        }
    } else {
        parse_vf_index(s, i, Seq::empty())
    }
}

/// Specification-level parse of a whole vote message: length prefix,
/// registered-name prefix, payload struct, two terminators, and nothing
/// after them; the length prefix must equal the body's length.
pub open spec fn parse_vote_msg(s: Seq<u8>) -> Result<VoteModel, Error> {
    match parse_uvarint(s, 0) {
        Err(e) => Err(e),
        Ok((blen, c0)) => match parse_expect(s, c0, VOTE_DISFIX_0) {
            Err(e) => Err(e),
            Ok(_) => match parse_expect(s, c0 + 1, VOTE_DISFIX_1) {
                Err(e) => Err(e),
                Ok(_) => match parse_expect(s, c0 + 2, VOTE_DISFIX_2) {
                    Err(e) => Err(e),
                    Ok(_) => match parse_expect(s, c0 + 3, VOTE_DISFIX_3) {
                        Err(e) => Err(e),
                        Ok(_) => match parse_expect(s, c0 + 4, K_PAYLOAD) {
                            Err(e) => Err(e),
                            Ok(_) => match parse_vote_fields(s, c0 + 5) {
                                Err(e) => Err(e),
                                Ok((v, j)) => match parse_expect(s, j, K_TERM) {
                                    Err(e) => Err(e),
                                    Ok(_) => match parse_expect(s, j + 1, K_TERM) {
                                        Err(e) => Err(e),
                                        Ok(_) => if j + 2 == s.len() && blen == s.len() - c0 {
                                            Ok(v)
                                        } else {
                                            Err(Error::Truncated)
                                        },
                                    },
                                },
                            },
                        },
                    },
                },
            },
        },
    }
}

/// Reads a timestamp struct; the outcome is exactly `parse_time`.
pub fn decode_time(data: &[u8], pos: usize) -> (r: Result<(Instant, usize), Error>)
    requires
        pos <= data@.len(),
    ensures
        match r {
            Ok((t, p)) => pos < p <= data@.len() && parse_time(data@, pos as int) == Ok::<
                ((int, nat), int),
                Error,
            >(((t.secs as int, t.nanos as nat), p as int)),
            Err(e) => parse_time(data@, pos as int) == Err::<((int, nat), int), Error>(e),
        },
{
    let p1 = match expect_byte(data, pos, K_SECS) {
        Ok(p) => p,
        Err(e) => {
            return Err(e);
        },
    };
    let (secs, p2) = match decode_int64(data, p1) {
        Ok(v) => v,
        Err(e) => {
            return Err(e);
        },
    };
    let p3 = match expect_byte(data, p2, K_NANOS) {
        Ok(p) => p,
        Err(e) => {
            return Err(e);
        },
    };
    let (nanos, p4) = match decode_u32(data, p3) {
        Ok(v) => v,
        Err(e) => {
            return Err(e);
        },
    };
    let p5 = match expect_byte(data, p4, K_TERM) {
        Ok(p) => p,
        Err(e) => {
            return Err(e);
        },
    };
    Ok((Instant { secs, nanos }, p5))
}

/// Reads a block reference struct's contents; the outcome is exactly
/// `parse_block`.
pub fn decode_block_id(data: &[u8], pos: usize) -> (r: Result<(BlockID, usize), Error>)
    requires
        pos <= data@.len(),
    ensures
        match r {
            Ok((b, p)) => pos <= p <= data@.len() && parse_block(data@, pos as int) == Ok::<
                (BlockIdModel, int),
                Error,
            >((b@, p as int)),
            Err(e) => parse_block(data@, pos as int) == Err::<(BlockIdModel, int), Error>(e),
        },
{
    let mut cur: usize = pos;
    let mut hash: Vec<u8> = Vec::new();
    match peek_byte(data, cur) {
        Some(b) if b == K_BHASH => {
            let (h, p) = match decode_bytes(data, cur + 1) {
                Ok(v) => v,
                Err(e) => {
                    return Err(e);
                },
            };
            hash = h;
            cur = p;
        },
        _ => {},
    }
    assert(parse_block(data@, pos as int) == parse_block_tail(data@, cur as int, hash@));
    let p1 = match expect_byte(data, cur, K_PARTS) {
        Ok(p) => p,
        Err(e) => {
            return Err(e);
        },
    };
    let p2 = match expect_byte(data, p1, K_PTOTAL) {
        Ok(p) => p,
        Err(e) => {
            return Err(e);
        },
    };
    let (total, p3) = match decode_varint(data, p2) {
        Ok(v) => v,
        Err(e) => {
            return Err(e);
        },
    };
    let mut parts_hash: Vec<u8> = Vec::new();
    let mut cur2: usize = p3;
    match peek_byte(data, cur2) {
        Some(b) if b == K_PHASH => {
            let (h, p) = match decode_bytes(data, cur2 + 1) {
                Ok(v) => v,
                Err(e) => {
                    return Err(e);
                },
            };
            parts_hash = h;
            cur2 = p;
        },
        _ => {},
    }
    let p4 = match expect_byte(data, cur2, K_TERM) {
        Ok(p) => p,
        Err(e) => {
            return Err(e);
        },
    };
    assert(parse_parts(data@, p1 as int) == Ok::<((int, Seq<u8>), int), Error>(
        ((total as int, parts_hash@), p4 as int),
    ));
    let p5 = match expect_byte(data, p4, K_TERM) {
        Ok(p) => p,
        Err(e) => {
            return Err(e);
        },
    };
    let b = BlockID { hash, parts_header: PartsSetHeader { total, hash: parts_hash } };
    Ok((b, p5))
}

impl Vote {
    /// Decodes a complete wire message into a vote; the outcome is exactly
    /// `parse_vote_msg`.
    #[verifier::rlimit(100)]
    pub fn deserialize(data: &[u8]) -> (r: Result<Vote, Error>)
        ensures
            match r {
                Ok(v) => parse_vote_msg(data@) == Ok::<VoteModel, Error>(v@),
                Err(e) => parse_vote_msg(data@) == Err::<VoteModel, Error>(e),
            },
    {
        let (blen, c0) = match decode_uvarint(data, 0) {
            Ok(v) => v,
            Err(e) => {
                return Err(e);
            },
        };
        let p1 = match expect_byte(data, c0, VOTE_DISFIX_0) {
            Ok(p) => p,
            Err(e) => {
                return Err(e);
            },
        };
        let p2 = match expect_byte(data, p1, VOTE_DISFIX_1) {
            Ok(p) => p,
            Err(e) => {
                return Err(e);
            },
        };
        let p3 = match expect_byte(data, p2, VOTE_DISFIX_2) {
            Ok(p) => p,
            Err(e) => {
                return Err(e);
            },
        };
        let p4 = match expect_byte(data, p3, VOTE_DISFIX_3) {
            Ok(p) => p,
            Err(e) => {
                return Err(e);
            },
        };
        let p5 = match expect_byte(data, p4, K_PAYLOAD) {
            Ok(p) => p,
            Err(e) => {
                return Err(e);
            },
        };
        let (vote, q13) = match decode_vote_fields(data, p5) {
            Ok(v) => v,
            Err(e) => {
                return Err(e);
            },
        };
        let t1 = match expect_byte(data, q13, K_TERM) {
            Ok(p) => p,
            Err(e) => {
                return Err(e);
            },
        };
        let t2 = match expect_byte(data, t1, K_TERM) {
            Ok(p) => p,
            Err(e) => {
                return Err(e);
            },
        };
        if t2 != data.len() || blen != ((t2 - c0) as u64) {
            return Err(Error::Truncated);
        }
        Ok(vote)
    }
}

/// Reads the fields of the vote payload struct; the outcome is exactly
/// `parse_vote_fields`.
#[verifier::rlimit(100)]
fn decode_vote_fields(data: &[u8], pos: usize) -> (r: Result<(Vote, usize), Error>)
    requires
        pos <= data@.len(),
    ensures
        match r {
            Ok((v, p)) => pos <= p <= data@.len() && parse_vote_fields(data@, pos as int) == Ok::<
                (VoteModel, int),
                Error,
            >((v@, p as int)),
            Err(e) => parse_vote_fields(data@, pos as int) == Err::<(VoteModel, int), Error>(e),
        },
{
    let p5 = pos;
    let mut cur: usize = p5;
    let mut addr: Vec<u8> = Vec::new();
    match peek_byte(data, cur) {
            Some(b) if b == K_ADDR => {
                let (a, p) = match decode_bytes(data, cur + 1) {
                    Ok(v) => v,
                    Err(e) => {
                        return Err(e);
                    },
                };
                addr = a;
                cur = p;
            },
            _ => {},
        }
        assert(parse_vote_fields(data@, p5 as int) == parse_vf_index(data@, cur as int, addr@));
        let q1 = match expect_byte(data, cur, K_INDEX) {
            Ok(p) => p,
            Err(e) => {
                return Err(e);
            },
        };
        let (index, q2) = match decode_varint(data, q1) {
            Ok(v) => v,
            Err(e) => {
                return Err(e);
            },
        };
        let q3 = match expect_byte(data, q2, K_HEIGHT) {
            Ok(p) => p,
            Err(e) => {
                return Err(e);
            },
        };
        let (height, q4) = match decode_int64(data, q3) {
            Ok(v) => v,
            Err(e) => {
                return Err(e);
            },
        };
        let q5 = match expect_byte(data, q4, K_ROUND) {
            Ok(p) => p,
            Err(e) => {
                return Err(e);
            },
        };
        let (round, q6) = match decode_varint(data, q5) {
            Ok(v) => v,
            Err(e) => {
                return Err(e);
            },
        };
        let q7 = match expect_byte(data, q6, K_TIME) {
            Ok(p) => p,
            Err(e) => {
                return Err(e);
            },
        };
        let (timestamp, q8) = match decode_time(data, q7) {
            Ok(v) => v,
            Err(e) => {
                return Err(e);
            },
        };
        let q9 = match expect_byte(data, q8, K_VTYPE) {
            Ok(p) => p,
            Err(e) => {
                return Err(e);
            },
        };
        let (vt, q10) = match decode_uvarint(data, q9) {
            Ok(v) => v,
            Err(e) => {
                return Err(e);
            },
        };
        let vote_type = if vt == 1 {
            VoteType::PreVote
        } else if vt == 2 {
            VoteType::PreCommit
        } else {
            return Err(Error::InvalidVoteType);
        };
        assert(parse_vf_vtype(
        data@,
        q8 as int,
        addr@,
        index as int,
        height as int,
        round as int,
        timestamp.secs as int,
        timestamp.nanos as nat,
    ) == parse_vf_block(
        data@,
        q10 as int,
        addr@,
        index as int,
        height as int,
        round as int,
        timestamp.secs as int,
        timestamp.nanos as nat,
        vote_type_int(vote_type),
    ));
    let q11 = match expect_byte(data, q10, K_BLOCK) {
            Ok(p) => p,
            Err(e) => {
                return Err(e);
            },
        };
        let (block_id, q12) = match decode_block_id(data, q11) {
            Ok(v) => v,
            Err(e) => {
                return Err(e);
            },
        };
        let mut signature: Option<Vec<u8>> = None;
        let mut q13: usize = q12;
        match peek_byte(data, q13) {
            Some(b) if b == K_SIG => {
                let (sg, p) = match decode_bytes(data, q13 + 1) {
                    Ok(v) => v,
                    Err(e) => {
                        return Err(e);
                    },
                };
                signature = Some(sg);
                q13 = p;
            },
            _ => {},
        }
        let vote = Vote {
            validator_address: addr,
            validator_index: index,
            height,
            round,
            timestamp,
            vote_type,
            block_id,
            signature,
        };
        assert(parse_vote_fields(data@, p5 as int) == Ok::<(VoteModel, int), Error>(
            (vote@, q13 as int),
        ));
    Ok((vote, q13))
}

/// Parsing inverts encoding for the timestamp struct.
pub proof fn lemma_parse_time_of_enc(s: Seq<u8>, i: int, secs: i64, nanos: u32)
    requires
        0 <= i,
        i + 15 <= s.len(),
        s.subrange(i, i + 15) == time_struct_bytes(secs as int, nanos as nat),
    ensures
        parse_time(s, i) == Ok::<((int, nat), int), Error>(((secs as int, nanos as nat), i + 15)),
{
    lemma_int64_bytes_len(secs as int);
    lemma_u32_bytes_len(nanos as nat);
    let sb = int64_bytes(secs as int);
    let nb = u32_bytes(nanos as nat);
    lemma_subrange_split(s, i, seq![K_SECS] + sb + seq![K_NANOS] + nb, seq![K_TERM]);
    lemma_subrange_split(s, i, seq![K_SECS] + sb + seq![K_NANOS], nb);
    lemma_subrange_split(s, i, seq![K_SECS] + sb, seq![K_NANOS]);
    lemma_subrange_split(s, i, seq![K_SECS], sb);
    assert(s[i] == s.subrange(i, i + 1)[0]);
    assert(s[i + 9] == s.subrange(i + 9, i + 10)[0]);
    assert(s[i + 14] == s.subrange(i + 14, i + 15)[0]);
    lemma_parse_int64_of_enc(s, i + 1, secs);
    lemma_parse_u32_of_enc(s, i + 10, nanos);
}

/// Parsing inverts encoding for the parts header struct.
pub proof fn lemma_parse_parts_of_enc(s: Seq<u8>, i: int, total: int, ph: Seq<u8>)
    requires
        0 <= i,
        i64::MIN <= total <= i64::MAX,
        ph.len() <= u64::MAX,
        i + parts_bytes(total, ph).len() <= s.len(),
        s.subrange(i, i + parts_bytes(total, ph).len()) == parts_bytes(total, ph),
    ensures
        parse_parts(s, i) == Ok::<((int, Seq<u8>), int), Error>(
            ((total, ph), i + parts_bytes(total, ph).len()),
        ),
{
    let vb = varint_bytes(total);
    let hseg: Seq<u8> = if ph.len() == 0 {
        Seq::empty()
    } else {
        seq![K_PHASH] + bytes_enc(ph)
    };
    let len = parts_bytes(total, ph).len() as int;
    lemma_subrange_split(s, i, seq![K_PTOTAL] + vb + hseg, seq![K_TERM]);
    lemma_subrange_split(s, i, seq![K_PTOTAL] + vb, hseg);
    lemma_subrange_split(s, i, seq![K_PTOTAL], vb);
    assert(s[i] == s.subrange(i, i + 1)[0]);
    assert((total as i64) as int == total);
    lemma_parse_varint_of_enc(s, i + 1, total as i64);
    let j = i + 1 + vb.len();
    assert(s[i + len - 1] == s.subrange(i + len - 1, i + len)[0]);
    if ph.len() == 0 {
        assert(ph =~= Seq::<u8>::empty());
        assert(s[j] == K_TERM);
    } else {
        lemma_subrange_split(s, j, seq![K_PHASH], bytes_enc(ph));
        assert(s[j] == s.subrange(j, j + 1)[0]);
        lemma_parse_bytes_of_enc(s, j + 1, ph);
    }
}

/// Parsing inverts encoding for the block reference struct.
pub proof fn lemma_parse_block_of_enc(s: Seq<u8>, i: int, b: BlockIdModel)
    requires
        0 <= i,
        b.hash.len() <= u64::MAX,
        b.parts_hash.len() <= u64::MAX,
        i64::MIN <= b.parts_total <= i64::MAX,
        i + block_bytes(b).len() <= s.len(),
        s.subrange(i, i + block_bytes(b).len()) == block_bytes(b),
    ensures
        parse_block(s, i) == Ok::<(BlockIdModel, int), Error>((b, i + block_bytes(b).len())),
{
    let hseg: Seq<u8> = if b.hash.len() == 0 {
        Seq::empty()
    } else {
        seq![K_BHASH] + bytes_enc(b.hash)
    };
    let pb = parts_bytes(b.parts_total, b.parts_hash);
    let len = block_bytes(b).len() as int;
    lemma_subrange_split(s, i, hseg + seq![K_PARTS] + pb, seq![K_TERM]);
    lemma_subrange_split(s, i, hseg + seq![K_PARTS], pb);
    lemma_subrange_split(s, i, hseg, seq![K_PARTS]);
    let j: int = if b.hash.len() == 0 {
        i
    } else {
        i + hseg.len()
    };
    if b.hash.len() > 0 {
        lemma_subrange_split(s, i, seq![K_BHASH], bytes_enc(b.hash));
        assert(s[i] == s.subrange(i, i + 1)[0]);
        lemma_parse_bytes_of_enc(s, i + 1, b.hash);
    } else {
        assert(b.hash =~= Seq::<u8>::empty());
    }
    assert(s[j] == s.subrange(j, j + 1)[0]);
    lemma_parse_parts_of_enc(s, j + 1, b.parts_total, b.parts_hash);
    assert(s[i + len - 1] == s.subrange(i + len - 1, i + len)[0]);
    assert(parse_block_tail(s, j, b.hash) == Ok::<(BlockIdModel, int), Error>((b, i + len)));
}

/// First half of the middle run: index, height and round.
proof fn lemma_parse_vote_mid_a(s: Seq<u8>, j: int, addr: Seq<u8>, v: VoteModel)
    requires
        v.wf(),
        0 <= j,
        j + 11 + varint_bytes(v.index).len() + varint_bytes(v.round).len() <= s.len(),
        s.subrange(j, j + 1) == seq![K_INDEX],
        s.subrange(j + 1, j + 1 + varint_bytes(v.index).len()) == varint_bytes(v.index),
        s.subrange(
            j + 1 + varint_bytes(v.index).len(),
            j + 2 + varint_bytes(v.index).len(),
        ) == seq![K_HEIGHT],
        s.subrange(
            j + 2 + varint_bytes(v.index).len(),
            j + 10 + varint_bytes(v.index).len(),
        ) == int64_bytes(v.height),
        s.subrange(
            j + 10 + varint_bytes(v.index).len(),
            j + 11 + varint_bytes(v.index).len(),
        ) == seq![K_ROUND],
        s.subrange(
            j + 11 + varint_bytes(v.index).len(),
            j + 11 + varint_bytes(v.index).len() + varint_bytes(v.round).len(),
        ) == varint_bytes(v.round),
    ensures
        parse_vf_index(s, j, addr) == parse_vf_time(
            s,
            j + 11 + varint_bytes(v.index).len() + varint_bytes(v.round).len(),
            addr,
            v.index,
            v.height,
            v.round,
        ),
{
    let ib = varint_bytes(v.index);
    let rb = varint_bytes(v.round);
    lemma_int64_bytes_len(v.height);
    assert(s[j] == s.subrange(j, j + 1)[0]);
    assert((v.index as i64) as int == v.index);
    lemma_parse_varint_of_enc(s, j + 1, v.index as i64);
    let j1: int = j + 1 + ib.len();
    assert(parse_vf_index(s, j, addr) == parse_vf_height(s, j1, addr, v.index));
    assert(s[j1] == s.subrange(j1, j1 + 1)[0]);
    assert((v.height as i64) as int == v.height);
    lemma_parse_int64_of_enc(s, j1 + 1, v.height as i64);
    let j2: int = j1 + 9;
    assert(parse_vf_height(s, j1, addr, v.index) == parse_vf_round(
        s,
        j2,
        addr,
        v.index,
        v.height,
    ));
    assert(s[j2] == s.subrange(j2, j2 + 1)[0]);
    assert((v.round as i64) as int == v.round);
    lemma_parse_varint_of_enc(s, j2 + 1, v.round as i64);
    assert(parse_vf_round(s, j2, addr, v.index, v.height) == parse_vf_time(
        s,
        j2 + 1 + rb.len(),
        addr,
        v.index,
        v.height,
        v.round,
    ));
}

/// Second half of the middle run: timestamp, vote type and block reference.
proof fn lemma_parse_vote_mid_b(s: Seq<u8>, q: int, addr: Seq<u8>, v: VoteModel)
    requires
        v.wf(),
        0 <= q,
        q + 18 + uvarint_bytes(v.vote_type as nat).len() + block_bytes(v.block).len() <= s.len(),
        s.subrange(q, q + 1) == seq![K_TIME],
        s.subrange(q + 1, q + 16) == time_struct_bytes(v.secs, v.nanos),
        s.subrange(q + 16, q + 17) == seq![K_VTYPE],
        s.subrange(q + 17, q + 17 + uvarint_bytes(v.vote_type as nat).len()) == uvarint_bytes(
            v.vote_type as nat,
        ),
        s.subrange(
            q + 17 + uvarint_bytes(v.vote_type as nat).len(),
            q + 18 + uvarint_bytes(v.vote_type as nat).len(),
        ) == seq![K_BLOCK],
        s.subrange(
            q + 18 + uvarint_bytes(v.vote_type as nat).len(),
            q + 18 + uvarint_bytes(v.vote_type as nat).len() + block_bytes(v.block).len(),
        ) == block_bytes(v.block),
    ensures
        parse_vf_time(s, q, addr, v.index, v.height, v.round) == parse_vf_sig(
            s,
            q + 18 + uvarint_bytes(v.vote_type as nat).len() + block_bytes(v.block).len(),
            addr,
            v.index,
            v.height,
            v.round,
            v.secs,
            v.nanos,
            v.vote_type,
            v.block,
        ),
{
    let vtb = uvarint_bytes(v.vote_type as nat);
    let bb = block_bytes(v.block);
    assert(s[q] == s.subrange(q, q + 1)[0]);
    assert(((v.secs as i64) as int == v.secs) && ((v.nanos as u32) as nat == v.nanos));
    lemma_parse_time_of_enc(s, q + 1, v.secs as i64, v.nanos as u32);
    let j4: int = q + 16;
    assert(parse_vf_time(s, q, addr, v.index, v.height, v.round) == parse_vf_vtype(
        s,
        j4,
        addr,
        v.index,
        v.height,
        v.round,
        v.secs,
        v.nanos,
    ));
    assert(s[j4] == s.subrange(j4, j4 + 1)[0]);
    assert((v.vote_type as u64) as nat == v.vote_type as nat);
    lemma_parse_uvarint_of_enc(s, j4 + 1, v.vote_type as u64);
    let j5: int = j4 + 1 + vtb.len();
    assert(parse_vf_vtype(s, j4, addr, v.index, v.height, v.round, v.secs, v.nanos)
        == parse_vf_block(s, j5, addr, v.index, v.height, v.round, v.secs, v.nanos, v.vote_type));
    assert(s[j5] == s.subrange(j5, j5 + 1)[0]);
    lemma_parse_block_of_enc(s, j5 + 1, v.block);
    assert(parse_vf_block(s, j5, addr, v.index, v.height, v.round, v.secs, v.nanos, v.vote_type)
        == parse_vf_sig(
        s,
        j5 + 1 + bb.len(),
        addr,
        v.index,
        v.height,
        v.round,
        v.secs,
        v.nanos,
        v.vote_type,
        v.block,
    ));
}

/// Parsing inverts encoding for the mandatory middle run of vote fields;
/// the optional address (already read) and the optional trailing signature
/// are handled by the caller.
#[verifier::rlimit(100)]
proof fn lemma_parse_vote_mid(s: Seq<u8>, j: int, addr: Seq<u8>, v: VoteModel)
    requires
        v.wf(),
        0 <= j,
        j + vote_mid_bytes(v).len() <= s.len(),
        s.subrange(j, j + vote_mid_bytes(v).len()) == vote_mid_bytes(v),
    ensures
        parse_vf_index(s, j, addr) == parse_vf_sig(
            s,
            j + vote_mid_bytes(v).len(),
            addr,
            v.index,
            v.height,
            v.round,
            v.secs,
            v.nanos,
            v.vote_type,
            v.block,
        ),
{
    let ib = varint_bytes(v.index);
    let hb = int64_bytes(v.height);
    let rb = varint_bytes(v.round);
    let tb = time_struct_bytes(v.secs, v.nanos);
    let vtb = uvarint_bytes(v.vote_type as nat);
    let bb = block_bytes(v.block);
    lemma_int64_bytes_len(v.height);
    lemma_u32_bytes_len(v.nanos);
    lemma_int64_bytes_len(v.secs);
    let p1 = seq![K_INDEX];
    let p2 = p1 + ib;
    let p3 = p2 + seq![K_HEIGHT];
    let p4 = p3 + hb;
    let p5 = p4 + seq![K_ROUND];
    let p6 = p5 + rb;
    let p7 = p6 + seq![K_TIME];
    let p8 = p7 + tb;
    let p9 = p8 + seq![K_VTYPE];
    let p10 = p9 + vtb;
    let p11 = p10 + seq![K_BLOCK];
    assert(vote_mid_bytes(v) == p11 + bb);
    lemma_subrange_split(s, j, p11, bb);
    lemma_subrange_split(s, j, p10, seq![K_BLOCK]);
    lemma_subrange_split(s, j, p9, vtb);
    lemma_subrange_split(s, j, p8, seq![K_VTYPE]);
    lemma_subrange_split(s, j, p7, tb);
    lemma_subrange_split(s, j, p6, seq![K_TIME]);
    lemma_subrange_split(s, j, p5, rb);
    lemma_subrange_split(s, j, p4, seq![K_ROUND]);
    lemma_subrange_split(s, j, p3, hb);
    lemma_subrange_split(s, j, p2, seq![K_HEIGHT]);
    lemma_subrange_split(s, j, p1, ib);
    lemma_parse_vote_mid_a(s, j, addr, v);
    let q: int = j + 11 + ib.len() + rb.len();
    lemma_parse_vote_mid_b(s, q, addr, v);
}

/// Parsing inverts encoding for the vote payload fields.  The caller
/// promises that when the vote is unsigned, the byte after the fields (if
/// any) is not the signature key — in a well-formed message it is a struct
/// terminator.
#[verifier::rlimit(100)]
pub proof fn lemma_parse_vote_fields_of_enc(s: Seq<u8>, i: int, v: VoteModel)
    requires
        v.wf(),
        0 <= i,
        i + vote_fields_bytes(v).len() <= s.len(),
        s.subrange(i, i + vote_fields_bytes(v).len()) == vote_fields_bytes(v),
        v.sig is None ==> (i + vote_fields_bytes(v).len() == s.len() || s[i + vote_fields_bytes(
            v,
        ).len()] != K_SIG),
    ensures
        parse_vote_fields(s, i) == Ok::<(VoteModel, int), Error>(
            (v, i + vote_fields_bytes(v).len()),
        ),
{
    let aseg: Seq<u8> = if v.addr.len() == 0 {
        Seq::empty()
    } else {
        seq![K_ADDR] + bytes_enc(v.addr)
    };
    let mid = vote_mid_bytes(v);
    let sseg: Seq<u8> = match v.sig {
        None => Seq::empty(),
        Some(sg) => seq![K_SIG] + bytes_enc(sg),
    };
    let len = vote_fields_bytes(v).len() as int;
    lemma_subrange_split(s, i, aseg + mid, sseg);
    lemma_subrange_split(s, i, aseg, mid);
    let j0: int = i + aseg.len();
    if v.addr.len() > 0 {
        lemma_subrange_split(s, i, seq![K_ADDR], bytes_enc(v.addr));
        assert(s[i] == s.subrange(i, i + 1)[0]);
        lemma_parse_bytes_of_enc(s, i + 1, v.addr);
    } else {
        assert(v.addr =~= Seq::<u8>::empty());
        assert(s[j0] == s.subrange(j0, j0 + 1)[0]);
    }
    assert(parse_vote_fields(s, i) == parse_vf_index(s, j0, v.addr));
    lemma_parse_vote_mid(s, j0, v.addr, v);
    let j6: int = j0 + mid.len();
    match v.sig {
        Some(sg) => {
            lemma_subrange_split(s, j6, seq![K_SIG], bytes_enc(sg));
            assert(s[j6] == s.subrange(j6, j6 + 1)[0]);
            lemma_parse_bytes_of_enc(s, j6 + 1, sg);
            assert(j6 + 1 + bytes_enc(sg).len() == i + len);
            assert(v == VoteModel {
                addr: v.addr,
                index: v.index,
                height: v.height,
                round: v.round,
                secs: v.secs,
                nanos: v.nanos,
                vote_type: v.vote_type,
                block: v.block,
                sig: Some(sg),
            });
        },
        None => {
            assert(j6 == i + len);
            assert(v == VoteModel {
                addr: v.addr,
                index: v.index,
                height: v.height,
                round: v.round,
                secs: v.secs,
                nanos: v.nanos,
                vote_type: v.vote_type,
                block: v.block,
                sig: None,
            });
        },
    }
}

/// The body of a well-formed vote message is comfortably shorter than what
/// a 64-bit length prefix can carry.
pub proof fn lemma_vote_body_len(v: VoteModel)
    requires
        v.wf(),
    ensures
        vote_body_bytes(v).len() < 0x500000000,
{
    lemma_uvarint_bytes_len(v.addr.len());
    assert(zigzag(v.index) < 0x10000000000000000);
    lemma_uvarint_bytes_len(zigzag(v.index));
    lemma_int64_bytes_len(v.height);
    assert(zigzag(v.round) < 0x10000000000000000);
    lemma_uvarint_bytes_len(zigzag(v.round));
    lemma_int64_bytes_len(v.secs);
    lemma_u32_bytes_len(v.nanos);
    lemma_uvarint_bytes_len(v.vote_type as nat);
    lemma_uvarint_bytes_len(v.block.hash.len());
    assert(zigzag(v.block.parts_total) < 0x10000000000000000);
    lemma_uvarint_bytes_len(zigzag(v.block.parts_total));
    lemma_uvarint_bytes_len(v.block.parts_hash.len());
    match v.sig {
        Some(sg) => {
            lemma_uvarint_bytes_len(sg.len());
        },
        None => {},
    }
}

/// Layout of an encoded vote message: where the length prefix, the
/// registered-name prefix, the fields and the terminators sit.
proof fn lemma_vote_msg_layout(v: VoteModel)
    requires
        v.wf(),
    ensures
        ({
            let s = vote_msg_bytes(v);
            let c0 = uvarint_bytes(vote_body_bytes(v).len()).len() as int;
            let fields = vote_fields_bytes(v);
            let jt = c0 + 5 + fields.len();
            &&& vote_body_bytes(v).len() < 0x500000000
            &&& parse_uvarint(s, 0) == Ok::<(u64, int), Error>(
                (vote_body_bytes(v).len() as u64, c0),
            )
            &&& s.len() == jt + 2
            &&& s[c0] == VOTE_DISFIX_0
            &&& s[c0 + 1] == VOTE_DISFIX_1
            &&& s[c0 + 2] == VOTE_DISFIX_2
            &&& s[c0 + 3] == VOTE_DISFIX_3
            &&& s[c0 + 4] == K_PAYLOAD
            &&& s.subrange(c0 + 5, jt) == fields
            &&& s[jt] == K_TERM
            &&& s[jt + 1] == K_TERM
        }),
{
    let body = vote_body_bytes(v);
    let bl = body.len();
    lemma_vote_body_len(v);
    let s = vote_msg_bytes(v);
    let ub = uvarint_bytes(bl);
    lemma_uvarint_bytes_len(bl);
    assert(s.subrange(0, s.len() as int) =~= s);
    lemma_subrange_split(s, 0, ub, body);
    assert((bl as u64) as nat == bl);
    lemma_parse_uvarint_of_enc(s, 0, bl as u64);
    let c0 = ub.len() as int;
    let head = seq![VOTE_DISFIX_0, VOTE_DISFIX_1, VOTE_DISFIX_2, VOTE_DISFIX_3, K_PAYLOAD];
    let fields = vote_fields_bytes(v);
    assert(body == head + fields + seq![K_TERM, K_TERM]);
    lemma_subrange_split(s, c0, head + fields, seq![K_TERM, K_TERM]);
    lemma_subrange_split(s, c0, head, fields);
    assert(s[c0] == s.subrange(c0, c0 + head.len())[0]);
    assert(s[c0 + 1] == s.subrange(c0, c0 + head.len())[1]);
    assert(s[c0 + 2] == s.subrange(c0, c0 + head.len())[2]);
    assert(s[c0 + 3] == s.subrange(c0, c0 + head.len())[3]);
    assert(s[c0 + 4] == s.subrange(c0, c0 + head.len())[4]);
    let jt = c0 + 5 + fields.len();
    assert(s[jt] == s.subrange(jt, jt + 2)[0]);
    assert(s[jt + 1] == s.subrange(jt, jt + 2)[1]);
}

/// Round trip: decoding the encoding of any well-formed vote yields that
/// vote again.
pub proof fn lemma_vote_round_trip(v: VoteModel)
    requires
        v.wf(),
    ensures
        parse_vote_msg(vote_msg_bytes(v)) == Ok::<VoteModel, Error>(v),
{
    lemma_vote_msg_layout(v);
    let s = vote_msg_bytes(v);
    let bl = vote_body_bytes(v).len();
    let c0 = uvarint_bytes(bl).len() as int;
    let fields = vote_fields_bytes(v);
    let jt = c0 + 5 + fields.len();
    assert(s[jt] != K_SIG);
    lemma_parse_vote_fields_of_enc(s, c0 + 5, v);
    assert(parse_expect(s, c0, VOTE_DISFIX_0) == Ok::<int, Error>(1));
    assert(parse_expect(s, c0 + 1, VOTE_DISFIX_1) == Ok::<int, Error>(1));
    assert(parse_expect(s, c0 + 2, VOTE_DISFIX_2) == Ok::<int, Error>(1));
    assert(parse_expect(s, c0 + 3, VOTE_DISFIX_3) == Ok::<int, Error>(1));
    assert(parse_expect(s, c0 + 4, K_PAYLOAD) == Ok::<int, Error>(1));
    assert(parse_vote_fields(s, c0 + 5) == Ok::<(VoteModel, int), Error>((v, jt)));
    assert(parse_expect(s, jt, K_TERM) == Ok::<int, Error>(1));
    assert(parse_expect(s, jt + 1, K_TERM) == Ok::<int, Error>(1));
    assert(jt + 2 == s.len());
    assert(bl == s.len() - c0);
}

/// Length prefix: the first unsigned varint of an encoded vote equals the
/// length of everything that follows it.
pub proof fn lemma_vote_length_prefix(v: VoteModel)
    requires
        v.wf(),
    ensures
        parse_uvarint(vote_msg_bytes(v), 0) == Ok::<(u64, int), Error>(
            (
                vote_body_bytes(v).len() as u64,
                vote_msg_bytes(v).len() - vote_body_bytes(v).len(),
            ),
        ),
{
    let body = vote_body_bytes(v);
    let bl = body.len();
    lemma_vote_body_len(v);
    let s = vote_msg_bytes(v);
    let ub = uvarint_bytes(bl);
    lemma_uvarint_bytes_len(bl);
    assert(s.subrange(0, s.len() as int) =~= s);
    lemma_subrange_split(s, 0, ub, body);
    assert((bl as u64) as nat == bl);
    lemma_parse_uvarint_of_enc(s, 0, bl as u64);
}

/// The field numbers of the vote payload struct, in emission order.
pub open spec fn vote_field_numbers(v: VoteModel) -> Seq<int> {
    (if v.addr.len() == 0 {
        Seq::<int>::empty()
    } else {
        seq![1int]
    }) + seq![2int, 3int, 4int, 5int, 6int, 7int] + (match v.sig {
        None => Seq::<int>::empty(),
        Some(_) => seq![8int],
    })
}

/// Field monotonicity: the vote payload struct emits its fields with
/// strictly increasing field numbers, whichever optional fields are present.
pub proof fn lemma_vote_fields_monotonic(v: VoteModel)
    ensures
        forall|a: int, b: int|
            0 <= a < b < vote_field_numbers(v).len() ==> vote_field_numbers(v)[a]
                < vote_field_numbers(v)[b],
{
    let nums = vote_field_numbers(v);
    if v.addr.len() == 0 {
        assert forall|a: int| 0 <= a < nums.len() implies #[trigger] nums[a] == a + 2 by {}
    } else {
        assert forall|a: int| 0 <= a < nums.len() implies #[trigger] nums[a] == a + 1 by {}
    }
}

/// Omission: leaving the validator address empty shortens the encoded body
/// by exactly the bytes the address field would have contributed.
pub proof fn lemma_omission_addr(v: VoteModel)
    requires
        v.addr.len() > 0,
    ensures
        vote_body_bytes(VoteModel { addr: Seq::empty(), ..v }).len() + 1 + bytes_enc(v.addr).len()
            == vote_body_bytes(v).len(),
{
}

/// Omission: leaving the signature out shortens the encoded body by exactly
/// the bytes the signature field would have contributed.
pub proof fn lemma_omission_sig(v: VoteModel)
    requires
        v.sig is Some,
    ensures
        vote_body_bytes(VoteModel { sig: None, ..v }).len() + 1 + bytes_enc(v.sig->Some_0).len()
            == vote_body_bytes(v).len(),
{
}

/// Omission: leaving the block hash empty shortens the encoded body by
/// exactly the bytes the hash field would have contributed.
pub proof fn lemma_omission_block_hash(v: VoteModel)
    requires
        v.block.hash.len() > 0,
    ensures
        vote_body_bytes(
            VoteModel { block: BlockIdModel { hash: Seq::empty(), ..v.block }, ..v },
        ).len() + 1 + bytes_enc(v.block.hash).len() == vote_body_bytes(v).len(),
{
}

/// Omission: leaving the parts hash empty shortens the encoded body by
/// exactly the bytes the parts-hash field would have contributed.
pub proof fn lemma_omission_parts_hash(v: VoteModel)
    requires
        v.block.parts_hash.len() > 0,
    ensures
        vote_body_bytes(
            VoteModel { block: BlockIdModel { parts_hash: Seq::empty(), ..v.block }, ..v },
        ).len() + 1 + bytes_enc(v.block.parts_hash).len() == vote_body_bytes(v).len(),
{
}

} // verus!

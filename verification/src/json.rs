//! Canonical JSON form of a vote: the byte string that is actually signed.
//!
//! The mapping has a fixed key order, no whitespace, upper-case hex for the
//! hashes, RFC 3339 with a `Z` zone for the timestamp, and the vote type as
//! a single escaped character.  `canonical_vote_json` fixes the whole byte
//! string; `cannonicalize` produces exactly it, so any two encodes of the
//! same vote are byte-identical.

use vstd::prelude::*;
use vstd::string::*;
use crate::vote::{Vote, VoteModel, push_byte};

verus! {

/// The upper-case hex digit of a value below sixteen.
pub open spec fn hex_digit_upper(n: u8) -> u8 {
    if n < 10 {
        (48 + n) as u8
    } else {
        (55 + n) as u8
    }
}

/// The lower-case hex digit of a value below sixteen.
pub open spec fn hex_digit_lower(n: u8) -> u8 {
    if n < 10 {
        (48 + n) as u8
    } else {
        (87 + n) as u8
    }
}

/// Upper-case hex text of a byte string: two digits per byte, in order.
pub open spec fn hex_upper_bytes(s: Seq<u8>) -> Seq<u8>
    decreases s.len(),
{
    if s.len() == 0 {
        Seq::empty()
    } else {
        hex_upper_bytes(s.drop_last()) + seq![
            hex_digit_upper(s.last() / 16),
            hex_digit_upper(s.last() % 16),
        ]
    }
}

/// Relies on hex::encode_upper: each input byte becomes two upper-case hex
/// digits, in input order.
#[verifier::external_body]
fn hex_encode_upper(b: &[u8]) -> (r: Vec<u8>)
    ensures
        r@ == hex_upper_bytes(b@),
{
    hex::encode_upper(b).into_bytes()
}

/// Appends the upper-case hex text of `b` to `out`.
fn push_hex_upper(b: &[u8], out: &mut Vec<u8>)
    ensures
        final(out)@ == old(out)@ + hex_upper_bytes(b@),
{
    let h = hex_encode_upper(b);
    out.extend_from_slice(h.as_slice());
}

/// The JSON escape of one byte, as the escaper of the signed payload emits
/// it: quote, backslash and the named control characters by their two-byte
/// escapes, other control bytes as a four-digit escape, everything else
/// verbatim.
pub open spec fn esc_byte(b: u8) -> Seq<u8> {
    if b == 34 {
        seq![92u8, 34u8]
    } else if b == 92 {
        seq![92u8, 92u8]
    } else if b == 8 {
        seq![92u8, 98u8]
    } else if b == 9 {
        seq![92u8, 116u8]
    } else if b == 10 {
        seq![92u8, 110u8]
    } else if b == 12 {
        seq![92u8, 102u8]
    } else if b == 13 {
        seq![92u8, 114u8]
    } else if b < 32 {
        seq![92u8, 117u8, 48u8, 48u8, hex_digit_lower(b / 16), hex_digit_lower(b % 16)]
    } else {
        seq![b]
    }
}

/// The JSON escape of a byte string.
pub open spec fn esc_bytes(s: Seq<u8>) -> Seq<u8>
    decreases s.len(),
{
    if s.len() == 0 {
        Seq::empty()
    } else {
        esc_bytes(s.drop_last()) + esc_byte(s.last())
    }
}

/// Appends the JSON escape of one byte to `out`.
fn push_esc_byte(c: u8, out: &mut Vec<u8>)
    ensures
        final(out)@ == old(out)@ + esc_byte(c),
{
    let ghost pre = out@;
    if c == 34 {
        push_byte(out, 92);
        push_byte(out, 34);
    } else if c == 92 {
        push_byte(out, 92);
        push_byte(out, 92);
    } else if c == 8 {
        push_byte(out, 92);
        push_byte(out, 98);
    } else if c == 9 {
        push_byte(out, 92);
        push_byte(out, 116);
    } else if c == 10 {
        push_byte(out, 92);
        push_byte(out, 110);
    } else if c == 12 {
        push_byte(out, 92);
        push_byte(out, 102);
    } else if c == 13 {
        push_byte(out, 92);
        push_byte(out, 114);
    } else if c < 32 {
        push_byte(out, 92);
        push_byte(out, 117);
        push_byte(out, 48);
        push_byte(out, 48);
        let hi: u8 = c / 16;
        let lo: u8 = c % 16;
        push_byte(out, if hi < 10 { 48 + hi } else { 87 + hi });
        push_byte(out, if lo < 10 { 48 + lo } else { 87 + lo });
    } else {
        push_byte(out, c);
    }
    proof {
        assert(out@ =~= pre + esc_byte(c));
    }
}

/// Appends the JSON escape of `b` to `out`.
fn push_escaped(b: &[u8], out: &mut Vec<u8>)
    ensures
        final(out)@ == old(out)@ + esc_bytes(b@),
{
    let mut i: usize = 0;
    while i < b.len()
        invariant
            i <= b@.len(),
            out@ == old(out)@ + esc_bytes(b@.take(i as int)),
        decreases b@.len() - i,
    {
        let ghost pre = out@;
        push_esc_byte(b[i], out);
        proof {
            assert(b@.take(i + 1).drop_last() =~= b@.take(i as int));
            assert(b@.take(i + 1).last() == b@[i as int]);
            assert(esc_bytes(b@.take(i + 1)) == esc_bytes(b@.take(i as int)) + esc_byte(
                b@[i as int],
            ));
            assert(out@ =~= old(out)@ + esc_bytes(b@.take(i + 1)));
        }
        i = i + 1;
    }
    proof {
        assert(b@.take(b@.len() as int) =~= b@);
    }
}

/// Decimal text of an unsigned integer, most significant digit first.
pub open spec fn dec_u(n: nat) -> Seq<u8>
    decreases n,
{
    if n < 10 {
        seq![(48 + n) as u8]
    } else {
        dec_u(n / 10) + seq![(48 + n % 10) as u8]
    }
}

/// Decimal text of a signed integer: a minus sign where negative.
pub open spec fn dec_i(n: int) -> Seq<u8> {
    if n >= 0 {
        dec_u(n as nat)
    } else {
        seq![45u8] + dec_u((-n) as nat)
    }
}

/// Appends the decimal text of `n` to `out`.
fn push_dec_u64(n: u64, out: &mut Vec<u8>)
    ensures
        final(out)@ == old(out)@ + dec_u(n as nat),
    decreases n,
{
    if n < 10 {
        push_byte(out, (48 + n) as u8);
    } else {
        let ghost pre = out@;
        push_dec_u64(n / 10, out);
        push_byte(out, (48 + n % 10) as u8);
        proof {
            assert(out@ =~= pre + dec_u(n as nat));
        }
    }
}

/// Appends the decimal text of `n`, sign included, to `out`.
fn push_dec_i64(n: i64, out: &mut Vec<u8>)
    ensures
        final(out)@ == old(out)@ + dec_i(n as int),
{
    if n >= 0 {
        push_dec_u64(n as u64, out);
    } else {
        let ghost pre = out@;
        push_byte(out, 45);
        let m: u64 = ((-(n + 1)) as u64) + 1;
        assert(m as nat == (-(n as int)) as nat);
        push_dec_u64(m, out);
        proof {
            assert(out@ =~= pre + dec_i(n as int));
        }
    }
}

/// Appends a literal piece of the JSON text to `out`.
fn push_lit(s: &str, out: &mut Vec<u8>)
    ensures
        final(out)@ == old(out)@ + s.spec_bytes(),
{
    let b = s.as_bytes();
    out.extend_from_slice(b);
}

/// What the timestamp formatter returns for an instant: RFC 3339 text with
/// nanosecond precision and a `Z` zone, a function of the instant alone.
pub uninterp spec fn rfc3339_bytes(secs: int, nanos: int) -> Seq<u8>;

/// Relies on chrono's `DateTime::<Utc>::from_timestamp` and
/// `to_rfc3339_opts`: the RFC 3339 text of the instant, with a `Z` zone,
/// a function of the seconds and nanoseconds alone.  `from_timestamp`
/// returns `Some` whenever the seconds lie within about 262,000 years of
/// the common era and the nanoseconds are below one billion.
#[verifier::external_body]
fn rfc3339_utc(secs: i64, nanos: u32) -> (r: Option<Vec<u8>>)
    ensures
        r matches Some(b) ==> b@ == rfc3339_bytes(secs as int, nanos as int),
        (-8000000000000 <= secs <= 8000000000000 && nanos < 1000000000) ==> r is Some,
{
    match chrono::DateTime::<chrono::Utc>::from_timestamp(secs, nanos) {
        Some(dt) => Some(dt.to_rfc3339_opts(chrono::SecondsFormat::AutoSi, true).into_bytes()),
        None => None,
    }
}

/// The canonical JSON of a vote under a chain identifier: one object whose
/// keys appear in this fixed order, with no whitespace.
pub open spec fn canonical_vote_json(v: VoteModel, chain: Seq<u8>) -> Seq<u8> {
    ("{\"@chain_id\":\"").spec_bytes() + esc_bytes(chain) + (
    "\",\"@type\":\"vote\",\"block_id\":{\"hash\":\"").spec_bytes() + hex_upper_bytes(v.block.hash)
        + ("\",\"parts\":{\"hash\":\"").spec_bytes() + hex_upper_bytes(v.block.parts_hash) + (
    "\",\"total\":").spec_bytes() + dec_i(v.block.parts_total) + ("}},\"height\":").spec_bytes()
        + dec_i(v.height) + (",\"round\":").spec_bytes() + dec_i(v.round) + (
    ",\"timestamp\":\"").spec_bytes() + rfc3339_bytes(v.secs, v.nanos as int) + (
    "\",\"type\":\"").spec_bytes() + esc_bytes(seq![v.vote_type as u8]) + ("\"}").spec_bytes()
}

impl Vote {
    /// The canonical JSON bytes of this vote — the exact input to the
    /// signature function.  The timestamp must lie within the formatter's
    /// range (about 253,000 years either side of the epoch).
    #[verifier::rlimit(100)]
    pub fn cannonicalize(&self, chain_id: &str) -> (r: Vec<u8>)
        requires
            self.wf(),
            -8000000000000 <= self.timestamp.secs <= 8000000000000,
        ensures
            r@ == canonical_vote_json(self@, chain_id.spec_bytes()),
    {
        let mut out: Vec<u8> = Vec::new();
        push_lit("{\"@chain_id\":\"", &mut out);
        push_escaped(chain_id.as_bytes(), &mut out);
        push_lit("\",\"@type\":\"vote\",\"block_id\":{\"hash\":\"", &mut out);
        push_hex_upper(self.block_id.hash.as_slice(), &mut out);
        push_lit("\",\"parts\":{\"hash\":\"", &mut out);
        push_hex_upper(self.block_id.parts_header.hash.as_slice(), &mut out);
        push_lit("\",\"total\":", &mut out);
        push_dec_i64(self.block_id.parts_header.total, &mut out);
        push_lit("}},\"height\":", &mut out);
        push_dec_i64(self.height, &mut out);
        push_lit(",\"round\":", &mut out);
        push_dec_i64(self.round, &mut out);
        push_lit(",\"timestamp\":\"", &mut out);
        let ts = match rfc3339_utc(self.timestamp.secs, self.timestamp.nanos) {
            Some(b) => b,
            None => {
                proof {
                    assert(false);
                }
                vstd::pervasive::unreached()
            },
        };
        out.extend_from_slice(ts.as_slice());
        push_lit("\",\"type\":\"", &mut out);
        let vt: u8 = match self.vote_type {
            crate::vote::VoteType::PreVote => 1,
            crate::vote::VoteType::PreCommit => 2,
        };
        let ghost pre = out@;
        push_esc_byte(vt, &mut out);
        proof {
            assert(esc_bytes(seq![vt]) == esc_bytes(seq![vt].drop_last()) + esc_byte(vt));
            assert(seq![vt].drop_last() =~= Seq::<u8>::empty());
            assert(out@ =~= pre + esc_bytes(seq![vt]));
        }
        push_lit("\"}", &mut out);
        proof {
            assert(out@ =~= canonical_vote_json(self@, chain_id.spec_bytes()));
        }
        out
    }
}

/// Canonical JSON determinism: any two canonicalizations of the same vote
/// under the same chain identifier are byte-identical.
pub proof fn lemma_canonical_json_deterministic(
    v: VoteModel,
    chain: Seq<u8>,
    r1: Seq<u8>,
    r2: Seq<u8>,
)
    requires
        r1 == canonical_vote_json(v, chain),
        r2 == canonical_vote_json(v, chain),
    ensures
        r1 == r2,
{
}

} // verus!

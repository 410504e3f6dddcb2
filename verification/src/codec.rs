//! Primitive wire codec: unsigned and zig-zag variable-length integers,
//! big-endian fixed-width integers, length-prefixed byte strings, and field
//! keys.
//!
//! Every encoder appends to a byte buffer and is pinned to a byte-exact
//! specification function; every decoder reads from a byte slice at a
//! position and returns exactly what the corresponding specification-level
//! parser returns.  The `lemma_parse_*_of_enc` lemmas state that each parser
//! inverts its encoder.

use vstd::prelude::*;
use crate::error::Error;

verus! {

/// Type-tag nibble: variable-length integer body.
pub const TYP3_VARINT: u8 = 0;
/// Type-tag nibble: eight raw bytes.
pub const TYP3_8BYTE: u8 = 1;
/// Type-tag nibble: length-prefixed bytes.
pub const TYP3_BYTELENGTH: u8 = 2;
/// Type-tag nibble: nested struct.
pub const TYP3_STRUCT: u8 = 3;
/// Type-tag nibble: closes the innermost struct.
pub const TYP3_STRUCTTERM: u8 = 4;
/// Type-tag nibble: four raw bytes.
pub const TYP3_4BYTE: u8 = 5;
/// Type-tag nibble: length-prefixed body of a registered sum-type value.
pub const TYP3_INTERFACE: u8 = 7;

/// The field key that introduces field `num` with type tag `tag`.
pub open spec fn spec_field_key(num: nat, tag: nat) -> u8 {
    (num * 8 + tag) as u8
}

/// Packs `(num << 3) | tag` into the single key byte of a field.
pub fn field_key(num: u8, tag: u8) -> (r: u8)
    requires
        num < 16,
        tag < 8,
    ensures
        r == spec_field_key(num as nat, tag as nat),
{
    num * 8 + tag
}

/// Base-128 little-endian-continuation encoding of an unsigned integer.
pub open spec fn uvarint_bytes(n: nat) -> Seq<u8>
    decreases n,
{
    if n < 128 {
        seq![n as u8]
    } else {
        seq![(n % 128 + 128) as u8] + uvarint_bytes(n / 128)
    }
}

/// 128 to the power `k`.
pub open spec fn pow128(k: nat) -> nat
    decreases k,
{
    if k == 0 {
        1
    } else {
        128 * pow128((k - 1) as nat)
    }
}

proof fn lemma_pow128_10()
    ensures
        pow128(9) == 0x8000000000000000,
        pow128(10) == 0x400000000000000000,
{
    assert(pow128(0) == 1);
    assert(pow128(1) == 128);
    assert(pow128(2) == 0x4000);
    assert(pow128(3) == 0x200000);
    assert(pow128(4) == 0x10000000);
    assert(pow128(5) == 0x800000000);
    assert(pow128(6) == 0x40000000000);
    assert(pow128(7) == 0x2000000000000);
    assert(pow128(8) == 0x100000000000000);
    assert(pow128(9) == 0x8000000000000000);
    assert(pow128(10) == 0x400000000000000000);
}

proof fn lemma_pow128_increases(j: nat, k: nat)
    requires
        j <= k,
    ensures
        pow128(j) <= pow128(k),
    decreases k,
{
    if j < k {
        lemma_pow128_increases(j, (k - 1) as nat);
    }
}

/// An encoded unsigned varint is never empty, and a 64-bit value takes at
/// most ten bytes.
pub proof fn lemma_uvarint_bytes_len(n: nat)
    ensures
        1 <= uvarint_bytes(n).len(),
        n < 0x10000000000000000 ==> uvarint_bytes(n).len() <= 10,
{
    lemma_pow128_10();
    lemma_uvarint_len_bound(n, 10);
}

proof fn lemma_uvarint_len_bound(n: nat, k: nat)
    requires
        1 <= k,
    ensures
        1 <= uvarint_bytes(n).len(),
        n < pow128(k) ==> uvarint_bytes(n).len() <= k,
    decreases n,
{
    if n >= 128 {
        lemma_uvarint_len_bound(n / 128, if k == 1 { 1 } else { (k - 1) as nat });
        if n < pow128(k) {
            assert(pow128(0) == 1);
            assert(pow128(1) == 128);
            assert(k >= 2);
            assert(n / 128 < pow128((k - 1) as nat)) by {
                if n / 128 >= pow128((k - 1) as nat) {
                    assert(n >= 128 * (n / 128)) by (nonlinear_arith);
                    assert(128 * (n / 128) >= 128 * pow128((k - 1) as nat)) by (nonlinear_arith)
                        requires n / 128 >= pow128((k - 1) as nat);
                }
            }
        }
    }
}

/// Appends the base-128 encoding of `n` to `out`.
pub fn encode_uvarint(n: u64, out: &mut Vec<u8>)
    ensures
        final(out)@ == old(out)@ + uvarint_bytes(n as nat),
{
    let mut x: u64 = n;
    while x >= 128
        invariant
            old(out)@ + uvarint_bytes(n as nat) == out@ + uvarint_bytes(x as nat),
        decreases x,
    {
        let ghost pre = out@;
        let b: u8 = (x % 128 + 128) as u8;
        out.push(b);
        proof {
            assert(uvarint_bytes(x as nat) == seq![b] + uvarint_bytes((x as nat) / 128));
            assert((pre + uvarint_bytes(x as nat)) =~= (out@ + uvarint_bytes((x as nat) / 128)));
        }
        x = x / 128;
    }
    let ghost pre = out@;
    out.push(x as u8);
    proof {
        assert(uvarint_bytes(x as nat) == seq![x as u8]);
        assert((pre + uvarint_bytes(x as nat)) =~= out@);
    }
}

/// Specification-level parse of a base-128 varint: at most `depth` more
/// bytes may be consumed.  Returns the value and the count of bytes read.
pub open spec fn parse_uvarint_rec(s: Seq<u8>, i: int, depth: nat) -> Result<(nat, int), Error>
    decreases depth,
{
    if depth == 0 {
        Err(Error::Overflow)
    } else if i < 0 || i >= s.len() {
        Err(Error::Truncated)
    } else if s[i] < 128 {
        Ok((s[i] as nat, 1))
    } else {
        match parse_uvarint_rec(s, i + 1, (depth - 1) as nat) {
            Ok((v, c)) => Ok(((s[i] - 128) as nat + 128 * v, c + 1)),
            Err(e) => Err(e),
        }
    }
}

/// Specification-level parse of an unsigned varint at position `i`:
/// at most ten bytes, and the value must fit in 64 bits.
pub open spec fn parse_uvarint(s: Seq<u8>, i: int) -> Result<(u64, int), Error> {
    match parse_uvarint_rec(s, i, 10) {
        Ok((v, c)) => if v <= u64::MAX { Ok((v as u64, c)) } else { Err(Error::Overflow) },
        Err(e) => Err(e),
    }
}

/// Combines an inner varint parse with `j` continuation bytes already read,
/// whose payload accumulates to `a` with place value `m`.
spec fn combine_uvarint(r: Result<(nat, int), Error>, a: nat, m: nat, j: int) -> Result<
    (nat, int),
    Error,
> {
    match r {
        Ok((v, c)) => Ok((a + v * m, c + j)),
        Err(e) => Err(e),
    }
}

/// Reads an unsigned varint from `data` at `pos`; returns the value and the
/// position just past it.  The outcome is exactly that of `parse_uvarint`.
pub fn decode_uvarint(data: &[u8], pos: usize) -> (r: Result<(u64, usize), Error>)
    requires
        pos <= data@.len(),
    ensures
        match r {
            Ok((v, p)) => pos < p <= data@.len() && parse_uvarint(data@, pos as int) == Ok::<
                (u64, int),
                Error,
            >((v, p - pos)),
            Err(e) => parse_uvarint(data@, pos as int) == Err::<(u64, int), Error>(e),
        },
{
    let ghost s = data@;
    let mut j: usize = 0;
    let mut acc: u128 = 0;
    let mut mult: u128 = 1;
    proof {
        lemma_pow128_10();
    }
    while j < 10
        invariant
            0 <= j <= 10,
            pos <= s.len(),
            s == data@,
            mult == pow128(j as nat),
            acc < mult,
            mult <= pow128(10),
            pow128(9) == 0x8000000000000000,
            pow128(10) == 0x400000000000000000,
            parse_uvarint_rec(s, pos as int, 10) == combine_uvarint(
                parse_uvarint_rec(s, pos as int + j, (10 - j) as nat),
                acc as nat,
                mult as nat,
                j as int,
            ),
        decreases 10 - j,
    {
        if data.len() - pos <= j {
            assert(parse_uvarint_rec(s, pos as int + j, (10 - j) as nat) == Err::<
                (nat, int),
                Error,
            >(Error::Truncated));
            return Err(Error::Truncated);
        }
        let b: u8 = data[pos + j];
        proof {
            lemma_pow128_increases(j as nat, 9);
            assert((b as u128) * mult <= 255 * 0x8000000000000000) by (nonlinear_arith)
                requires
                    b <= 255,
                    mult <= 0x8000000000000000,
                ;
        }
        if b < 128 {
            assert(parse_uvarint_rec(s, pos as int + j, (10 - j) as nat) == Ok::<
                (nat, int),
                Error,
            >((b as nat, 1)));
            let v: u128 = acc + (b as u128) * mult;
            assert(parse_uvarint_rec(s, pos as int, 10) == Ok::<(nat, int), Error>(
                (v as nat, j as int + 1),
            ));
            if v > u64::MAX as u128 {
                return Err(Error::Overflow);
            }
            return Ok((v as u64, pos + j + 1));
        }
        let ghost old_acc = acc as nat;
        let ghost old_mult = mult as nat;
        proof {
            assert(((b - 128) as u128) * mult <= 255 * 0x8000000000000000) by (nonlinear_arith)
                requires
                    128 <= b <= 255,
                    mult <= 0x8000000000000000,
                ;
        }
        acc = acc + ((b - 128) as u128) * mult;
        mult = mult * 128;
        proof {
            assert(acc < mult) by (nonlinear_arith)
                requires
                    old_acc < old_mult,
                    acc == old_acc + (b - 128) * old_mult,
                    mult == old_mult * 128,
                    b - 128 < 128;
            assert(mult == pow128((j + 1) as nat));
            lemma_pow128_increases((j + 1) as nat, 10);
            let inner = parse_uvarint_rec(s, pos as int + j + 1, (10 - (j + 1)) as nat);
            assert(parse_uvarint_rec(s, pos as int + j, (10 - j) as nat) == match inner {
                Ok((v, c)) => Ok::<(nat, int), Error>(((b - 128) as nat + 128 * v, c + 1)),
                Err(e) => Err::<(nat, int), Error>(e),
            });
            match inner {
                Ok((v, c)) => {
                    assert(old_acc + ((b - 128) as nat + 128 * v) * old_mult == acc as nat + v * (
                    mult as nat)) by (nonlinear_arith)
                        requires
                            acc == old_acc + (b - 128) * old_mult,
                            mult == old_mult * 128,
                            128 <= b;
                },
                Err(_) => {},
            }
            assert(parse_uvarint_rec(s, pos as int, 10) == combine_uvarint(
                inner,
                acc as nat,
                mult as nat,
                j as int + 1,
            ));
        }
        j = j + 1;
    }
    assert(parse_uvarint_rec(s, pos as int + 10, 0) == Err::<(nat, int), Error>(Error::Overflow));
    Err(Error::Overflow)
}

/// Parsing inverts encoding for unsigned varints: if the bytes at `i` are
/// `uvarint_bytes(n)`, the parse yields `n` and consumes exactly them.
pub proof fn lemma_parse_uvarint_of_enc(s: Seq<u8>, i: int, n: u64)
    requires
        0 <= i,
        i + uvarint_bytes(n as nat).len() <= s.len(),
        s.subrange(i, i + uvarint_bytes(n as nat).len()) == uvarint_bytes(n as nat),
    ensures
        parse_uvarint(s, i) == Ok::<(u64, int), Error>((n, uvarint_bytes(n as nat).len() as int)),
{
    lemma_pow128_10();
    lemma_uvarint_bytes_len(n as nat);
    lemma_parse_uvarint_rec_of_enc(s, i, n as nat, 10);
}

proof fn lemma_parse_uvarint_rec_of_enc(s: Seq<u8>, i: int, n: nat, depth: nat)
    requires
        0 <= i,
        i + uvarint_bytes(n).len() <= s.len(),
        s.subrange(i, i + uvarint_bytes(n).len()) == uvarint_bytes(n),
        uvarint_bytes(n).len() <= depth,
    ensures
        parse_uvarint_rec(s, i, depth) == Ok::<(nat, int), Error>(
            (n, uvarint_bytes(n).len() as int),
        ),
    decreases n,
{
    lemma_uvarint_bytes_len(n);
    let len = uvarint_bytes(n).len() as int;
    assert(s[i] == uvarint_bytes(n)[0]);
    if n < 128 {
        assert(s[i] == n as u8);
    } else {
        let rest = uvarint_bytes(n / 128);
        assert(uvarint_bytes(n) == seq![(n % 128 + 128) as u8] + rest);
        assert(s[i] == (n % 128 + 128) as u8);
        assert(s[i] >= 128);
        lemma_uvarint_bytes_len(n / 128);
        assert(s.subrange(i + 1, i + len) =~= rest) by {
            assert forall|k: int| 0 <= k < rest.len() implies s.subrange(i + 1, i + len)[k]
                == rest[k] by {
                assert(s.subrange(i + 1, i + len)[k] == s.subrange(i, i + len)[k + 1]);
                assert(uvarint_bytes(n)[k + 1] == rest[k]);
            }
        }
        lemma_parse_uvarint_rec_of_enc(s, i + 1, n / 128, (depth - 1) as nat);
        assert(parse_uvarint_rec(s, i, depth) == Ok::<(nat, int), Error>(
            ((s[i] - 128) as nat + 128 * (n / 128), len),
        ));
        assert((s[i] - 128) as nat + 128 * (n / 128) == n) by {
            vstd::arithmetic::div_mod::lemma_fundamental_div_mod(n as int, 128);
        }
    }
}

/// Zig-zag mapping of a signed integer onto an unsigned one.
pub open spec fn zigzag(n: int) -> nat {
    if n >= 0 {
        (2 * n) as nat
    } else {
        (-2 * n - 1) as nat
    }
}

/// Inverse of the zig-zag mapping.
pub open spec fn unzigzag(v: nat) -> int {
    if v % 2 == 0 {
        (v / 2) as int
    } else {
        -((v / 2) as int) - 1
    }
}

/// Zig-zag base-128 encoding of a signed integer.
pub open spec fn varint_bytes(n: int) -> Seq<u8> {
    uvarint_bytes(zigzag(n))
}

/// Specification-level parse of a signed (zig-zag) varint.
pub open spec fn parse_varint(s: Seq<u8>, i: int) -> Result<(int, int), Error> {
    match parse_uvarint(s, i) {
        Ok((v, c)) => Ok((unzigzag(v as nat), c)),
        Err(e) => Err(e),
    }
}

/// Appends the zig-zag base-128 encoding of `n` to `out`.
pub fn encode_varint(n: i64, out: &mut Vec<u8>)
    ensures
        final(out)@ == old(out)@ + varint_bytes(n as int),
{
    let zz: u64 = if n >= 0 {
        (n as u64) * 2
    } else {
        ((-(n + 1)) as u64) * 2 + 1
    };
    assert(zz as nat == zigzag(n as int));
    encode_uvarint(zz, out);
}

/// Reads a signed (zig-zag) varint; the outcome is exactly `parse_varint`.
pub fn decode_varint(data: &[u8], pos: usize) -> (r: Result<(i64, usize), Error>)
    requires
        pos <= data@.len(),
    ensures
        match r {
            Ok((v, p)) => pos < p <= data@.len() && parse_varint(data@, pos as int) == Ok::<
                (int, int),
                Error,
            >((v as int, p - pos)),
            Err(e) => parse_varint(data@, pos as int) == Err::<(int, int), Error>(e),
        },
{
    match decode_uvarint(data, pos) {
        Ok((v, p)) => {
            let r: i64 = if v % 2 == 0 {
                (v / 2) as i64
            } else {
                -((v / 2) as i64) - 1
            };
            assert(r as int == unzigzag(v as nat));
            Ok((r, p))
        },
        Err(e) => Err(e),
    }
}

/// Parsing inverts encoding for signed varints.
pub proof fn lemma_parse_varint_of_enc(s: Seq<u8>, i: int, n: i64)
    requires
        0 <= i,
        i + varint_bytes(n as int).len() <= s.len(),
        s.subrange(i, i + varint_bytes(n as int).len()) == varint_bytes(n as int),
    ensures
        parse_varint(s, i) == Ok::<(int, int), Error>(
            (n as int, varint_bytes(n as int).len() as int),
        ),
{
    let zz = zigzag(n as int);
    assert(zz <= u64::MAX);
    lemma_parse_uvarint_of_enc(s, i, zz as u64);
    assert(unzigzag(zz) == n as int);
}

/// 256 to the power `k`.
pub open spec fn pow256(k: nat) -> nat
    decreases k,
{
    if k == 0 {
        1
    } else {
        256 * pow256((k - 1) as nat)
    }
}

/// Big-endian bytes of `v`, exactly `k` of them (most significant first).
pub open spec fn be_bytes(v: nat, k: nat) -> Seq<u8>
    decreases k,
{
    if k == 0 {
        Seq::empty()
    } else {
        be_bytes(v / 256, (k - 1) as nat).push((v % 256) as u8)
    }
}

/// The value of the `k` big-endian bytes of `s` starting at `i`.
pub open spec fn be_val(s: Seq<u8>, i: int, k: nat) -> nat
    decreases k,
{
    if k == 0 {
        0
    } else {
        be_val(s, i, (k - 1) as nat) * 256 + s[i + k - 1] as nat
    }
}

pub proof fn lemma_be_bytes_len(v: nat, k: nat)
    ensures
        be_bytes(v, k).len() == k,
    decreases k,
{
    if k > 0 {
        lemma_be_bytes_len(v / 256, (k - 1) as nat);
    }
}

/// Reading back `k` big-endian bytes yields the value they encode.
pub proof fn lemma_be_val_of_bytes(s: Seq<u8>, i: int, v: nat, k: nat)
    requires
        0 <= i,
        i + k <= s.len(),
        v < pow256(k),
        s.subrange(i, i + k) == be_bytes(v, k),
    ensures
        be_val(s, i, k) == v,
    decreases k,
{
    lemma_be_bytes_len(v, k);
    if k > 0 {
        lemma_be_bytes_len(v / 256, (k - 1) as nat);
        assert(s.subrange(i, i + k - 1) =~= be_bytes(v / 256, (k - 1) as nat)) by {
            assert forall|m: int| 0 <= m < k - 1 implies #[trigger] s.subrange(i, i + k - 1)[m]
                == be_bytes(v / 256, (k - 1) as nat)[m] by {
                assert(s.subrange(i, i + k)[m] == be_bytes(v, k)[m]);
            }
        }
        assert(v / 256 < pow256((k - 1) as nat)) by (nonlinear_arith)
            requires
                v < 256 * pow256((k - 1) as nat),
        ;
        lemma_be_val_of_bytes(s, i, v / 256, (k - 1) as nat);
        assert(s[i + k - 1] == be_bytes(v, k)[k - 1]);
        assert(be_bytes(v, k)[k - 1] == (v % 256) as u8);
        vstd::arithmetic::div_mod::lemma_fundamental_div_mod(v as int, 256);
    }
}

/// An eight-byte signed integer always encodes to eight bytes.
pub proof fn lemma_int64_bytes_len(n: int)
    ensures
        int64_bytes(n).len() == 8,
{
    lemma_be_bytes_len(u64_of_i64(n), 8);
}

/// A four-byte unsigned integer always encodes to four bytes.
pub proof fn lemma_u32_bytes_len(n: nat)
    ensures
        u32_bytes(n).len() == 4,
{
    lemma_be_bytes_len(n, 4);
}

/// Two's-complement 64-bit image of a signed integer.
pub open spec fn u64_of_i64(n: int) -> nat {
    if n >= 0 {
        n as nat
    } else {
        (n + 0x10000000000000000) as nat
    }
}

/// Signed reading of a two's-complement 64-bit value.
pub open spec fn i64_of_u64(v: nat) -> int {
    if v < 0x8000000000000000 {
        v as int
    } else {
        v - 0x10000000000000000
    }
}

/// Eight big-endian bytes of the two's-complement image of `n`.
pub open spec fn int64_bytes(n: int) -> Seq<u8> {
    be_bytes(u64_of_i64(n), 8)
}

/// Specification-level parse of an eight-byte big-endian signed integer.
pub open spec fn parse_int64(s: Seq<u8>, i: int) -> Result<(int, int), Error> {
    if 0 <= i && i + 8 <= s.len() {
        Ok((i64_of_u64(be_val(s, i, 8)), 8))
    } else {
        Err(Error::Truncated)
    }
}

proof fn lemma_pow256_vals()
    ensures
        pow256(1) == 0x100,
        pow256(2) == 0x10000,
        pow256(3) == 0x1000000,
        pow256(4) == 0x100000000,
        pow256(5) == 0x10000000000,
        pow256(6) == 0x1000000000000,
        pow256(7) == 0x100000000000000,
        pow256(8) == 0x10000000000000000,
{
    assert(pow256(0) == 1);
    assert(pow256(1) == 0x100);
    assert(pow256(2) == 0x10000);
    assert(pow256(3) == 0x1000000);
    assert(pow256(4) == 0x100000000);
    assert(pow256(5) == 0x10000000000);
    assert(pow256(6) == 0x1000000000000);
    assert(pow256(7) == 0x100000000000000);
    assert(pow256(8) == 0x10000000000000000);
}

/// Appends the eight big-endian two's-complement bytes of `n` to `out`.
pub fn encode_int64(n: i64, out: &mut Vec<u8>)
    ensures
        final(out)@ == old(out)@ + int64_bytes(n as int),
{
    let u: u64 = if n >= 0 {
        n as u64
    } else {
        u64::MAX - ((-(n + 1)) as u64)
    };
    assert(u as nat == u64_of_i64(n as int));
    let d1: u64 = u / 256;
    let d2: u64 = d1 / 256;
    let d3: u64 = d2 / 256;
    let d4: u64 = d3 / 256;
    let d5: u64 = d4 / 256;
    let d6: u64 = d5 / 256;
    let d7: u64 = d6 / 256;
    let ghost pre = out@;
    out.push((d7 % 256) as u8);
    out.push((d6 % 256) as u8);
    out.push((d5 % 256) as u8);
    out.push((d4 % 256) as u8);
    out.push((d3 % 256) as u8);
    out.push((d2 % 256) as u8);
    out.push((d1 % 256) as u8);
    out.push((u % 256) as u8);
    proof {
        let un = u as nat;
        assert(be_bytes(d7 as nat / 256, 0) =~= Seq::<u8>::empty());
        assert(be_bytes(d7 as nat, 1) =~= seq![(d7 % 256) as u8]);
        assert(be_bytes(d6 as nat, 2) == be_bytes(d7 as nat, 1).push((d6 % 256) as u8));
        assert(be_bytes(d5 as nat, 3) == be_bytes(d6 as nat, 2).push((d5 % 256) as u8));
        assert(be_bytes(d4 as nat, 4) == be_bytes(d5 as nat, 3).push((d4 % 256) as u8));
        assert(be_bytes(d3 as nat, 5) == be_bytes(d4 as nat, 4).push((d3 % 256) as u8));
        assert(be_bytes(d2 as nat, 6) == be_bytes(d3 as nat, 5).push((d2 % 256) as u8));
        assert(be_bytes(d1 as nat, 7) == be_bytes(d2 as nat, 6).push((d1 % 256) as u8));
        assert(be_bytes(un, 8) == be_bytes(d1 as nat, 7).push((u % 256) as u8));
        assert(out@ =~= pre + be_bytes(un, 8));
    }
}

/// Reads eight big-endian bytes as a signed integer; the outcome is exactly
/// `parse_int64`.
pub fn decode_int64(data: &[u8], pos: usize) -> (r: Result<(i64, usize), Error>)
    requires
        pos <= data@.len(),
    ensures
        match r {
            Ok((v, p)) => p == pos + 8 && p <= data@.len() && parse_int64(data@, pos as int)
                == Ok::<(int, int), Error>((v as int, 8)),
            Err(e) => parse_int64(data@, pos as int) == Err::<(int, int), Error>(e),
        },
{
    proof {
        lemma_pow256_vals();
    }
    if data.len() - pos < 8 {
        return Err(Error::Truncated);
    }
    let mut acc: u64 = 0;
    let mut k: usize = 0;
    while k < 8
        invariant
            pos + 8 <= data@.len(),
            data@.len() <= usize::MAX,
            0 <= k <= 8,
            acc as nat == be_val(data@, pos as int, k as nat),
            (acc as nat) < pow256(k as nat),
            pow256(7) == 0x100000000000000,
            pow256(8) == 0x10000000000000000,
        decreases 8 - k,
    {
        proof {
            lemma_pow256_le8(k as nat);
        }
        acc = acc * 256 + (data[pos + k] as u64);
        k = k + 1;
    }
    let v: i64 = if acc < 0x8000000000000000 {
        acc as i64
    } else {
        -((u64::MAX - acc) as i64) - 1
    };
    assert(v as int == i64_of_u64(acc as nat));
    Ok((v, pos + 8))
}

proof fn lemma_pow256_le8(k: nat)
    requires
        k <= 7,
    ensures
        pow256(k) <= pow256(7),
    decreases 7 - k,
{
    if k < 7 {
        lemma_pow256_le8((k + 1) as nat);
    }
}

/// Parsing inverts encoding for eight-byte signed integers.
pub proof fn lemma_parse_int64_of_enc(s: Seq<u8>, i: int, n: i64)
    requires
        0 <= i,
        i + 8 <= s.len(),
        s.subrange(i, i + 8) == int64_bytes(n as int),
    ensures
        parse_int64(s, i) == Ok::<(int, int), Error>((n as int, 8)),
{
    lemma_pow256_vals();
    lemma_be_val_of_bytes(s, i, u64_of_i64(n as int), 8);
}

/// Four big-endian bytes of an unsigned 32-bit value.
pub open spec fn u32_bytes(n: nat) -> Seq<u8> {
    be_bytes(n, 4)
}

/// Specification-level parse of a four-byte big-endian unsigned integer.
pub open spec fn parse_u32(s: Seq<u8>, i: int) -> Result<(nat, int), Error> {
    if 0 <= i && i + 4 <= s.len() {
        Ok((be_val(s, i, 4), 4))
    } else {
        Err(Error::Truncated)
    }
}

/// Appends the four big-endian bytes of `n` to `out`.
pub fn encode_u32(n: u32, out: &mut Vec<u8>)
    ensures
        final(out)@ == old(out)@ + u32_bytes(n as nat),
{
    let d1: u32 = n / 256;
    let d2: u32 = d1 / 256;
    let d3: u32 = d2 / 256;
    let ghost pre = out@;
    out.push((d3 % 256) as u8);
    out.push((d2 % 256) as u8);
    out.push((d1 % 256) as u8);
    out.push((n % 256) as u8);
    proof {
        assert(be_bytes(d3 as nat / 256, 0) =~= Seq::<u8>::empty());
        assert(be_bytes(d3 as nat, 1) =~= seq![(d3 % 256) as u8]);
        assert(be_bytes(d2 as nat, 2) == be_bytes(d3 as nat, 1).push((d2 % 256) as u8));
        assert(be_bytes(d1 as nat, 3) == be_bytes(d2 as nat, 2).push((d1 % 256) as u8));
        assert(be_bytes(n as nat, 4) == be_bytes(d1 as nat, 3).push((n % 256) as u8));
        assert(out@ =~= pre + be_bytes(n as nat, 4));
    }
}

/// Reads four big-endian bytes as an unsigned 32-bit value; the outcome is
/// exactly `parse_u32`.
pub fn decode_u32(data: &[u8], pos: usize) -> (r: Result<(u32, usize), Error>)
    requires
        pos <= data@.len(),
    ensures
        match r {
            Ok((v, p)) => p == pos + 4 && p <= data@.len() && parse_u32(data@, pos as int) == Ok::<
                (nat, int),
                Error,
            >((v as nat, 4)),
            Err(e) => parse_u32(data@, pos as int) == Err::<(nat, int), Error>(e),
        },
{
    proof {
        lemma_pow256_vals();
    }
    if data.len() - pos < 4 {
        return Err(Error::Truncated);
    }
    let mut acc: u32 = 0;
    let mut k: usize = 0;
    while k < 4
        invariant
            pos + 4 <= data@.len(),
            data@.len() <= usize::MAX,
            0 <= k <= 4,
            acc as nat == be_val(data@, pos as int, k as nat),
            (acc as nat) < pow256(k as nat),
            pow256(3) == 0x1000000,
            pow256(4) == 0x100000000,
        decreases 4 - k,
    {
        proof {
            lemma_pow256_le3(k as nat);
        }
        acc = acc * 256 + (data[pos + k] as u32);
        k = k + 1;
    }
    Ok((acc, pos + 4))
}

proof fn lemma_pow256_le3(k: nat)
    requires
        k <= 3,
    ensures
        pow256(k) <= pow256(3),
    decreases 3 - k,
{
    if k < 3 {
        lemma_pow256_le3((k + 1) as nat);
    }
}

/// Parsing inverts encoding for four-byte unsigned integers.
pub proof fn lemma_parse_u32_of_enc(s: Seq<u8>, i: int, n: u32)
    requires
        0 <= i,
        i + 4 <= s.len(),
        s.subrange(i, i + 4) == u32_bytes(n as nat),
    ensures
        parse_u32(s, i) == Ok::<(nat, int), Error>((n as nat, 4)),
{
    lemma_pow256_vals();
    lemma_be_val_of_bytes(s, i, n as nat, 4);
}

/// A byte string on the wire: its length as an unsigned varint, then the
/// bytes themselves.
pub open spec fn bytes_enc(b: Seq<u8>) -> Seq<u8> {
    uvarint_bytes(b.len()) + b
}

/// Specification-level parse of a length-prefixed byte string.
pub open spec fn parse_bytes(s: Seq<u8>, i: int) -> Result<(Seq<u8>, int), Error> {
    match parse_uvarint(s, i) {
        Ok((l, c)) => if i + c + l <= s.len() {
            Ok((s.subrange(i + c, i + c + l), c + l))
        } else {
            Err(Error::Truncated)
        },
        Err(e) => Err(e),
    }
}

/// Appends the length-prefixed encoding of `b` to `out`.
pub fn encode_bytes(b: &[u8], out: &mut Vec<u8>)
    ensures
        final(out)@ == old(out)@ + bytes_enc(b@),
{
    let ghost pre = out@;
    encode_uvarint(b.len() as u64, out);
    out.extend_from_slice(b);
    proof {
        assert(out@ =~= pre + bytes_enc(b@));
    }
}

/// Reads a length-prefixed byte string; the outcome is exactly `parse_bytes`.
pub fn decode_bytes(data: &[u8], pos: usize) -> (r: Result<(Vec<u8>, usize), Error>)
    requires
        pos <= data@.len(),
    ensures
        match r {
            Ok((v, p)) => pos < p <= data@.len() && parse_bytes(data@, pos as int) == Ok::<
                (Seq<u8>, int),
                Error,
            >((v@, p - pos)),
            Err(e) => parse_bytes(data@, pos as int) == Err::<(Seq<u8>, int), Error>(e),
        },
{
    match decode_uvarint(data, pos) {
        Ok((l, p)) => {
            if l > (data.len() - p) as u64 {
                return Err(Error::Truncated);
            }
            let end: usize = p + (l as usize);
            let sub: &[u8] = &data[p..end];
            let v: Vec<u8> = vstd::slice::slice_to_vec(sub);
            assert(v@ == data@.subrange(p as int, p as int + l as int));
            Ok((v, end))
        },
        Err(e) => Err(e),
    }
}

/// Parsing inverts encoding for length-prefixed byte strings.
pub proof fn lemma_parse_bytes_of_enc(s: Seq<u8>, i: int, b: Seq<u8>)
    requires
        0 <= i,
        i + bytes_enc(b).len() <= s.len(),
        s.subrange(i, i + bytes_enc(b).len()) == bytes_enc(b),
        b.len() <= u64::MAX,
    ensures
        parse_bytes(s, i) == Ok::<(Seq<u8>, int), Error>((b, bytes_enc(b).len() as int)),
{
    let pre = uvarint_bytes(b.len());
    lemma_subrange_split(s, i, pre, b);
    lemma_parse_uvarint_of_enc(s, i, b.len() as u64);
}

/// A single expected byte (a field key or a struct terminator).
pub open spec fn parse_expect(s: Seq<u8>, i: int, want: u8) -> Result<int, Error> {
    if i < 0 || i >= s.len() {
        Err(Error::Truncated)
    } else if s[i] == want {
        Ok(1)
    } else {
        Err(Error::UnexpectedField { got: s[i], want })
    }
}

/// Consumes one byte that must equal `want`; the outcome is exactly
/// `parse_expect`.
pub fn expect_byte(data: &[u8], pos: usize, want: u8) -> (r: Result<usize, Error>)
    requires
        pos <= data@.len(),
    ensures
        match r {
            Ok(p) => p == pos + 1 && p <= data@.len() && parse_expect(data@, pos as int, want)
                == Ok::<int, Error>(1),
            Err(e) => parse_expect(data@, pos as int, want) == Err::<int, Error>(e),
        },
{
    if pos >= data.len() {
        return Err(Error::Truncated);
    }
    let got: u8 = data[pos];
    if got == want {
        Ok(pos + 1)
    } else {
        Err(Error::UnexpectedField { got, want })
    }
}

/// The byte at `pos`, without consuming it.
pub fn peek_byte(data: &[u8], pos: usize) -> (r: Option<u8>)
    requires
        pos <= data@.len(),
    ensures
        data@.len() <= usize::MAX,
        match r {
            Some(b) => pos < data@.len() && b == data@[pos as int],
            None => pos == data@.len(),
        },
{
    if pos < data.len() {
        Some(data[pos])
    } else {
        None
    }
}

/// Splitting a known concatenation: if the bytes at `i` are `a + b`, then the
/// first `a.len()` of them are `a` and the following ones are `b`.
pub proof fn lemma_subrange_split(s: Seq<u8>, i: int, a: Seq<u8>, b: Seq<u8>)
    requires
        0 <= i,
        i + a.len() + b.len() <= s.len(),
        s.subrange(i, i + a.len() + b.len()) == a + b,
    ensures
        s.subrange(i, i + a.len()) == a,
        s.subrange(i + a.len(), i + a.len() + b.len()) == b,
{
    assert(s.subrange(i, i + a.len()) =~= a) by {
        assert forall|k: int| 0 <= k < a.len() implies s.subrange(i, i + a.len())[k] == a[k] by {
            assert(s.subrange(i, i + a.len() + b.len())[k] == (a + b)[k]);
        }
    }
    assert(s.subrange(i + a.len(), i + a.len() + b.len()) =~= b) by {
        assert forall|k: int| 0 <= k < b.len() implies s.subrange(
            i + a.len(),
            i + a.len() + b.len(),
        )[k] == b[k] by {
            assert(s.subrange(i + a.len(), i + a.len() + b.len())[k] == s[i + a.len() + k]);
            assert(s.subrange(i, i + a.len() + b.len())[a.len() + k] == (a + b)[a.len() + k]);
            assert((a + b)[a.len() + k] == b[k]);
        }
    }
}

} // verus!

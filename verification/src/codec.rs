//! Little- and big-endian byte encodings of the integer fields of the DSE
//! formats, and the cursor that the parsers read through.
use vstd::prelude::*;
use vstd::string::StringSliceAdditionalSpecFns;
use byteorder::{BigEndian, ByteOrder, LittleEndian};

verus! {

// ---------------------------------------------------------------------------
// Mathematical model of the encodings
// ---------------------------------------------------------------------------

/// Two's-complement bit pattern of an `i8`.
pub open spec fn u8_of_i8(v: i8) -> u8 {
    if v >= 0 { v as u8 } else { (v + 256) as u8 }
}

/// The `i8` whose bit pattern is `b`.
pub open spec fn i8_of_u8(b: u8) -> i8 {
    if b < 128 { b as i8 } else { (b - 256) as i8 }
}

pub open spec fn u16_of_i16(v: i16) -> u16 {
    if v >= 0 { v as u16 } else { (v + 0x1_0000) as u16 }
}

pub open spec fn i16_of_u16(b: u16) -> i16 {
    if b < 0x8000 { b as i16 } else { (b - 0x1_0000) as i16 }
}

pub open spec fn u32_of_i32(v: i32) -> u32 {
    if v >= 0 { v as u32 } else { (v + 0x1_0000_0000) as u32 }
}

pub open spec fn i32_of_u32(b: u32) -> i32 {
    if b < 0x8000_0000 { b as i32 } else { (b - 0x1_0000_0000) as i32 }
}

/// Multi-byte integers are written as their bytes: little-endian puts the
/// low byte first, big-endian the high byte first, and the bytes weighted
/// by powers of 256 add up to the value; signed values are written as their
/// two's complement bit patterns.
pub proof fn lemma_byte_orders(a: u16, b: u32, c: i16, d: i32, e: i8)
    ensures
        le_u16(a).len() == 2 && le_u16(a)[0] + 256 * le_u16(a)[1] == a,
        be_u16(a).len() == 2 && 256 * be_u16(a)[0] + be_u16(a)[1] == a,
        le_u32(b).len() == 4 && le_u32(b)[0] + 256 * le_u32(b)[1] + 0x1_0000 * le_u32(b)[2] + 0x100_0000 * le_u32(b)[3] == b,
        be_u32(b).len() == 4 && 0x100_0000 * be_u32(b)[0] + 0x1_0000 * be_u32(b)[1] + 256 * be_u32(b)[2] + be_u32(b)[3] == b,
        c >= 0 ==> u16_of_i16(c) == c,
        c < 0 ==> u16_of_i16(c) == c + 0x1_0000,
        d >= 0 ==> u32_of_i32(d) == d,
        d < 0 ==> u32_of_i32(d) == d + 0x1_0000_0000,
        e >= 0 ==> u8_of_i8(e) == e,
        e < 0 ==> u8_of_i8(e) == e + 256,
        i16_of_u16(u16_of_i16(c)) == c,
        i32_of_u32(u32_of_i32(d)) == d,
        i8_of_u8(u8_of_i8(e)) == e,
        u16_of(le_u16(a)) == a,
        u32_of(le_u32(b)) == b,
        u32_be_of(be_u32(b)) == b,
{
    assert(le_u16(a)[0] == a % 256 && le_u16(a)[1] == a / 256);
    assert(be_u16(a)[0] == a / 256 && be_u16(a)[1] == a % 256);
    assert((b / 256) % 256 * 256 + b % 256 == b % 0x1_0000);
    assert((b / 0x1_0000) % 256 * 0x1_0000 + b % 0x1_0000 == b % 0x100_0000);
    assert((b / 0x100_0000) * 0x100_0000 + b % 0x100_0000 == b);
}

/// Little-endian bytes of a `u16`.
pub open spec fn le_u16(v: u16) -> Seq<u8> {
    seq![(v % 256) as u8, (v / 256) as u8]
}

/// Little-endian bytes of a `u32`.
pub open spec fn le_u32(v: u32) -> Seq<u8> {
    seq![(v % 256) as u8, ((v / 256) % 256) as u8, ((v / 0x1_0000) % 256) as u8, (v / 0x100_0000) as u8]
}

/// Big-endian bytes of a `u16`.
pub open spec fn be_u16(v: u16) -> Seq<u8> {
    seq![(v / 256) as u8, (v % 256) as u8]
}

/// Big-endian bytes of a `u32`.
pub open spec fn be_u32(v: u32) -> Seq<u8> {
    seq![(v / 0x100_0000) as u8, ((v / 0x1_0000) % 256) as u8, ((v / 256) % 256) as u8, (v % 256) as u8]
}

pub open spec fn le_i16(v: i16) -> Seq<u8> {
    le_u16(u16_of_i16(v))
}

pub open spec fn le_i32(v: i32) -> Seq<u8> {
    le_u32(u32_of_i32(v))
}

pub open spec fn enc_u8(v: u8) -> Seq<u8> {
    seq![v]
}

pub open spec fn enc_i8(v: i8) -> Seq<u8> {
    seq![u8_of_i8(v)]
}

/// A `bool` field is one byte, 1 for true and 0 for false.
pub open spec fn enc_bool(v: bool) -> Seq<u8> {
    seq![if v { 1u8 } else { 0u8 }]
}

/// The `u16` whose little-endian bytes start `s`.
pub closed spec fn u16_of(s: Seq<u8>) -> u16 {
    (s[0] + 256 * s[1]) as u16
}

/// The `u32` whose little-endian bytes start `s`.
pub closed spec fn u32_of(s: Seq<u8>) -> u32 {
    (s[0] + 256 * s[1] + 0x1_0000 * s[2] + 0x100_0000 * s[3]) as u32
}

/// The `u32` whose big-endian bytes start `s`.
pub closed spec fn u32_be_of(s: Seq<u8>) -> u32 {
    (0x100_0000 * s[0] + 0x1_0000 * s[1] + 256 * s[2] + s[3]) as u32
}

pub open spec fn i16_of(s: Seq<u8>) -> i16 {
    i16_of_u16(u16_of(s))
}

pub open spec fn i32_of(s: Seq<u8>) -> i32 {
    i32_of_u32(u32_of(s))
}

pub open spec fn i8_at(d: Seq<u8>, i: int) -> i8 {
    i8_of_u8(d[i])
}

/// A `bool` field reads as true for any non-zero byte.
pub open spec fn bool_at(d: Seq<u8>, i: int) -> bool {
    d[i] != 0
}

/// The bytes `d[i..i + 16]`.
pub open spec fn bytes16_at(d: Seq<u8>, i: int) -> Seq<u8> {
    d.subrange(i, i + 16)
}

/// The bytes `d[i..i + 8]`.
pub open spec fn bytes8_at(d: Seq<u8>, i: int) -> Seq<u8> {
    d.subrange(i, i + 8)
}

/// An array whose first `k` elements are those of `s`.
pub open spec fn array_prefix<const N: usize>(s: Seq<u8>, k: nat) -> [u8; N]
    decreases k,
{
    if k == 0 {
        vstd::array::spec_array_fill_for_copy_type::<u8, N>(0u8)
    } else {
        vstd::array::spec_array_update(array_prefix::<N>(s, (k - 1) as nat), k - 1, s[k - 1])
    }
}

/// The array holding the bytes of `s`.
pub open spec fn array_from_seq<const N: usize>(s: Seq<u8>) -> [u8; N] {
    array_prefix::<N>(s, N as nat)
}

proof fn lemma_array_prefix<const N: usize>(s: Seq<u8>, k: nat)
    requires
        k <= N,
    ensures
        forall|i: int| 0 <= i < k ==> #[trigger] array_prefix::<N>(s, k)@[i] == s[i],
    decreases k,
{
    broadcast use vstd::array::axiom_spec_array_update;
    if k > 0 {
        lemma_array_prefix::<N>(s, (k - 1) as nat);
        let prev = array_prefix::<N>(s, (k - 1) as nat);
        assert(array_prefix::<N>(s, k)@ == prev@.update(k - 1, s[k - 1]));
    }
}

pub proof fn lemma_array_from_seq<const N: usize>(s: Seq<u8>)
    requires
        s.len() == N,
    ensures
        array_from_seq::<N>(s)@ == s,
{
    lemma_array_prefix::<N>(s, N as nat);
    assert(array_from_seq::<N>(s)@ =~= s);
}

pub proof fn lemma_array_from_view<const N: usize>(a: [u8; N])
    ensures
        array_from_seq::<N>(a@) == a,
{
    broadcast use vstd::array::axiom_array_ext_equal;
    lemma_array_from_seq::<N>(a@);
    assert(array_from_seq::<N>(a@) =~= a);
}

// ---------------------------------------------------------------------------
// Facts about the encodings
// ---------------------------------------------------------------------------

pub proof fn lemma_u16_roundtrip(v: u16)
    ensures
        u16_of(le_u16(v)) == v,
{
}

/// The base-256 digits of a `u32`, least significant first.
pub proof fn lemma_u32_digits(v: u32)
    ensures
        v as int == (v % 256) + 256 * ((v / 256) % 256) + 0x1_0000 * ((v / 0x1_0000) % 256) + 0x100_0000 * (v / 0x100_0000),
        v / 0x100_0000 < 256,
{
    let q1 = v as int / 256;
    let q2 = q1 / 256;
    let q3 = q2 / 256;
    assert(v as int == v as int % 256 + 256 * q1);
    assert(q1 == q1 % 256 + 256 * q2);
    assert(q2 == q2 % 256 + 256 * q3);
    assert(v as int / 0x1_0000 == q2) by {
        vstd::arithmetic::div_mod::lemma_div_denominator(v as int, 256, 256);
    }
    assert(v as int / 0x100_0000 == q3) by {
        vstd::arithmetic::div_mod::lemma_div_denominator(v as int, 0x1_0000, 256);
    }
}

pub proof fn lemma_u32_roundtrip(v: u32)
    ensures
        u32_of(le_u32(v)) == v,
{
    lemma_u32_digits(v);
}

pub proof fn lemma_u32_be_roundtrip(v: u32)
    ensures
        u32_be_of(be_u32(v)) == v,
{
    lemma_u32_digits(v);
}

pub proof fn lemma_i8_roundtrip(v: i8)
    ensures
        i8_of_u8(u8_of_i8(v)) == v,
{
}

pub proof fn lemma_i16_roundtrip(v: i16)
    ensures
        i16_of(le_i16(v)) == v,
{
    lemma_u16_roundtrip(u16_of_i16(v));
}

pub proof fn lemma_i32_roundtrip(v: i32)
    ensures
        i32_of(le_i32(v)) == v,
{
    lemma_u32_roundtrip(u32_of_i32(v));
}

pub proof fn lemma_u16_bytes(s: Seq<u8>)
    requires
        s.len() == 2,
    ensures
        le_u16(u16_of(s)) == s,
{
    assert(le_u16(u16_of(s)) =~= s);
}

proof fn lemma_div_mod_256(x: int, y: int)
    requires
        0 <= x < 256,
        0 <= y,
    ensures
        (x + 256 * y) % 256 == x,
        (x + 256 * y) / 256 == y,
{
}

/// The bytes of `u32_of(s)` are those of `s`.
proof fn lemma_u32_digits_of(s: Seq<u8>)
    requires
        s.len() == 4,
    ensures
        u32_of(s) % 256 == s[0],
        (u32_of(s) / 256) % 256 == s[1],
        (u32_of(s) / 0x1_0000) % 256 == s[2],
        u32_of(s) / 0x100_0000 == s[3],
{
    let v = u32_of(s);
    let hi2 = s[2] + 256 * s[3];
    let hi1 = s[1] + 256 * hi2;
    assert(v == s[0] + 256 * hi1);
    lemma_div_mod_256(s[0] as int, hi1);
    lemma_div_mod_256(s[1] as int, hi2);
    lemma_div_mod_256(s[2] as int, s[3] as int);
    assert(v / 0x1_0000 == hi2) by {
        assert(v / 256 == hi1);
        vstd::arithmetic::div_mod::lemma_div_denominator(v as int, 256, 256);
    }
    assert(v / 0x100_0000 == s[3] as int) by {
        vstd::arithmetic::div_mod::lemma_div_denominator(v as int, 0x1_0000, 256);
    }
}

pub proof fn lemma_u32_bytes(s: Seq<u8>)
    requires
        s.len() == 4,
    ensures
        le_u32(u32_of(s)) == s,
{
    lemma_u32_digits_of(s);
    assert(le_u32(u32_of(s)) =~= s);
}

pub proof fn lemma_u32_be_bytes(s: Seq<u8>)
    requires
        s.len() == 4,
    ensures
        be_u32(u32_be_of(s)) == s,
{
    let r = seq![s[3], s[2], s[1], s[0]];
    lemma_u32_digits_of(r);
    assert(u32_be_of(s) == u32_of(r));
    assert(be_u32(u32_be_of(s)) =~= s);
}

pub proof fn lemma_i8_bytes(b: u8)
    ensures
        u8_of_i8(i8_of_u8(b)) == b,
{
}

pub proof fn lemma_i16_bytes(s: Seq<u8>)
    requires
        s.len() == 2,
    ensures
        le_i16(i16_of(s)) == s,
{
    lemma_u16_bytes(s);
}

pub proof fn lemma_i32_bytes(s: Seq<u8>)
    requires
        s.len() == 4,
    ensures
        le_i32(i32_of(s)) == s,
{
    lemma_u32_bytes(s);
}

/// The piece `a` that starts the suffix of `e` at `off`, and what follows it.
pub proof fn lemma_split_piece(e: Seq<u8>, off: int, a: Seq<u8>, r: Seq<u8>)
    requires
        0 <= off <= e.len(),
        e.skip(off) == a + r,
    ensures
        e.subrange(off, off + a.len()) == a,
        e.skip(off + a.len()) == r,
{
    assert(e.skip(off).len() == e.len() - off);
    assert(off + a.len() <= e.len());
    assert forall|i: int| 0 <= i < a.len() implies #[trigger] e.subrange(off, off + a.len())[i] == a[i] by {
        assert(e.skip(off)[i] == e[off + i]);
        assert((a + r)[i] == a[i]);
    }
    assert(e.subrange(off, off + a.len()) =~= a);
    assert forall|i: int| 0 <= i < r.len() implies #[trigger] e.skip(off + a.len())[i] == r[i] by {
        assert(e.skip(off)[a.len() + i] == e[off + a.len() + i]);
        assert((a + r)[a.len() + i] == r[i]);
    }
    assert(e.skip(off + a.len()) =~= r);
}

/// The suffix of `b` at `off` is the piece there followed by the rest.
pub proof fn lemma_join_piece(b: Seq<u8>, off: int, a: Seq<u8>, r: Seq<u8>)
    requires
        0 <= off,
        off + a.len() <= b.len(),
        b.subrange(off, off + a.len()) == a,
        b.skip(off + a.len()) == r,
    ensures
        b.skip(off) == a + r,
{
    assert(b.skip(off) =~= a + r);
}

pub proof fn lemma_skip_zero(e: Seq<u8>)
    ensures
        e.skip(0) == e,
{
    assert(e.skip(0) =~= e);
}

pub proof fn lemma_skip_tail(b: Seq<u8>, off: int)
    requires
        0 <= off <= b.len(),
    ensures
        b.skip(off) == b.subrange(off, b.len() as int),
{
    assert(b.skip(off) =~= b.subrange(off, b.len() as int));
}

proof fn lemma_i8_cast(v: i8)
    ensures
        v as u8 == u8_of_i8(v),
{
    assert(v >= 0 ==> v as u8 == v) by (bit_vector);
    assert(v < 0 ==> (v as u8) as int == v as int + 256) by (bit_vector);
}

proof fn lemma_u8_cast(b: u8)
    ensures
        b as i8 == i8_of_u8(b),
{
    assert(b < 128 ==> (b as i8) as int == b as int) by (bit_vector);
    assert(b >= 128 ==> (b as i8) as int == b as int - 256) by (bit_vector);
}

// ---------------------------------------------------------------------------
// Calls into byteorder
// ---------------------------------------------------------------------------

/// Calls `LittleEndian::read_u16` on `buf[pos..]`: the two bytes at `pos`, least significant first.
#[verifier::external_body]
fn le_read_u16(buf: &[u8], pos: usize) -> (r: u16)
    requires
        pos + 2 <= buf@.len(),
    ensures
        r == u16_of(buf@.subrange(pos as int, pos + 2)),
{
    LittleEndian::read_u16(&buf[pos..])
}

/// Calls `LittleEndian::read_u32` on `buf[pos..]`: the four bytes at `pos`, least significant first.
#[verifier::external_body]
fn le_read_u32(buf: &[u8], pos: usize) -> (r: u32)
    requires
        pos + 4 <= buf@.len(),
    ensures
        r == u32_of(buf@.subrange(pos as int, pos + 4)),
{
    LittleEndian::read_u32(&buf[pos..])
}

/// Calls `LittleEndian::read_i16` on `buf[pos..]`: the two's-complement reading of the `u16` at `pos`.
#[verifier::external_body]
fn le_read_i16(buf: &[u8], pos: usize) -> (r: i16)
    requires
        pos + 2 <= buf@.len(),
    ensures
        r == i16_of(buf@.subrange(pos as int, pos + 2)),
{
    LittleEndian::read_i16(&buf[pos..])
}

/// Calls `LittleEndian::read_i32` on `buf[pos..]`: the two's-complement reading of the `u32` at `pos`.
#[verifier::external_body]
fn le_read_i32(buf: &[u8], pos: usize) -> (r: i32)
    requires
        pos + 4 <= buf@.len(),
    ensures
        r == i32_of(buf@.subrange(pos as int, pos + 4)),
{
    LittleEndian::read_i32(&buf[pos..])
}

/// Calls `BigEndian::read_u32` on `buf[pos..]`: the four bytes at `pos`, most significant first.
#[verifier::external_body]
fn be_read_u32(buf: &[u8], pos: usize) -> (r: u32)
    requires
        pos + 4 <= buf@.len(),
    ensures
        r == u32_be_of(buf@.subrange(pos as int, pos + 4)),
{
    BigEndian::read_u32(&buf[pos..])
}

/// Calls `LittleEndian::write_u16` into a two-byte buffer: the bytes of `n`, least significant first.
#[verifier::external_body]
fn le_write_u16(n: u16) -> (r: [u8; 2])
    ensures
        r@ == le_u16(n),
{
    let mut buf = [0u8; 2];
    LittleEndian::write_u16(&mut buf, n);
    buf
}

/// Calls `LittleEndian::write_u32` into a four-byte buffer: the bytes of `n`, least significant first.
#[verifier::external_body]
fn le_write_u32(n: u32) -> (r: [u8; 4])
    ensures
        r@ == le_u32(n),
{
    let mut buf = [0u8; 4];
    LittleEndian::write_u32(&mut buf, n);
    buf
}

/// Calls `LittleEndian::write_i16` into a two-byte buffer: the little-endian bytes of the bit pattern of `n`.
#[verifier::external_body]
fn le_write_i16(n: i16) -> (r: [u8; 2])
    ensures
        r@ == le_i16(n),
{
    let mut buf = [0u8; 2];
    LittleEndian::write_i16(&mut buf, n);
    buf
}

/// Calls `LittleEndian::write_i32` into a four-byte buffer: the little-endian bytes of the bit pattern of `n`.
#[verifier::external_body]
fn le_write_i32(n: i32) -> (r: [u8; 4])
    ensures
        r@ == le_i32(n),
{
    let mut buf = [0u8; 4];
    LittleEndian::write_i32(&mut buf, n);
    buf
}

/// Calls `BigEndian::write_u16` into a two-byte buffer: the bytes of `n`, most significant first.
#[verifier::external_body]
fn be_write_u16(n: u16) -> (r: [u8; 2])
    ensures
        r@ == be_u16(n),
{
    let mut buf = [0u8; 2];
    BigEndian::write_u16(&mut buf, n);
    buf
}

/// Calls `BigEndian::write_i16` into a two-byte buffer: the two's complement bytes of `n`, most significant first.
#[verifier::external_body]
fn be_write_i16(n: i16) -> (r: [u8; 2])
    ensures
        r@ == be_u16(u16_of_i16(n)),
{
    let mut buf = [0u8; 2];
    BigEndian::write_i16(&mut buf, n);
    buf
}

/// Calls `BigEndian::write_u32` into a four-byte buffer: the bytes of `n`, most significant first.
#[verifier::external_body]
fn be_write_u32(n: u32) -> (r: [u8; 4])
    ensures
        r@ == be_u32(n),
{
    let mut buf = [0u8; 4];
    BigEndian::write_u32(&mut buf, n);
    buf
}

// ---------------------------------------------------------------------------
// Appending fields to an output buffer
// ---------------------------------------------------------------------------

pub fn push_u8(out: &mut Vec<u8>, v: u8)
    ensures
        final(out)@ == old(out)@ + enc_u8(v),
{
    out.push(v);
    assert(out@ =~= old(out)@ + enc_u8(v));
}

pub fn push_bool(out: &mut Vec<u8>, v: bool)
    ensures
        final(out)@ == old(out)@ + enc_bool(v),
{
    out.push(if v { 1u8 } else { 0u8 });
    assert(out@ =~= old(out)@ + enc_bool(v));
}

pub fn push_i8(out: &mut Vec<u8>, v: i8)
    ensures
        final(out)@ == old(out)@ + enc_i8(v),
{
    proof { lemma_i8_cast(v); }
    out.push(v as u8);
    assert(out@ =~= old(out)@ + enc_i8(v));
}

pub fn push_u16(out: &mut Vec<u8>, v: u16)
    ensures
        final(out)@ == old(out)@ + le_u16(v),
{
    let b = le_write_u16(v);
    out.push(b[0]);
    out.push(b[1]);
    assert(out@ =~= old(out)@ + le_u16(v));
}

pub fn push_i16(out: &mut Vec<u8>, v: i16)
    ensures
        final(out)@ == old(out)@ + le_i16(v),
{
    let b = le_write_i16(v);
    out.push(b[0]);
    out.push(b[1]);
    assert(out@ =~= old(out)@ + le_i16(v));
}

pub fn push_u32(out: &mut Vec<u8>, v: u32)
    ensures
        final(out)@ == old(out)@ + le_u32(v),
{
    let b = le_write_u32(v);
    out.push(b[0]);
    out.push(b[1]);
    out.push(b[2]);
    out.push(b[3]);
    assert(out@ =~= old(out)@ + le_u32(v));
}

pub fn push_i32(out: &mut Vec<u8>, v: i32)
    ensures
        final(out)@ == old(out)@ + le_i32(v),
{
    let b = le_write_i32(v);
    out.push(b[0]);
    out.push(b[1]);
    out.push(b[2]);
    out.push(b[3]);
    assert(out@ =~= old(out)@ + le_i32(v));
}

pub fn push_u16_be(out: &mut Vec<u8>, v: u16)
    ensures
        final(out)@ == old(out)@ + be_u16(v),
{
    let b = be_write_u16(v);
    out.push(b[0]);
    out.push(b[1]);
    assert(out@ =~= old(out)@ + be_u16(v));
}

pub fn push_i16_be(out: &mut Vec<u8>, v: i16)
    ensures
        final(out)@ == old(out)@ + be_u16(u16_of_i16(v)),
{
    let b = be_write_i16(v);
    out.push(b[0]);
    out.push(b[1]);
    assert(out@ =~= old(out)@ + be_u16(u16_of_i16(v)));
}

pub fn push_u32_be(out: &mut Vec<u8>, v: u32)
    ensures
        final(out)@ == old(out)@ + be_u32(v),
{
    let b = be_write_u32(v);
    out.push(b[0]);
    out.push(b[1]);
    out.push(b[2]);
    out.push(b[3]);
    assert(out@ =~= old(out)@ + be_u32(v));
}

/// Appends all of `bytes`.
pub fn push_bytes(out: &mut Vec<u8>, bytes: &[u8])
    ensures
        final(out)@ == old(out)@ + bytes@,
{
    let mut i: usize = 0;
    while i < bytes.len()
        invariant
            i <= bytes@.len(),
            out@ == old(out)@ + bytes@.subrange(0, i as int),
        decreases bytes@.len() - i,
    {
        out.push(bytes[i]);
        i = i + 1;
        assert(out@ =~= old(out)@ + bytes@.subrange(0, i as int));
    }
    assert(bytes@.subrange(0, bytes@.len() as int) =~= bytes@);
}

/// Appends `n` copies of `byte`.
pub fn push_repeated(out: &mut Vec<u8>, byte: u8, n: usize)
    ensures
        final(out)@ == old(out)@ + Seq::new(n as nat, |_i: int| byte),
{
    let mut i: usize = 0;
    while i < n
        invariant
            i <= n,
            out@ == old(out)@ + Seq::new(i as nat, |_i: int| byte),
        decreases n - i,
    {
        out.push(byte);
        i = i + 1;
        assert(out@ =~= old(out)@ + Seq::new(i as nat, |_i: int| byte));
    }
}

// ---------------------------------------------------------------------------
// Reading fields from a byte buffer
// ---------------------------------------------------------------------------

/// A position in a byte buffer that a parser reads from.
pub struct DataReader<'a> {
    pub data: &'a [u8],
    pub pos: usize,
}

impl<'a> DataReader<'a> {
    /// A reader at the start of `data`.
    pub fn new(data: &'a [u8]) -> (r: DataReader<'a>)
        ensures
            r.data@ == data@,
            r.pos == 0,
    {
        DataReader { data, pos: 0 }
    }

    /// Whether `n` more bytes can be read.
    pub open spec fn has(&self, n: int) -> bool {
        self.pos + n <= self.data@.len()
    }
}

pub fn get_u8(buf: &[u8], pos: usize) -> (r: u8)
    requires
        pos < buf@.len(),
    ensures
        r == buf@[pos as int],
{
    buf[pos]
}

pub fn get_bool(buf: &[u8], pos: usize) -> (r: bool)
    requires
        pos < buf@.len(),
    ensures
        r == bool_at(buf@, pos as int),
{
    buf[pos] != 0
}

pub fn get_i8(buf: &[u8], pos: usize) -> (r: i8)
    requires
        pos < buf@.len(),
    ensures
        r == i8_at(buf@, pos as int),
{
    proof { lemma_u8_cast(buf@[pos as int]); }
    buf[pos] as i8
}

pub fn get_u16(buf: &[u8], pos: usize) -> (r: u16)
    requires
        pos + 2 <= buf@.len(),
    ensures
        r == u16_of(buf@.subrange(pos as int, pos + 2)),
{
    le_read_u16(buf, pos)
}

pub fn get_i16(buf: &[u8], pos: usize) -> (r: i16)
    requires
        pos + 2 <= buf@.len(),
    ensures
        r == i16_of(buf@.subrange(pos as int, pos + 2)),
{
    le_read_i16(buf, pos)
}

pub fn get_u32(buf: &[u8], pos: usize) -> (r: u32)
    requires
        pos + 4 <= buf@.len(),
    ensures
        r == u32_of(buf@.subrange(pos as int, pos + 4)),
{
    le_read_u32(buf, pos)
}

pub fn get_i32(buf: &[u8], pos: usize) -> (r: i32)
    requires
        pos + 4 <= buf@.len(),
    ensures
        r == i32_of(buf@.subrange(pos as int, pos + 4)),
{
    le_read_i32(buf, pos)
}

pub fn get_u32_be(buf: &[u8], pos: usize) -> (r: u32)
    requires
        pos + 4 <= buf@.len(),
    ensures
        r == u32_be_of(buf@.subrange(pos as int, pos + 4)),
{
    be_read_u32(buf, pos)
}

pub fn get_bytes16(buf: &[u8], pos: usize) -> (r: [u8; 16])
    requires
        pos + 16 <= buf@.len(),
    ensures
        r@ == bytes16_at(buf@, pos as int),
{
    let mut a = [0u8; 16];
    let mut i: usize = 0;
    while i < 16
        invariant
            i <= 16,
            pos + 16 <= buf.len(),
            forall|j: int| 0 <= j < i ==> a@[j] == buf@[pos + j],
        decreases 16 - i,
    {
        a[i] = buf[pos + i];
        i = i + 1;
    }
    assert(a@ =~= bytes16_at(buf@, pos as int));
    a
}

pub fn get_bytes8(buf: &[u8], pos: usize) -> (r: [u8; 8])
    requires
        pos + 8 <= buf@.len(),
    ensures
        r@ == bytes8_at(buf@, pos as int),
{
    let mut a = [0u8; 8];
    let mut i: usize = 0;
    while i < 8
        invariant
            i <= 8,
            pos + 8 <= buf.len(),
            forall|j: int| 0 <= j < i ==> a@[j] == buf@[pos + j],
        decreases 8 - i,
    {
        a[i] = buf[pos + i];
        i = i + 1;
    }
    assert(a@ =~= bytes8_at(buf@, pos as int));
    a
}

// ---------------------------------------------------------------------------
// Integers of any width
// ---------------------------------------------------------------------------

/// 256 to the power `w`.
pub open spec fn spec_pow256(w: nat) -> nat
    decreases w,
{
    if w == 0 { 1 } else { 256 * spec_pow256((w - 1) as nat) }
}

/// The `w` bytes of `n`, least significant first.
pub open spec fn spec_le_bytes(n: nat, w: nat) -> Seq<u8>
    decreases w,
{
    if w == 0 {
        Seq::empty()
    } else {
        seq![(n % 256) as u8] + spec_le_bytes(n / 256, (w - 1) as nat)
    }
}

/// The `w` bytes of `n`, most significant first.
pub open spec fn spec_be_bytes(n: nat, w: nat) -> Seq<u8> {
    spec_le_bytes(n, w).reverse()
}

/// The number whose bytes, least significant first, are `b`.
pub open spec fn spec_le_value(b: Seq<u8>) -> nat
    decreases b.len(),
{
    if b.len() == 0 {
        0
    } else {
        b[0] as nat + 256 * spec_le_value(b.drop_first())
    }
}

/// The `w` bytes of `n` are `w` bytes that read back, least significant
/// first, as `n` modulo 256 to the `w` (`n` itself where it fits), and most
/// significant first they are the same bytes reversed.
pub proof fn lemma_bytes_of_number(n: nat, w: nat)
    ensures
        spec_le_bytes(n, w).len() == w,
        spec_le_value(spec_le_bytes(n, w)) == n % spec_pow256(w),
        n < spec_pow256(w) ==> spec_le_value(spec_le_bytes(n, w)) == n,
        spec_be_bytes(n, w).len() == w,
        forall|i: int| 0 <= i < w ==> #[trigger] spec_be_bytes(n, w)[i] == spec_le_bytes(n, w)[w - 1 - i],
    decreases w,
{
    if w > 0 {
        lemma_bytes_of_number(n / 256, (w - 1) as nat);
        let b = spec_le_bytes(n, w);
        assert(b.drop_first() =~= spec_le_bytes(n / 256, (w - 1) as nat));
        let p = spec_pow256((w - 1) as nat);
        assert(p > 0) by {
            lemma_pow256_positive((w - 1) as nat);
        }
        vstd::arithmetic::div_mod::lemma_mod_breakdown(n as int, 256, p as int);
        assert(spec_pow256(w) == 256 * p);
    }
    if n < spec_pow256(w) {
        assert(spec_pow256(w) > 0) by {
            lemma_pow256_positive(w);
        }
        vstd::arithmetic::div_mod::lemma_small_mod(n, spec_pow256(w));
    }
}

proof fn lemma_pow256_positive(w: nat)
    ensures
        spec_pow256(w) > 0,
    decreases w,
{
    if w > 0 {
        lemma_pow256_positive((w - 1) as nat);
    }
}

/// Calls `LittleEndian::write_uint128` with `nbytes` bytes: the bytes of
/// `n`, least significant first (`n` must fit in them, or the call panics).
#[verifier::external_body]
pub(crate) fn le_write_uint128(n: u128, nbytes: usize) -> (r: Vec<u8>)
    requires
        1 <= nbytes <= 16,
        n < spec_pow256(nbytes as nat),
    ensures
        r@ == spec_le_bytes(n as nat, nbytes as nat),
{
    let mut buf = [0u8; 16];
    LittleEndian::write_uint128(&mut buf, n, nbytes);
    buf[..nbytes].to_vec()
}

/// Calls `BigEndian::write_uint128` with `nbytes` bytes: the bytes of `n`,
/// most significant first (`n` must fit in them, or the call panics).
#[verifier::external_body]
pub(crate) fn be_write_uint128(n: u128, nbytes: usize) -> (r: Vec<u8>)
    requires
        1 <= nbytes <= 16,
        n < spec_pow256(nbytes as nat),
    ensures
        r@ == spec_be_bytes(n as nat, nbytes as nat),
{
    let mut buf = [0u8; 16];
    BigEndian::write_uint128(&mut buf, n, nbytes);
    buf[..nbytes].to_vec()
}

/// What the text of an XML attribute with the bytes `b` reads as, as a
/// boolean: "true" or "1" is true, "false" or "0" is false, any other text
/// is none.
pub open spec fn spec_xml_bool(b: Seq<u8>) -> Option<bool> {
    if b == seq![0x74u8, 0x72u8, 0x75u8, 0x65u8] || b == seq![0x31u8] {
        Some(true)
    } else if b == seq![0x66u8, 0x61u8, 0x6Cu8, 0x73u8, 0x65u8] || b == seq![0x30u8] {
        Some(false)
    } else {
        None
    }
}

/// Whether the bytes `b` are those of `w`.
fn bytes_are(b: &[u8], w: &[u8]) -> (r: bool)
    ensures
        r == (b@ == w@),
{
    if b.len() != w.len() {
        return false;
    }
    let mut i: usize = 0;
    while i < b.len()
        invariant
            i <= b@.len(),
            b@.len() == w@.len(),
            forall|k: int| 0 <= k < i ==> b@[k] == w@[k],
        decreases b.len() - i,
    {
        if b[i] != w[i] {
            return false;
        }
        i = i + 1;
    }
    assert(b@ =~= w@);
    true
}

/// Reads the text of an XML attribute as a boolean, as `spec_xml_bool` says.
pub fn xml_bool(s: &str) -> (r: Option<bool>)
    ensures
        r == spec_xml_bool(s.spec_bytes()),
{
    let b = s.as_bytes();
    let t: [u8; 4] = [0x74, 0x72, 0x75, 0x65];
    let one: [u8; 1] = [0x31];
    let f: [u8; 5] = [0x66, 0x61, 0x6C, 0x73, 0x65];
    let zero: [u8; 1] = [0x30];
    assert(t@ =~= seq![0x74u8, 0x72u8, 0x75u8, 0x65u8]);
    assert(one@ =~= seq![0x31u8]);
    assert(f@ =~= seq![0x66u8, 0x61u8, 0x6Cu8, 0x73u8, 0x65u8]);
    assert(zero@ =~= seq![0x30u8]);
    if bytes_are(b, t.as_slice()) || bytes_are(b, one.as_slice()) {
        Some(true)
    } else if bytes_are(b, f.as_slice()) || bytes_are(b, zero.as_slice()) {
        Some(false)
    } else {
        None
    }
}

/// Calls `format!` for the message about text that reads as no boolean.
#[verifier::external_body]
fn bool_message(s: &str) -> (r: String)
    ensures
        r@ == "\""@ + s@ + "\" is not a valid bool"@,
{
    format!("\"{}\" is not a valid bool", s)
}

/// Reads the text of an XML attribute as a boolean, as `spec_xml_bool`
/// says, or gives the message that names the text.
pub fn parse_xml_bool(s: &str) -> (r: Result<bool, String>)
    ensures
        match spec_xml_bool(s.spec_bytes()) {
            Some(b) => r == Ok::<bool, String>(b),
            None => r matches Err(m) && m@ == "\""@ + s@ + "\" is not a valid bool"@,
        },
{
    match xml_bool(s) {
        Some(b) => Ok(b),
        None => Err(bool_message(s)),
    }
}

} // verus!

use vstd::prelude::*;

use crate::commit::CommitRef;

verus! {

/// Length in bytes of a stored checkpoint record.
pub const RECORD_LEN: usize = 32;

/// The last pushed commit of a branch, and when it was recorded (seconds
/// since the Unix epoch).
#[derive(Clone, Copy, Debug, PartialEq, Eq, Structural)]
pub struct Checkpoint {
    pub commit: CommitRef,
    pub timestamp: u64,
}

/// The four bytes that open every record: "RPCK".
pub open spec fn magic() -> Seq<u8> {
    seq![0x52u8, 0x50u8, 0x43u8, 0x4bu8]
}

/// Byte `k` (0 = least significant) of `x`.
pub open spec fn byte_of(x: u64, k: u64) -> u8 {
    ((x >> (8 * k)) & 0xff) as u8
}

/// `x` as eight bytes, most significant first.
pub open spec fn be64(x: u64) -> Seq<u8> {
    seq![
        byte_of(x, 7),
        byte_of(x, 6),
        byte_of(x, 5),
        byte_of(x, 4),
        byte_of(x, 3),
        byte_of(x, 2),
        byte_of(x, 1),
        byte_of(x, 0),
    ]
}

/// `x` as four bytes, most significant first.
pub open spec fn be32(x: u32) -> Seq<u8> {
    seq![byte_of(x as u64, 3), byte_of(x as u64, 2), byte_of(x as u64, 1), byte_of(x as u64, 0)]
}

/// The eight bytes of `s` from `at` on, read most significant first.
pub open spec fn from_be64(s: Seq<u8>, at: int) -> u64 {
    (s[at] as u64) << 56u64 | (s[at + 1] as u64) << 48u64 | (s[at + 2] as u64) << 40u64 | (s[at
        + 3] as u64) << 32u64 | (s[at + 4] as u64) << 24u64 | (s[at + 5] as u64) << 16u64 | (s[at
        + 6] as u64) << 8u64 | (s[at + 7] as u64)
}

/// The four bytes of `s` from `at` on, read most significant first.
pub open spec fn from_be32(s: Seq<u8>, at: int) -> u32 {
    ((s[at] as u64) << 24u64 | (s[at + 1] as u64) << 16u64 | (s[at + 2] as u64) << 8u64 | (s[at
        + 3] as u64)) as u32
}

/// The stored form of `c`: the opening bytes, then the commit's three words
/// and the timestamp, each most significant byte first.
pub open spec fn encoding(c: Checkpoint) -> Seq<u8> {
    magic() + be64(c.commit.hi) + be64(c.commit.mid) + be32(c.commit.lo) + be64(c.timestamp)
}

/// The checkpoint a stored record holds, or `None` when the bytes are not a
/// whole record.
pub open spec fn decoding(b: Seq<u8>) -> Option<Checkpoint> {
    if b.len() == RECORD_LEN && b.take(4) == magic() {
        Some(
            Checkpoint {
                commit: CommitRef { hi: from_be64(b, 4), mid: from_be64(b, 12), lo: from_be32(b, 20) },
                timestamp: from_be64(b, 24),
            },
        )
    } else {
        None
    }
}

proof fn lemma_be64_round_trip(x: u64)
    ensures
        from_be64(be64(x), 0) == x,
{
    let s = be64(x);
    assert(((((x >> 56u64) & 0xff) as u8) as u64) << 56u64 | ((((x >> 48u64) & 0xff) as u8) as u64)
        << 48u64 | ((((x >> 40u64) & 0xff) as u8) as u64) << 40u64 | ((((x >> 32u64) & 0xff) as u8)
        as u64) << 32u64 | ((((x >> 24u64) & 0xff) as u8) as u64) << 24u64 | ((((x >> 16u64)
        & 0xff) as u8) as u64) << 16u64 | ((((x >> 8u64) & 0xff) as u8) as u64) << 8u64 | ((((x
        >> 0u64) & 0xff) as u8) as u64) == x) by (bit_vector);
}

proof fn lemma_be32_round_trip(x: u32)
    ensures
        from_be32(be32(x), 0) == x,
{
    let y = x as u64;
    assert(y < 0x1_0000_0000);
    assert(y < 0x1_0000_0000 ==> ((((((y >> 24u64) & 0xff) as u8) as u64) << 24u64 | ((((y
        >> 16u64) & 0xff) as u8) as u64) << 16u64 | ((((y >> 8u64) & 0xff) as u8) as u64) << 8u64
        | ((((y >> 0u64) & 0xff) as u8) as u64)) == y)) by (bit_vector);
}

proof fn lemma_be64_canonical(a: u8, b: u8, c: u8, d: u8, e: u8, f: u8, g: u8, h: u8)
    ensures
        be64(from_be64(seq![a, b, c, d, e, f, g, h], 0)) == seq![a, b, c, d, e, f, g, h],
{
    let s = seq![a, b, c, d, e, f, g, h];
    let v = from_be64(s, 0);
    assert(v == (a as u64) << 56u64 | (b as u64) << 48u64 | (c as u64) << 40u64 | (d as u64)
        << 32u64 | (e as u64) << 24u64 | (f as u64) << 16u64 | (g as u64) << 8u64 | (h as u64));
    assert(v == (a as u64) << 56u64 | (b as u64) << 48u64 | (c as u64) << 40u64 | (d as u64)
        << 32u64 | (e as u64) << 24u64 | (f as u64) << 16u64 | (g as u64) << 8u64 | (h as u64)
        ==> {
        &&& ((v >> 56u64) & 0xff) as u8 == a
        &&& ((v >> 48u64) & 0xff) as u8 == b
        &&& ((v >> 40u64) & 0xff) as u8 == c
        &&& ((v >> 32u64) & 0xff) as u8 == d
        &&& ((v >> 24u64) & 0xff) as u8 == e
        &&& ((v >> 16u64) & 0xff) as u8 == f
        &&& ((v >> 8u64) & 0xff) as u8 == g
        &&& ((v >> 0u64) & 0xff) as u8 == h
    }) by (bit_vector);
    assert(be64(v) =~= s);
}

proof fn lemma_be32_canonical(a: u8, b: u8, c: u8, d: u8)
    ensures
        be32(from_be32(seq![a, b, c, d], 0)) == seq![a, b, c, d],
{
    let s = seq![a, b, c, d];
    let v = from_be32(s, 0);
    let w = (a as u64) << 24u64 | (b as u64) << 16u64 | (c as u64) << 8u64 | (d as u64);
    assert(w < 0x1_0000_0000) by (bit_vector)
        requires
            w == (a as u64) << 24u64 | (b as u64) << 16u64 | (c as u64) << 8u64 | (d as u64),
    ;
    assert(v as u64 == w);
    assert(w == (a as u64) << 24u64 | (b as u64) << 16u64 | (c as u64) << 8u64 | (d as u64) ==> {
        &&& ((w >> 24u64) & 0xff) as u8 == a
        &&& ((w >> 16u64) & 0xff) as u8 == b
        &&& ((w >> 8u64) & 0xff) as u8 == c
        &&& ((w >> 0u64) & 0xff) as u8 == d
    }) by (bit_vector);
    assert(be32(v) =~= s);
}

proof fn lemma_be64_at(s: Seq<u8>, at: int)
    requires
        0 <= at,
        at + 8 <= s.len(),
    ensures
        be64(from_be64(s, at)) == s.subrange(at, at + 8),
{
    let t = seq![s[at], s[at + 1], s[at + 2], s[at + 3], s[at + 4], s[at + 5], s[at + 6], s[at + 7]];
    lemma_be64_canonical(s[at], s[at + 1], s[at + 2], s[at + 3], s[at + 4], s[at + 5], s[at + 6], s[at + 7]);
    assert(from_be64(t, 0) == from_be64(s, at));
    assert(t =~= s.subrange(at, at + 8));
}

proof fn lemma_be32_at(s: Seq<u8>, at: int)
    requires
        0 <= at,
        at + 4 <= s.len(),
    ensures
        be32(from_be32(s, at)) == s.subrange(at, at + 4),
{
    let t = seq![s[at], s[at + 1], s[at + 2], s[at + 3]];
    lemma_be32_canonical(s[at], s[at + 1], s[at + 2], s[at + 3]);
    assert(from_be32(t, 0) == from_be32(s, at));
    assert(t =~= s.subrange(at, at + 4));
}

/// A stored checkpoint reads back exactly as it was saved.
pub proof fn lemma_checkpoint_round_trip(c: Checkpoint)
    ensures
        encoding(c).len() == RECORD_LEN,
        decoding(encoding(c)) == Some(c),
{
    let e = encoding(c);
    assert(e.len() == 32);
    assert(e.take(4) =~= magic());
    lemma_be64_round_trip(c.commit.hi);
    lemma_be64_round_trip(c.commit.mid);
    lemma_be32_round_trip(c.commit.lo);
    lemma_be64_round_trip(c.timestamp);
    let h = be64(c.commit.hi);
    let m = be64(c.commit.mid);
    let l = be32(c.commit.lo);
    let t = be64(c.timestamp);
    assert(from_be64(e, 4) == from_be64(h, 0));
    assert(from_be64(e, 12) == from_be64(m, 0));
    assert(from_be32(e, 20) == from_be32(l, 0));
    assert(from_be64(e, 24) == from_be64(t, 0));
}

/// A record cut short, as a save interrupted midway leaves it, is never
/// read as a checkpoint.
pub proof fn lemma_truncated_record_rejected(c: Checkpoint, k: nat)
    requires
        k < RECORD_LEN,
    ensures
        decoding(encoding(c).take(k as int)) is None,
{
    lemma_checkpoint_round_trip(c);
}

/// Whatever bytes read as a checkpoint are exactly that checkpoint's
/// record: no other byte string is taken for it.
pub proof fn lemma_decoding_exact(b: Seq<u8>)
    ensures
        decoding(b) matches Some(c) ==> encoding(c) == b,
{
    if decoding(b) is Some {
        let c = decoding(b)->Some_0;
        lemma_be64_at(b, 4);
        lemma_be64_at(b, 12);
        lemma_be32_at(b, 20);
        lemma_be64_at(b, 24);
        assert(b.take(4) == magic());
        assert(encoding(c) =~= b);
    }
}

/// Appends the eight bytes of `x`, most significant first.
fn put_be64(out: &mut Vec<u8>, x: u64)
    ensures
        final(out)@ == old(out)@ + be64(x),
{
    let ghost start = out@;
    out.push(((x >> 56u64) & 0xff) as u8);
    out.push(((x >> 48u64) & 0xff) as u8);
    out.push(((x >> 40u64) & 0xff) as u8);
    out.push(((x >> 32u64) & 0xff) as u8);
    out.push(((x >> 24u64) & 0xff) as u8);
    out.push(((x >> 16u64) & 0xff) as u8);
    out.push(((x >> 8u64) & 0xff) as u8);
    out.push((x & 0xff) as u8);
    assert(x & 0xff == (x >> 0u64) & 0xff) by (bit_vector);
    assert(out@ =~= start + be64(x));
}

/// The stored form of `c`.
pub fn encode(c: &Checkpoint) -> (r: Vec<u8>)
    ensures
        r@ == encoding(*c),
{
    let mut out: Vec<u8> = Vec::new();
    out.push(0x52u8);
    out.push(0x50u8);
    out.push(0x43u8);
    out.push(0x4bu8);
    assert(out@ =~= magic());
    put_be64(&mut out, c.commit.hi);
    put_be64(&mut out, c.commit.mid);
    let lo = c.commit.lo as u64;
    let ghost before = out@;
    out.push(((lo >> 24u64) & 0xff) as u8);
    out.push(((lo >> 16u64) & 0xff) as u8);
    out.push(((lo >> 8u64) & 0xff) as u8);
    out.push((lo & 0xff) as u8);
    assert(lo & 0xff == (lo >> 0u64) & 0xff) by (bit_vector);
    assert(out@ =~= before + be32(c.commit.lo));
    put_be64(&mut out, c.timestamp);
    out
}

/// Reads the eight bytes of `b` from `at` on, most significant first.
fn get_be64(b: &Vec<u8>, at: usize) -> (r: u64)
    requires
        at <= 24,
        at + 8 <= b@.len(),
    ensures
        r == from_be64(b@, at as int),
{
    (b[at] as u64) << 56u64 | (b[at + 1] as u64) << 48u64 | (b[at + 2] as u64) << 40u64 | (b[at
        + 3] as u64) << 32u64 | (b[at + 4] as u64) << 24u64 | (b[at + 5] as u64) << 16u64 | (b[at
        + 6] as u64) << 8u64 | (b[at + 7] as u64)
}

/// The checkpoint stored in `b`, or `None` when `b` is not a whole record
/// (wrong length or wrong opening bytes).
pub fn decode(b: &Vec<u8>) -> (r: Option<Checkpoint>)
    ensures
        r == decoding(b@),
{
    if b.len() != RECORD_LEN {
        return None;
    }
    if b[0] != 0x52u8 || b[1] != 0x50u8 || b[2] != 0x43u8 || b[3] != 0x4bu8 {
        assert(b@.take(4) != magic()) by {
            if b@.take(4) == magic() {
                assert(b@.take(4)[0] == b@[0]);
                assert(b@.take(4)[1] == b@[1]);
                assert(b@.take(4)[2] == b@[2]);
                assert(b@.take(4)[3] == b@[3]);
            }
        }
        return None;
    }
    assert(b@.take(4) =~= magic());
    let hi = get_be64(b, 4);
    let mid = get_be64(b, 12);
    let lo = ((b[20] as u64) << 24u64 | (b[21] as u64) << 16u64 | (b[22] as u64) << 8u64 | (
    b[23] as u64)) as u32;
    let timestamp = get_be64(b, 24);
    Some(Checkpoint { commit: CommitRef { hi, mid, lo }, timestamp })
}

} // verus!

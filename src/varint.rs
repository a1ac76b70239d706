//! Variable-length unsigned integers: seven bits per byte, low bits first,
//! the high bit of a byte set when another byte follows.
use vstd::prelude::*;

verus! {

/// The most bytes a 64-bit value takes.
pub const VARINT_MAX_BYTES: usize = 10;

/// The bytes that encode `v`.
pub open spec fn varint_bytes(v: nat) -> Seq<u8>
    decreases v,
{
    if v < 128 {
        seq![v as u8]
    } else {
        seq![((v % 128) + 128) as u8] + varint_bytes(v / 128)
    }
}

/// Reads a value that starts at position `i` of `b`, looking at no more than
/// `k` bytes. Gives the value and the position after it; nothing where the
/// bytes run out, more than `k` would be needed, or the value exceeds 64 bits.
pub open spec fn parse_varint(b: Seq<u8>, i: int, k: nat) -> Option<(nat, int)>
    decreases k,
{
    if k == 0 || i < 0 || i >= b.len() {
        None
    } else if b[i] < 128 {
        Some((b[i] as nat, i + 1))
    } else {
        match parse_varint(b, i + 1, (k - 1) as nat) {
            Some((v, j)) => {
                let w = (b[i] - 128) + 128 * v;
                if w <= u64::MAX {
                    Some((w as nat, j))
                } else {
                    None
                }
            },
            None => None,
        }
    }
}

pub open spec fn pow128(k: nat) -> nat
    decreases k,
{
    if k == 0 {
        1
    } else {
        128 * pow128((k - 1) as nat)
    }
}

proof fn lemma_varint_len_bound(v: nat, k: nat)
    requires
        v < pow128(k),
        k >= 1,
    ensures
        varint_bytes(v).len() <= k,
        varint_bytes(v).len() >= 1,
    decreases v,
{
    if v >= 128 {
        let p = pow128((k - 1) as nat);
        assert(pow128(0) == 1);
        assert(k >= 2);
        assert(v / 128 < p) by (nonlinear_arith)
            requires
                v < 128 * p,
        ;
        lemma_varint_len_bound(v / 128, (k - 1) as nat);
    }
}

/// A 64-bit value takes at most ten bytes.
pub proof fn lemma_varint_len(v: nat)
    requires
        v <= u64::MAX,
    ensures
        1 <= varint_bytes(v).len() <= VARINT_MAX_BYTES,
{
    reveal_with_fuel(pow128, 11);
    lemma_varint_len_bound(v, 10);
}

proof fn lemma_varint_parse_k(pre: Seq<u8>, v: nat, rest: Seq<u8>, k: nat)
    requires
        v <= u64::MAX,
        varint_bytes(v).len() <= k,
    ensures
        parse_varint(pre + varint_bytes(v) + rest, pre.len() as int, k) == Some(
            (v, (pre.len() + varint_bytes(v).len()) as int),
        ),
    decreases v,
{
    let b = pre + varint_bytes(v) + rest;
    assert(b[pre.len() as int] == varint_bytes(v)[0]);
    if v >= 128 {
        let first = seq![((v % 128) + 128) as u8];
        let pre2 = pre + first;
        assert(b =~= pre2 + varint_bytes(v / 128) + rest);
        lemma_varint_parse_k(pre2, v / 128, rest, (k - 1) as nat);
    }
}

/// Reading the encoding of `v`, whatever precedes or follows it, gives `v`
/// and the position just after it.
pub proof fn lemma_varint_round_trip(pre: Seq<u8>, v: nat, rest: Seq<u8>)
    requires
        v <= u64::MAX,
    ensures
        parse_varint(pre + varint_bytes(v) + rest, pre.len() as int, VARINT_MAX_BYTES as nat)
            == Some((v, (pre.len() + varint_bytes(v).len()) as int)),
{
    lemma_varint_len(v);
    lemma_varint_parse_k(pre, v, rest, VARINT_MAX_BYTES as nat);
}

/// What reads from `b` reads the same from `b` with more bytes after it.
pub proof fn lemma_varint_extend(b: Seq<u8>, i: int, k: nat, more: Seq<u8>)
    requires
        parse_varint(b, i, k) is Some,
    ensures
        match parse_varint(b, i, k) {
            Some((v, j)) => i < j <= b.len(),
            None => true,
        },
        parse_varint(b + more, i, k) == parse_varint(b, i, k),
    decreases k,
{
    assert((b + more)[i] == b[i]);
    if b[i] >= 128 {
        lemma_varint_extend(b, i + 1, (k - 1) as nat, more);
    }
}

/// Appends the encoding of `v` to `out`.
pub fn write_varint(out: &mut Vec<u8>, v: u64)
    ensures
        final(out)@ == old(out)@ + varint_bytes(v as nat),
{
    let ghost start = out@;
    let mut x: u64 = v;
    while x >= 128
        invariant
            start + varint_bytes(v as nat) == out@ + varint_bytes(x as nat),
        decreases x,
    {
        let ghost before = out@;
        let byte: u8 = ((x % 128) + 128) as u8;
        out.push(byte);
        proof {
            assert(varint_bytes(x as nat) == seq![byte] + varint_bytes((x / 128) as nat));
            assert(before + varint_bytes(x as nat) =~= out@ + varint_bytes((x / 128) as nat));
        }
        x = x / 128;
    }
    out.push(x as u8);
    assert(start + varint_bytes(v as nat) =~= out@);
}

/// Reads a value at position `pos` of `b`, looking at no more than `k` bytes.
pub fn read_varint_within(b: &[u8], pos: usize, k: usize) -> (r: Option<(u64, usize)>)
    requires
        pos <= b@.len(),
    ensures
        match parse_varint(b@, pos as int, k as nat) {
            Some((v, j)) => r matches Some((x, p)) && x as nat == v && p as int == j,
            None => r is None,
        },
    decreases k,
{
    if k == 0 || pos >= b.len() {
        return None;
    }
    let byte = b[pos];
    if byte < 128 {
        return Some((byte as u64, pos + 1));
    }
    match read_varint_within(b, pos + 1, k - 1) {
        None => None,
        Some((v, j)) => {
            let low: u64 = (byte - 128) as u64;
            if v <= (u64::MAX - low) / 128 {
                assert(low + 128 * v <= u64::MAX) by (nonlinear_arith)
                    requires
                        v <= (u64::MAX - low) / 128,
                        low < 128,
                ;
                Some((low + 128 * v, j))
            } else {
                assert(low + 128 * v > u64::MAX) by (nonlinear_arith)
                    requires
                        v > (u64::MAX - low) / 128,
                        low < 128,
                ;
                None
            }
        },
    }
}

/// Reads a 64-bit value at position `pos` of `b`.
pub fn read_varint(b: &[u8], pos: usize) -> (r: Option<(u64, usize)>)
    requires
        pos <= b@.len(),
    ensures
        match parse_varint(b@, pos as int, VARINT_MAX_BYTES as nat) {
            Some((v, j)) => r matches Some((x, p)) && x as nat == v && p as int == j,
            None => r is None,
        },
        r matches Some((x, p)) ==> p <= b@.len(),
{
    proof {
        if parse_varint(b@, pos as int, VARINT_MAX_BYTES as nat) is Some {
            lemma_varint_extend(b@, pos as int, VARINT_MAX_BYTES as nat, Seq::empty());
            assert(b@ + Seq::<u8>::empty() =~= b@);
        }
    }
    read_varint_within(b, pos, VARINT_MAX_BYTES)
}

} // verus!

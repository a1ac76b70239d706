//! Length-prefixed UTF-8 text, and lists of such texts and of text pairs.
use vstd::prelude::*;
use vstd::utf8::{decode_utf8, encode_utf8, valid_utf8};
use crate::varint::{
    lemma_varint_extend, lemma_varint_round_trip, parse_varint, read_varint, varint_bytes,
    write_varint, VARINT_MAX_BYTES,
};

verus! {

broadcast use {vstd::utf8::encode_utf8_valid_utf8, vstd::utf8::encode_utf8_decode_utf8};

/// A text that the encoding can carry: its UTF-8 length fits in 64 bits.
pub open spec fn text_fits(s: Seq<char>) -> bool {
    encode_utf8(s).len() <= u64::MAX
}

pub open spec fn texts_fit(xs: Seq<Seq<char>>) -> bool {
    forall|i: int| 0 <= i < xs.len() ==> text_fits(#[trigger] xs[i])
}

pub open spec fn pairs_fit(xs: Seq<(Seq<char>, Seq<char>)>) -> bool {
    forall|i: int| 0 <= i < xs.len() ==> text_fits(#[trigger] xs[i].0) && text_fits(xs[i].1)
}

/// The bytes of a text: its UTF-8 length, then its UTF-8 bytes.
pub closed spec fn text_bytes(s: Seq<char>) -> Seq<u8> {
    varint_bytes(encode_utf8(s).len()) + encode_utf8(s)
}

pub closed spec fn parse_text(b: Seq<u8>, i: int) -> Option<(Seq<char>, int)> {
    match parse_varint(b, i, VARINT_MAX_BYTES as nat) {
        Some((n, j)) => if j + n <= b.len() && valid_utf8(b.subrange(j, j + n)) {
            Some((decode_utf8(b.subrange(j, j + n)), j + n))
        } else {
            None
        },
        None => None,
    }
}

/// The texts one after the other, with no count in front.
pub closed spec fn texts_body(xs: Seq<Seq<char>>) -> Seq<u8>
    decreases xs.len(),
{
    if xs.len() == 0 {
        Seq::empty()
    } else {
        text_bytes(xs[0]) + texts_body(xs.drop_first())
    }
}

/// A list of texts: the count, then each text.
pub closed spec fn texts_bytes(xs: Seq<Seq<char>>) -> Seq<u8> {
    varint_bytes(xs.len()) + texts_body(xs)
}

pub closed spec fn parse_texts_body(b: Seq<u8>, i: int, n: nat) -> Option<(Seq<Seq<char>>, int)>
    decreases n,
{
    if n == 0 {
        Some((Seq::empty(), i))
    } else {
        match parse_text(b, i) {
            Some((s, j)) => match parse_texts_body(b, j, (n - 1) as nat) {
                Some((rest, k)) => Some((seq![s] + rest, k)),
                None => None,
            },
            None => None,
        }
    }
}

pub closed spec fn parse_texts(b: Seq<u8>, i: int) -> Option<(Seq<Seq<char>>, int)> {
    match parse_varint(b, i, VARINT_MAX_BYTES as nat) {
        Some((n, j)) => parse_texts_body(b, j, n),
        None => None,
    }
}

/// The pairs one after the other, key before value, with no count in front.
pub closed spec fn pairs_body(xs: Seq<(Seq<char>, Seq<char>)>) -> Seq<u8>
    decreases xs.len(),
{
    if xs.len() == 0 {
        Seq::empty()
    } else {
        text_bytes(xs[0].0) + text_bytes(xs[0].1) + pairs_body(xs.drop_first())
    }
}

/// A list of text pairs: the count, then each pair.
pub closed spec fn pairs_bytes(xs: Seq<(Seq<char>, Seq<char>)>) -> Seq<u8> {
    varint_bytes(xs.len()) + pairs_body(xs)
}

pub closed spec fn parse_pairs_body(b: Seq<u8>, i: int, n: nat) -> Option<
    (Seq<(Seq<char>, Seq<char>)>, int),
>
    decreases n,
{
    if n == 0 {
        Some((Seq::empty(), i))
    } else {
        match parse_text(b, i) {
            Some((k, j)) => match parse_text(b, j) {
                Some((v, j2)) => match parse_pairs_body(b, j2, (n - 1) as nat) {
                    Some((rest, e)) => Some((seq![(k, v)] + rest, e)),
                    None => None,
                },
                None => None,
            },
            None => None,
        }
    }
}

/// No key appears twice.
pub open spec fn keys_unique(xs: Seq<(Seq<char>, Seq<char>)>) -> bool {
    forall|x: int, y: int| 0 <= x < y < xs.len() ==> #[trigger] xs[x].0 != #[trigger] xs[y].0
}

/// Reads a list of pairs; a list in which a key appears twice is refused.
pub closed spec fn parse_pairs(b: Seq<u8>, i: int) -> Option<(Seq<(Seq<char>, Seq<char>)>, int)> {
    match parse_varint(b, i, VARINT_MAX_BYTES as nat) {
        Some((n, j)) => match parse_pairs_body(b, j, n) {
            Some((xs, k)) => if keys_unique(xs) {
                Some((xs, k))
            } else {
                None
            },
            None => None,
        },
        None => None,
    }
}

/// An optional text: a zero byte for none, or a one byte and the text.
pub closed spec fn opt_text_bytes(o: Option<Seq<char>>) -> Seq<u8> {
    match o {
        None => seq![0u8],
        Some(s) => seq![1u8] + text_bytes(s),
    }
}

pub closed spec fn parse_opt_text(b: Seq<u8>, i: int) -> Option<(Option<Seq<char>>, int)> {
    if 0 <= i < b.len() && b[i] == 0 {
        Some((None, i + 1))
    } else if 0 <= i < b.len() && b[i] == 1 {
        match parse_text(b, i + 1) {
            Some((s, j)) => Some((Some(s), j)),
            None => None,
        }
    } else {
        None
    }
}

pub proof fn lemma_text_round_trip(pre: Seq<u8>, s: Seq<char>, rest: Seq<u8>)
    requires
        text_fits(s),
    ensures
        parse_text(pre + text_bytes(s) + rest, pre.len() as int) == Some(
            (s, (pre.len() + text_bytes(s).len()) as int),
        ),
{
    let u = encode_utf8(s);
    let b = pre + text_bytes(s) + rest;
    assert(b =~= pre + varint_bytes(u.len()) + (u + rest));
    lemma_varint_round_trip(pre, u.len(), u + rest);
    let j = pre.len() + varint_bytes(u.len()).len();
    assert(b.subrange(j as int, (j + u.len()) as int) =~= u);
}

pub proof fn lemma_text_extend(b: Seq<u8>, i: int, more: Seq<u8>)
    requires
        parse_text(b, i) is Some,
    ensures
        parse_text(b + more, i) == parse_text(b, i),
        match parse_text(b, i) {
            Some((s, j)) => i < j <= b.len(),
            None => true,
        },
{
    lemma_varint_extend(b, i, VARINT_MAX_BYTES as nat, more);
    let (n, j) = parse_varint(b, i, VARINT_MAX_BYTES as nat)->0;
    assert((b + more).subrange(j, j + n) =~= b.subrange(j, j + n));
}

pub proof fn lemma_texts_body_round_trip(pre: Seq<u8>, xs: Seq<Seq<char>>, rest: Seq<u8>)
    requires
        texts_fit(xs),
    ensures
        parse_texts_body(pre + texts_body(xs) + rest, pre.len() as int, xs.len()) == Some(
            (xs, (pre.len() + texts_body(xs).len()) as int),
        ),
    decreases xs.len(),
{
    if xs.len() > 0 {
        let b = pre + texts_body(xs) + rest;
        let tail = xs.drop_first();
        assert(texts_fit(tail)) by {
            assert forall|i: int| 0 <= i < tail.len() implies text_fits(#[trigger] tail[i]) by {
                assert(tail[i] == xs[i + 1]);
            }
        }
        assert(text_fits(xs[0]));
        assert(b =~= pre + text_bytes(xs[0]) + (texts_body(tail) + rest));
        lemma_text_round_trip(pre, xs[0], texts_body(tail) + rest);
        let pre2 = pre + text_bytes(xs[0]);
        assert(b =~= pre2 + texts_body(tail) + rest);
        lemma_texts_body_round_trip(pre2, tail, rest);
        assert(seq![xs[0]] + tail =~= xs);
    }
}

pub proof fn lemma_texts_round_trip(pre: Seq<u8>, xs: Seq<Seq<char>>, rest: Seq<u8>)
    requires
        texts_fit(xs),
        xs.len() <= u64::MAX,
    ensures
        parse_texts(pre + texts_bytes(xs) + rest, pre.len() as int) == Some(
            (xs, (pre.len() + texts_bytes(xs).len()) as int),
        ),
{
    let b = pre + texts_bytes(xs) + rest;
    assert(b =~= pre + varint_bytes(xs.len()) + (texts_body(xs) + rest));
    lemma_varint_round_trip(pre, xs.len(), texts_body(xs) + rest);
    let pre2 = pre + varint_bytes(xs.len());
    assert(b =~= pre2 + texts_body(xs) + rest);
    lemma_texts_body_round_trip(pre2, xs, rest);
}

pub proof fn lemma_texts_body_extend(b: Seq<u8>, i: int, n: nat, more: Seq<u8>)
    requires
        parse_texts_body(b, i, n) is Some,
        0 <= i <= b.len(),
    ensures
        parse_texts_body(b + more, i, n) == parse_texts_body(b, i, n),
        match parse_texts_body(b, i, n) {
            Some((s, j)) => i <= j <= b.len(),
            None => true,
        },
    decreases n,
{
    if n > 0 {
        lemma_text_extend(b, i, more);
        let (s0, j) = parse_text(b, i)->0;
        lemma_texts_body_extend(b, j, (n - 1) as nat, more);
    }
}

pub proof fn lemma_texts_extend(b: Seq<u8>, i: int, more: Seq<u8>)
    requires
        parse_texts(b, i) is Some,
    ensures
        parse_texts(b + more, i) == parse_texts(b, i),
        match parse_texts(b, i) {
            Some((s, j)) => i < j <= b.len(),
            None => true,
        },
{
    lemma_varint_extend(b, i, VARINT_MAX_BYTES as nat, more);
    let (n, j) = parse_varint(b, i, VARINT_MAX_BYTES as nat)->0;
    lemma_texts_body_extend(b, j, n, more);
}

pub proof fn lemma_pairs_body_round_trip(
    pre: Seq<u8>,
    xs: Seq<(Seq<char>, Seq<char>)>,
    rest: Seq<u8>,
)
    requires
        pairs_fit(xs),
    ensures
        parse_pairs_body(pre + pairs_body(xs) + rest, pre.len() as int, xs.len()) == Some(
            (xs, (pre.len() + pairs_body(xs).len()) as int),
        ),
    decreases xs.len(),
{
    if xs.len() > 0 {
        let b = pre + pairs_body(xs) + rest;
        let tail = xs.drop_first();
        assert(pairs_fit(tail)) by {
            assert forall|i: int| 0 <= i < tail.len() implies text_fits(#[trigger] tail[i].0)
                && text_fits(tail[i].1) by {
                assert(tail[i] == xs[i + 1]);
            }
        }
        assert(text_fits(xs[0].0) && text_fits(xs[0].1));
        assert(b =~= pre + text_bytes(xs[0].0) + (text_bytes(xs[0].1) + pairs_body(tail) + rest));
        lemma_text_round_trip(pre, xs[0].0, text_bytes(xs[0].1) + pairs_body(tail) + rest);
        let pre1 = pre + text_bytes(xs[0].0);
        assert(b =~= pre1 + text_bytes(xs[0].1) + (pairs_body(tail) + rest));
        lemma_text_round_trip(pre1, xs[0].1, pairs_body(tail) + rest);
        let pre2 = pre1 + text_bytes(xs[0].1);
        assert(b =~= pre2 + pairs_body(tail) + rest);
        lemma_pairs_body_round_trip(pre2, tail, rest);
        assert(seq![(xs[0].0, xs[0].1)] + tail =~= xs);
    }
}

pub proof fn lemma_pairs_round_trip(pre: Seq<u8>, xs: Seq<(Seq<char>, Seq<char>)>, rest: Seq<u8>)
    requires
        pairs_fit(xs),
        keys_unique(xs),
        xs.len() <= u64::MAX,
    ensures
        parse_pairs(pre + pairs_bytes(xs) + rest, pre.len() as int) == Some(
            (xs, (pre.len() + pairs_bytes(xs).len()) as int),
        ),
{
    let b = pre + pairs_bytes(xs) + rest;
    assert(b =~= pre + varint_bytes(xs.len()) + (pairs_body(xs) + rest));
    lemma_varint_round_trip(pre, xs.len(), pairs_body(xs) + rest);
    let pre2 = pre + varint_bytes(xs.len());
    assert(b =~= pre2 + pairs_body(xs) + rest);
    lemma_pairs_body_round_trip(pre2, xs, rest);
}

pub proof fn lemma_pairs_body_extend(b: Seq<u8>, i: int, n: nat, more: Seq<u8>)
    requires
        parse_pairs_body(b, i, n) is Some,
        0 <= i <= b.len(),
    ensures
        parse_pairs_body(b + more, i, n) == parse_pairs_body(b, i, n),
        match parse_pairs_body(b, i, n) {
            Some((s, j)) => i <= j <= b.len(),
            None => true,
        },
    decreases n,
{
    if n > 0 {
        lemma_text_extend(b, i, more);
        let (s0, j) = parse_text(b, i)->0;
        lemma_text_extend(b, j, more);
        let (s1, j2) = parse_text(b, j)->0;
        lemma_pairs_body_extend(b, j2, (n - 1) as nat, more);
    }
}

pub proof fn lemma_pairs_extend(b: Seq<u8>, i: int, more: Seq<u8>)
    requires
        parse_pairs(b, i) is Some,
    ensures
        parse_pairs(b + more, i) == parse_pairs(b, i),
        match parse_pairs(b, i) {
            Some((s, j)) => i < j <= b.len(),
            None => true,
        },
{
    lemma_varint_extend(b, i, VARINT_MAX_BYTES as nat, more);
    let (n, j) = parse_varint(b, i, VARINT_MAX_BYTES as nat)->0;
    lemma_pairs_body_extend(b, j, n, more);
}

pub proof fn lemma_opt_text_round_trip(pre: Seq<u8>, o: Option<Seq<char>>, rest: Seq<u8>)
    requires
        o matches Some(s) ==> text_fits(s),
    ensures
        parse_opt_text(pre + opt_text_bytes(o) + rest, pre.len() as int) == Some(
            (o, (pre.len() + opt_text_bytes(o).len()) as int),
        ),
{
    let b = pre + opt_text_bytes(o) + rest;
    assert(b[pre.len() as int] == opt_text_bytes(o)[0]);
    if let Some(s) = o {
        let pre1 = pre + seq![1u8];
        assert(b =~= pre1 + text_bytes(s) + rest);
        lemma_text_round_trip(pre1, s, rest);
    }
}

pub proof fn lemma_opt_text_extend(b: Seq<u8>, i: int, more: Seq<u8>)
    requires
        parse_opt_text(b, i) is Some,
    ensures
        parse_opt_text(b + more, i) == parse_opt_text(b, i),
        match parse_opt_text(b, i) {
            Some((s, j)) => i < j <= b.len(),
            None => true,
        },
{
    assert((b + more)[i] == b[i]);
    if b[i] == 1 {
        lemma_text_extend(b, i + 1, more);
    }
}


pub open spec fn texts_view(v: Seq<String>) -> Seq<Seq<char>> {
    v.map_values(|s: String| s@)
}

pub open spec fn pairs_view(v: Seq<(String, String)>) -> Seq<(Seq<char>, Seq<char>)> {
    v.map_values(|p: (String, String)| (p.0@, p.1@))
}

pub open spec fn opt_text_view(o: Option<String>) -> Option<Seq<char>> {
    match o {
        Some(s) => Some(s@),
        None => None,
    }
}

/// Relies on `String::from_utf8`: it accepts exactly the valid UTF-8 byte
/// sequences, and the string it gives holds the characters they encode.
#[verifier::external_body]
fn string_from_utf8(bytes: Vec<u8>) -> (r: Option<String>)
    ensures
        r is Some <==> valid_utf8(bytes@),
        r matches Some(s) ==> s@ == decode_utf8(bytes@),
{
    String::from_utf8(bytes).ok()
}

/// Appends the bytes of `s`.
pub fn write_text(out: &mut Vec<u8>, s: &String)
    ensures
        final(out)@ == old(out)@ + text_bytes(s@),
        text_fits(s@),
{
    let bytes = s.as_str().as_bytes();
    assert(bytes@ == encode_utf8(s@));
    write_varint(out, bytes.len() as u64);
    let ghost mid = out@;
    let mut k: usize = 0;
    while k < bytes.len()
        invariant
            k <= bytes@.len(),
            out@ == mid + bytes@.subrange(0, k as int),
        decreases bytes@.len() - k,
    {
        out.push(bytes[k]);
        k = k + 1;
        assert(out@ =~= mid + bytes@.subrange(0, k as int));
    }
    assert(bytes@.subrange(0, k as int) =~= bytes@);
}

/// Reads a text at position `pos` of `b`.
pub fn read_text(b: &[u8], pos: usize) -> (r: Option<(String, usize)>)
    requires
        pos <= b@.len(),
    ensures
        match parse_text(b@, pos as int) {
            Some((s, j)) => r matches Some((t, p)) && t@ == s && p == j,
            None => r is None,
        },
        r matches Some((t, p)) ==> p <= b@.len(),
{
    let (n, j) = match read_varint(b, pos) {
        Some(x) => x,
        None => {
            return None;
        },
    };
    proof {
        lemma_varint_extend(b@, pos as int, VARINT_MAX_BYTES as nat, Seq::empty());
        assert(b@ + Seq::<u8>::empty() =~= b@);
    }
    if n > (b.len() - j) as u64 {
        return None;
    }
    let end: usize = j + n as usize;
    let mut bytes: Vec<u8> = Vec::new();
    let mut k: usize = j;
    while k < end
        invariant
            j <= k <= end <= b@.len(),
            bytes@ == b@.subrange(j as int, k as int),
        decreases end - k,
    {
        bytes.push(b[k]);
        k = k + 1;
        assert(bytes@ =~= b@.subrange(j as int, k as int));
    }
    match string_from_utf8(bytes) {
        Some(s) => Some((s, end)),
        None => None,
    }
}

/// Appends a count and then the bytes of each text.
pub fn write_texts(out: &mut Vec<u8>, xs: &Vec<String>)
    ensures
        final(out)@ == old(out)@ + texts_bytes(texts_view(xs@)),
        texts_fit(texts_view(xs@)),
        texts_view(xs@).len() <= u64::MAX,
{
    let ghost v = texts_view(xs@);
    let ghost start = out@;
    write_varint(out, xs.len() as u64);
    assert(v.skip(0) =~= v);
    assert(out@ == start + varint_bytes(v.len()));
    let mut i: usize = 0;
    while i < xs.len()
        invariant
            i <= xs@.len(),
            v == texts_view(xs@),
            start + texts_bytes(v) == out@ + texts_body(v.skip(i as int)),
            forall|k: int| 0 <= k < i ==> text_fits(#[trigger] v[k]),
        decreases xs@.len() - i,
    {
        let ghost before = out@;
        write_text(out, &xs[i]);
        proof {
            assert(v.skip(i as int).drop_first() =~= v.skip(i + 1));
            assert(v.skip(i as int)[0] == xs@[i as int]@);
            assert(before + texts_body(v.skip(i as int)) =~= out@ + texts_body(v.skip(i + 1)));
        }
        i = i + 1;
    }
    assert(out@ =~= start + texts_bytes(v));
}

/// Reads a count and then that many texts.
pub fn read_texts(b: &[u8], pos: usize) -> (r: Option<(Vec<String>, usize)>)
    requires
        pos <= b@.len(),
    ensures
        match parse_texts(b@, pos as int) {
            Some((xs, j)) => r matches Some((v, p)) && texts_view(v@) == xs && p == j,
            None => r is None,
        },
        r matches Some((t, p)) ==> p <= b@.len(),
{
    let (n, start) = match read_varint(b, pos) {
        Some(x) => x,
        None => {
            return None;
        },
    };
    proof {
        lemma_varint_extend(b@, pos as int, VARINT_MAX_BYTES as nat, Seq::empty());
        assert(b@ + Seq::<u8>::empty() =~= b@);
    }
    let mut p: usize = start;
    assert(parse_texts(b@, pos as int) == parse_texts_body(b@, start as int, n as nat));
    let mut out: Vec<String> = Vec::new();
    let mut i: u64 = 0;
    while i < n
        invariant
            p <= b@.len(),
            i <= n,
            parse_texts(b@, pos as int) == parse_texts_body(b@, start as int, n as nat),
            parse_texts_body(b@, start as int, n as nat) == match parse_texts_body(
                b@,
                p as int,
                (n - i) as nat,
            ) {
                Some((rest, k)) => Some((texts_view(out@) + rest, k)),
                None => None,
            },
        decreases n - i,
    {
        match read_text(b, p) {
            None => {
                assert(parse_texts_body(b@, p as int, (n - i) as nat) is None);
                return None;
            },
            Some((s, q)) => {
                let ghost before = out@;
                out.push(s);
                proof {
                    assert(texts_view(out@) =~= texts_view(before) + seq![s@]);
                    match parse_texts_body(b@, q as int, (n - i - 1) as nat) {
                        Some((rest, k)) => {
                            assert(texts_view(before) + (seq![s@] + rest) =~= texts_view(out@)
                                + rest);
                        },
                        None => {},
                    }
                }
                p = q;
                i = i + 1;
            },
        }
    }
    assert(texts_view(out@) + Seq::<Seq<char>>::empty() =~= texts_view(out@));
    Some((out, p))
}

/// Appends a count and then each pair, key before value.
pub fn write_pairs(out: &mut Vec<u8>, xs: &Vec<(String, String)>)
    ensures
        final(out)@ == old(out)@ + pairs_bytes(pairs_view(xs@)),
        pairs_fit(pairs_view(xs@)),
        pairs_view(xs@).len() <= u64::MAX,
{
    let ghost v = pairs_view(xs@);
    let ghost start = out@;
    write_varint(out, xs.len() as u64);
    assert(v.skip(0) =~= v);
    assert(out@ == start + varint_bytes(v.len()));
    let mut i: usize = 0;
    while i < xs.len()
        invariant
            i <= xs@.len(),
            v == pairs_view(xs@),
            start + pairs_bytes(v) == out@ + pairs_body(v.skip(i as int)),
            forall|k: int| 0 <= k < i ==> text_fits(#[trigger] v[k].0),
            forall|k: int| 0 <= k < i ==> text_fits(#[trigger] v[k].1),
        decreases xs@.len() - i,
    {
        let ghost before = out@;
        write_text(out, &xs[i].0);
        write_text(out, &xs[i].1);
        proof {
            assert(v.skip(i as int).drop_first() =~= v.skip(i + 1));
            assert(v[i as int] == (xs@[i as int].0@, xs@[i as int].1@));
            assert(text_fits(v[i as int].0) && text_fits(v[i as int].1));
            assert(v.skip(i as int)[0] == (xs@[i as int].0@, xs@[i as int].1@));
            assert(before + pairs_body(v.skip(i as int)) =~= out@ + pairs_body(v.skip(i + 1)));
        }
        i = i + 1;
    }
    assert(pairs_fit(v));
    assert(out@ =~= start + pairs_bytes(v));
}

/// Reads a count and then that many pairs.
pub fn read_pairs(b: &[u8], pos: usize) -> (r: Option<(Vec<(String, String)>, usize)>)
    requires
        pos <= b@.len(),
    ensures
        match parse_pairs(b@, pos as int) {
            Some((xs, j)) => r matches Some((v, p)) && pairs_view(v@) == xs && p == j,
            None => r is None,
        },
        r matches Some((t, p)) ==> p <= b@.len(),
{
    let (n, start) = match read_varint(b, pos) {
        Some(x) => x,
        None => {
            return None;
        },
    };
    proof {
        lemma_varint_extend(b@, pos as int, VARINT_MAX_BYTES as nat, Seq::empty());
        assert(b@ + Seq::<u8>::empty() =~= b@);
    }
    let mut p: usize = start;
    assert(parse_pairs(b@, pos as int) == match parse_pairs_body(b@, start as int, n as nat) {
                Some((xs, k)) => if keys_unique(xs) {
                    Some((xs, k))
                } else {
                    None
                },
                None => None,
            });
    let mut out: Vec<(String, String)> = Vec::new();
    let mut i: u64 = 0;
    while i < n
        invariant
            p <= b@.len(),
            i <= n,
            parse_pairs(b@, pos as int) == match parse_pairs_body(b@, start as int, n as nat) {
                Some((xs, k)) => if keys_unique(xs) {
                    Some((xs, k))
                } else {
                    None
                },
                None => None,
            },
            parse_pairs_body(b@, start as int, n as nat) == match parse_pairs_body(
                b@,
                p as int,
                (n - i) as nat,
            ) {
                Some((rest, k)) => Some((pairs_view(out@) + rest, k)),
                None => None,
            },
        decreases n - i,
    {
        let (key, q) = match read_text(b, p) {
            None => {
                assert(parse_pairs_body(b@, p as int, (n - i) as nat) is None);
                return None;
            },
            Some(x) => x,
        };
        let (value, q2) = match read_text(b, q) {
            None => {
                assert(parse_pairs_body(b@, p as int, (n - i) as nat) is None);
                return None;
            },
            Some(x) => x,
        };
        let ghost before = out@;
        let ghost kv = (key@, value@);
        out.push((key, value));
        proof {
            assert(pairs_view(out@) =~= pairs_view(before) + seq![kv]);
            match parse_pairs_body(b@, q2 as int, (n - i - 1) as nat) {
                Some((rest, k)) => {
                    assert(pairs_view(before) + (seq![kv] + rest) =~= pairs_view(out@) + rest);
                },
                None => {},
            }
        }
        p = q2;
        i = i + 1;
    }
    assert(pairs_view(out@) + Seq::<(Seq<char>, Seq<char>)>::empty() =~= pairs_view(out@));
    let ghost v = pairs_view(out@);
    let mut x: usize = 0;
    while x < out.len()
        invariant
            v == pairs_view(out@),
            x <= out@.len(),
            parse_pairs(b@, pos as int) == (if keys_unique(v) {
                Some((v, p as int))
            } else {
                None
            }),
            forall|a: int, c: int| 0 <= a < x && a < c < v.len() ==> #[trigger] v[a].0 != #[trigger] v[c].0,
        decreases out@.len() - x,
    {
        let mut y: usize = x + 1;
        while y < out.len()
            invariant
                v == pairs_view(out@),
                x < out@.len(),
                parse_pairs(b@, pos as int) == (if keys_unique(v) {
                    Some((v, p as int))
                } else {
                    None
                }),
                x + 1 <= y <= out@.len(),
                forall|a: int, c: int| 0 <= a < x && a < c < v.len() ==> #[trigger] v[a].0 != #[trigger] v[c].0,
                forall|c: int| x < c < y ==> v[x as int].0 != #[trigger] v[c].0,
            decreases out@.len() - y,
        {
            assert(v[x as int].0 == out@[x as int].0@ && v[y as int].0 == out@[y as int].0@);
            if out[x].0 == out[y].0 {
                assert(!keys_unique(v));
                return None;
            }
            y = y + 1;
        }
        x = x + 1;
    }
    assert(keys_unique(v));
    Some((out, p))
}

/// Appends the bytes of an optional text.
pub fn write_opt_text(out: &mut Vec<u8>, o: &Option<String>)
    ensures
        final(out)@ == old(out)@ + opt_text_bytes(opt_text_view(*o)),
        opt_text_view(*o) matches Some(s) ==> text_fits(s),
{
    match o {
        None => {
            out.push(0u8);
        },
        Some(s) => {
            let ghost start = out@;
            out.push(1u8);
            write_text(out, s);
            assert(out@ =~= start + opt_text_bytes(opt_text_view(*o)));
        },
    }
}

/// Reads an optional text at position `pos` of `b`.
pub fn read_opt_text(b: &[u8], pos: usize) -> (r: Option<(Option<String>, usize)>)
    requires
        pos <= b@.len(),
    ensures
        match parse_opt_text(b@, pos as int) {
            Some((o, j)) => r matches Some((t, p)) && opt_text_view(t) == o && p == j,
            None => r is None,
        },
        r matches Some((t, p)) ==> p <= b@.len(),
{
    if pos >= b.len() {
        None
    } else if b[pos] == 0 {
        Some((None, pos + 1))
    } else if b[pos] == 1 {
        match read_text(b, pos + 1) {
            Some((s, j)) => Some((Some(s), j)),
            None => None,
        }
    } else {
        None
    }
}

} // verus!

verus! {

/// A copy of a list of texts.
pub fn copy_texts(xs: &Vec<String>) -> (r: Vec<String>)
    ensures
        texts_view(r@) == texts_view(xs@),
{
    let mut r: Vec<String> = Vec::new();
    let mut i: usize = 0;
    while i < xs.len()
        invariant
            i <= xs@.len(),
            texts_view(r@) == texts_view(xs@.take(i as int)),
        decreases xs@.len() - i,
    {
        let ghost before = r@;
        let c = xs[i].clone();
        r.push(c);
        assert(xs@.take(i + 1) =~= xs@.take(i as int).push(xs@[i as int]));
        assert(texts_view(r@) =~= texts_view(before).push(xs@[i as int]@));
        i = i + 1;
        assert(texts_view(r@) =~= texts_view(xs@.take(i as int)));
    }
    assert(xs@.take(i as int) =~= xs@);
    r
}

/// A copy of a list of text pairs.
pub fn copy_pairs(xs: &Vec<(String, String)>) -> (r: Vec<(String, String)>)
    ensures
        pairs_view(r@) == pairs_view(xs@),
{
    let mut r: Vec<(String, String)> = Vec::new();
    let mut i: usize = 0;
    while i < xs.len()
        invariant
            i <= xs@.len(),
            pairs_view(r@) == pairs_view(xs@.take(i as int)),
        decreases xs@.len() - i,
    {
        let ghost before = r@;
        let c = (xs[i].0.clone(), xs[i].1.clone());
        r.push(c);
        assert(xs@.take(i + 1) =~= xs@.take(i as int).push(xs@[i as int]));
        assert(pairs_view(r@) =~= pairs_view(before).push((xs@[i as int].0@, xs@[i as int].1@)));
        i = i + 1;
        assert(pairs_view(r@) =~= pairs_view(xs@.take(i as int)));
    }
    assert(xs@.take(i as int) =~= xs@);
    r
}

} // verus!

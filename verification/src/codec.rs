//! The byte format of the snapshots: little-endian, length-prefixed.
//!
//! A length or a count is a `u64` in eight little-endian bytes. A byte string
//! is its length and its bytes; a text is the byte string of its UTF-8 form; a
//! list is its count and its items; a struct is its fields one after another.
//! A reader takes what it needs from the front and ignores what follows.

use vstd::prelude::*;
use vstd::bytes::{
    lemma_auto_spec_u64_to_from_le_bytes, spec_u64_from_le_bytes, spec_u64_to_le_bytes,
    u64_from_le_bytes, u64_to_le_bytes,
};
use vstd::slice::{slice_subrange, slice_to_vec};
use vstd::utf8::{
    decode_utf8, encode_utf8, encode_utf8_decode_utf8, encode_utf8_valid_utf8, valid_utf8,
};

verus! {

/// The encoding of a byte string.
pub open spec fn enc_bytes(b: Seq<u8>) -> Seq<u8> {
    spec_u64_to_le_bytes(b.len() as u64) + b
}

/// The encoding of a text.
pub open spec fn enc_str(s: Seq<char>) -> Seq<u8> {
    enc_bytes(encode_utf8(s))
}

/// The encodings of the items of `s` under `f`, one after another.
pub open spec fn enc_seq<A>(f: spec_fn(A) -> Seq<u8>, s: Seq<A>) -> Seq<u8>
    decreases s.len(),
{
    if s.len() == 0 {
        Seq::empty()
    } else {
        f(s[0]) + enc_seq(f, s.drop_first())
    }
}

/// The encoding of a list: its count, then its items.
pub open spec fn enc_list<A>(f: spec_fn(A) -> Seq<u8>, s: Seq<A>) -> Seq<u8> {
    spec_u64_to_le_bytes(s.len() as u64) + enc_seq(f, s)
}

/// Reads a `u64` from the front of `b`: the number and the bytes taken.
pub open spec fn parse_u64(b: Seq<u8>) -> Option<(u64, int)> {
    if b.len() >= 8 {
        Some((spec_u64_from_le_bytes(b.subrange(0, 8)), 8))
    } else {
        None
    }
}

/// Reads a byte string from the front of `b`.
pub open spec fn parse_bytes(b: Seq<u8>) -> Option<(Seq<u8>, int)> {
    match parse_u64(b) {
        Some((n, _)) => if b.len() - 8 >= n {
            Some((b.subrange(8, 8 + n), 8 + n))
        } else {
            None
        },
        None => None,
    }
}

/// Reads a text from the front of `b`.
pub open spec fn parse_str(b: Seq<u8>) -> Option<(Seq<char>, int)> {
    match parse_bytes(b) {
        Some((raw, k)) => if valid_utf8(raw) {
            Some((decode_utf8(raw), k))
        } else {
            None
        },
        None => None,
    }
}

/// Reads `n` items from the front of `b` with the reader `p`.
pub open spec fn parse_seq<A>(p: spec_fn(Seq<u8>) -> Option<(A, int)>, b: Seq<u8>, n: nat) -> Option<
    (Seq<A>, int),
>
    decreases n,
{
    if n == 0 {
        Some((Seq::empty(), 0))
    } else {
        match p(b) {
            Some((a, k)) => if 0 <= k <= b.len() {
                match parse_seq(p, b.skip(k), (n - 1) as nat) {
                    Some((rest, m)) => Some((seq![a] + rest, k + m)),
                    None => None,
                }
            } else {
                None
            },
            None => None,
        }
    }
}

/// Reads a list from the front of `b`: its count, then that many items.
pub open spec fn parse_list<A>(p: spec_fn(Seq<u8>) -> Option<(A, int)>, b: Seq<u8>) -> Option<
    (Seq<A>, int),
> {
    match parse_u64(b) {
        Some((n, _)) => match parse_seq(p, b.skip(8), n as nat) {
            Some((s, k)) => Some((s, 8 + k)),
            None => None,
        },
        None => None,
    }
}

/// A count is read back from its encoding, whatever follows it.
pub proof fn lemma_u64_round_trip(n: u64, tail: Seq<u8>)
    ensures
        spec_u64_to_le_bytes(n).len() == 8,
        parse_u64(spec_u64_to_le_bytes(n) + tail) == Some((n, 8int)),
        (spec_u64_to_le_bytes(n) + tail).skip(8) == tail,
{
    lemma_auto_spec_u64_to_from_le_bytes();
    let e = spec_u64_to_le_bytes(n);
    assert((e + tail).subrange(0, 8) =~= e);
    assert((e + tail).skip(8) =~= tail);
}

/// A byte string is read back from its encoding, whatever follows it.
pub proof fn lemma_bytes_round_trip(b: Seq<u8>, tail: Seq<u8>)
    requires
        b.len() <= u64::MAX,
    ensures
        enc_bytes(b).len() == 8 + b.len(),
        parse_bytes(enc_bytes(b) + tail) == Some((b, 8 + b.len() as int)),
        (enc_bytes(b) + tail).skip(8 + b.len() as int) == tail,
{
    let n = b.len() as u64;
    lemma_u64_round_trip(n, b + tail);
    assert(enc_bytes(b) + tail =~= spec_u64_to_le_bytes(n) + (b + tail));
    assert((enc_bytes(b) + tail).subrange(8, 8 + n) =~= b);
    assert((enc_bytes(b) + tail).skip(8 + b.len() as int) =~= tail);
}

/// A text is read back from its encoding, whatever follows it.
pub proof fn lemma_str_round_trip(s: Seq<char>, tail: Seq<u8>)
    requires
        encode_utf8(s).len() <= u64::MAX,
    ensures
        enc_str(s).len() == 8 + encode_utf8(s).len(),
        parse_str(enc_str(s) + tail) == Some((s, 8 + encode_utf8(s).len() as int)),
        (enc_str(s) + tail).skip(8 + encode_utf8(s).len() as int) == tail,
{
    lemma_bytes_round_trip(encode_utf8(s), tail);
    encode_utf8_valid_utf8(s);
    encode_utf8_decode_utf8(s);
}

/// The encodings of a sequence with one more item at its end.
pub proof fn lemma_enc_seq_push<A>(f: spec_fn(A) -> Seq<u8>, s: Seq<A>, a: A)
    ensures
        enc_seq(f, s.push(a)) == enc_seq(f, s) + f(a),
    decreases s.len(),
{
    if s.len() == 0 {
        assert(s.push(a).drop_first() =~= Seq::<A>::empty());
        assert(enc_seq(f, s.push(a)) =~= f(a) + enc_seq(f, Seq::<A>::empty()));
        assert(enc_seq(f, s.push(a)) =~= enc_seq(f, s) + f(a));
    } else {
        assert(s.push(a).drop_first() =~= s.drop_first().push(a));
        lemma_enc_seq_push(f, s.drop_first(), a);
        assert(enc_seq(f, s.push(a)) =~= enc_seq(f, s) + f(a));
    }
}

/// A sequence is read back from the encodings of its items, whatever
/// follows them, where each item is.
pub proof fn lemma_seq_round_trip<A>(
    f: spec_fn(A) -> Seq<u8>,
    p: spec_fn(Seq<u8>) -> Option<(A, int)>,
    s: Seq<A>,
    tail: Seq<u8>,
)
    requires
        forall|i: int, t: Seq<u8>|
            0 <= i < s.len() ==> #[trigger] p(f(s[i]) + t) == Some((s[i], f(s[i]).len() as int)),
    ensures
        parse_seq(p, enc_seq(f, s) + tail, s.len()) == Some((s, enc_seq(f, s).len() as int)),
        (enc_seq(f, s) + tail).skip(enc_seq(f, s).len() as int) == tail,
    decreases s.len(),
{
    if s.len() == 0 {
        assert((enc_seq(f, s) + tail).skip(0) =~= tail);
    } else {
        let rest = s.drop_first();
        let head = f(s[0]);
        let whole = enc_seq(f, s) + tail;
        assert(whole =~= head + (enc_seq(f, rest) + tail));
        assert(p(head + (enc_seq(f, rest) + tail)) == Some((s[0], head.len() as int)));
        assert(whole.skip(head.len() as int) =~= enc_seq(f, rest) + tail);
        assert forall|i: int, t: Seq<u8>| 0 <= i < rest.len() implies #[trigger] p(f(rest[i]) + t)
            == Some((rest[i], f(rest[i]).len() as int)) by {
            assert(rest[i] == s[i + 1]);
        }
        lemma_seq_round_trip(f, p, rest, tail);
        assert(seq![s[0]] + rest =~= s);
        assert(whole.skip(enc_seq(f, s).len() as int) =~= tail);
    }
}

/// A list is read back from its encoding, whatever follows it, where each
/// item is.
pub proof fn lemma_list_round_trip<A>(
    f: spec_fn(A) -> Seq<u8>,
    p: spec_fn(Seq<u8>) -> Option<(A, int)>,
    s: Seq<A>,
    tail: Seq<u8>,
)
    requires
        s.len() <= u64::MAX,
        forall|i: int, t: Seq<u8>|
            0 <= i < s.len() ==> #[trigger] p(f(s[i]) + t) == Some((s[i], f(s[i]).len() as int)),
    ensures
        parse_list(p, enc_list(f, s) + tail) == Some((s, enc_list(f, s).len() as int)),
        (enc_list(f, s) + tail).skip(enc_list(f, s).len() as int) == tail,
{
    let n = s.len() as u64;
    lemma_u64_round_trip(n, enc_seq(f, s) + tail);
    assert(enc_list(f, s) + tail =~= spec_u64_to_le_bytes(n) + (enc_seq(f, s) + tail));
    lemma_seq_round_trip(f, p, s, tail);
    assert((enc_list(f, s) + tail).skip(enc_list(f, s).len() as int) =~= tail);
}

/// Appends `src` to `out`.
pub fn append_bytes(out: &mut Vec<u8>, src: &[u8])
    ensures
        final(out)@ == old(out)@ + src@,
{
    let mut i: usize = 0;
    while i < src.len()
        invariant
            i <= src.len(),
            out@ == old(out)@ + src@.take(i as int),
        decreases src.len() - i,
    {
        out.push(src[i]);
        assert(out@ =~= old(out)@ + src@.take(i + 1));
        i += 1;
    }
    assert(src@.take(i as int) =~= src@);
}

/// Appends the encoding of a count.
pub fn write_u64(out: &mut Vec<u8>, n: u64)
    ensures
        final(out)@ == old(out)@ + spec_u64_to_le_bytes(n),
{
    let e = u64_to_le_bytes(n);
    append_bytes(out, e.as_slice());
}

/// Appends the encoding of a byte string.
pub fn write_bytes(out: &mut Vec<u8>, b: &[u8])
    ensures
        final(out)@ == old(out)@ + enc_bytes(b@),
        b@.len() <= u64::MAX,
{
    write_u64(out, b.len() as u64);
    append_bytes(out, b);
    assert(out@ =~= old(out)@ + enc_bytes(b@));
}

/// Appends the encoding of a text.
pub fn write_str(out: &mut Vec<u8>, s: &str)
    ensures
        final(out)@ == old(out)@ + enc_str(s@),
        encode_utf8(s@).len() <= u64::MAX,
{
    write_bytes(out, s.as_bytes());
}

/// Reads a count at `pos`: the number and the place behind it.
pub fn read_u64(bytes: &[u8], pos: usize) -> (r: Option<(u64, usize)>)
    requires
        pos <= bytes.len(),
    ensures
        match parse_u64(bytes@.skip(pos as int)) {
            Some((n, k)) => r == Some((n, (pos + k) as usize)) && pos + k <= bytes.len(),
            None => r is None,
        },
{
    if bytes.len() - pos < 8 {
        return None;
    }
    let part = slice_subrange(bytes, pos, pos + 8);
    assert(part@ =~= bytes@.skip(pos as int).subrange(0, 8));
    Some((u64_from_le_bytes(part), pos + 8))
}

/// Reads a byte string at `pos`: the bytes and the place behind them.
pub fn read_bytes(bytes: &[u8], pos: usize) -> (r: Option<(Vec<u8>, usize)>)
    requires
        pos <= bytes.len(),
    ensures
        match (parse_bytes(bytes@.skip(pos as int)), r) {
            (Some((b, k)), Some((v, next))) => v@ == b && next == pos + k && next <= bytes.len(),
            (None, None) => true,
            _ => false,
        },
{
    match read_u64(bytes, pos) {
        None => None,
        Some((n, start)) => {
            if n > (bytes.len() - start) as u64 {
                return None;
            }
            let end = start + n as usize;
            let part = slice_subrange(bytes, start, end);
            assert(part@ =~= bytes@.skip(pos as int).subrange(8, 8 + n));
            Some((slice_to_vec(part), end))
        },
    }
}

/// The text that `bytes` spell in UTF-8, if they spell one.
///
/// Trusted: `String::from_utf8` accepts exactly the well-formed UTF-8 byte
/// strings and gives the text whose UTF-8 form is the argument.
#[verifier::external_body]
fn string_from_utf8(bytes: Vec<u8>) -> (r: Option<String>)
    ensures
        match r {
            Some(s) => valid_utf8(bytes@) && s@ == decode_utf8(bytes@),
            None => !valid_utf8(bytes@),
        },
{
    String::from_utf8(bytes).ok()
}

/// Reads a text at `pos`: the text and the place behind it.
pub fn read_str(bytes: &[u8], pos: usize) -> (r: Option<(String, usize)>)
    requires
        pos <= bytes.len(),
    ensures
        match (parse_str(bytes@.skip(pos as int)), r) {
            (Some((s, k)), Some((v, next))) => v@ == s && next == pos + k && next <= bytes.len(),
            (None, None) => true,
            _ => false,
        },
{
    match read_bytes(bytes, pos) {
        None => None,
        Some((raw, next)) => match string_from_utf8(raw) {
            Some(s) => Some((s, next)),
            None => None,
        },
    }
}

} // verus!

use vstd::prelude::*;

use crate::error::Error;
use crate::round::{half_base, Round, RoundView, Word256};
use vstd::arithmetic::div_mod::{
    lemma_fundamental_div_mod, lemma_hoist_over_denominator, lemma_mod_multiples_vanish,
};
use vstd::utf8::{decode_utf8, encode_utf8, encode_utf8_decode_utf8, encode_utf8_valid_utf8, valid_utf8};

verus! {

/// 256 to the power `k`.
pub open spec fn pow256(k: nat) -> nat
    decreases k,
{
    if k == 0 {
        1
    } else {
        256 * pow256((k - 1) as nat)
    }
}

/// The `k` lowest bytes of `n`, least significant first.
pub open spec fn le_bytes(n: nat, k: nat) -> Seq<u8>
    decreases k,
{
    if k == 0 {
        Seq::empty()
    } else {
        seq![(n % 256) as u8] + le_bytes(n / 256, (k - 1) as nat)
    }
}

/// The number that bytes stand for, least significant first.
pub open spec fn le_value(b: Seq<u8>) -> nat
    decreases b.len(),
{
    if b.len() == 0 {
        0
    } else {
        b[0] as nat + 256 * le_value(b.drop_first())
    }
}

/// Width in bytes of the fields that follow the identifier: round id,
/// answered-in round, start and update times, answer, decimals.
pub open spec fn tail_len() -> nat {
    16 + 16 + 32 + 32 + 16 + 1
}

/// The stored form of a round: the byte length of the identifier's UTF-8
/// encoding in 8 bytes, that encoding, then each number in fixed width,
/// least significant byte first (16 bytes for the 128-bit fields, 32 for
/// the 256-bit times, 1 for the decimals).
pub open spec fn round_bytes(r: RoundView) -> Seq<u8> {
    let id = encode_utf8(r.identifier);
    le_bytes(id.len(), 8) + id + le_bytes(r.round_id, 16) + le_bytes(r.answered_in_round, 16)
        + le_bytes(r.started_at, 32) + le_bytes(r.updated_at, 32) + le_bytes(r.answer, 16)
        + le_bytes(r.decimals, 1)
}

/// The round that bytes in the stored form stand for, if they are in it.
pub open spec fn parse_round(b: Seq<u8>) -> Option<RoundView> {
    if b.len() < 8 {
        None
    } else {
        let n = le_value(b.subrange(0, 8)) as int;
        if b.len() != 8 + n + tail_len() {
            None
        } else if !valid_utf8(b.subrange(8, 8 + n)) {
            None
        } else {
            let t = 8 + n;
            Some(
                RoundView {
                    identifier: decode_utf8(b.subrange(8, t)),
                    round_id: le_value(b.subrange(t, t + 16)),
                    answered_in_round: le_value(b.subrange(t + 16, t + 32)),
                    started_at: le_value(b.subrange(t + 32, t + 64)),
                    updated_at: le_value(b.subrange(t + 64, t + 96)),
                    answer: le_value(b.subrange(t + 96, t + 112)),
                    decimals: le_value(b.subrange(t + 112, t + 113)),
                },
            )
        }
    }
}

/// Every field of the round fits its width in the stored form.
pub open spec fn fits(r: RoundView) -> bool {
    &&& encode_utf8(r.identifier).len() < pow256(8)
    &&& r.round_id < pow256(16)
    &&& r.answered_in_round < pow256(16)
    &&& r.started_at < pow256(32)
    &&& r.updated_at < pow256(32)
    &&& r.answer < pow256(16)
    &&& r.decimals < pow256(1)
}

proof fn lemma_le_bytes_len(n: nat, k: nat)
    ensures
        le_bytes(n, k).len() == k,
    decreases k,
{
    if k > 0 {
        lemma_le_bytes_len(n / 256, (k - 1) as nat);
    }
}

proof fn lemma_pow256_16()
    ensures
        pow256(16) == half_base(),
{
    reveal_with_fuel(pow256, 17);
}

proof fn lemma_pow256_mono(a: nat, b: nat)
    requires
        a <= b,
    ensures
        pow256(a) <= pow256(b),
    decreases b,
{
    if a < b {
        lemma_pow256_mono(a, (b - 1) as nat);
    }
}

/// Writing a number in `k` bytes and reading them back gives the number,
/// when it fits.
proof fn lemma_le_round_trip(n: nat, k: nat)
    requires
        n < pow256(k),
    ensures
        le_value(le_bytes(n, k)) == n,
    decreases k,
{
    if k > 0 {
        let b = le_bytes(n, k);
        lemma_fundamental_div_mod(n as int, 256);
        assert(n / 256 < pow256((k - 1) as nat));
        lemma_le_round_trip(n / 256, (k - 1) as nat);
        assert(b.drop_first() =~= le_bytes(n / 256, (k - 1) as nat));
    }
}

/// Bytes read as a number stay below 256 to the power of their count.
proof fn lemma_le_value_bound(b: Seq<u8>)
    ensures
        le_value(b) < pow256(b.len()),
    decreases b.len(),
{
    if b.len() > 0 {
        lemma_le_value_bound(b.drop_first());
    }
}

/// Reading two runs of bytes one after the other.
proof fn lemma_le_value_concat(x: Seq<u8>, y: Seq<u8>)
    ensures
        le_value(x + y) == le_value(x) + pow256(x.len()) * le_value(y),
    decreases x.len(),
{
    if x.len() == 0 {
        assert(x + y =~= y);
    } else {
        assert((x + y).drop_first() =~= x.drop_first() + y);
        assert((x + y)[0] == x[0]);
        lemma_le_value_concat(x.drop_first(), y);
        let p = pow256((x.len() - 1) as nat);
        let v = le_value(y);
        let w = le_value(x.drop_first());
        assert(pow256(x.len()) == 256 * p);
        assert(le_value(x + y) == x[0] as nat + 256 * (w + p * v));
        assert(256 * (w + p * v) == 256 * w + (256 * p) * v) by (nonlinear_arith);
    }
}

/// Writing `a + 256^k * b` in `k + m` bytes writes `a` in `k` bytes, then
/// `b` in `m` bytes.
proof fn lemma_le_bytes_split(a: nat, b: nat, k: nat, m: nat)
    requires
        a < pow256(k),
    ensures
        le_bytes(a + pow256(k) * b, k + m) == le_bytes(a, k) + le_bytes(b, m),
    decreases k,
{
    if k == 0 {
        assert(a == 0);
        assert(le_bytes(a, k) + le_bytes(b, m) =~= le_bytes(b, m));
    } else {
        let p = pow256((k - 1) as nat);
        let q = p * b;
        let x = a + pow256(k) * b;
        assert(pow256(k) * b == 256 * q) by (nonlinear_arith)
            requires
                pow256(k) == 256 * p,
                q == p * b,
        ;
        lemma_mod_multiples_vanish(q as int, a as int, 256);
        lemma_hoist_over_denominator(a as int, q as int, 256);
        assert(x % 256 == a % 256);
        assert(x / 256 == a / 256 + q);
        lemma_fundamental_div_mod(a as int, 256);
        assert(a / 256 < p);
        lemma_le_bytes_split(a / 256, b, (k - 1) as nat, m);
        assert(le_bytes(x, k + m) =~= le_bytes(a, k) + le_bytes(b, m));
    }
}

/// Decoding what encoding wrote gives the round back: the stored form of a
/// round whose fields fit their widths parses to that same round.
pub proof fn lemma_round_trip(r: RoundView)
    requires
        fits(r),
    ensures
        parse_round(round_bytes(r)) == Some(r),
{
    let id = encode_utf8(r.identifier);
    let n = id.len();
    let b = round_bytes(r);
    lemma_le_bytes_len(n, 8);
    lemma_le_bytes_len(r.round_id, 16);
    lemma_le_bytes_len(r.answered_in_round, 16);
    lemma_le_bytes_len(r.started_at, 32);
    lemma_le_bytes_len(r.updated_at, 32);
    lemma_le_bytes_len(r.answer, 16);
    lemma_le_bytes_len(r.decimals, 1);
    let t = 8 + n as int;
    assert(b.len() == 8 + n + tail_len());
    assert(b.subrange(0, 8) =~= le_bytes(n, 8));
    assert(b.subrange(8, t) =~= id);
    assert(b.subrange(t, t + 16) =~= le_bytes(r.round_id, 16));
    assert(b.subrange(t + 16, t + 32) =~= le_bytes(r.answered_in_round, 16));
    assert(b.subrange(t + 32, t + 64) =~= le_bytes(r.started_at, 32));
    assert(b.subrange(t + 64, t + 96) =~= le_bytes(r.updated_at, 32));
    assert(b.subrange(t + 96, t + 112) =~= le_bytes(r.answer, 16));
    assert(b.subrange(t + 112, t + 113) =~= le_bytes(r.decimals, 1));
    lemma_le_round_trip(n, 8);
    lemma_le_round_trip(r.round_id, 16);
    lemma_le_round_trip(r.answered_in_round, 16);
    lemma_le_round_trip(r.started_at, 32);
    lemma_le_round_trip(r.updated_at, 32);
    lemma_le_round_trip(r.answer, 16);
    lemma_le_round_trip(r.decimals, 1);
    encode_utf8_valid_utf8(r.identifier);
    encode_utf8_decode_utf8(r.identifier);
}

/// Appends the `width` lowest bytes of `value`, least significant first.
fn push_le(out: &mut Vec<u8>, value: u128, width: usize)
    ensures
        final(out)@ == old(out)@ + le_bytes(value as nat, width as nat),
{
    let mut v: u128 = value;
    let mut i: usize = 0;
    while i < width
        invariant
            i <= width,
            out@ + le_bytes(v as nat, (width - i) as nat) == old(out)@ + le_bytes(
                value as nat,
                width as nat,
            ),
        decreases width - i,
    {
        let ghost before = out@;
        let ghost rest = le_bytes(v as nat, (width - i) as nat);
        assert(rest =~= seq![(v % 256) as u8] + le_bytes((v / 256) as nat, (width - i - 1) as nat));
        out.push((v % 256) as u8);
        v = v / 256;
        i = i + 1;
        assert(out@ + le_bytes(v as nat, (width - i) as nat) =~= before + rest);
    }
    assert(le_bytes(v as nat, 0) =~= Seq::<u8>::empty());
    assert(out@ =~= out@ + le_bytes(v as nat, 0));
}

/// Appends the 32 bytes of a 256-bit word, least significant first.
fn push_word(out: &mut Vec<u8>, w: Word256)
    ensures
        final(out)@ == old(out)@ + le_bytes(w.value(), 32),
{
    push_le(out, w.lo, 16);
    push_le(out, w.hi, 16);
    proof {
        lemma_pow256_16();
        let hb = half_base();
        assert(w.value() == w.hi as nat * hb + w.lo as nat);
        assert(w.hi as nat * hb == hb * w.hi as nat) by (nonlinear_arith);
        assert(w.value() == w.lo as nat + pow256(16) * w.hi as nat);
        lemma_le_bytes_split(w.lo as nat, w.hi as nat, 16, 16);
    }
    assert(final(out)@ =~= old(out)@ + le_bytes(w.value(), 32));
}

/// Reads the `width` bytes at `start` as a number, least significant first.
fn read_le(bytes: &Vec<u8>, start: usize, width: usize) -> (r: u128)
    requires
        start + width <= bytes@.len(),
        width <= 16,
    ensures
        r as nat == le_value(bytes@.subrange(start as int, start + width)),
{
    let len = bytes.len();
    let mut acc: u128 = 0;
    let mut i: usize = width;
    proof {
        lemma_pow256_16();
    }
    while i > 0
        invariant
            i <= width <= 16,
            start + width <= bytes@.len(),
            len == bytes@.len(),
            acc as nat == le_value(bytes@.subrange(start + i, start + width)),
            pow256(16) == half_base(),
        decreases i,
    {
        let ghost tail = bytes@.subrange(start + i, start + width);
        proof {
            lemma_le_value_bound(tail);
            lemma_pow256_mono((width - i + 1) as nat, 16);
        }
        i = i - 1;
        let byte = bytes[start + i];
        let ghost whole = bytes@.subrange(start + i, start + width);
        assert(whole.drop_first() =~= tail);
        assert(acc * 256 + byte < pow256(16));
        acc = acc * 256 + byte as u128;
    }
    acc
}

/// Relies on `String::from_utf8`: it accepts exactly the byte strings that
/// are well-formed UTF-8, and the string it returns is made of those bytes.
#[verifier::external_body]
fn string_from_utf8(bytes: Vec<u8>) -> (r: Option<String>)
    ensures
        r is Some <==> valid_utf8(bytes@),
        r matches Some(s) ==> encode_utf8(s@) == bytes@,
{
    String::from_utf8(bytes).ok()
}

/// The stored form of `round`.
pub fn encode_round(round: &Round) -> (out: Vec<u8>)
    ensures
        out@ == round_bytes(round@),
{
    let id = round.identifier.as_str().as_bytes();
    let mut out: Vec<u8> = Vec::new();
    push_le(&mut out, id.len() as u128, 8);
    let mut i: usize = 0;
    while i < id.len()
        invariant
            i <= id@.len(),
            out@ == le_bytes(id@.len(), 8) + id@.subrange(0, i as int),
        decreases id@.len() - i,
    {
        out.push(id[i]);
        i = i + 1;
        assert(out@ =~= le_bytes(id@.len(), 8) + id@.subrange(0, i as int));
    }
    assert(id@.subrange(0, id@.len() as int) =~= id@);
    push_le(&mut out, round.round_id, 16);
    push_le(&mut out, round.answered_in_round, 16);
    push_word(&mut out, round.started_at);
    push_word(&mut out, round.updated_at);
    push_le(&mut out, round.answer, 16);
    push_le(&mut out, round.decimals as u128, 1);
    out
}

/// The round that `bytes` hold in the stored form, or
/// [`Error::Deserialize`] when they are not in it.
pub fn decode_round(bytes: &Vec<u8>) -> (r: Result<Round, Error>)
    ensures
        match r {
            Ok(x) => parse_round(bytes@) == Some(x@),
            Err(e) => parse_round(bytes@) is None && e == Error::Deserialize,
        },
{
    let total = bytes.len();
    if total < 8 {
        return Err(Error::Deserialize);
    }
    let declared = read_le(bytes, 0, 8);
    if declared > total as u128 || total - (declared as usize) != 121 {
        return Err(Error::Deserialize);
    }
    let n = declared as usize;
    let t = 8 + n;
    let mut id: Vec<u8> = Vec::new();
    let mut i: usize = 8;
    while i < t
        invariant
            8 <= i <= t <= bytes@.len(),
            id@ == bytes@.subrange(8, i as int),
        decreases t - i,
    {
        id.push(bytes[i]);
        i = i + 1;
        assert(id@ =~= bytes@.subrange(8, i as int));
    }
    let identifier = match string_from_utf8(id) {
        Some(s) => s,
        None => {
            return Err(Error::Deserialize);
        },
    };
    proof {
        encode_utf8_decode_utf8(identifier@);
    }
    let round_id = read_le(bytes, t, 16);
    let answered_in_round = read_le(bytes, t + 16, 16);
    let started_at = Word256 { lo: read_le(bytes, t + 32, 16), hi: read_le(bytes, t + 48, 16) };
    let updated_at = Word256 { lo: read_le(bytes, t + 64, 16), hi: read_le(bytes, t + 80, 16) };
    let answer = read_le(bytes, t + 96, 16);
    let decimals = bytes[t + 112];
    proof {
        lemma_pow256_16();
        let b = bytes@;
        assert(b.subrange(t + 32, t + 64) =~= b.subrange(t + 32, t + 48) + b.subrange(
            t + 48,
            t + 64,
        ));
        lemma_le_value_concat(b.subrange(t + 32, t + 48), b.subrange(t + 48, t + 64));
        assert(b.subrange(t + 64, t + 96) =~= b.subrange(t + 64, t + 80) + b.subrange(
            t + 80,
            t + 96,
        ));
        lemma_le_value_concat(b.subrange(t + 64, t + 80), b.subrange(t + 80, t + 96));
        let d = b.subrange(t + 112, t + 113);
        assert(d.drop_first() =~= Seq::<u8>::empty());
        assert(le_value(Seq::<u8>::empty()) == 0);
        assert(d[0] == decimals);
        assert(le_value(d) == decimals as nat);
    }
    Ok(
        Round {
            identifier,
            round_id,
            answered_in_round,
            started_at,
            updated_at,
            answer,
            decimals,
        },
    )
}

} // verus!

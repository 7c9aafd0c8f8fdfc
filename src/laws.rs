//! Properties of the decoder stated over its model, each proved.

use crate::header::{header_class, HeaderClass, PacketStub};
use crate::packet::{MalformedView, PacketView};
use crate::payload::{last_width, low7_sum, timestamp_value, u64_range};
use crate::stream::{bits_value, byte_at, step, sync_run, Step};
use crate::timestamp::{
    absorb, compose_base, delta_num, local_delta, sum_capped, timestamp_init, CtxView, Timestamp,
};
use vstd::arithmetic::div_mod::{
    lemma_fundamental_div_mod, lemma_mod_breakdown, lemma_multiply_divide_lt,
    lemma_small_mod,
};
use vstd::arithmetic::power2::{lemma2_to64, lemma_pow2_adds, lemma_pow2_pos, lemma_pow2_strictly_increases, pow2};
use vstd::prelude::*;

verus! {

/// Within an epoch the delta of the timestamp never decreases: taking any
/// decoding outcome either sets a new base (a new epoch) or keeps the base
/// and adds the outcome's local timestamp, if any, to the delta (capped at
/// the largest `u64`).
pub proof fn lemma_delta_monotone(c: CtxView, r: Result<PacketView, MalformedView>, only_gts: bool)
    ensures
        absorb(c, r, only_gts).0.epoch >= c.epoch,
        absorb(c, r, only_gts).0.epoch == c.epoch ==> delta_num(absorb(c, r, only_gts).0.ts)
            >= delta_num(c.ts),
        absorb(c, r, only_gts).0.epoch == c.epoch ==> absorb(c, r, only_gts).0.ts.base == c.ts.base,
        absorb(c, r, only_gts).0.epoch == c.epoch ==> delta_num(absorb(c, r, only_gts).0.ts) == match local_delta(r, only_gts) {
            Some((v, _)) => sum_capped(delta_num(c.ts), v),
            None => delta_num(c.ts),
        },
{
}

/// A new base is the second global timestamp shifted to bit 26, or-ed with
/// the first; it starts an epoch with no delta, no relation and no
/// divergence. Bases are set only where such a pair completes.
pub proof fn lemma_base_composition(c: CtxView, r: Result<PacketView, MalformedView>, only_gts: bool)
    requires
        !(c.gts1 is Some && c.gts2 is Some),
    ensures
        ({
            let c2 = absorb(c, r, only_gts).0;
            &&& c2.epoch == c.epoch || c2.epoch == c.epoch + 1
            &&& c2.epoch == c.epoch + 1 <==> (match r {
                Ok(PacketView::GlobalTimestamp1 { wrap, clkch, .. }) => !wrap && !clkch
                    && c.gts2 is Some,
                Ok(PacketView::GlobalTimestamp2 { .. }) => c.gts1 is Some,
                _ => false,
            })
            &&& match r {
                Ok(PacketView::GlobalTimestamp1 { ts, wrap, clkch }) => (!wrap && !clkch
                    && c.gts2 is Some) ==> c2.ts == (Timestamp {
                    base: Some(compose_base(ts, c.gts2->Some_0)),
                    ..timestamp_init()
                }),
                Ok(PacketView::GlobalTimestamp2 { ts }) => c.gts1 is Some ==> c2.ts == (Timestamp {
                    base: Some(compose_base(c.gts1->Some_0, ts)),
                    ..timestamp_init()
                }),
                _ => true,
            }
        }),
{
}

/// A run of `n` zero bits.
pub open spec fn zeros(n: nat) -> Seq<bool> {
    Seq::new(n, |i: int| false)
}

proof fn lemma_sync_run_zeros(m: nat, c: nat, rest: Seq<bool>)
    requires
        c + m >= 47,
    ensures
        sync_run(zeros(m) + seq![true] + rest, c) == (Step {
            out: Ok(Some(PacketView::Sync)),
            consumed: m + 1,
            sync: None,
        }),
    decreases m,
{
    let q = zeros(m) + seq![true] + rest;
    if m > 0 {
        assert(q.drop_first() =~= zeros((m - 1) as nat) + seq![true] + rest);
        if c < 47 {
            lemma_sync_run_zeros((m - 1) as nat, c + 1, rest);
        } else {
            lemma_sync_run_zeros((m - 1) as nat, c, rest);
        }
    } else {
        assert(q[0]);
    }
}

proof fn lemma_bits_value_zeros(n: nat)
    ensures
        bits_value(zeros(n)) == 0,
    decreases n,
{
    if n > 0 {
        assert(zeros(n).drop_last() =~= zeros((n - 1) as nat));
        lemma_bits_value_zeros((n - 1) as nat);
    }
}

/// After at least 47 zero bits and a set bit, whether or not a
/// synchronization packet was being read, the next step yields a
/// synchronization packet, takes exactly those bits, and leaves the
/// decoder outside a synchronization packet at the bit after them.
pub proof fn lemma_resync(n: nat, rest: Seq<bool>, sync: Option<nat>)
    requires
        n >= 47,
    ensures
        step(zeros(n) + seq![true] + rest, sync) == (Step {
            out: Ok(Some(PacketView::Sync)),
            consumed: n + 1,
            sync: None,
        }),
        (zeros(n) + seq![true] + rest).skip((n + 1) as int) == rest,
{
    let q = zeros(n) + seq![true] + rest;
    assert(q.skip((n + 1) as int) =~= rest);
    match sync {
        Some(c) => {
            lemma_sync_run_zeros(n, c, rest);
        },
        None => {
            assert(q.subrange(0, 8) =~= zeros(8));
            lemma_bits_value_zeros(8);
            assert(byte_at(q, 0) == 0);
            assert(header_class(0) == HeaderClass::Stub(PacketStub::Sync(8)));
            assert(q.skip(8) =~= zeros((n - 8) as nat) + seq![true] + rest);
            lemma_sync_run_zeros((n - 8) as nat, 8, rest);
        },
    }
}

/// The continuation-terminated encoding of `v` in `n` bytes: seven bits of
/// `v` in each, least significant first, bit 7 set in all but the last.
pub open spec fn encode_timestamp(v: nat, n: nat) -> Seq<u8> {
    Seq::new(
        n,
        |i: int|
            if i < n - 1 {
                ((v / pow2((7 * i) as nat)) % 128 + 128) as u8
            } else {
                ((v / pow2((7 * i) as nat)) % 128) as u8
            },
    )
}

proof fn lemma_low7_prefix(v: nat, n: nat, k: nat)
    requires
        k < n,
    ensures
        low7_sum(encode_timestamp(v, n).take(k as int)) == v % pow2(7 * k),
    decreases k,
{
    let e = encode_timestamp(v, n);
    if k == 0 {
        assert(e.take(0) =~= Seq::<u8>::empty());
        lemma2_to64();
        assert(7 * k == 0);
        assert(v % 1 == 0);
    } else {
        let j = (k - 1) as nat;
        lemma_low7_prefix(v, n, j);
        assert(e.take(k as int).drop_last() =~= e.take(j as int));
        let p = pow2(7 * j);
        lemma_pow2_pos(7 * j);
        lemma2_to64();
        lemma_pow2_adds(7 * j, 7);
        assert(7 * j + 7 == 7 * k);
        lemma_mod_breakdown(v as int, p as int, 128);
        let x = (v / pow2((7 * j) as nat)) % 128;
        assert(e[j as int] == (x + 128) as u8);
        assert(e[j as int] % 128 == x);
        assert(pow2(7 * k) == p * 128);
        assert(e.take(k as int).last() == e[j as int]);
        assert(low7_sum(e.take(k as int)) == low7_sum(e.take(j as int)) + (e[j as int] % 128) as nat
            * p);
        assert(v % pow2(7 * k) == p * x + v % p);
    }
}

/// Decoding the encoding of a timestamp gives the timestamp back: for a
/// value of bits \[max_bits:0\] (so of at most `max_bits` bits in
/// particular), encoded in `max_bits / 7 + 1` bytes.
pub proof fn lemma_timestamp_round_trip(v: u64, max_bits: u64)
    requires
        v < pow2(max_bits as nat + 1),
    ensures
        timestamp_value(encode_timestamp(v as nat, (max_bits / 7 + 1) as nat), max_bits) % u64_range()
            == v,
{
    let n = (max_bits / 7 + 1) as nat;
    let e = encode_timestamp(v as nat, n);
    let k = (n - 1) as nat;
    lemma_low7_prefix(v as nat, n, k);
    assert(e.take(k as int) =~= e.drop_last());
    let p = pow2(7 * k);
    let w = last_width(max_bits);
    lemma_pow2_pos(7 * k);
    lemma_pow2_pos(w);
    lemma_pow2_adds(7 * k, w);
    assert(7 * k + w == max_bits + 1);
    lemma_multiply_divide_lt(v as int, p as int, pow2(w) as int);
    let x = v as nat / p;
    lemma2_to64();
    if w < 7 {
        lemma_pow2_strictly_increases(w, 7);
    }
    lemma_small_mod(x, 128);
    lemma_small_mod(x, pow2(w));
    assert(e.last() == x as u8);
    lemma_fundamental_div_mod(v as int, p as int);
    assert(e.len() == n);
    assert(low7_sum(e.drop_last()) == v as nat % p);
    assert(e.last() as nat % pow2(w) == x);
    assert(pow2((7 * (e.len() - 1)) as nat) == p);
    assert(timestamp_value(e, max_bits) == v as nat % p + x * p);
    assert(v as nat % p + x * p == v);
    lemma_small_mod(v as nat, u64_range());
}

} // verus!

//! Decoding does not depend on how the stream was cut into chunks.

use crate::header::{header_class, HeaderClass, PacketStub};
use crate::packet::{MalformedView, PacketView};
use crate::stream::{
    byte_at, bytes_at, lemma_payload_len_bound, lemma_sync_run_bound, lemma_sync_run_stall,
    payload_len, step, sync_run, Step,
};
use crate::bitbuf::bits_of_bytes;
use vstd::arithmetic::div_mod::{lemma_hoist_over_denominator, lemma_mod_multiples_vanish};
use vstd::prelude::*;

verus! {

/// Decoding steps from the stream `q` until one yields nothing: the
/// outcomes, in order, then the bits left and the synchronization state
/// after the last step.
pub open spec fn drain(q: Seq<bool>, sync: Option<nat>) -> (Seq<Result<Option<PacketView>, MalformedView>>, Seq<bool>, Option<nat>)
    decreases q.len(),
{
    let st = step(q, sync);
    if st.out == Ok::<Option<PacketView>, MalformedView>(None) {
        (Seq::empty(), q.skip(st.consumed as int), st.sync)
    } else if 1 <= st.consumed && st.consumed <= q.len() {
        let rest = drain(q.skip(st.consumed as int), st.sync);
        (seq![st.out] + rest.0, rest.1, rest.2)
    } else {
        (Seq::empty(), q, sync)
    }
}

proof fn lemma_byte_at_ext(q: Seq<bool>, e: Seq<bool>, k: int)
    requires
        0 <= k,
        8 * k + 8 <= q.len(),
    ensures
        byte_at(q + e, k) == byte_at(q, k),
{
    assert((q + e).subrange(8 * k, 8 * k + 8) =~= q.subrange(8 * k, 8 * k + 8));
}

proof fn lemma_bytes_at_ext(q: Seq<bool>, e: Seq<bool>, n: nat)
    requires
        8 * n <= q.len(),
    ensures
        bytes_at(q + e, 0, n) == bytes_at(q, 0, n),
{
    assert forall|i: int| 0 <= i < n implies byte_at(q + e, i) == byte_at(q, i) by {
        lemma_byte_at_ext(q, e, i);
    }
    assert(bytes_at(q + e, 0, n) =~= bytes_at(q, 0, n));
}

proof fn lemma_payload_len_ext(q: Seq<bool>, e: Seq<bool>, k: nat)
    requires
        payload_len(q, k) is Some,
    ensures
        payload_len(q + e, k) == payload_len(q, k),
    decreases q.len() - 8 * k,
{
    lemma_byte_at_ext(q, e, k as int);
    if byte_at(q, k as int) >= 128 {
        lemma_payload_len_ext(q, e, k + 1);
    }
}

proof fn lemma_sync_run_ext(q: Seq<bool>, e: Seq<bool>, c: nat)
    requires
        sync_run(q, c).out != Ok::<Option<PacketView>, MalformedView>(None),
    ensures
        sync_run(q + e, c) == sync_run(q, c),
    decreases q.len(),
{
    if q.len() > 0 {
        assert((q + e).drop_first() =~= q.drop_first() + e);
        assert((q + e)[0] == q[0]);
        if !q[0] {
            lemma_sync_run_ext(q.drop_first(), e, if c < 47 { c + 1 } else { c });
        }
    }
}

proof fn lemma_sync_run_stall_ext(q: Seq<bool>, e: Seq<bool>, c: nat)
    requires
        sync_run(q, c).out == Ok::<Option<PacketView>, MalformedView>(None),
    ensures
        sync_run(q, c).sync is Some,
        sync_run(q + e, c) == (Step {
            consumed: q.len() + sync_run(e, sync_run(q, c).sync->Some_0).consumed,
            ..sync_run(e, sync_run(q, c).sync->Some_0)
        }),
    decreases q.len(),
{
    lemma_sync_run_stall(q, c);
    if q.len() == 0 {
        assert(q + e =~= e);
    } else {
        assert((q + e).drop_first() =~= q.drop_first() + e);
        assert((q + e)[0] == q[0]);
        lemma_sync_run_stall_ext(q.drop_first(), e, if c < 47 { c + 1 } else { c });
    }
}

proof fn lemma_step_ext(q: Seq<bool>, e: Seq<bool>, sync: Option<nat>)
    requires
        step(q, sync).out != Ok::<Option<PacketView>, MalformedView>(None),
    ensures
        step(q + e, sync) == step(q, sync),
{
    match sync {
        Some(c) => lemma_sync_run_ext(q, e, c),
        None => {
            lemma_byte_at_ext(q, e, 0);
            let body = q.skip(8);
            assert((q + e).skip(8) =~= body + e);
            match header_class(byte_at(q, 0)) {
                HeaderClass::Stub(s) => {
                    match s {
                        PacketStub::Sync(n) => lemma_sync_run_ext(body, e, n as nat),
                        PacketStub::Instrumentation { expected_size, .. } => {
                            lemma_bytes_at_ext(body, e, expected_size as nat);
                        },
                        PacketStub::HardwareSource { expected_size, .. } => {
                            lemma_bytes_at_ext(body, e, expected_size as nat);
                        },
                        _ => {
                            lemma_payload_len_ext(body, e, 0);
                            lemma_payload_len_bound(body, 0);
                            lemma_bytes_at_ext(body, e, payload_len(body, 0)->Some_0);
                        },
                    }
                },
                _ => {},
            }
        },
    }
}

proof fn lemma_drain_stall(q: Seq<bool>, e: Seq<bool>, sync: Option<nat>)
    requires
        step(q, sync).out == Ok::<Option<PacketView>, MalformedView>(None),
    ensures
        drain(q + e, sync) == drain(q.skip(step(q, sync).consumed as int) + e, step(q, sync).sync),
{
    let st = step(q, sync);
    // Where the stall is inside a synchronization packet, all of `q` was
    // taken; the zero count is carried over to `e`.
    let sync_stall: Option<nat> = match sync {
        Some(c) => Some(c),
        None => if q.len() >= 8 {
            match header_class(byte_at(q, 0)) {
                HeaderClass::Stub(PacketStub::Sync(n)) => Some(n as nat),
                _ => None,
            }
        } else {
            None
        },
    };
    match sync_stall {
        Some(c0) => {
            let body = if sync is Some { q } else { q.skip(8) };
            lemma_sync_run_stall_ext(body, e, c0);
            lemma_sync_run_stall(body, c0);
            let c1 = sync_run(body, c0).sync->Some_0;
            let r = sync_run(e, c1);
            lemma_sync_run_bound(e, c1);
            lemma_sync_run_stall(e, c1);
            if sync is None {
                lemma_byte_at_ext(q, e, 0);
                assert((q + e).skip(8) =~= body + e);
            }
            assert(st.consumed == q.len());
            assert(q.skip(q.len() as int) + e =~= e);
            assert(step(e, st.sync) == r);
            assert(step(q + e, sync).out == r.out);
            assert(step(q + e, sync).consumed == q.len() + r.consumed);
            assert((q + e).skip((q.len() + r.consumed) as int) =~= e.skip(r.consumed as int));
        },
        None => {
            assert(st.consumed == 0);
            assert(q.skip(0) + e =~= q + e);
        },
    }
}

/// Chunk invariance: decoding a stream cut in two, the second part pushed
/// after the first was drained, gives the outcomes of decoding the whole
/// stream at once, and leaves the same bits and state.
pub proof fn lemma_chunk_invariance(q1: Seq<bool>, q2: Seq<bool>, sync: Option<nat>)
    ensures
        ({
            let a = drain(q1, sync);
            let b = drain(a.1 + q2, a.2);
            drain(q1 + q2, sync) == (a.0 + b.0, b.1, b.2)
        }),
    decreases q1.len(),
{
    let st = step(q1, sync);
    let a = drain(q1, sync);
    crate::stream::lemma_step_progress(q1, sync);
    if st.out == Ok::<Option<PacketView>, MalformedView>(None) {
        lemma_drain_stall(q1, q2, sync);
        let b = drain(a.1 + q2, a.2);
        assert(a.0 + b.0 =~= b.0);
    } else {
        lemma_step_ext(q1, q2, sync);
        let c = st.consumed as int;
        assert((q1 + q2).skip(c) =~= q1.skip(c) + q2);
        lemma_chunk_invariance(q1.skip(c), q2, st.sync);
        let r = drain(q1.skip(c), st.sync);
        let b = drain(r.1 + q2, r.2);
        assert(seq![st.out] + (r.0 + b.0) =~= (seq![st.out] + r.0) + b.0);
    }
}

proof fn lemma_bits_of_bytes_concat(a: Seq<u8>, b: Seq<u8>)
    ensures
        bits_of_bytes(a + b) == bits_of_bytes(a) + bits_of_bytes(b),
{
    let m = a.len() as int;
    assert forall|k: int| 0 <= k < bits_of_bytes(a + b).len() implies #[trigger] bits_of_bytes(a + b)[k]
        == (bits_of_bytes(a) + bits_of_bytes(b))[k] by {
        if k >= 8 * m {
            let j = k - 8 * m;
            lemma_hoist_over_denominator(j, m, 8);
            lemma_mod_multiples_vanish(m, j, 8);
            assert(k / 8 == j / 8 + m);
            assert(k % 8 == j % 8);
        }
    }
    assert(bits_of_bytes(a + b) =~= bits_of_bytes(a) + bits_of_bytes(b));
}

/// Chunk invariance for bytes: pushing the bytes `c1`, draining, then
/// pushing `c2` and draining again gives the outcomes of pushing `c1` and
/// `c2` at once and draining.
pub proof fn lemma_chunk_invariance_bytes(c1: Seq<u8>, c2: Seq<u8>, sync: Option<nat>)
    ensures
        ({
            let a = drain(bits_of_bytes(c1), sync);
            let b = drain(a.1 + bits_of_bytes(c2), a.2);
            drain(bits_of_bytes(c1 + c2), sync) == (a.0 + b.0, b.1, b.2)
        }),
{
    lemma_bits_of_bytes_concat(c1, c2);
    lemma_chunk_invariance(bits_of_bytes(c1), bits_of_bytes(c2), sync);
}

} // verus!

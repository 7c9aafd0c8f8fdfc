//! The bit-level model of the trace stream and of one decoding step.
//!
//! A stream is a sequence of bits, the next bit first; each byte pushed
//! contributes its bits least significant first. [`step`] says what one
//! call of `Decoder::next` does to such a stream.

use crate::header::{header_class, HeaderClass, PacketStub};
use crate::packet::{MalformedView, PacketView};
use crate::payload::{hardware_packet, timestamp_value, u64_range};
use vstd::arithmetic::power2::pow2;
use vstd::prelude::*;

verus! {

/// The number of zero bits that a synchronization packet needs at least.
pub const SYNC_MIN_ZEROS: usize = 47;

/// The value of a bit sequence, first bit least significant.
pub open spec fn bits_value(s: Seq<bool>) -> nat
    decreases s.len(),
{
    if s.len() == 0 {
        0
    } else {
        bits_value(s.drop_last()) + if s.last() {
            pow2((s.len() - 1) as nat)
        } else {
            0
        }
    }
}

/// Byte `k` of the stream `q`: its bits `8k .. 8k + 8`.
pub open spec fn byte_at(q: Seq<bool>, k: int) -> u8 {
    bits_value(q.subrange(8 * k, 8 * k + 8)) as u8
}

/// The `n` bytes of `q` from byte `k` on.
pub open spec fn bytes_at(q: Seq<bool>, k: int, n: nat) -> Seq<u8> {
    Seq::new(n, |i: int| byte_at(q, k + i))
}

/// The number of bytes, from byte `k` of `q` on, of a
/// continuation-terminated payload: bytes with bit 7 set and one with bit
/// 7 clear. `None` where `q` ends first.
pub open spec fn payload_len(q: Seq<bool>, k: nat) -> Option<nat>
    decreases q.len() - 8 * k,
{
    if q.len() < 8 * (k + 1) {
        None
    } else if byte_at(q, k as int) < 128 {
        Some(1)
    } else {
        match payload_len(q, k + 1) {
            Some(n) => Some(n + 1),
            None => None,
        }
    }
}

/// What one decoding step yields, how many bits it takes from the stream,
/// and whether a synchronization packet is still being read afterwards
/// (with the count of its zero bits).
pub struct Step {
    pub out: Result<Option<PacketView>, MalformedView>,
    pub consumed: nat,
    pub sync: Option<nat>,
}

/// A step that takes nothing and yields nothing: more data is needed.
pub open spec fn stall() -> Step {
    Step { out: Ok(None), consumed: 0, sync: None }
}

/// A step that takes `n` bits and yields `r`.
pub open spec fn done(r: Result<PacketView, MalformedView>, n: nat) -> Step {
    Step {
        out: match r {
            Ok(p) => Ok(Some(p)),
            Err(e) => Err(e),
        },
        consumed: n,
        sync: None,
    }
}

/// Reading the rest of a synchronization packet from `q`, `count` zero
/// bits having been seen: zero bits are counted up to 47; a set bit ends
/// the packet, which is valid if 47 zero bits came before it.
pub open spec fn sync_run(q: Seq<bool>, count: nat) -> Step
    decreases q.len(),
{
    if q.len() == 0 {
        Step { out: Ok(None), consumed: 0, sync: Some(count) }
    } else if !q[0] {
        let r = sync_run(q.drop_first(), if count < 47 { count + 1 } else { count });
        Step { consumed: r.consumed + 1, ..r }
    } else if count >= 47 {
        Step { out: Ok(Some(PacketView::Sync)), consumed: 1, sync: None }
    } else {
        Step { out: Err(MalformedView::InvalidSync(count as usize)), consumed: 1, sync: None }
    }
}

/// The timestamp packed in `p`, cut to 64 bits. `max_bits` is the index
/// of its top bit: 26 for a local timestamp (27 bits), 25 for the low
/// global timestamp (26 bits), 21 or 37 for the high one.
pub open spec fn ts_of(p: Seq<u8>, max_bits: u64) -> u64 {
    (timestamp_value(p, max_bits) % u64_range()) as u64
}

/// Completing the stub `s` with the bits `body` that follow its header.
/// A stub whose body is not all there yet is a stall: the header stays.
pub open spec fn stub_step(body: Seq<bool>, s: PacketStub) -> Step {
    match s {
        PacketStub::Sync(n) => {
            let r = sync_run(body, n as nat);
            Step { consumed: r.consumed + 8, ..r }
        },
        PacketStub::Instrumentation { port, expected_size } => {
            if body.len() < 8 * expected_size {
                stall()
            } else {
                done(
                    Ok(
                        PacketView::Instrumentation {
                            port,
                            payload: bytes_at(body, 0, expected_size as nat),
                        },
                    ),
                    (8 + 8 * expected_size) as nat,
                )
            }
        },
        PacketStub::HardwareSource { disc_id, expected_size } => {
            if body.len() < 8 * expected_size {
                stall()
            } else {
                done(
                    hardware_packet(disc_id, bytes_at(body, 0, expected_size as nat)),
                    (8 + 8 * expected_size) as nat,
                )
            }
        },
        PacketStub::LocalTimestamp { data_relation } => match payload_len(body, 0) {
            None => stall(),
            Some(n) => done(
                Ok(
                    PacketView::LocalTimestamp1 {
                        ts: ts_of(bytes_at(body, 0, n), 26),
                        data_relation,
                    },
                ),
                8 + 8 * n,
            ),
        },
        PacketStub::GlobalTimestamp1 => match payload_len(body, 0) {
            None => stall(),
            Some(n) => {
                let p = bytes_at(body, 0, n);
                done(
                    Ok(
                        PacketView::GlobalTimestamp1 {
                            ts: ts_of(p, 25),
                            clkch: p.last() & 0x20 != 0,
                            wrap: p.last() & 0x40 != 0,
                        },
                    ),
                    8 + 8 * n,
                )
            },
        },
        PacketStub::GlobalTimestamp2 => match payload_len(body, 0) {
            None => stall(),
            Some(n) => {
                let p = bytes_at(body, 0, n);
                if n == 4 {
                    done(Ok(PacketView::GlobalTimestamp2 { ts: ts_of(p, 21) }), 8 + 8 * n)
                } else if n == 6 {
                    done(Ok(PacketView::GlobalTimestamp2 { ts: ts_of(p, 37) }), 8 + 8 * n)
                } else {
                    done(Err(MalformedView::InvalidGTS2Size { payload: p }), 8 + 8 * n)
                }
            },
        },
    }
}

/// One decoding step on the stream `q`, outside a synchronization packet:
/// classify the header byte and complete it.
pub open spec fn header_step(q: Seq<bool>) -> Step {
    if q.len() < 8 {
        stall()
    } else {
        match header_class(byte_at(q, 0)) {
            HeaderClass::Packet(p) => done(Ok(p), 8),
            HeaderClass::Invalid(e) => done(Err(e), 8),
            HeaderClass::Stub(s) => stub_step(q.skip(8), s),
        }
    }
}

/// One decoding step on the stream `q`; `sync` is the zero count of a
/// synchronization packet being read, if any.
pub open spec fn step(q: Seq<bool>, sync: Option<nat>) -> Step {
    match sync {
        Some(c) => sync_run(q, c),
        None => header_step(q),
    }
}
pub(crate) proof fn lemma_byte_at_skip(q: Seq<bool>, j: int, k: int)
    requires
        0 <= j,
        0 <= k,
        8 * (j + k) + 8 <= q.len(),
    ensures
        byte_at(q.skip(8 * j), k) == byte_at(q, j + k),
{
    assert(q.skip(8 * j).subrange(8 * k, 8 * k + 8) =~= q.subrange(8 * (j + k), 8 * (j + k) + 8));
}

pub(crate) proof fn lemma_payload_len_skip(q: Seq<bool>, k: nat)
    requires
        q.len() >= 8,
    ensures
        payload_len(q.skip(8), k) == payload_len(q, k + 1),
    decreases q.len() - 8 * k,
{
    if q.len() >= 8 * (k + 2) {
        lemma_byte_at_skip(q, 1, k as int);
        lemma_payload_len_skip(q, k + 1);
    }
}

pub(crate) proof fn lemma_sync_run_bound(q: Seq<bool>, c: nat)
    ensures
        sync_run(q, c).consumed <= q.len(),
    decreases q.len(),
{
    if q.len() > 0 && !q[0] {
        lemma_sync_run_bound(q.drop_first(), if c < 47 { c + 1 } else { c });
    }
}

pub(crate) proof fn lemma_payload_len_bound(q: Seq<bool>, k: nat)
    ensures
        payload_len(q, k) matches Some(n) ==> n >= 1 && 8 * (k + n) <= q.len(),
    decreases q.len() - 8 * k,
{
    if q.len() >= 8 * (k + 1) && byte_at(q, k as int) >= 128 {
        lemma_payload_len_bound(q, k + 1);
    }
}

/// A step takes no more bits than there are; one that yields something
/// takes at least one; after one that yields nothing, the next step
/// yields nothing either.
pub proof fn lemma_step_progress(q: Seq<bool>, sync: Option<nat>)
    ensures
        step(q, sync).consumed <= q.len(),
        step(q, sync).out != Ok::<Option<PacketView>, MalformedView>(None) ==> step(q, sync).consumed
            >= 1,
        step(q, sync).out == Ok::<Option<PacketView>, MalformedView>(None) ==> step(
            q.skip(step(q, sync).consumed as int),
            step(q, sync).sync,
        ).out == Ok::<Option<PacketView>, MalformedView>(None),
{
    match sync {
        Some(c) => {
            lemma_sync_run_stall(q, c);
            lemma_sync_run_bound(q, c);
        },
        None => {
            if q.len() >= 8 {
                let body = q.skip(8);
                lemma_payload_len_bound(body, 0);
                match header_class(byte_at(q, 0)) {
                    HeaderClass::Stub(PacketStub::Sync(n)) => {
                        lemma_sync_run_stall(body, n as nat);
                        lemma_sync_run_bound(body, n as nat);
                    },
                    _ => {},
                }
            }
            assert(q.skip(0) =~= q);
        },
    }
}

pub(crate) proof fn lemma_sync_run_stall(q: Seq<bool>, c: nat)
    ensures
        sync_run(q, c).out == Ok::<Option<PacketView>, MalformedView>(None) ==> sync_run(q, c).consumed
            == q.len() && sync_run(q, c).sync is Some,
        sync_run(q, c).out != Ok::<Option<PacketView>, MalformedView>(None) ==> sync_run(q, c).sync is None
            && sync_run(q, c).consumed >= 1,
    decreases q.len(),
{
    if q.len() > 0 && !q[0] {
        lemma_sync_run_stall(q.drop_first(), if c < 47 { c + 1 } else { c });
    }
}

} // verus!

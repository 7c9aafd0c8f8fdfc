//! The streaming packet decoder.

use crate::bitbuf::{
    bits_of, bits_of_bytes, stack_append, stack_from_bytes, stack_get, stack_len, stack_new,
    stack_pop, stack_reverse, BitStack, MAX_BITS,
};
use crate::header::{decode_header, header_class, HeaderClass, HeaderVariant, PacketStub};
use crate::packet::{MalformedPacket, MalformedView, PacketView, TracePacket};
use crate::payload::{extract_timestamp, handle_hardware_source};
use crate::stream::{
    lemma_byte_at_skip, lemma_payload_len_bound, lemma_payload_len_skip, lemma_step_progress,
    lemma_sync_run_bound, bits_value, byte_at, bytes_at, payload_len, step, stub_step, sync_run,
    SYNC_MIN_ZEROS,
};
use crate::laws::lemma_delta_monotone;
use crate::timestamp::{
    absorb, batch_view, delta_num, BatchView, CtxView, TimestampedContext, TimestampedTracePackets,
};
use crate::packet::outcome_view;
use vstd::arithmetic::power2::{lemma2_to64, lemma_pow2_unfold, pow2};
use vstd::prelude::*;

verus! {

/// Options of a [`Decoder`].
pub struct DecoderOptions {
    /// Whether [`Decoder::pull_with_timestamp`] only follows global
    /// timestamps, handing out each other packet at once.
    pub only_gts: bool,
    /// Whether the byte source is read on after a temporary end of input.
    pub keep_reading: bool,
}

impl Default for DecoderOptions {
    fn default() -> (r: Self)
        ensures
            !r.only_gts,
            r.keep_reading,
    {
        DecoderOptions { only_gts: false, keep_reading: true }
    }
}

/// The view of what [`Decoder::next`] returns.
pub open spec fn next_view(r: Result<Option<TracePacket>, MalformedPacket>) -> Result<Option<PacketView>, MalformedView> {
    match r {
        Ok(Some(p)) => Ok(Some(p@)),
        Ok(None) => Ok(None),
        Err(e) => Err(e@),
    }
}

/// A yielded step outcome as a packet or a malformed packet.
pub open spec fn outcome_of(o: Result<Option<PacketView>, MalformedView>) -> Result<PacketView, MalformedView> {
    match o {
        Ok(Some(p)) => Ok(p),
        Ok(None) => Ok(PacketView::Sync),
        Err(e) => Err(e),
    }
}

/// Decoding steps from the stream `q` and taking each outcome into the
/// correlation state `c`, until a step yields nothing or an outcome closes
/// a batch: that batch, if any, then the bits left, the synchronization
/// state and the correlation state.
pub open spec fn pull_spec(q: Seq<bool>, sync: Option<nat>, c: CtxView, only_gts: bool) -> (Option<BatchView>, Seq<bool>, Option<nat>, CtxView)
    decreases q.len(),
{
    let st = step(q, sync);
    let rest = q.skip(st.consumed as int);
    if st.out == Ok::<Option<PacketView>, MalformedView>(None) {
        (None, rest, st.sync, c)
    } else if 1 <= st.consumed && st.consumed <= q.len() {
        let (c2, b) = absorb(c, outcome_of(st.out), only_gts);
        if b is Some {
            (b, rest, st.sync, c2)
        } else {
            pull_spec(rest, st.sync, c2, only_gts)
        }
    } else {
        (None, q, sync, c)
    }
}

/// ITM/DWT packet protocol decoder.
pub struct Decoder {
    options: DecoderOptions,
    /// The bits not yet decoded, the next one last.
    buffer: BitStack,
    /// The zero count of a synchronization packet being read, if any.
    sync: Option<usize>,
    ts_ctx: TimestampedContext,
}

proof fn lemma_reverse_pop(s: Seq<bool>)
    requires
        s.len() > 0,
    ensures
        s.drop_last().reverse() == s.reverse().drop_first(),
        s.last() == s.reverse()[0],
{
    assert(s.drop_last().reverse() =~= s.reverse().drop_first());
}

proof fn lemma_bits_value_step(q: Seq<bool>, j: int)
    requires
        0 <= j < q.len(),
    ensures
        bits_value(q.take(j + 1)) == bits_value(q.take(j)) + if q[j] {
            pow2(j as nat)
        } else {
            0
        },
{
    assert(q.take(j + 1).drop_last() =~= q.take(j));
}

impl Decoder {
    /// The bits pushed and not yet decoded, the next one first.
    pub closed spec fn pending(&self) -> Seq<bool> {
        bits_of(self.buffer).reverse()
    }

    /// The zero count of a synchronization packet being read, if any.
    pub closed spec fn syncing(&self) -> Option<nat> {
        match self.sync {
            Some(c) => Some(c as nat),
            None => None,
        }
    }

    /// The decoder's invariant.
    pub closed spec fn wf(&self) -> bool {
        &&& bits_of(self.buffer).len() <= MAX_BITS
        &&& (self.sync matches Some(c) ==> c <= SYNC_MIN_ZEROS)
        &&& self.ts_ctx.wf()
    }

    /// The state of the timestamp correlation.
    pub closed spec fn ctx_view(&self) -> crate::timestamp::CtxView {
        self.ts_ctx.view()
    }

    /// The options the decoder was made with.
    pub closed spec fn only_gts(&self) -> bool {
        self.options.only_gts
    }

    /// A decoder with no pending bits.
    pub fn new(options: DecoderOptions) -> (r: Decoder)
        ensures
            r.wf(),
            r.pending() == Seq::<bool>::empty(),
            r.syncing() is None,
            r.only_gts() == options.only_gts,
            r.ctx_view() == crate::timestamp::ctx_init(),
    {
        let r = Decoder {
            options,
            buffer: stack_new(),
            sync: None,
            ts_ctx: TimestampedContext::new(),
        };
        proof {
            assert(r.pending() =~= Seq::<bool>::empty());
        }
        r
    }

    /// Appends trace bytes to the pending bits.
    pub fn push(&mut self, data: &[u8])
        requires
            old(self).wf(),
            old(self).pending().len() + 8 * data@.len() <= MAX_BITS,
        ensures
            final(self).wf(),
            final(self).pending() == old(self).pending() + bits_of_bytes(data@),
            final(self).syncing() == old(self).syncing(),
            final(self).only_gts() == old(self).only_gts(),
            final(self).ctx_view() == old(self).ctx_view(),
    {
        let mut bytes: Vec<u8> = Vec::new();
        let mut i: usize = 0;
        while i < data.len()
            invariant
                i <= data@.len(),
                bytes@ == data@.take(i as int),
            decreases data@.len() - i,
        {
            bytes.push(data[i]);
            i = i + 1;
            proof {
                assert(bytes@ =~= data@.take(i as int));
            }
        }
        proof {
            assert(bytes@ =~= data@);
        }
        let mut bv = stack_from_bytes(bytes);
        stack_reverse(&mut bv);
        stack_append(&mut bv, &mut self.buffer);
        self.buffer = bv;
        proof {
            let n = bits_of_bytes(data@);
            let o = bits_of(old(self).buffer);
            assert((n.reverse() + o).reverse() =~= o.reverse() + n);
        }
    }

    /// The number of bits pushed and not yet decoded.
    pub fn pending_bits(&self) -> (r: usize)
        ensures
            r == self.pending().len(),
    {
        stack_len(&self.buffer)
    }

    /// The number of pending bits.
    fn pending_len(&self) -> (r: usize)
        ensures
            r == self.pending().len(),
    {
        stack_len(&self.buffer)
    }

    /// Byte `k` of the pending bits, which stay.
    fn peek_byte(&self, k: usize) -> (r: u8)
        requires
            8 * k + 8 <= self.pending().len(),
        ensures
            r == byte_at(self.pending(), k as int),
    {
        let len = stack_len(&self.buffer);
        let ghost q = self.pending();
        let ghost s = q.subrange(8 * k, 8 * k + 8);
        let mut b: u16 = 0;
        let mut pw: u16 = 1;
        let mut j: usize = 0;
        proof {
            lemma2_to64();
            assert(s.take(0) =~= Seq::<bool>::empty());
        }
        while j < 8
            invariant
                len == q.len(),
                q == self.pending(),
                s == q.subrange(8 * k, 8 * k + 8),
                8 * k + 8 <= len,
                j <= 8,
                pw == pow2(j as nat),
                b == bits_value(s.take(j as int)),
                b < pw,
            decreases 8 - j,
        {
            let bit = stack_get(&self.buffer, len - 1 - (8 * k + j));
            proof {
                lemma_bits_value_step(s, j as int);
                lemma_pow2_unfold((j + 1) as nat);
                lemma2_to64();
                if j < 7 {
                    vstd::arithmetic::power2::lemma_pow2_strictly_increases(j as nat, 7);
                }
            }
            if bit {
                b = b + pw;
            }
            if j < 7 {
                pw = pw * 2;
            } else {
                pw = 256;
            }
            j = j + 1;
        }
        proof {
            assert(s.take(8) =~= s);
        }
        b as u8
    }

    /// Takes the next pending bit.
    fn pull_bit(&mut self) -> (r: bool)
        requires
            old(self).wf(),
            old(self).pending().len() > 0,
        ensures
            final(self).wf(),
            r == old(self).pending()[0],
            final(self).pending() == old(self).pending().drop_first(),
            final(self).sync == old(self).sync,
            final(self).options == old(self).options,
            final(self).ts_ctx == old(self).ts_ctx,
    {
        proof {
            lemma_reverse_pop(bits_of(self.buffer));
        }
        match stack_pop(&mut self.buffer) {
            Some(bit) => bit,
            None => false,
        }
    }

    /// Takes the next pending byte, its first bit least significant.
    fn pull_byte(&mut self) -> (r: u8)
        requires
            old(self).wf(),
            old(self).pending().len() >= 8,
        ensures
            final(self).wf(),
            r == byte_at(old(self).pending(), 0),
            final(self).pending() == old(self).pending().skip(8),
            final(self).sync == old(self).sync,
            final(self).options == old(self).options,
            final(self).ts_ctx == old(self).ts_ctx,
    {
        let ghost q = self.pending();
        let mut b: u16 = 0;
        let mut pw: u16 = 1;
        let mut j: usize = 0;
        proof {
            lemma2_to64();
            assert(q.take(0) =~= Seq::<bool>::empty());
            assert(q.skip(0) =~= q);
        }
        while j < 8
            invariant
                old(self).pending() == q,
                q.len() >= 8,
                self.wf(),
                self.pending() == q.skip(j as int),
                self.sync == old(self).sync,
                self.options == old(self).options,
                self.ts_ctx == old(self).ts_ctx,
                j <= 8,
                pw == pow2(j as nat),
                b == bits_value(q.take(j as int)),
                b < pw,
            decreases 8 - j,
        {
            let bit = self.pull_bit();
            proof {
                lemma_bits_value_step(q, j as int);
                lemma_pow2_unfold((j + 1) as nat);
                lemma2_to64();
                if j < 7 {
                    vstd::arithmetic::power2::lemma_pow2_strictly_increases(j as nat, 7);
                }
                assert(q.skip(j as int).drop_first() =~= q.skip(j + 1));
            }
            if bit {
                b = b + pw;
            }
            if j < 7 {
                pw = pw * 2;
            } else {
                pw = 256;
            }
            j = j + 1;
        }
        proof {
            assert(q.take(8) =~= q.subrange(0, 8));
        }
        b as u8
    }

    /// Takes the next `cnt` pending bytes, if there are as many.
    pub fn pull_bytes(&mut self, cnt: usize) -> (r: Option<Vec<u8>>)
        requires
            old(self).wf(),
        ensures
            final(self).wf(),
            final(self).syncing() == old(self).syncing(),
            final(self).only_gts() == old(self).only_gts(),
            final(self).ctx_view() == old(self).ctx_view(),
            old(self).pending().len() < 8 * cnt ==> r is None && final(self).pending() == old(
                self,
            ).pending(),
            old(self).pending().len() >= 8 * cnt ==> (r matches Some(v) && v@ == bytes_at(
                old(self).pending(),
                0,
                cnt as nat,
            ) && final(self).pending() == old(self).pending().skip(8 * cnt)),
    {
        let ghost q = self.pending();
        let len = self.pending_len();
        if cnt > len / 8 {
            return None;
        }
        let mut payload: Vec<u8> = Vec::new();
        let mut i: usize = 0;
        proof {
            assert(q.skip(0) =~= q);
            assert(payload@ =~= bytes_at(q, 0, 0));
        }
        while i < cnt
            invariant
                old(self).pending() == q,
                8 * cnt <= q.len(),
                i <= cnt,
                self.wf(),
                self.pending() == q.skip(8 * i),
                self.sync == old(self).sync,
                self.options == old(self).options,
                self.ts_ctx == old(self).ts_ctx,
                payload@ == bytes_at(q, 0, i as nat),
            decreases cnt - i,
        {
            proof {
                lemma_byte_at_skip(q, i as int, 0);
                assert(q.skip(8 * i).skip(8) =~= q.skip(8 * (i + 1)));
            }
            let b = self.pull_byte();
            payload.push(b);
            i = i + 1;
            proof {
                assert(payload@ =~= bytes_at(q, 0, i as nat));
            }
        }
        Some(payload)
    }

    /// The length of the continuation-terminated payload that starts at
    /// pending byte `from`, if it is all there.
    fn payload_span(&self, from: usize) -> (r: Option<usize>)
        ensures
            match r {
                Some(n) => payload_len(self.pending(), from as nat) == Some(n as nat),
                None => payload_len(self.pending(), from as nat) is None,
            },
    {
        let ghost q = self.pending();
        let len = self.pending_len();
        let mut k: usize = from;
        while k < len / 8
            invariant
                len == q.len(),
                q == self.pending(),
                from <= k,
                match payload_len(q, k as nat) {
                    Some(n) => payload_len(q, from as nat) == Some(n + (k - from) as nat),
                    None => payload_len(q, from as nat) is None,
                },
            decreases len / 8 - k,
        {
            let b = self.peek_byte(k);
            if b < 128 {
                return Some(k - from + 1);
            }
            k = k + 1;
        }
        None
    }

    /// Takes a continuation-terminated payload from the pending bytes, if
    /// it is all there.
    pub fn pull_payload(&mut self) -> (r: Option<Vec<u8>>)
        requires
            old(self).wf(),
        ensures
            final(self).wf(),
            final(self).syncing() == old(self).syncing(),
            final(self).only_gts() == old(self).only_gts(),
            final(self).ctx_view() == old(self).ctx_view(),
            match payload_len(old(self).pending(), 0) {
                None => r is None && final(self).pending() == old(self).pending(),
                Some(n) => r matches Some(v) && v@ == bytes_at(old(self).pending(), 0, n)
                    && final(self).pending() == old(self).pending().skip((8 * n) as int),
            },
    {
        proof {
            lemma_payload_len_bound(self.pending(), 0);
        }
        match self.payload_span(0) {
            None => None,
            Some(n) => self.pull_bytes(n),
        }
    }

    /// Reads zero bits of a synchronization packet until a set bit or the
    /// end of the pending bits.
    fn handle_sync(&mut self) -> (r: Result<Option<TracePacket>, MalformedPacket>)
        requires
            old(self).wf(),
            old(self).sync is Some,
        ensures
            final(self).wf(),
            ({
                let st = sync_run(old(self).pending(), old(self).sync->Some_0 as nat);
                &&& next_view(r) == st.out
                &&& final(self).pending() == old(self).pending().skip(st.consumed as int)
                &&& final(self).syncing() == st.sync
            }),
            final(self).options == old(self).options,
            final(self).ts_ctx == old(self).ts_ctx,
    {
        let ghost q = self.pending();
        let ghost st = sync_run(q, self.sync->Some_0 as nat);
        let mut count: usize = match self.sync {
            Some(c) => c,
            None => 0,
        };
        let mut i: usize = 0;
        proof {
            assert(q.skip(0) =~= q);
            assert(q.len() == bits_of(self.buffer).len());
        }
        loop
            invariant
                old(self).pending() == q,
                st == sync_run(q, old(self).sync->Some_0 as nat),
                self.wf(),
                self.sync is Some,
                count <= SYNC_MIN_ZEROS,
                q.len() <= MAX_BITS,
                i <= q.len(),
                self.pending() == q.skip(i as int),
                self.options == old(self).options,
                self.ts_ctx == old(self).ts_ctx,
                ({
                    let r = sync_run(self.pending(), count as nat);
                    &&& st.out == r.out
                    &&& st.sync == r.sync
                    &&& st.consumed == r.consumed + i
                }),
            decreases q.len() - i,
        {
            if self.pending_len() == 0 {
                self.sync = Some(count);
                return Ok(None);
            }
            let ghost p = self.pending();
            let bit = self.pull_bit();
            proof {
                assert(p.drop_first() =~= q.skip(i + 1));
            }
            i = i + 1;
            if !bit {
                if count < SYNC_MIN_ZEROS {
                    count = count + 1;
                }
            } else {
                self.sync = None;
                if count >= SYNC_MIN_ZEROS {
                    return Ok(Some(TracePacket::Sync));
                } else {
                    return Err(MalformedPacket::InvalidSync(count));
                }
            }
        }
    }

    /// Completes the stub `s` of the next pending header. Where its body is
    /// not all there, nothing is taken.
    fn process_stub(&mut self, s: PacketStub) -> (r: Result<Option<TracePacket>, MalformedPacket>)
        requires
            old(self).wf(),
            old(self).sync is None,
            old(self).pending().len() >= 8,
            header_class(byte_at(old(self).pending(), 0)) == HeaderClass::Stub(s),
        ensures
            final(self).wf(),
            ({
                let st = stub_step(old(self).pending().skip(8), s);
                &&& next_view(r) == st.out
                &&& final(self).pending() == old(self).pending().skip(st.consumed as int)
                &&& final(self).syncing() == st.sync
            }),
            final(self).only_gts() == old(self).only_gts(),
            final(self).ctx_view() == old(self).ctx_view(),
    {
        let ghost q = self.pending();
        let ghost body = q.skip(8);
        match s {
            PacketStub::Sync(n) => {
                self.pull_byte();
                self.sync = Some(n);
                let r = self.handle_sync();
                proof {
                    let c = sync_run(body, n as nat).consumed;
                    lemma_sync_run_bound(body, n as nat);
                    assert(body.skip(c as int) =~= q.skip((c + 8) as int));
                }
                r
            },
            PacketStub::Instrumentation { .. } => self.complete_source(s),
            PacketStub::HardwareSource { .. } => self.complete_source(s),
            _ => self.complete_timestamp(s),
        }
    }

    /// Completes a source packet stub: a payload of a fixed size.
    fn complete_source(&mut self, s: PacketStub) -> (r: Result<Option<TracePacket>, MalformedPacket>)
        requires
            s is Instrumentation || s is HardwareSource,
            old(self).wf(),
            old(self).sync is None,
            old(self).pending().len() >= 8,
            header_class(byte_at(old(self).pending(), 0)) == HeaderClass::Stub(s),
        ensures
            final(self).wf(),
            ({
                let st = stub_step(old(self).pending().skip(8), s);
                &&& next_view(r) == st.out
                &&& final(self).pending() == old(self).pending().skip(st.consumed as int)
                &&& final(self).syncing() == st.sync
            }),
            final(self).only_gts() == old(self).only_gts(),
            final(self).ctx_view() == old(self).ctx_view(),
    {
        let ghost q = self.pending();
        let ghost body = q.skip(8);
        let len = self.pending_len();
        match s {
            PacketStub::Instrumentation { port, expected_size } => {
                if (len - 8) / 8 < expected_size {
                    proof {
                        assert(q.skip(0) =~= q);
                    }
                    return Ok(None);
                }
                self.pull_byte();
                match self.pull_bytes(expected_size) {
                    Some(payload) => {
                        proof {
                            assert(body.skip(8 * expected_size) =~= q.skip(8 + 8 * expected_size));
                        }
                        Ok(Some(TracePacket::Instrumentation { port, payload }))
                    },
                    None => Ok(None),
                }
            },
            PacketStub::HardwareSource { disc_id, expected_size } => {
                if (len - 8) / 8 < expected_size {
                    proof {
                        assert(q.skip(0) =~= q);
                    }
                    return Ok(None);
                }
                self.pull_byte();
                match self.pull_bytes(expected_size) {
                    Some(payload) => {
                        proof {
                            assert(body.skip(8 * expected_size) =~= q.skip(8 + 8 * expected_size));
                        }
                        match handle_hardware_source(disc_id, payload) {
                            Ok(p) => Ok(Some(p)),
                            Err(e) => Err(e),
                        }
                    },
                    None => Ok(None),
                }
            },
            _ => Ok(None),
        }
    }

    /// Completes a timestamp stub: a continuation-terminated payload.
    fn complete_timestamp(&mut self, s: PacketStub) -> (r: Result<Option<TracePacket>, MalformedPacket>)
        requires
            s is LocalTimestamp || s is GlobalTimestamp1 || s is GlobalTimestamp2,
            old(self).wf(),
            old(self).sync is None,
            old(self).pending().len() >= 8,
            header_class(byte_at(old(self).pending(), 0)) == HeaderClass::Stub(s),
        ensures
            final(self).wf(),
            ({
                let st = stub_step(old(self).pending().skip(8), s);
                &&& next_view(r) == st.out
                &&& final(self).pending() == old(self).pending().skip(st.consumed as int)
                &&& final(self).syncing() == st.sync
            }),
            final(self).only_gts() == old(self).only_gts(),
            final(self).ctx_view() == old(self).ctx_view(),
    {
        let ghost q = self.pending();
        let ghost body = q.skip(8);
        match s {
            PacketStub::LocalTimestamp { data_relation } => {
                proof {
                    lemma_payload_len_skip(q, 0);
                    lemma_payload_len_bound(body, 0);
                }
                if self.payload_span(1).is_none() {
                    proof {
                        assert(q.skip(0) =~= q);
                    }
                    return Ok(None);
                }
                self.pull_byte();
                match self.pull_payload() {
                    Some(payload) => {
                        let ghost n = payload_len(body, 0)->Some_0;
                        proof {
                            assert(body.skip((8 * n) as int) =~= q.skip((8 + 8 * n) as int));
                        }
                        // A local timestamp holds bits [26:0].
                        let ts = extract_timestamp(payload, 26);
                        Ok(Some(TracePacket::LocalTimestamp1 { ts, data_relation }))
                    },
                    None => Ok(None),
                }
            },
            PacketStub::GlobalTimestamp1 => {
                proof {
                    lemma_payload_len_skip(q, 0);
                    lemma_payload_len_bound(body, 0);
                }
                if self.payload_span(1).is_none() {
                    proof {
                        assert(q.skip(0) =~= q);
                    }
                    return Ok(None);
                }
                self.pull_byte();
                match self.pull_payload() {
                    Some(payload) => {
                        let ghost n = payload_len(body, 0)->Some_0;
                        proof {
                            assert(body.skip((8 * n) as int) =~= q.skip((8 + 8 * n) as int));
                        }
                        let last = payload[payload.len() - 1];
                        let clkch = last & 0x20 != 0;
                        let wrap = last & 0x40 != 0;
                        let ts = extract_timestamp(payload, 25);
                        Ok(Some(TracePacket::GlobalTimestamp1 { ts, wrap, clkch }))
                    },
                    None => Ok(None),
                }
            },
            PacketStub::GlobalTimestamp2 => {
                proof {
                    lemma_payload_len_skip(q, 0);
                    lemma_payload_len_bound(body, 0);
                }
                if self.payload_span(1).is_none() {
                    proof {
                        assert(q.skip(0) =~= q);
                    }
                    return Ok(None);
                }
                self.pull_byte();
                match self.pull_payload() {
                    Some(payload) => {
                        let ghost n = payload_len(body, 0)->Some_0;
                        proof {
                            assert(body.skip((8 * n) as int) =~= q.skip((8 + 8 * n) as int));
                        }
                        // The payload holds bits [47:26] or bits [63:26].
                        if payload.len() == 4 {
                            Ok(Some(TracePacket::GlobalTimestamp2 { ts: extract_timestamp(payload, 21) }))
                        } else if payload.len() == 6 {
                            Ok(Some(TracePacket::GlobalTimestamp2 { ts: extract_timestamp(payload, 37) }))
                        } else {
                            Err(MalformedPacket::InvalidGTS2Size { payload })
                        }
                    },
                    None => Ok(None),
                }
            },
            _ => Ok(None),
        }
    }

    /// Decodes the next packet from the pending bits: `Ok(None)` where more
    /// bits are needed. A packet whose bytes are not all there stays
    /// pending, header included, so that the bytes may come in any chunks.
    pub fn next(&mut self) -> (r: Result<Option<TracePacket>, MalformedPacket>)
        requires
            old(self).wf(),
        ensures
            final(self).wf(),
            ({
                let st = step(old(self).pending(), old(self).syncing());
                &&& next_view(r) == st.out
                &&& final(self).pending() == old(self).pending().skip(st.consumed as int)
                &&& final(self).syncing() == st.sync
            }),
            final(self).only_gts() == old(self).only_gts(),
            final(self).ctx_view() == old(self).ctx_view(),
    {
        if self.sync.is_some() {
            return self.handle_sync();
        }
        let len = self.pending_len();
        if len < 8 {
            proof {
                assert(self.pending().skip(0) =~= self.pending());
            }
            return Ok(None);
        }
        let h = self.peek_byte(0);
        match decode_header(h) {
            Err(e) => {
                self.pull_byte();
                Err(e)
            },
            Ok(HeaderVariant::Packet(p)) => {
                self.pull_byte();
                Ok(Some(p))
            },
            Ok(HeaderVariant::Stub(s)) => self.process_stub(s),
        }
    }

    /// Takes the outcome of a decoding step into the timestamp
    /// correlation; hands out a batch where the outcome closes one.
    pub fn correlate(&mut self, r: Result<TracePacket, MalformedPacket>) -> (b: Option<TimestampedTracePackets>)
        requires
            old(self).wf(),
        ensures
            final(self).wf(),
            final(self).pending() == old(self).pending(),
            final(self).syncing() == old(self).syncing(),
            final(self).only_gts() == old(self).only_gts(),
            final(self).ctx_view() == absorb(old(self).ctx_view(), outcome_view(r), old(self).only_gts()).0,
            batch_view(b) == absorb(old(self).ctx_view(), outcome_view(r), old(self).only_gts()).1,
    {
        self.ts_ctx.absorb(r, self.options.only_gts)
    }

    /// Decodes packets until one closes a batch, and hands out that batch
    /// with its timestamp: by default a local timestamp closes the packets
    /// before it; with `only_gts` each packet but a timestamp is a batch of
    /// its own. `None` where more bits are needed first.
    pub fn pull_with_timestamp(&mut self) -> (b: Option<TimestampedTracePackets>)
        requires
            old(self).wf(),
        ensures
            final(self).wf(),
            final(self).only_gts() == old(self).only_gts(),
            (batch_view(b), final(self).pending(), final(self).syncing(), final(self).ctx_view())
                == pull_spec(
                old(self).pending(),
                old(self).syncing(),
                old(self).ctx_view(),
                old(self).only_gts(),
            ),
            b is None ==> step(final(self).pending(), final(self).syncing()).out == Ok::<
                Option<PacketView>,
                MalformedView,
            >(None),
            b matches Some(t) ==> t.timestamp == final(self).ctx_view().ts,
            final(self).ctx_view().epoch >= old(self).ctx_view().epoch,
            final(self).ctx_view().epoch == old(self).ctx_view().epoch ==> delta_num(
                final(self).ctx_view().ts,
            ) >= delta_num(old(self).ctx_view().ts),
    {
        loop
            invariant
                self.wf(),
                self.only_gts() == old(self).only_gts(),
                self.ctx_view().epoch >= old(self).ctx_view().epoch,
                self.ctx_view().epoch == old(self).ctx_view().epoch ==> delta_num(
                    self.ctx_view().ts,
                ) >= delta_num(old(self).ctx_view().ts),
                pull_spec(self.pending(), self.syncing(), self.ctx_view(), self.only_gts())
                    == pull_spec(
                    old(self).pending(),
                    old(self).syncing(),
                    old(self).ctx_view(),
                    old(self).only_gts(),
                ),
            decreases self.pending().len(),
        {
            let ghost q = self.pending();
            let ghost sy = self.syncing();
            proof {
                lemma_step_progress(q, sy);
            }
            let r = match self.next() {
                Ok(None) => {
                    return None;
                },
                Ok(Some(p)) => Ok(p),
                Err(e) => Err(e),
            };
            proof {
                lemma_delta_monotone(self.ctx_view(), outcome_view(r), self.only_gts());
                assert(outcome_view(r) == outcome_of(step(q, sy).out));
            }
            let b = self.correlate(r);
            if b.is_some() {
                return b;
            }
        }
    }
}

} // verus!

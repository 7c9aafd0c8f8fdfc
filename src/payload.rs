//! Decoding of packet payloads: hardware source packets and
//! continuation-encoded timestamps.

use crate::packet::{
    Exception, ExceptionAction, MalformedPacket, MalformedView, MemoryAccessType, PacketView,
    TracePacket, VectActive,
};
use cortex_m::peripheral::scb::{Exception as CmEx, VectActive as CmVect};
use vstd::arithmetic::div_mod::{lemma_add_mod_noop, lemma_mod_twice, lemma_mul_mod_noop_right};
use vstd::arithmetic::power2::{lemma2_to64, lemma_pow2_adds, lemma_pow2_pos, lemma_pow2_unfold, pow2};
use vstd::prelude::*;

verus! {

/// The active vector that an ARMv7-M exception number names, if any.
pub open spec fn vect_active_of(n: u8) -> Option<VectActive> {
    if n == 0 {
        Some(VectActive::ThreadMode)
    } else if n == 2 {
        Some(VectActive::Exception(Exception::NonMaskableInt))
    } else if n == 3 {
        Some(VectActive::Exception(Exception::HardFault))
    } else if n == 4 {
        Some(VectActive::Exception(Exception::MemoryManagement))
    } else if n == 5 {
        Some(VectActive::Exception(Exception::BusFault))
    } else if n == 6 {
        Some(VectActive::Exception(Exception::UsageFault))
    } else if n == 7 {
        Some(VectActive::Exception(Exception::SecureFault))
    } else if n == 11 {
        Some(VectActive::Exception(Exception::SVCall))
    } else if n == 12 {
        Some(VectActive::Exception(Exception::DebugMonitor))
    } else if n == 14 {
        Some(VectActive::Exception(Exception::PendSV))
    } else if n == 15 {
        Some(VectActive::Exception(Exception::SysTick))
    } else if n >= 16 {
        Some(VectActive::Interrupt { irqn: (n - 16) as u8 })
    } else {
        None
    }
}

/// Relies on cortex-m's `VectActive::from`: the active vector that an
/// exception number names, as listed in `vect_active_of` (cortex-m built
/// for the host, where every exception of the list exists). Each variant
/// is converted to the library's own.
#[verifier::external_body]
fn vect_active_from(n: u8) -> (r: Option<VectActive>)
    ensures
        r == vect_active_of(n),
{
    Some(match CmVect::from(n)? {
        CmVect::ThreadMode => VectActive::ThreadMode,
        CmVect::Interrupt { irqn } => VectActive::Interrupt { irqn },
        CmVect::Exception(e) => VectActive::Exception(match e {
            CmEx::NonMaskableInt => Exception::NonMaskableInt, CmEx::HardFault => Exception::HardFault,
            CmEx::MemoryManagement => Exception::MemoryManagement, CmEx::BusFault => Exception::BusFault,
            CmEx::UsageFault => Exception::UsageFault, CmEx::SecureFault => Exception::SecureFault,
            CmEx::SVCall => Exception::SVCall, CmEx::DebugMonitor => Exception::DebugMonitor,
            CmEx::PendSV => Exception::PendSV, CmEx::SysTick => Exception::SysTick,
        }),
    })
}

/// The little-endian value of four bytes.
pub open spec fn le_u32(p: Seq<u8>) -> u32 {
    (p[0] as int + 0x100 * p[1] as int + 0x1_0000 * p[2] as int + 0x100_0000 * p[3] as int) as u32
}

fn le_u32_of(p: &Vec<u8>) -> (r: u32)
    requires
        p@.len() == 4,
    ensures
        r == le_u32(p@),
{
    p[0] as u32 + 0x100 * (p[1] as u32) + 0x1_0000 * (p[2] as u32) + 0x100_0000 * (p[3] as u32)
}

/// The exception number of an exception trace payload: 9 bits.
pub open spec fn exception_number(p: Seq<u8>) -> u16 {
    ((p[1] % 2) as int * 0x100 + p[0] as int) as u16
}

/// The function field of an exception trace payload.
pub open spec fn exception_function(p: Seq<u8>) -> u8 {
    (p[1] / 16) % 4
}

/// The exception trace that a two-byte payload describes.
pub open spec fn exception_trace(p: Seq<u8>) -> Result<PacketView, MalformedView> {
    let n = exception_number(p);
    let f = exception_function(p);
    let bad = MalformedView::InvalidExceptionTrace { exception: n, function: f };
    if n > 255 || vect_active_of(n as u8) is None || f == 0 {
        Err(bad)
    } else {
        Ok(
            PacketView::ExceptionTrace {
                exception: vect_active_of(n as u8)->Some_0,
                action: if f == 1 {
                    ExceptionAction::Entered
                } else if f == 2 {
                    ExceptionAction::Exited
                } else {
                    ExceptionAction::Returned
                },
            },
        )
    }
}

/// The packet that a hardware source payload `p` with discriminator
/// `disc` decodes to.
pub open spec fn hardware_packet(disc: u8, p: Seq<u8>) -> Result<PacketView, MalformedView> {
    let bad = MalformedView::InvalidHardwarePacket { disc_id: disc, payload: p };
    if disc == 0 {
        if p.len() == 1 {
            Ok(
                PacketView::EventCounterWrap {
                    cyc: p[0] & 0x20 != 0,
                    fold: p[0] & 0x10 != 0,
                    lsu: p[0] & 0x08 != 0,
                    sleep: p[0] & 0x04 != 0,
                    exc: p[0] & 0x02 != 0,
                    cpi: p[0] & 0x01 != 0,
                },
            )
        } else {
            Err(bad)
        }
    } else if disc == 1 {
        if p.len() == 2 {
            exception_trace(p)
        } else {
            Err(bad)
        }
    } else if disc == 2 {
        if p.len() == 1 && p[0] == 0 {
            Ok(PacketView::PCSample { pc: None })
        } else if p.len() == 4 {
            Ok(PacketView::PCSample { pc: Some(le_u32(p)) })
        } else {
            Err(MalformedView::InvalidPCSampleSize { payload: p })
        }
    } else if 8 <= disc <= 23 {
        let t = (disc / 8) % 4;
        let c = (disc / 2) % 4;
        let d = disc % 2;
        if t == 1 && d == 0 && p.len() == 4 {
            Ok(PacketView::DataTracePC { comparator: c, pc: le_u32(p) })
        } else if t == 1 && d == 1 && p.len() == 2 {
            Ok(PacketView::DataTraceAddress { comparator: c, data: p })
        } else if t == 2 {
            Ok(
                PacketView::DataTraceValue {
                    comparator: c,
                    access_type: if d == 0 {
                        MemoryAccessType::Read
                    } else {
                        MemoryAccessType::Write
                    },
                    value: p,
                },
            )
        } else {
            Err(bad)
        }
    } else {
        Err(bad)
    }
}

/// Decodes the payload of a hardware source packet with discriminator
/// `disc_id`.
pub fn handle_hardware_source(disc_id: u8, payload: Vec<u8>) -> (r: Result<TracePacket, MalformedPacket>)
    ensures
        crate::packet::outcome_view(r) == hardware_packet(disc_id, payload@),
{
    let len = payload.len();
    if disc_id == 0 {
        if len != 1 {
            return Err(MalformedPacket::InvalidHardwarePacket { disc_id, payload });
        }
        let b = payload[0];
        Ok(
            TracePacket::EventCounterWrap {
                cyc: b & 0x20 != 0,
                fold: b & 0x10 != 0,
                lsu: b & 0x08 != 0,
                sleep: b & 0x04 != 0,
                exc: b & 0x02 != 0,
                cpi: b & 0x01 != 0,
            },
        )
    } else if disc_id == 1 {
        if len != 2 {
            return Err(MalformedPacket::InvalidHardwarePacket { disc_id, payload });
        }
        let function = (payload[1] / 16) % 4;
        let number: u16 = (payload[1] % 2) as u16 * 0x100 + payload[0] as u16;
        let bad = MalformedPacket::InvalidExceptionTrace { exception: number, function };
        if number > 255 {
            return Err(bad);
        }
        let exception = match vect_active_from(number as u8) {
            Some(e) => e,
            None => {
                return Err(bad);
            },
        };
        let action = if function == 1 {
            ExceptionAction::Entered
        } else if function == 2 {
            ExceptionAction::Exited
        } else if function == 3 {
            ExceptionAction::Returned
        } else {
            return Err(bad);
        };
        Ok(TracePacket::ExceptionTrace { exception, action })
    } else if disc_id == 2 {
        if len == 1 && payload[0] == 0 {
            Ok(TracePacket::PCSample { pc: None })
        } else if len == 4 {
            Ok(TracePacket::PCSample { pc: Some(le_u32_of(&payload)) })
        } else {
            Err(MalformedPacket::InvalidPCSampleSize { payload })
        }
    } else if 8 <= disc_id && disc_id <= 23 {
        let t = (disc_id / 8) % 4;
        let comparator = (disc_id / 2) % 4;
        let d = disc_id % 2;
        if t == 1 && d == 0 && len == 4 {
            Ok(TracePacket::DataTracePC { comparator, pc: le_u32_of(&payload) })
        } else if t == 1 && d == 1 && len == 2 {
            Ok(TracePacket::DataTraceAddress { comparator, data: payload })
        } else if t == 2 {
            let access_type = if d == 0 {
                MemoryAccessType::Read
            } else {
                MemoryAccessType::Write
            };
            Ok(TracePacket::DataTraceValue { comparator, access_type, value: payload })
        } else {
            Err(MalformedPacket::InvalidHardwarePacket { disc_id, payload })
        }
    } else {
        Err(MalformedPacket::InvalidHardwarePacket { disc_id, payload })
    }
}

/// The value of the low seven bits of each byte of `s`, the first byte
/// least significant: bits \[6:0\] of byte `i` are bits \[7i+6:7i\].
pub open spec fn low7_sum(s: Seq<u8>) -> nat
    decreases s.len(),
{
    if s.len() == 0 {
        0
    } else {
        low7_sum(s.drop_last()) + (s.last() % 128) as nat * pow2((7 * (s.len() - 1)) as nat)
    }
}

/// How many low bits of the last payload byte belong to a timestamp whose
/// highest bit is bit `max_bits` of a seven-bit group.
pub open spec fn last_width(max_bits: u64) -> nat {
    (max_bits % 7) as nat + 1
}

/// The timestamp that a continuation-terminated payload `p` encodes: the
/// low seven bits of each byte but the last, then the low
/// `last_width(max_bits)` bits of the last byte (the bits above those are
/// flags).
pub open spec fn timestamp_value(p: Seq<u8>, max_bits: u64) -> nat {
    low7_sum(p.drop_last()) + (p.last() as nat % pow2(last_width(max_bits))) * pow2(
        (7 * (p.len() - 1)) as nat,
    )
}

/// The number of values of a `u64`.
pub open spec fn u64_range() -> nat {
    0x1_0000_0000_0000_0000
}

proof fn lemma_wrapping_step(a: nat, x: nat, e: nat, ts: u64, mult: u64)
    requires
        ts == a % u64_range(),
        mult == pow2(e) % u64_range(),
    ensures
        (ts as int + (x * mult) as int % u64_range() as int) % u64_range() as int == (a + x * pow2(e)) as int
            % u64_range() as int,
{
    let m = u64_range() as int;
    lemma_mul_mod_noop_right(x as int, pow2(e) as int, m);
    lemma_add_mod_noop(a as int, (x * pow2(e)) as int, m);
    lemma_mod_twice((x * pow2(e)) as int, m);
}

/// Extracts a timestamp from a continuation-terminated payload. `max_len`
/// is the index of the timestamp's highest bit, counted in the seven-bit
/// groups of the payload; the bits of the last byte above it are flags.
/// Bits beyond the 64th are dropped.
pub fn extract_timestamp(payload: Vec<u8>, max_len: u64) -> (r: u64)
    requires
        payload@.len() >= 1,
    ensures
        r == timestamp_value(payload@, max_len) % u64_range(),
{
    let n = payload.len();
    let mut ts: u64 = 0;
    let mut mult: u64 = 1;
    let mut i: usize = 0;
    proof {
        lemma2_to64();
        assert(payload@.take(0) =~= Seq::<u8>::empty());
    }
    while i < n - 1
        invariant
            n == payload@.len(),
            n >= 1,
            i <= n - 1,
            ts == low7_sum(payload@.take(i as int)) % u64_range(),
            mult == pow2((7 * i) as nat) % u64_range(),
        decreases n - 1 - i,
    {
        let low = (payload[i] % 128) as u64;
        proof {
            let s = payload@.take(i as int + 1);
            assert(s.drop_last() =~= payload@.take(i as int));
            assert(low7_sum(s) == low7_sum(payload@.take(i as int)) + low as nat * pow2(
                (7 * i) as nat,
            ));
            lemma_wrapping_step(low7_sum(payload@.take(i as int)), low as nat, (7 * i) as nat, ts, mult);
            lemma_wrapping_step(0, 128, (7 * i) as nat, 0, mult);
            lemma_pow2_adds((7 * i) as nat, 7);
            lemma2_to64();
            assert(((7 * i) as nat + 7) as nat == (7 * (i + 1)) as nat);
        }
        ts = ts.wrapping_add(low.wrapping_mul(mult));
        mult = mult.wrapping_mul(128);
        i = i + 1;
    }
    let width = max_len % 7 + 1;
    let mut pw: u64 = 1;
    let mut k: u64 = 0;
    while k < width
        invariant
            width <= 7,
            k <= width,
            pw == pow2(k as nat),
        decreases width - k,
    {
        proof {
            lemma_pow2_unfold((k + 1) as nat);
            lemma2_to64();
            vstd::arithmetic::power2::lemma_pow2_strictly_increases(k as nat, 7);
        }
        pw = pw * 2;
        k = k + 1;
    }
    let head = payload[n - 1] as u64 % pw;
    proof {
        assert(payload@.take(n - 1) =~= payload@.drop_last());
        lemma_pow2_pos(k as nat);
        lemma_wrapping_step(low7_sum(payload@.drop_last()), head as nat, (7 * (n - 1)) as nat, ts, mult);
    }
    ts.wrapping_add(head.wrapping_mul(mult))
}

} // verus!

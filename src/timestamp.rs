//! Association of packets with a timestamp reconstructed from local and
//! global timestamp packets.

use crate::packet::{outcome_view, MalformedPacket, MalformedView, PacketView, TimestampDataRelation, TracePacket};
use vstd::prelude::*;

verus! {

/// The bit at which the second global timestamp's bits start.
pub const GTS2_TS_SHIFT: u64 = 26;

/// A timestamp made of global and local timestamp packets, in ticks of
/// the target's global timestamp clock.
#[derive(Debug, Clone, Copy, PartialEq, Eq, Structural)]
pub struct Timestamp {
    /// The global timestamp, once a first and a second global timestamp
    /// packet have both been seen.
    pub base: Option<u64>,
    /// The sum of the local timestamps since the base was set.
    pub delta: Option<u64>,
    /// How the last local timestamp relates to its data packets.
    pub data_relation: Option<TimestampDataRelation>,
    /// An overflow packet came since the base was set: the timestamp may be
    /// off.
    pub diverged: bool,
}

/// The timestamp before any timestamp packet.
pub open spec fn timestamp_init() -> Timestamp {
    Timestamp { base: None, delta: None, data_relation: None, diverged: false }
}

impl Default for Timestamp {
    fn default() -> (r: Self)
        ensures
            r == timestamp_init(),
    {
        Timestamp { base: None, delta: None, data_relation: None, diverged: false }
    }
}

/// Packets together with the timestamp that closes them.
#[derive(Debug, Clone, PartialEq)]
pub struct TimestampedTracePackets {
    pub timestamp: Timestamp,
    pub packets: Vec<TracePacket>,
    pub malformed_packets: Vec<MalformedPacket>,
    /// The number of decoded packets, valid or not, that made this batch.
    pub packets_consumed: usize,
}

/// The mathematical value of a [`TimestampedTracePackets`].
pub struct BatchView {
    pub timestamp: Timestamp,
    pub packets: Seq<PacketView>,
    pub malformed_packets: Seq<MalformedView>,
    pub packets_consumed: nat,
}

/// The views of a vector of packets.
pub open spec fn packets_view(v: Seq<TracePacket>) -> Seq<PacketView> {
    v.map_values(|p: TracePacket| p@)
}

/// The views of a vector of malformed packets.
pub open spec fn malformed_view(v: Seq<MalformedPacket>) -> Seq<MalformedView> {
    v.map_values(|e: MalformedPacket| e@)
}

/// The view of a batch, if any.
pub open spec fn batch_view(b: Option<TimestampedTracePackets>) -> Option<BatchView> {
    match b {
        Some(b) => Some(
            BatchView {
                timestamp: b.timestamp,
                packets: packets_view(b.packets@),
                malformed_packets: malformed_view(b.malformed_packets@),
                packets_consumed: b.packets_consumed as nat,
            },
        ),
        None => None,
    }
}

/// The state of the timestamp correlation.
pub struct CtxView {
    /// Packets waiting for the local timestamp that closes them.
    pub packets: Seq<PacketView>,
    /// Malformed packets waiting likewise.
    pub malformed_packets: Seq<MalformedView>,
    /// The low global timestamp bits, until the high bits come.
    pub gts1: Option<u64>,
    /// The high global timestamp bits, until the low bits come.
    pub gts2: Option<u64>,
    /// The current timestamp.
    pub ts: Timestamp,
    /// Decoded packets since the last batch.
    pub packets_consumed: nat,
    /// The number of bases set so far.
    pub epoch: nat,
}

/// The state before any packet.
pub open spec fn ctx_init() -> CtxView {
    CtxView {
        packets: Seq::empty(),
        malformed_packets: Seq::empty(),
        gts1: None,
        gts2: None,
        ts: timestamp_init(),
        packets_consumed: 0,
        epoch: 0,
    }
}

/// A count that stops at the largest `usize`.
pub open spec fn count_up(n: nat) -> nat {
    if n < usize::MAX {
        n + 1
    } else {
        n
    }
}

/// A sum that stops at the largest `u64`.
pub open spec fn sum_capped(a: u64, b: u64) -> u64 {
    if a + b <= u64::MAX {
        (a + b) as u64
    } else {
        u64::MAX
    }
}

/// The delta of a timestamp, none counting as 0.
pub open spec fn delta_num(ts: Timestamp) -> u64 {
    match ts.delta {
        Some(d) => d,
        None => 0,
    }
}

/// The global timestamp made of its low bits `gts1` and its high bits
/// `gts2`.
pub open spec fn compose_base(gts1: u64, gts2: u64) -> u64 {
    (gts2 << GTS2_TS_SHIFT) | gts1
}

/// Where both halves of a global timestamp are there: a new base, and the
/// start of a new epoch.
pub open spec fn install(c: CtxView) -> CtxView {
    match (c.gts1, c.gts2) {
        (Some(lower), Some(upper)) => CtxView {
            ts: Timestamp {
                base: Some(compose_base(lower, upper)),
                ..timestamp_init()
            },
            gts1: None,
            gts2: None,
            epoch: c.epoch + 1,
            ..c
        },
        _ => c,
    }
}

/// The local timestamp delta and relation that the outcome `r` adds, if
/// local timestamps are followed.
pub open spec fn local_delta(r: Result<PacketView, MalformedView>, only_gts: bool) -> Option<(u64, TimestampDataRelation)> {
    if only_gts {
        None
    } else {
        match r {
            Ok(PacketView::LocalTimestamp1 { ts, data_relation }) => Some((ts, data_relation)),
            Ok(PacketView::LocalTimestamp2 { ts }) => Some((ts as u64, TimestampDataRelation::Sync)),
            _ => None,
        }
    }
}

/// Taking the decoding outcome `r` into the correlation state `c`: the new
/// state, and the batch handed out, if any.
pub open spec fn absorb(c: CtxView, r: Result<PacketView, MalformedView>, only_gts: bool) -> (CtxView, Option<BatchView>) {
    let c1 = CtxView { packets_consumed: count_up(c.packets_consumed), ..c };
    match local_delta(r, only_gts) {
        Some((v, rel)) => {
            let ts = Timestamp {
                delta: Some(sum_capped(delta_num(c.ts), v)),
                data_relation: Some(rel),
                ..c.ts
            };
            (
                CtxView {
                    packets: Seq::empty(),
                    malformed_packets: Seq::empty(),
                    ts,
                    packets_consumed: 0,
                    ..c1
                },
                Some(
                    BatchView {
                        timestamp: ts,
                        packets: c.packets,
                        malformed_packets: c.malformed_packets,
                        packets_consumed: c1.packets_consumed,
                    },
                ),
            )
        },
        None => match r {
            Ok(PacketView::GlobalTimestamp1 { ts, wrap, clkch }) => (
                install(
                    CtxView {
                        gts1: if clkch {
                            None
                        } else {
                            Some(ts)
                        },
                        gts2: if wrap || clkch {
                            None
                        } else {
                            c.gts2
                        },
                        ..c1
                    },
                ),
                None,
            ),
            Ok(PacketView::GlobalTimestamp2 { ts }) => (install(CtxView { gts2: Some(ts), ..c1 }), None),
            Ok(PacketView::Overflow) => (
                install(
                    CtxView {
                        ts: Timestamp { diverged: true, ..c.ts },
                        packets: c.packets.push(PacketView::Overflow),
                        ..c1
                    },
                ),
                None,
            ),
            Ok(p) => if only_gts {
                (
                    c1,
                    Some(
                        BatchView {
                            timestamp: c.ts,
                            packets: seq![p],
                            malformed_packets: Seq::empty(),
                            packets_consumed: 1,
                        },
                    ),
                )
            } else {
                (install(CtxView { packets: c.packets.push(p), ..c1 }), None)
            },
            Err(e) => (
                install(CtxView { malformed_packets: c.malformed_packets.push(e), ..c1 }),
                None,
            ),
        },
    }
}

/// The bookkeeping of the timestamp correlation between calls.
pub(crate) struct TimestampedContext {
    packets: Vec<TracePacket>,
    malformed_packets: Vec<MalformedPacket>,
    gts1: Option<u64>,
    gts2: Option<u64>,
    ts: Timestamp,
    packets_consumed: usize,
    epoch: Ghost<nat>,
}

impl TimestampedContext {
    pub(crate) closed spec fn wf(&self) -> bool {
        !(self.gts1 is Some && self.gts2 is Some)
    }

    pub(crate) closed spec fn view(&self) -> CtxView {
        CtxView {
            packets: packets_view(self.packets@),
            malformed_packets: malformed_view(self.malformed_packets@),
            gts1: self.gts1,
            gts2: self.gts2,
            ts: self.ts,
            packets_consumed: self.packets_consumed as nat,
            epoch: self.epoch@,
        }
    }

    pub(crate) fn new() -> (r: Self)
        ensures
            r.wf(),
            r.view() == ctx_init(),
    {
        let r = TimestampedContext {
            packets: Vec::new(),
            malformed_packets: Vec::new(),
            gts1: None,
            gts2: None,
            ts: Timestamp::default(),
            packets_consumed: 0,
            epoch: Ghost(0),
        };
        proof {
            assert(r.view().packets =~= Seq::<PacketView>::empty());
            assert(r.view().malformed_packets =~= Seq::<MalformedView>::empty());
        }
        r
    }

    /// Sets a new base where both halves of a global timestamp are there.
    fn install_base(&mut self)
        ensures
            final(self).wf(),
            final(self).view() == install(old(self).view()),
    {
        match (self.gts1, self.gts2) {
            (Some(lower), Some(upper)) => {
                self.ts = Timestamp {
                    base: Some((upper << GTS2_TS_SHIFT) | lower),
                    delta: None,
                    data_relation: None,
                    diverged: false,
                };
                self.gts1 = None;
                self.gts2 = None;
                self.epoch = Ghost(self.epoch@ + 1);
            },
            _ => {},
        }
    }

    fn push_packet(&mut self, p: TracePacket)
        ensures
            final(self).view() == (CtxView {
                packets: old(self).view().packets.push(p@),
                ..old(self).view()
            }),
            final(self).wf() == old(self).wf(),
    {
        self.packets.push(p);
        proof {
            assert(packets_view(self.packets@) =~= packets_view(old(self).packets@).push(p@));
        }
    }

    /// Takes the outcome `r` of a decoding step into account; hands out a
    /// batch where it closes one.
    pub(crate) fn absorb(&mut self, r: Result<TracePacket, MalformedPacket>, only_gts: bool) -> (b: Option<TimestampedTracePackets>)
        requires
            old(self).wf(),
        ensures
            final(self).wf(),
            final(self).view() == absorb(old(self).view(), outcome_view(r), only_gts).0,
            batch_view(b) == absorb(old(self).view(), outcome_view(r), only_gts).1,
    {
        let ghost c = self.view();
        self.packets_consumed = if self.packets_consumed < usize::MAX {
            self.packets_consumed + 1
        } else {
            self.packets_consumed
        };
        match r {
            Ok(TracePacket::LocalTimestamp1 { ts, data_relation }) if !only_gts => {
                Some(self.close_batch(ts, data_relation))
            },
            Ok(TracePacket::LocalTimestamp2 { ts }) if !only_gts => {
                Some(self.close_batch(ts as u64, TimestampDataRelation::Sync))
            },
            Ok(TracePacket::GlobalTimestamp1 { ts, wrap, clkch }) => {
                self.gts1 = Some(ts);
                if wrap {
                    self.gts2 = None;
                }
                if clkch {
                    self.gts1 = None;
                    self.gts2 = None;
                }
                self.install_base();
                None
            },
            Ok(TracePacket::GlobalTimestamp2 { ts }) => {
                self.gts2 = Some(ts);
                self.install_base();
                None
            },
            Ok(TracePacket::Overflow) => {
                self.ts.diverged = true;
                self.push_packet(TracePacket::Overflow);
                self.install_base();
                None
            },
            Ok(p) => {
                if only_gts {
                    let b = TimestampedTracePackets {
                        timestamp: self.ts,
                        packets: vec![p],
                        malformed_packets: Vec::new(),
                        packets_consumed: 1,
                    };
                    proof {
                        assert(packets_view(b.packets@) =~= seq![p@]);
                        assert(malformed_view(b.malformed_packets@) =~= Seq::<MalformedView>::empty());
                    }
                    Some(b)
                } else {
                    self.push_packet(p);
                    self.install_base();
                    None
                }
            },
            Err(e) => {
                self.malformed_packets.push(e);
                proof {
                    assert(malformed_view(self.malformed_packets@) =~= malformed_view(
                        old(self).malformed_packets@,
                    ).push(e@));
                }
                self.install_base();
                None
            },
        }
    }

    /// Adds a local timestamp to the delta and hands out the waiting
    /// packets with the timestamp.
    fn close_batch(&mut self, v: u64, rel: TimestampDataRelation) -> (b: TimestampedTracePackets)
        requires
            old(self).wf(),
        ensures
            final(self).wf(),
            ({
                let c = old(self).view();
                let ts = Timestamp {
                    delta: Some(sum_capped(delta_num(c.ts), v)),
                    data_relation: Some(rel),
                    ..c.ts
                };
                &&& final(self).view() == CtxView {
                    packets: Seq::empty(),
                    malformed_packets: Seq::empty(),
                    ts,
                    packets_consumed: 0,
                    ..c
                }
                &&& batch_view(Some(b)) == Some(
                    BatchView {
                        timestamp: ts,
                        packets: c.packets,
                        malformed_packets: c.malformed_packets,
                        packets_consumed: c.packets_consumed,
                    },
                )
            }),
    {
        let d = match self.ts.delta {
            Some(d) => d,
            None => 0,
        };
        self.ts.delta = Some(d.saturating_add(v));
        self.ts.data_relation = Some(rel);
        let mut packets: Vec<TracePacket> = Vec::new();
        let mut malformed_packets: Vec<MalformedPacket> = Vec::new();
        std::mem::swap(&mut packets, &mut self.packets);
        std::mem::swap(&mut malformed_packets, &mut self.malformed_packets);
        let b = TimestampedTracePackets {
            timestamp: self.ts,
            packets,
            malformed_packets,
            packets_consumed: self.packets_consumed,
        };
        self.packets_consumed = 0;
        proof {
            assert(packets_view(self.packets@) =~= Seq::<PacketView>::empty());
            assert(malformed_view(self.malformed_packets@) =~= Seq::<MalformedView>::empty());
        }
        b
    }
}

} // verus!

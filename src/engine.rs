//! Cutting a packet stream into windows.
//!
//! The first packet opens a window at its own timestamp. A packet whose
//! timestamp lies past the open window's end seals that window and opens the
//! next one at its own timestamp, so stretches without packets produce no
//! windows. When the stream ends, the open window is sealed as it stands.

use vstd::prelude::*;
use crate::packet::Packet;
use crate::window::{bytes_sum, describes, WindowRecord, WindowState};

verus! {

/// A window as cut from the stream: its start and the packets it took.
pub type Segment = (u64, Seq<Packet>);

/// The windows that `pkts` are cut into, with windows of `size`
/// microseconds.
pub open spec fn segments(size: u64, pkts: Seq<Packet>) -> Seq<Segment>
    decreases pkts.len(),
{
    if pkts.len() == 0 {
        seq![]
    } else {
        let prev = segments(size, pkts.drop_last());
        let p = pkts.last();
        if prev.len() == 0 {
            seq![(p.timestamp_us, seq![p])]
        } else if p.timestamp_us <= prev.last().0 + size {
            prev.update(prev.len() - 1, (prev.last().0, prev.last().1.push(p)))
        } else {
            prev.push((p.timestamp_us, seq![p]))
        }
    }
}

/// One more packet either joins the last window or opens a new one.
pub proof fn lemma_segments_step(size: u64, s: Seq<Packet>, p: Packet)
    ensures
        ({
            let b = segments(size, s);
            let a = segments(size, s.push(p));
            &&& b.len() == 0 ==> a == seq![(p.timestamp_us, seq![p])]
            &&& b.len() > 0 && p.timestamp_us <= b.last().0 + size ==> a == b.update(
                b.len() - 1,
                (b.last().0, b.last().1.push(p)),
            )
            &&& b.len() > 0 && p.timestamp_us > b.last().0 + size ==> a == b.push(
                (p.timestamp_us, seq![p]),
            )
        }),
{
    assert(s.push(p).drop_last() =~= s);
}

/// Each packet's window end fits in a `u64`.
pub open spec fn timestamps_fit(size: u64, pkts: Seq<Packet>) -> bool {
    forall|i: int| 0 <= i < pkts.len() ==> #[trigger] pkts[i].timestamp_us + size <= u64::MAX
}

/// `out` holds the record of each window of `segs`, in order.
pub open spec fn records_of(out: Seq<WindowRecord>, size: u64, segs: Seq<Segment>) -> bool {
    &&& out.len() == segs.len()
    &&& forall|i: int| 0 <= i < out.len() ==> describes(#[trigger] out[i], segs[i].0, size, segs[i].1)
}

/// Takes packets one at a time and hands out each window as it is sealed.
pub struct Extractor {
    pub window_size_us: u64,
    pub seen: Ghost<Seq<Packet>>,
    pub open: bool,
    pub window_start_us: u64,
    pub window_end_us: u64,
    pub state: WindowState,
}

impl Extractor {
    /// The open window is the last window of the packets seen so far.
    pub open spec fn wf(&self) -> bool {
        let segs = segments(self.window_size_us, self.seen@);
        &&& self.state.wf()
        &&& self.state.total_bytes <= bytes_sum(self.seen@)
        &&& self.state.packet_count <= self.seen@.len()
        &&& self.open == (self.seen@.len() > 0)
        &&& !self.open ==> self.state.packets@.len() == 0
        &&& self.open ==> {
            &&& segs.len() > 0
            &&& segs.last() == (self.window_start_us, self.state.packets@)
            &&& self.window_end_us == self.window_start_us + self.window_size_us
        }
    }

    /// An extractor with windows of `window_size_us` microseconds that has
    /// seen no packet.
    pub fn new(window_size_us: u64) -> (r: Extractor)
        ensures
            r.wf(),
            r.window_size_us == window_size_us,
            r.seen@ == Seq::<Packet>::empty(),
    {
        Extractor {
            window_size_us,
            seen: Ghost(Seq::empty()),
            open: false,
            window_start_us: 0,
            window_end_us: 0,
            state: WindowState::new(),
        }
    }

    /// `p` can be taken without a counter overflowing.
    pub open spec fn can_take(&self, p: Packet) -> bool {
        &&& p.timestamp_us + self.window_size_us <= u64::MAX
        &&& self.state.can_take(p)
    }

    /// Whether `p` can be taken without a counter overflowing.
    pub fn has_room_for(&self, p: &Packet) -> (r: bool)
        ensures
            r == self.can_take(*p),
    {
        p.timestamp_us <= u64::MAX - self.window_size_us && self.state.has_room_for(p)
    }

    /// Takes the next packet. When it lies past the open window's end, that
    /// window is sealed and its record returned, and the packet opens the
    /// next window.
    pub fn push(&mut self, p: Packet) -> (r: Option<WindowRecord>)
        requires
            old(self).wf(),
            old(self).can_take(p),
        ensures
            final(self).wf(),
            final(self).window_size_us == old(self).window_size_us,
            final(self).seen@ == old(self).seen@.push(p),
            ({
                let before = segments(old(self).window_size_us, old(self).seen@);
                let after = segments(old(self).window_size_us, final(self).seen@);
                match r {
                    Some(rec) => before.len() > 0 && after == before.push((p.timestamp_us, seq![p])) && describes(
                        rec,
                        before.last().0,
                        old(self).window_size_us,
                        before.last().1,
                    ),
                    None => after.len() > 0 && (before.len() == 0 || after.len() == before.len()) && forall|
                        j: int,
                    |
                        0 <= j < after.len() - 1 ==> after[j] == before[j],
                }
            }),
    {
        let ghost seen = self.seen@;
        let ghost q = seen.push(p);
        let ghost size = self.window_size_us;
        let ghost before = segments(size, seen);
        let ghost old_pkts = self.state.packets@;
        proof {
            assert(q.drop_last() =~= seen);
            assert(bytes_sum(q) == bytes_sum(seen) + p.length);
            lemma_segments_step(size, seen, p);
        }
        let mut sealed: Option<WindowRecord> = None;
        if !self.open {
            self.open = true;
            self.window_start_us = p.timestamp_us;
            self.window_end_us = p.timestamp_us + self.window_size_us;
        } else if p.timestamp_us > self.window_end_us {
            sealed = Some(self.state.finalize(self.window_start_us, self.window_size_us));
            self.state = WindowState::new();
            self.window_start_us = p.timestamp_us;
            self.window_end_us = p.timestamp_us + self.window_size_us;
        }
        self.state.add_packet(p);
        self.seen = Ghost(q);
        proof {
            let after = segments(size, q);
            assert(old_pkts.push(p).drop_last() =~= old_pkts);
            assert(seq![p].drop_last() =~= Seq::<Packet>::empty());
            if seen.len() == 0 {
                assert(self.state.packets@ =~= seq![p]);
                assert(before.len() == 0);
            } else if sealed is Some {
                assert(self.state.packets@ =~= seq![p]);
            } else {
                assert(self.state.packets@ == old_pkts.push(p));
                assert(after.last() == (self.window_start_us, self.state.packets@));
            }
        }
        sealed
    }

    /// Seals the open window at the end of the stream, if any packet was
    /// seen.
    pub fn finish(&self) -> (r: Option<WindowRecord>)
        requires
            self.wf(),
        ensures
            ({
                let segs = segments(self.window_size_us, self.seen@);
                match r {
                    Some(rec) => segs.len() > 0 && describes(
                        rec,
                        segs.last().0,
                        self.window_size_us,
                        segs.last().1,
                    ),
                    None => segs.len() == 0,
                }
            }),
    {
        if self.open {
            Some(self.state.finalize(self.window_start_us, self.window_size_us))
        } else {
            None
        }
    }
}

proof fn lemma_bytes_prefix(s: Seq<Packet>, i: int)
    requires
        0 <= i <= s.len(),
    ensures
        bytes_sum(s.subrange(0, i)) <= bytes_sum(s),
    decreases s.len(),
{
    if i < s.len() {
        lemma_bytes_prefix(s.drop_last(), i);
        assert(s.drop_last().subrange(0, i) =~= s.subrange(0, i));
    } else {
        assert(s.subrange(0, i) =~= s);
    }
}

/// Cuts `packets` into windows of `window_size_us` microseconds and returns
/// the record of each window, in order.
pub fn extract(window_size_us: u64, packets: &Vec<Packet>) -> (r: Vec<WindowRecord>)
    requires
        timestamps_fit(window_size_us, packets@),
        bytes_sum(packets@) <= usize::MAX,
    ensures
        records_of(r@, window_size_us, segments(window_size_us, packets@)),
{
    let mut ex = Extractor::new(window_size_us);
    let mut out: Vec<WindowRecord> = Vec::new();
    let mut i: usize = 0;
    assert(packets@.subrange(0, 0) =~= Seq::<Packet>::empty());
    while i < packets.len()
        invariant
            i <= packets@.len(),
            ex.wf(),
            ex.window_size_us == window_size_us,
            ex.seen@ == packets@.subrange(0, i as int),
            timestamps_fit(window_size_us, packets@),
            bytes_sum(packets@) <= usize::MAX,
            ({
                let segs = segments(window_size_us, ex.seen@);
                &&& out@.len() == if segs.len() == 0 {
                    0
                } else {
                    segs.len() - 1
                }
                &&& forall|j: int|
                    0 <= j < out@.len() ==> describes(#[trigger] out@[j], segs[j].0, window_size_us, segs[j].1)
            }),
        decreases packets@.len() - i,
    {
        let p = packets[i];
        proof {
            assert(packets@.subrange(0, i + 1) =~= packets@.subrange(0, i as int).push(p));
            lemma_bytes_prefix(packets@, i + 1);
            assert(packets@.subrange(0, i + 1).drop_last() =~= packets@.subrange(0, i as int));
            assert(p.timestamp_us + window_size_us <= u64::MAX);
        }
        let ghost before = segments(window_size_us, ex.seen@);
        let sealed = ex.push(p);
        let ghost prev_out = out@;
        match sealed {
            Some(rec) => {
                out.push(rec);
                proof {
                    let after = segments(window_size_us, ex.seen@);
                    assert forall|j: int| 0 <= j < out@.len() implies describes(
                        #[trigger] out@[j],
                        after[j].0,
                        window_size_us,
                        after[j].1,
                    ) by {
                        if j < before.len() - 1 {
                            assert(out@[j] == prev_out[j]);
                        }
                    }
                }
            },
            None => {},
        }
        i = i + 1;
    }
    match ex.finish() {
        Some(rec) => {
            out.push(rec);
        },
        None => {},
    }
    proof {
        assert(packets@.subrange(0, i as int) =~= packets@);
    }
    out
}

} // verus!

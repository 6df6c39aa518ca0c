//! Reassembly of fragmented uplink MAC PDUs at the base station. Each of the four
//! timeslots keeps one buffer per sending station, so that several stations can send
//! fragmented data on the same timeslot.
use std::collections::HashMap;
use vstd::prelude::*;
use vstd::std_specs::iter::IteratorSpec;

use crate::bits::BitBuffer;
use crate::tdma::TdmaTime;

verus! {

broadcast use vstd::std_specs::hash::group_hash_axioms;

/// Largest reassembled PDU, in bits.
pub const DEFRAG_BUF_MAX_LEN: usize = 4096;

/// An unfinished PDU is dropped when no fragment came for this many timeslots (10 frames).
pub const DEFRAG_TS_BEFORE_TIMEOUT: i64 = 40;

#[derive(Debug, Clone, Copy, PartialEq, Eq, Structural)]
pub enum SsiType {
    Issi,
    Gssi,
    Ussi,
    Smi,
}

/// A short subscriber identity with its kind.
#[derive(Debug, Clone, Copy, PartialEq, Eq, Structural)]
pub struct TetraAddress {
    pub ssi: u32,
    pub ssi_type: SsiType,
}

#[derive(Debug, Clone, Copy, PartialEq, Eq, Structural)]
pub enum DefragBufferState {
    Inactive,
    Active,
    Complete,
}

/// One PDU being reassembled.
pub struct DefragBuffer {
    pub state: DefragBufferState,
    pub addr: TetraAddress,
    pub t_first: TdmaTime,
    pub t_last: TdmaTime,
    pub num_frags: u32,
    pub buffer: BitBuffer,
    /// Air-interface encryption information of the first fragment.
    pub aie_info: Option<u64>,
}

/// A reassembly buffer as a value.
pub struct DefragView {
    pub state: DefragBufferState,
    pub addr: TetraAddress,
    pub t_first: TdmaTime,
    pub t_last: TdmaTime,
    pub num_frags: u32,
    pub bits: Seq<bool>,
    pub pos: int,
    pub aie_info: Option<u64>,
}

impl View for DefragBuffer {
    type V = DefragView;

    open spec fn view(&self) -> DefragView {
        DefragView {
            state: self.state,
            addr: self.addr,
            t_first: self.t_first,
            t_last: self.t_last,
            num_frags: self.num_frags,
            bits: self.buffer.bits(),
            pos: self.buffer.pos(),
            aie_info: self.aie_info,
        }
    }
}

/// An empty, inactive buffer.
pub open spec fn idle_buffer() -> DefragView {
    DefragView {
        state: DefragBufferState::Inactive,
        addr: TetraAddress { ssi: 0, ssi_type: SsiType::Issi },
        t_first: TdmaTime { h: 0, m: 1, f: 1, t: 1 },
        t_last: TdmaTime { h: 0, m: 1, f: 1, t: 1 },
        num_frags: 0,
        bits: Seq::empty(),
        pos: 0,
        aie_info: None,
    }
}

/// The unread bits of a buffer.
pub open spec fn unread(b: &BitBuffer) -> Seq<bool> {
    b.bits().subrange(b.pos(), b.bits().len() as int)
}

/// Whether a buffer is dropped by the ageing at `t`.
pub open spec fn timed_out(v: DefragView, t: TdmaTime) -> bool {
    v.state != DefragBufferState::Inactive && t.index() - v.t_last.index() > DEFRAG_TS_BEFORE_TIMEOUT
}

/// A buffer after the ageing at `t`.
pub open spec fn aged(v: DefragView, t: TdmaTime) -> DefragView {
    if timed_out(v, t) {
        idle_buffer()
    } else {
        v
    }
}

/// The buffers of a timeslot after the ageing at `t`.
pub open spec fn aged_slot(m: Map<u32, DefragView>, t: TdmaTime) -> Map<u32, DefragView> {
    m.map_values(|v: DefragView| aged(v, t))
}

/// Whether a next fragment of `extra` bits is taken into the buffer of `ssi`: the buffer
/// exists, is collecting, and stays within `DEFRAG_BUF_MAX_LEN`.
pub open spec fn takes_fragment(m: Map<u32, DefragView>, ssi: u32, extra: Seq<bool>) -> bool {
    m.contains_key(ssi) && m[ssi].state == DefragBufferState::Active && m[ssi].bits.len() + extra.len()
        <= DEFRAG_BUF_MAX_LEN
}

/// The buffers of a timeslot after a next fragment `extra` of `ssi` at `t`: taken when it
/// fits; a collecting buffer that would overflow is dropped; otherwise nothing changes.
pub open spec fn after_next(m: Map<u32, DefragView>, ssi: u32, t: TdmaTime, extra: Seq<bool>) -> Map<u32, DefragView> {
    if takes_fragment(m, ssi, extra) {
        m.insert(
            ssi,
            DefragView {
                t_last: t,
                num_frags: if m[ssi].num_frags == u32::MAX {
                    u32::MAX
                } else {
                    (m[ssi].num_frags + 1) as u32
                },
                bits: m[ssi].bits + extra,
                ..m[ssi]
            },
        )
    } else if m.contains_key(ssi) && m[ssi].state == DefragBufferState::Active {
        m.insert(ssi, idle_buffer())
    } else {
        m
    }
}

impl DefragBuffer {
    pub fn new() -> (r: Self)
        ensures
            r@ == idle_buffer(),
            r.buffer.wf(),
    {
        DefragBuffer {
            state: DefragBufferState::Inactive,
            addr: TetraAddress { ssi: 0, ssi_type: SsiType::Issi },
            t_first: TdmaTime::start(),
            t_last: TdmaTime::start(),
            num_frags: 0,
            buffer: BitBuffer::new(),
            aie_info: None,
        }
    }

    /// Discards what was collected.
    pub fn reset(&mut self)
        ensures
            final(self)@ == idle_buffer(),
            final(self).buffer.wf(),
    {
        *self = DefragBuffer::new();
    }
}

/// The reassembly buffers of the base station, one map per timeslot keyed by SSI.
pub struct BsDefrag {
    pub buffers: Vec<HashMap<u32, DefragBuffer>>,
}

impl BsDefrag {
    /// The buffers of timeslot index `ts` (0..4).
    pub open spec fn slot(&self, ts: int) -> Map<u32, DefragView> {
        self.buffers@[ts]@.map_values(|b: DefragBuffer| b@)
    }

    pub open spec fn wf(&self) -> bool {
        &&& self.buffers@.len() == 4
        &&& forall|ts: int, k: u32|
            0 <= ts < 4 && #[trigger] self.buffers@[ts]@.contains_key(k) ==> self.buffers@[ts]@[k].buffer.wf()
    }

    /// Whether only timeslot index `ts` changed from `old`.
    pub open spec fn others_unchanged(&self, old: &BsDefrag, ts: int) -> bool {
        forall|j: int| 0 <= j < 4 && j != ts ==> #[trigger] self.buffers@[j] == old.buffers@[j]
    }

    pub fn new() -> (r: Self)
        ensures
            r.wf(),
            forall|ts: int| 0 <= ts < 4 ==> #[trigger] r.slot(ts) == Map::<u32, DefragView>::empty(),
    {
        let mut buffers: Vec<HashMap<u32, DefragBuffer>> = Vec::new();
        buffers.push(HashMap::new());
        buffers.push(HashMap::new());
        buffers.push(HashMap::new());
        buffers.push(HashMap::new());
        let r = BsDefrag { buffers };
        proof {
            assert forall|ts: int| 0 <= ts < 4 implies #[trigger] r.slot(ts) == Map::<u32, DefragView>::empty() by {
                assert(r.slot(ts) =~= Map::<u32, DefragView>::empty());
            }
        }
        r
    }

    /// Drops every buffer.
    pub fn reset(&mut self)
        requires
            old(self).wf(),
        ensures
            final(self).wf(),
            forall|ts: int| 0 <= ts < 4 ==> #[trigger] final(self).slot(ts) == Map::<u32, DefragView>::empty(),
    {
        let fresh = BsDefrag::new();
        *self = fresh;
    }

    /// Takes the map of timeslot index `ts` out, leaving an empty one.
    fn take_slot(&mut self, ts: usize) -> (m: HashMap<u32, DefragBuffer>)
        requires
            old(self).wf(),
            ts < 4,
        ensures
            final(self).buffers@.len() == 4,
            m@ == old(self).buffers@[ts as int]@,
            final(self).others_unchanged(old(self), ts as int),
            forall|j: int, k: u32|
                0 <= j < 4 && j != ts && #[trigger] final(self).buffers@[j]@.contains_key(k)
                    ==> final(self).buffers@[j]@[k].buffer.wf(),
    {
        let m = self.buffers.remove(ts);
        self.buffers.insert(ts, HashMap::new());
        m
    }

    /// Puts the map of timeslot index `ts` back.
    fn put_slot(&mut self, ts: usize, m: HashMap<u32, DefragBuffer>)
        requires
            old(self).buffers@.len() == 4,
            ts < 4,
            forall|j: int, k: u32|
                0 <= j < 4 && j != ts && #[trigger] old(self).buffers@[j]@.contains_key(k)
                    ==> old(self).buffers@[j]@[k].buffer.wf(),
            forall|k: u32| #[trigger] m@.contains_key(k) ==> m@[k].buffer.wf(),
        ensures
            final(self).wf(),
            final(self).buffers@[ts as int]@ == m@,
            final(self).others_unchanged(old(self), ts as int),
    {
        self.buffers.remove(ts);
        self.buffers.insert(ts, m);
    }

    /// Drops the buffers that got no fragment for more than `DEFRAG_TS_BEFORE_TIMEOUT`
    /// timeslots before `t`; they stay, emptied and inactive.
    pub fn age_buffers(&mut self, t: TdmaTime)
        requires
            old(self).wf(),
            t.wf(),
            forall|ts: int, k: u32|
                0 <= ts < 4 && #[trigger] old(self).buffers@[ts]@.contains_key(k) ==> old(
                    self,
                ).buffers@[ts]@[k].t_last.wf(),
        ensures
            final(self).wf(),
            forall|ts: int|
                0 <= ts < 4 ==> #[trigger] final(self).slot(ts) == aged_slot(old(self).slot(ts), t),
    {
        let mut ts: usize = 0;
        while ts < 4
            invariant
                0 <= ts <= 4,
                self.wf(),
                t.wf(),
                self.buffers@.len() == 4,
                forall|j: int| ts <= j < 4 ==> #[trigger] self.buffers@[j] == old(self).buffers@[j],
                forall|j: int, k: u32|
                    0 <= j < 4 && #[trigger] old(self).buffers@[j]@.contains_key(k) ==> old(
                        self,
                    ).buffers@[j]@[k].t_last.wf(),
                forall|j: int|
                    0 <= j < ts ==> #[trigger] self.slot(j) == aged_slot(old(self).slot(j), t),
            decreases 4 - ts,
        {
            let ghost before = *self;
            let mut map = self.take_slot(ts);
            let ghost orig = map@;
            proof {
                assert(orig == old(self).buffers@[ts as int]@);
            }
            let keys = keys_of(&map);
            let mut i: usize = 0;
            while i < keys.len()
                invariant
                    0 <= i <= keys.len(),
                    t.wf(),
                    keys@.to_set() == orig.dom(),
                    keys@.no_duplicates(),
                    map@.dom() == orig.dom(),
                    forall|k: u32| #[trigger] orig.contains_key(k) ==> orig[k].t_last.wf() && orig[k].buffer.wf(),
                    forall|k: u32| #[trigger] map@.contains_key(k) ==> map@[k].buffer.wf(),
                    forall|k: u32|
                        #[trigger] map@.contains_key(k) ==> map@[k]@ == (if keys@.take(i as int).contains(k)
                            && timed_out(orig[k]@, t) {
                            idle_buffer()
                        } else {
                            orig[k]@
                        }),
                decreases keys.len() - i,
            {
                let k = keys[i];
                proof {
                    assert(keys@.contains(k));
                    assert(keys@.to_set().contains(k));
                    assert(!keys@.take(i as int).contains(k)) by {
                        if keys@.take(i as int).contains(k) {
                            let a = choose|a: int| 0 <= a < i && keys@.take(i as int)[a] == k;
                            assert(keys@[a] == keys@[i as int]);
                        }
                    }
                    assert(keys@.take(i + 1) =~= keys@.take(i as int).push(k));
                }
                let expired = match map.get(&k) {
                    Some(b) => b.state != DefragBufferState::Inactive && t.diff(b.t_last) > DEFRAG_TS_BEFORE_TIMEOUT,
                    None => false,
                };
                if expired {
                    map.insert(k, DefragBuffer::new());
                }
                proof {
                    assert forall|k2: u32| #[trigger] map@.contains_key(k2) implies map@[k2]@ == (if keys@.take(
                        i + 1,
                    ).contains(k2) && timed_out(orig[k2]@, t) {
                        idle_buffer()
                    } else {
                        orig[k2]@
                    }) by {
                        vstd::seq_lib::lemma_seq_contains_after_push(keys@.take(i as int), k, k2);
                    }
                }
                i = i + 1;
            }
            proof {
                assert(keys@.take(keys@.len() as int) =~= keys@);
                assert forall|k: u32| orig.contains_key(k) implies #[trigger] keys@.contains(k) by {
                    assert(keys@.to_set().contains(k));
                }
            }
            self.put_slot(ts, map);
            proof {
                assert forall|j: int| 0 <= j < ts implies #[trigger] self.slot(j) == aged_slot(old(self).slot(j), t) by {
                    assert(self.buffers@[j] == before.buffers@[j]);
                    assert(before.slot(j) == aged_slot(old(self).slot(j), t));
                }
                assert(self.slot(ts as int) =~= aged_slot(old(self).slot(ts as int), t));
            }
            ts = ts + 1;
        }
    }

    /// Starts a PDU from its first fragment, read from `bitbuffer`: any unfinished PDU of
    /// the station on that timeslot is dropped.
    pub fn insert_first(&mut self, bitbuffer: &mut BitBuffer, t: TdmaTime, addr: TetraAddress, aie_info: Option<u64>)
        requires
            old(self).wf(),
            t.wf(),
            old(bitbuffer).wf(),
        ensures
            final(self).wf(),
            final(self).slot(t.t - 1) == old(self).slot(t.t - 1).insert(
                addr.ssi,
                DefragView {
                    state: DefragBufferState::Active,
                    addr,
                    t_first: t,
                    t_last: t,
                    num_frags: 1,
                    bits: unread(old(bitbuffer)),
                    pos: 0,
                    aie_info,
                },
            ),
            forall|j: int| 0 <= j < 4 && j != t.t - 1 ==> #[trigger] final(self).slot(j) == old(self).slot(j),
            final(bitbuffer).bits() == old(bitbuffer).bits(),
            final(bitbuffer).pos() == old(bitbuffer).bits().len(),
            final(bitbuffer).wf(),
    {
        let ts: usize = (t.t - 1) as usize;
        let mut map = self.take_slot(ts);
        let mut buf = DefragBuffer::new();
        buf.state = DefragBufferState::Active;
        buf.addr = addr;
        buf.t_first = t;
        buf.t_last = t;
        buf.num_frags = 1;
        buf.aie_info = aie_info;
        let n = bitbuffer.get_len_remaining();
        buf.buffer.copy_bits(bitbuffer, n);
        proof {
            assert(buf.buffer.bits() =~= unread(old(bitbuffer)));
        }
        map.insert(addr.ssi, buf);
        self.put_slot(ts, map);
        proof {
            assert(self.slot(ts as int) =~= old(self).slot(ts as int).insert(
                addr.ssi,
                DefragView {
                    state: DefragBufferState::Active,
                    addr,
                    t_first: t,
                    t_last: t,
                    num_frags: 1,
                    bits: unread(old(bitbuffer)),
                    pos: 0,
                    aie_info,
                },
            ));
        }
    }
}

impl BsDefrag {
    /// Adds a next fragment, read from `bitbuffer`, to the PDU of `ssi` on the timeslot of
    /// `t` (see [`after_next`]); the fragment is read only when it is taken.
    pub fn insert_next(&mut self, bitbuffer: &mut BitBuffer, ssi: u32, t: TdmaTime)
        requires
            old(self).wf(),
            t.wf(),
            old(bitbuffer).wf(),
        ensures
            final(self).wf(),
            final(self).slot(t.t - 1) == after_next(old(self).slot(t.t - 1), ssi, t, unread(old(bitbuffer))),
            forall|j: int| 0 <= j < 4 && j != t.t - 1 ==> #[trigger] final(self).slot(j) == old(self).slot(j),
            final(bitbuffer).bits() == old(bitbuffer).bits(),
            final(bitbuffer).pos() == (if takes_fragment(old(self).slot(t.t - 1), ssi, unread(old(bitbuffer))) {
                old(bitbuffer).bits().len() as int
            } else {
                old(bitbuffer).pos()
            }),
            final(bitbuffer).wf(),
    {
        let ts: usize = (t.t - 1) as usize;
        let ghost s0 = old(self).slot(ts as int);
        let ghost extra = unread(old(bitbuffer));
        let mut map = self.take_slot(ts);
        match map.remove(&ssi) {
            None => {
                proof {
                    assert(map@ == old(self).buffers@[ts as int]@);
                }
            },
            Some(mut buf) => {
                proof {
                    assert(buf@ == s0[ssi]);
                }
                if buf.state != DefragBufferState::Active {
                    map.insert(ssi, buf);
                } else if buf.buffer.get_len() as u128 + bitbuffer.get_len_remaining() as u128 > DEFRAG_BUF_MAX_LEN as u128 {
                    buf.reset();
                    map.insert(ssi, buf);
                } else {
                    buf.t_last = t;
                    buf.num_frags = buf.num_frags.saturating_add(1);
                    let n = bitbuffer.get_len_remaining();
                    buf.buffer.copy_bits(bitbuffer, n);
                    proof {
                        assert(buf.buffer.bits() =~= s0[ssi].bits + extra);
                    }
                    map.insert(ssi, buf);
                }
            },
        }
        self.put_slot(ts, map);
        proof {
            assert(self.slot(ts as int) =~= after_next(s0, ssi, t, extra));
        }
    }

    /// Adds the last fragment and hands the completed PDU out, read from its start. Only a
    /// really reassembled message comes back: None when the station had no buffer, when its
    /// buffer was not in use (aged out or reset) or when the fragment overflowed it. The
    /// station's buffer on that timeslot is removed in every case.
    pub fn insert_last(&mut self, bitbuffer: &mut BitBuffer, ssi: u32, t: TdmaTime) -> (r: Option<DefragBuffer>)
        requires
            old(self).wf(),
            t.wf(),
            old(bitbuffer).wf(),
        ensures
            final(self).wf(),
            ({
                let s1 = after_next(old(self).slot(t.t - 1), ssi, t, unread(old(bitbuffer)));
                &&& final(self).slot(t.t - 1) == s1.remove(ssi)
                &&& takes_fragment(old(self).slot(t.t - 1), ssi, unread(old(bitbuffer))) ==> (r matches Some(b)
                    && b@ == DefragView { state: DefragBufferState::Complete, pos: 0, ..s1[ssi] })
                &&& !takes_fragment(old(self).slot(t.t - 1), ssi, unread(old(bitbuffer))) ==> r is None
            }),
            forall|j: int| 0 <= j < 4 && j != t.t - 1 ==> #[trigger] final(self).slot(j) == old(self).slot(j),
            final(bitbuffer).bits() == old(bitbuffer).bits(),
            final(bitbuffer).wf(),
    {
        self.insert_next(bitbuffer, ssi, t);
        let ghost mid = *self;
        let ts: usize = (t.t - 1) as usize;
        let mut map = self.take_slot(ts);
        let r = match map.remove(&ssi) {
            None => None,
            Some(mut buf) => {
                if buf.state == DefragBufferState::Active {
                    buf.state = DefragBufferState::Complete;
                    buf.buffer.set_raw_pos(0);
                    Some(buf)
                } else {
                    None
                }
            },
        };
        self.put_slot(ts, map);
        proof {
            assert(self.slot(ts as int) =~= mid.slot(ts as int).remove(ssi));
            assert forall|j: int| 0 <= j < 4 && j != ts implies #[trigger] self.slot(j) == old(self).slot(j) by {
                assert(self.slot(j) == mid.slot(j));
            }
        }
        r
    }

    /// The encryption information of the PDU `ssi` is sending on the timeslot of `t`, while
    /// its buffer is in use.
    pub fn get_aie_info(&self, ssi: u32, t: TdmaTime) -> (r: Option<u64>)
        requires
            self.wf(),
            t.wf(),
        ensures
            r == (if self.slot(t.t - 1).contains_key(ssi) && self.slot(t.t - 1)[ssi].state
                != DefragBufferState::Inactive {
                self.slot(t.t - 1)[ssi].aie_info
            } else {
                None
            }),
    {
        let ts: usize = (t.t - 1) as usize;
        let m = &self.buffers[ts];
        match m.get(&ssi) {
            Some(b) => {
                if b.state == DefragBufferState::Inactive {
                    None
                } else {
                    b.aie_info
                }
            },
            None => None,
        }
    }
}

/// The keys of a map, each once.
fn keys_of(m: &HashMap<u32, DefragBuffer>) -> (r: Vec<u32>)
    ensures
        r@.to_set() == m@.dom(),
        r@.no_duplicates(),
{
    let mut out: Vec<u32> = Vec::new();
    let ghost keys = vstd::std_specs::hash::spec_keys_iter(m).remaining();
    for k in it: m.keys()
        invariant
            it.seq() == keys,
            out@ == keys.unref().take(it.index() as int),
    {
        out.push(*k);
        proof {
            assert(keys.unref().take(it.index() + 1) =~= out@);
        }
    }
    proof {
        assert(keys.unref().take(keys.len() as int) =~= keys.unref());
        assert(keys.unref().to_set() == m@.dom());
        assert forall|a: int, b: int| 0 <= a < b < out@.len() implies out@[a] != out@[b] by {
            assert(keys.no_duplicates());
            assert(keys[a] != keys[b]);
        }
    }
    out
}

/// A first fragment followed by a next one that fits reassembles their concatenation: the
/// buffer of the station holds both fragments' bits, counts two fragments, keeps its start
/// and moves its last time.
pub proof fn lemma_first_then_next(
    m: Map<u32, DefragView>,
    addr: TetraAddress,
    t1: TdmaTime,
    t2: TdmaTime,
    aie: Option<u64>,
    a: Seq<bool>,
    b: Seq<bool>,
)
    requires
        a.len() + b.len() <= DEFRAG_BUF_MAX_LEN,
    ensures
        ({
            let m1 = m.insert(
                addr.ssi,
                DefragView {
                    state: DefragBufferState::Active,
                    addr,
                    t_first: t1,
                    t_last: t1,
                    num_frags: 1,
                    bits: a,
                    pos: 0,
                    aie_info: aie,
                },
            );
            let m2 = after_next(m1, addr.ssi, t2, b);
            &&& m2.contains_key(addr.ssi)
            &&& m2[addr.ssi].bits == a + b
            &&& m2[addr.ssi].num_frags == 2
            &&& m2[addr.ssi].t_first == t1
            &&& m2[addr.ssi].t_last == t2
            &&& m2[addr.ssi].state == DefragBufferState::Active
        }),
{
}

} // verus!

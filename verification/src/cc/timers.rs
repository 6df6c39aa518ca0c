//! Timer-driven decisions of call control: call-setup resends held for a station's
//! energy-economy window, setup retries, hangtime expiry, uplink inactivity, and the calls
//! ended by a tick.
use std::collections::HashMap;
use vstd::prelude::*;
use vstd::std_specs::iter::IteratorSpec;

use crate::tdma::TdmaTime;

verus! {

broadcast use vstd::std_specs::hash::group_hash_axioms;

/// Timeslots per second of the air interface.
pub const TIMESLOTS_PER_SECOND: i64 = 72;

/// A pending individual-call setup is first retried this many timeslots after it started...
pub const DSETUP_FIRST_RETRY_TS: i64 = 18;

/// ...and then every this many timeslots (about 2.5 s).
pub const DSETUP_RETRY_INTERVAL_TS: i64 = 180;

/// A setup resend is held for the called station's monitoring window for at most this many
/// timeslots after setup started (about 105 frames); later it is sent regardless.
pub const EE_DSETUP_FALLBACK_TS: i64 = 423;

/// Whether the monitoring window `w` = (frame, multiframe, cycle length) is open at `now`.
pub open spec fn window_open(w: (u8, u8, u8), now: TdmaTime) -> bool {
    w.2 > 0 && now.f == w.0 && now.multiframe_index() % (w.2 as int) == w.1
}

/// Whether a setup resend to `dest` is held: the station is in energy economy with its window
/// closed now, and setup started less than `EE_DSETUP_FALLBACK_TS` timeslots ago. A station
/// without a published window is always reachable; without a setup clock nothing is held.
pub open spec fn dsetup_held(
    windows: Map<u32, (u8, u8, u8)>,
    dest: u32,
    now: TdmaTime,
    started: Option<TdmaTime>,
) -> bool {
    &&& windows.contains_key(dest)
    &&& !window_open(windows[dest], now)
    &&& started matches Some(s) && now.index() - s.index() < EE_DSETUP_FALLBACK_TS
}

/// Decides whether a setup resend to `dest_ssi` is held for its monitoring window.
pub fn ee_dsetup_blocks(
    windows: &HashMap<u32, (u8, u8, u8)>,
    dest_ssi: u32,
    now: TdmaTime,
    setup_started: Option<TdmaTime>,
) -> (r: bool)
    requires
        now.wf(),
        setup_started matches Some(s) ==> s.wf(),
    ensures
        r == dsetup_held(windows@, dest_ssi, now, setup_started),
{
    let closed = match windows.get(&dest_ssi) {
        Some(w) => !now.in_ee_monitoring_window(w.0, w.1, w.2),
        None => false,
    };
    if !closed {
        return false;
    }
    match setup_started {
        Some(s) => s.age(now) < EE_DSETUP_FALLBACK_TS,
        None => false,
    }
}

/// Whether a pending individual-call setup is retried now: from `DSETUP_FIRST_RETRY_TS` on,
/// on every multiple of `DSETUP_RETRY_INTERVAL_TS` timeslots since it started.
pub open spec fn retry_due(pending: bool, started: Option<TdmaTime>, now: TdmaTime) -> bool {
    pending && (started matches Some(s) && {
        let age = now.index() - s.index();
        age >= DSETUP_FIRST_RETRY_TS && age % (DSETUP_RETRY_INTERVAL_TS as int) == 0
    })
}

pub fn dsetup_retry_due(setup_pending: bool, setup_started: Option<TdmaTime>, now: TdmaTime) -> (r: bool)
    requires
        now.wf(),
        setup_started matches Some(s) ==> s.wf(),
    ensures
        r == retry_due(setup_pending, setup_started, now),
{
    if !setup_pending {
        return false;
    }
    match setup_started {
        Some(s) => {
            let age = s.age(now);
            age >= DSETUP_FIRST_RETRY_TS && age % DSETUP_RETRY_INTERVAL_TS == 0
        },
        None => false,
    }
}

/// The hangtime in timeslots.
pub fn hangtime_timeslots(hangtime_secs: u32) -> (r: i64)
    requires
        hangtime_secs * 72 <= i32::MAX,
    ensures
        r == hangtime_secs * TIMESLOTS_PER_SECOND,
{
    (hangtime_secs as i64) * 18 * 4
}

/// A group call.
#[derive(Debug, Clone, Copy, PartialEq, Eq, Structural)]
pub struct GroupCall {
    pub dest_gssi: u32,
    /// Traffic timeslot (1..=4).
    pub ts: u8,
    /// Whether someone is talking.
    pub tx_active: bool,
    /// When the last talker stopped; with no talker the call is in hangtime since then.
    pub hangtime_start: Option<TdmaTime>,
    /// When the call started, for its maximum duration.
    pub started: TdmaTime,
}

/// Whether a group call's hangtime ran out at `now`.
pub open spec fn hangtime_over(c: GroupCall, now: TdmaTime, hangtime_secs: u32) -> bool {
    !c.tx_active && (c.hangtime_start matches Some(since) && now.index() - since.index() > hangtime_secs
        * TIMESLOTS_PER_SECOND)
}

/// An individual (point-to-point) call.
#[derive(Debug, Clone, Copy, PartialEq, Eq, Structural)]
pub struct IndividualCall {
    /// Connected (past setup).
    pub active: bool,
    /// Duplex call: both parties talk at once.
    pub simplex_duplex: bool,
    pub floor_holder: Option<u32>,
    pub calling_ssi: u32,
    pub calling_ts: u8,
    pub calling_usage: u8,
    pub called_ssi: u32,
    pub called_ts: u8,
    pub called_usage: u8,
    /// Waiting for the called station's alert.
    pub setup_pending: bool,
    pub setup_started: Option<TdmaTime>,
    /// When the call was connected, for its maximum duration.
    pub connected_at: Option<TdmaTime>,
    /// The calling party is reached over the Brew backhaul.
    pub calling_over_brew: bool,
    /// The called party is reached over the Brew backhaul.
    pub called_over_brew: bool,
    /// The Brew session of a call with a party over the backhaul.
    pub brew_uuid: Option<u128>,
}

/// The call setup kept for resends: where it goes and whether it is resent.
#[derive(Debug, Clone, Copy, PartialEq, Eq, Structural)]
pub struct CachedSetup {
    pub dest_ssi: u32,
    pub is_individual: bool,
    pub resend: bool,
}

/// The echo service session.
#[derive(Debug, Clone, Copy, PartialEq, Eq, Structural)]
pub struct EchoSession {
    pub call_id: u16,
    pub ts: u8,
}

/// The calls of call control that the timers act on.
pub struct CallTable {
    pub group_calls: HashMap<u16, GroupCall>,
    pub individual_calls: HashMap<u16, IndividualCall>,
    /// The D-SETUP of each call, kept for resends and for the release of a stale circuit.
    pub setups: HashMap<u16, CachedSetup>,
    pub echo: Option<EchoSession>,
}

/// The timeslot the floor holder of a simplex individual call talks on.
pub open spec fn holder_ts(c: IndividualCall) -> u8 {
    if c.floor_holder == Some(c.calling_ssi) {
        c.calling_ts
    } else {
        c.called_ts
    }
}

/// Whether uplink silence on `ts` concerns this individual call: a connected simplex call
/// whose floor holder talks on `ts` (silence of the listening party is expected).
pub open spec fn holder_silent_on(c: IndividualCall, ts: u8) -> bool {
    c.active && !c.simplex_duplex && c.floor_holder is Some && holder_ts(c) == ts
}

/// Whether uplink silence on `ts` concerns this group call: its talker uses `ts`.
pub open spec fn talker_on(c: GroupCall, ts: u8) -> bool {
    c.ts == ts && c.tx_active
}

/// What uplink silence on a traffic timeslot leads to.
#[derive(Debug, Clone, Copy, PartialEq, Eq, Structural)]
pub enum InactivityAction {
    /// In an individual call the silent floor holder is told its transmission ceased and the
    /// peer is granted the floor.
    FloorToPeer {
        call_id: u16,
        holder_ssi: u32,
        holder_ts: u8,
        holder_usage: u8,
        peer_ssi: u32,
        peer_ts: u8,
        peer_usage: u8,
    },
    /// In a group call the transmission is ceased and the floor released, also towards Brew
    /// when the group is routed there.
    TxCeased { call_id: u16, dest_gssi: u32, ts: u8, notify_brew: bool },
    /// The echo session keeps its circuit: its floor is granted again.
    EchoRefresh { call_id: u16, ts: u8 },
    /// No call talks on the timeslot.
    Idle,
}

/// The action for the silent floor holder of individual call `id`.
pub open spec fn floor_to_peer(id: u16, c: IndividualCall) -> InactivityAction {
    if c.floor_holder == Some(c.calling_ssi) {
        InactivityAction::FloorToPeer {
            call_id: id,
            holder_ssi: c.calling_ssi,
            holder_ts: c.calling_ts,
            holder_usage: c.calling_usage,
            peer_ssi: c.called_ssi,
            peer_ts: c.called_ts,
            peer_usage: c.called_usage,
        }
    } else {
        InactivityAction::FloorToPeer {
            call_id: id,
            holder_ssi: c.floor_holder->0,
            holder_ts: c.called_ts,
            holder_usage: c.called_usage,
            peer_ssi: c.calling_ssi,
            peer_ts: c.calling_ts,
            peer_usage: c.calling_usage,
        }
    }
}

/// The call ids of `before` that are no longer in `after`, in order.
pub fn ended_calls<V>(before: &Vec<u16>, after: &HashMap<u16, V>) -> (r: Vec<u16>)
    ensures
        r@ == before@.filter(|id: u16| !after@.contains_key(id)),
{
    let mut out: Vec<u16> = Vec::new();
    let mut i: usize = 0;
    while i < before.len()
        invariant
            0 <= i <= before.len(),
            out@ == before@.take(i as int).filter(|id: u16| !after@.contains_key(id)),
        decreases before.len() - i,
    {
        let id = before[i];
        if !after.contains_key(&id) {
            out.push(id);
        }
        proof {
            assert(before@.take(i + 1) =~= before@.take(i as int).push(id));
            before@.take(i as int).lemma_filter_push(id, |id: u16| !after@.contains_key(id));
        }
        i = i + 1;
    }
    proof {
        assert(before@.take(before@.len() as int) =~= before@);
    }
    out
}

impl CallTable {
    /// Finds an individual call whose floor holder talks on `ts`.
    fn find_silent_holder(&self, ts: u8) -> (r: Option<u16>)
        ensures
            r matches Some(id) ==> self.individual_calls@.contains_key(id) && holder_silent_on(
                self.individual_calls@[id],
                ts,
            ),
            r is None ==> forall|id: u16| #[trigger]
                self.individual_calls@.contains_key(id) ==> !holder_silent_on(self.individual_calls@[id], ts),
    {
        let ghost keys = vstd::std_specs::hash::spec_keys_iter(&self.individual_calls).remaining();
        for k in it: self.individual_calls.keys()
            invariant
                it.seq() == keys,
                keys.unref().to_set() == self.individual_calls@.dom(),
                forall|j: int|
                    0 <= j < it.index() ==> !holder_silent_on(self.individual_calls@[#[trigger] keys.unref()[j]], ts),
        {
            let id = *k;
            proof {
                assert(keys.unref()[it.index() as int] == id);
                assert(keys.unref().contains(id));
            }
            match self.individual_calls.get(&id) {
                Some(c) => {
                    let holder = match c.floor_holder {
                        Some(h) => h,
                        None => 0,
                    };
                    let hts = if holder == c.calling_ssi && c.floor_holder.is_some() {
                        c.calling_ts
                    } else {
                        c.called_ts
                    };
                    if c.active && !c.simplex_duplex && c.floor_holder.is_some() && hts == ts {
                        return Some(id);
                    }
                },
                None => {},
            }
        }
        proof {
            assert forall|id: u16| #[trigger] self.individual_calls@.contains_key(id) implies !holder_silent_on(
                self.individual_calls@[id],
                ts,
            ) by {
                assert(keys.unref().to_set().contains(id));
                let j = choose|j: int| 0 <= j < keys.unref().len() && keys.unref()[j] == id;
                assert(!holder_silent_on(self.individual_calls@[keys.unref()[j]], ts));
            }
        }
        None
    }

    /// Finds a group call whose talker uses `ts`.
    fn find_talker(&self, ts: u8) -> (r: Option<u16>)
        ensures
            r matches Some(id) ==> self.group_calls@.contains_key(id) && talker_on(self.group_calls@[id], ts),
            r is None ==> forall|id: u16| #[trigger]
                self.group_calls@.contains_key(id) ==> !talker_on(self.group_calls@[id], ts),
    {
        let ghost keys = vstd::std_specs::hash::spec_keys_iter(&self.group_calls).remaining();
        for k in it: self.group_calls.keys()
            invariant
                it.seq() == keys,
                keys.unref().to_set() == self.group_calls@.dom(),
                forall|j: int| 0 <= j < it.index() ==> !talker_on(self.group_calls@[#[trigger] keys.unref()[j]], ts),
        {
            let id = *k;
            proof {
                assert(keys.unref()[it.index() as int] == id);
                assert(keys.unref().contains(id));
            }
            match self.group_calls.get(&id) {
                Some(c) => {
                    if c.ts == ts && c.tx_active {
                        return Some(id);
                    }
                },
                None => {},
            }
        }
        proof {
            assert forall|id: u16| #[trigger] self.group_calls@.contains_key(id) implies !talker_on(
                self.group_calls@[id],
                ts,
            ) by {
                assert(keys.unref().to_set().contains(id));
                let j = choose|j: int| 0 <= j < keys.unref().len() && keys.unref()[j] == id;
                assert(!talker_on(self.group_calls@[keys.unref()[j]], ts));
            }
        }
        None
    }

    /// Handles uplink silence on traffic timeslot `ts` (the base station's T323). An
    /// individual call whose floor holder fell silent hands the floor to the peer; else a
    /// group call whose talker fell silent goes into hangtime; else an echo session on the
    /// timeslot is kept alive.
    pub fn handle_ul_inactivity_timeout<F: Fn(u32) -> bool>(
        &mut self,
        ts: u8,
        now: TdmaTime,
        gssi_routable: &F,
    ) -> (r: InactivityAction)
        requires
            forall|g: u32| gssi_routable.requires((g,)),
        ensures
            final(self).echo == old(self).echo,
            (exists|id: u16| #[trigger]
                old(self).individual_calls@.contains_key(id) && holder_silent_on(old(self).individual_calls@[id], ts))
                ==> (r matches InactivityAction::FloorToPeer { call_id, .. } && {
                &&& old(self).individual_calls@.contains_key(call_id)
                &&& holder_silent_on(old(self).individual_calls@[call_id], ts)
                &&& r == floor_to_peer(call_id, old(self).individual_calls@[call_id])
                &&& final(self).individual_calls@ == old(self).individual_calls@.insert(
                    call_id,
                    IndividualCall { floor_holder: None, ..old(self).individual_calls@[call_id] },
                )
                &&& final(self).group_calls@ == old(self).group_calls@
            }),
            !(exists|id: u16| #[trigger]
                old(self).individual_calls@.contains_key(id) && holder_silent_on(old(self).individual_calls@[id], ts))
                ==> {
                &&& final(self).individual_calls@ == old(self).individual_calls@
                &&& (exists|id: u16| #[trigger]
                    old(self).group_calls@.contains_key(id) && talker_on(old(self).group_calls@[id], ts)) ==> (
                r matches InactivityAction::TxCeased { call_id, dest_gssi, ts: t, notify_brew } && {
                    &&& old(self).group_calls@.contains_key(call_id)
                    &&& talker_on(old(self).group_calls@[call_id], ts)
                    &&& dest_gssi == old(self).group_calls@[call_id].dest_gssi
                    &&& t == ts
                    &&& gssi_routable.ensures((dest_gssi,), notify_brew)
                    &&& final(self).group_calls@ == old(self).group_calls@.insert(
                        call_id,
                        GroupCall {
                            tx_active: false,
                            hangtime_start: Some(now),
                            ..old(self).group_calls@[call_id]
                        },
                    )
                })
                &&& !(exists|id: u16| #[trigger]
                    old(self).group_calls@.contains_key(id) && talker_on(old(self).group_calls@[id], ts)) ==> {
                    &&& final(self).group_calls@ == old(self).group_calls@
                    &&& r == (match old(self).echo {
                        Some(e) => if e.ts == ts {
                            InactivityAction::EchoRefresh { call_id: e.call_id, ts }
                        } else {
                            InactivityAction::Idle
                        },
                        None => InactivityAction::Idle,
                    })
                }
            },
    {
        match self.find_silent_holder(ts) {
            Some(call_id) => {
                let c = *self.individual_calls.get(&call_id).unwrap();
                let r = floor_to_peer_action(call_id, c);
                let mut c2 = c;
                c2.floor_holder = None;
                self.individual_calls.insert(call_id, c2);
                return r;
            },
            None => {},
        }
        match self.find_talker(ts) {
            Some(call_id) => {
                let c = *self.group_calls.get(&call_id).unwrap();
                let mut c2 = c;
                c2.tx_active = false;
                c2.hangtime_start = Some(now);
                self.group_calls.insert(call_id, c2);
                let notify_brew = gssi_routable(c.dest_gssi);
                InactivityAction::TxCeased { call_id, dest_gssi: c.dest_gssi, ts, notify_brew }
            },
            None => match self.echo {
                Some(e) => if e.ts == ts {
                    InactivityAction::EchoRefresh { call_id: e.call_id, ts }
                } else {
                    InactivityAction::Idle
                },
                None => InactivityAction::Idle,
            },
        }
    }

    /// The group calls whose hangtime ran out at `now`, in some order, each once.
    pub fn hangtime_expired_calls(&self, now: TdmaTime, hangtime_secs: u32) -> (r: Vec<u16>)
        requires
            now.wf(),
            hangtime_secs * 72 <= i32::MAX,
            forall|id: u16| #[trigger]
                self.group_calls@.contains_key(id) ==> (self.group_calls@[id].hangtime_start matches Some(s)
                    ==> s.wf()),
        ensures
            r@.no_duplicates(),
            r@.to_set() == self.group_calls@.dom().filter(
                |id: u16| hangtime_over(self.group_calls@[id], now, hangtime_secs),
            ),
    {
        let limit = hangtime_timeslots(hangtime_secs);
        let mut out: Vec<u16> = Vec::new();
        let ghost keys = vstd::std_specs::hash::spec_keys_iter(&self.group_calls).remaining();
        for k in it: self.group_calls.keys()
            invariant
                it.seq() == keys,
                keys.no_duplicates(),
                now.wf(),
                limit == hangtime_secs * TIMESLOTS_PER_SECOND,
                keys.unref().to_set() == self.group_calls@.dom(),
                forall|id: u16| #[trigger]
                    self.group_calls@.contains_key(id) ==> (self.group_calls@[id].hangtime_start matches Some(s)
                        ==> s.wf()),
                out@.no_duplicates(),
                forall|id: u16| #[trigger]
                    out@.contains(id) <==> (keys.unref().take(it.index() as int).contains(id) && hangtime_over(
                        self.group_calls@[id],
                        now,
                        hangtime_secs,
                    )),
        {
            let ghost idx = it.index();
            let id = *k;
            let ghost before = out@;
            proof {
                assert(keys.unref()[idx as int] == id);
                assert(keys.unref().contains(id));
                assert(keys.unref().take(idx + 1) =~= keys.unref().take(idx as int).push(id));
                assert(!keys.unref().take(idx as int).contains(id)) by {
                    if keys.unref().take(idx as int).contains(id) {
                        let a = choose|a: int| 0 <= a < idx && keys.unref().take(idx as int)[a] == id;
                        assert(keys[a] != keys[idx as int]);
                    }
                }
            }
            let over = match self.group_calls.get(&id) {
                Some(c) => !c.tx_active && match c.hangtime_start {
                    Some(since) => since.age(now) > limit,
                    None => false,
                },
                None => false,
            };
            if over {
                out.push(id);
            }
            proof {
                assert forall|x: u16| #[trigger] out@.contains(x) <==> (keys.unref().take(idx + 1).contains(x)
                    && hangtime_over(self.group_calls@[x], now, hangtime_secs)) by {
                    vstd::seq_lib::lemma_seq_contains_after_push(keys.unref().take(idx as int), id, x);
                    if over {
                        vstd::seq_lib::lemma_seq_contains_after_push(before, id, x);
                    }
                }
                if over {
                    assert forall|a: int, b: int| 0 <= a < b < out@.len() implies out@[a] != out@[b] by {
                        if b == out@.len() - 1 {
                            assert(before.contains(out@[a]));
                        }
                    }
                }
            }
        }
        proof {
            assert(keys.unref().take(keys.len() as int) =~= keys.unref());
            assert(out@.to_set() =~= self.group_calls@.dom().filter(
                |id: u16| hangtime_over(self.group_calls@[id], now, hangtime_secs),
            )) by {
                assert forall|id: u16| self.group_calls@.contains_key(id) implies keys.unref().contains(id) by {
                    assert(keys.unref().to_set().contains(id));
                }
            }
        }
        out
    }
}

/// The action for the silent floor holder of individual call `id`.
fn floor_to_peer_action(id: u16, c: IndividualCall) -> (r: InactivityAction)
    requires
        c.floor_holder is Some,
    ensures
        r == floor_to_peer(id, c),
{
    let holder = match c.floor_holder {
        Some(h) => h,
        None => 0,
    };
    if holder == c.calling_ssi {
        InactivityAction::FloorToPeer {
            call_id: id,
            holder_ssi: c.calling_ssi,
            holder_ts: c.calling_ts,
            holder_usage: c.calling_usage,
            peer_ssi: c.called_ssi,
            peer_ts: c.called_ts,
            peer_usage: c.called_usage,
        }
    } else {
        InactivityAction::FloorToPeer {
            call_id: id,
            holder_ssi: holder,
            holder_ts: c.called_ts,
            holder_usage: c.called_usage,
            peer_ssi: c.calling_ssi,
            peer_ts: c.calling_ts,
            peer_usage: c.calling_usage,
        }
    }
}

/// The bounded fallback: once setup has been pending for `EE_DSETUP_FALLBACK_TS` timeslots,
/// no resend is held any more; a station without a published window is never held.
pub proof fn lemma_fallback_releases(
    windows: Map<u32, (u8, u8, u8)>,
    dest: u32,
    now: TdmaTime,
    started: Option<TdmaTime>,
)
    ensures
        (started matches Some(s) && now.index() - s.index() >= EE_DSETUP_FALLBACK_TS) ==> !dsetup_held(
            windows,
            dest,
            now,
            started,
        ),
        !windows.contains_key(dest) ==> !dsetup_held(windows, dest, now, started),
        started is None ==> !dsetup_held(windows, dest, now, started),
{
}


/// When the floor holder of an individual call falls silent, the floor goes to the other
/// party: the holder is the silent station with its own timeslot and usage, the peer is the
/// other party of the call (never the holder again) with the peer's timeslot and usage.
pub proof fn lemma_floor_goes_to_other_party(id: u16, c: IndividualCall)
    requires
        c.floor_holder == Some(c.calling_ssi) || c.floor_holder == Some(c.called_ssi),
        c.calling_ssi != c.called_ssi,
    ensures
        floor_to_peer(id, c) matches InactivityAction::FloorToPeer {
            call_id,
            holder_ssi,
            holder_ts,
            holder_usage,
            peer_ssi,
            peer_ts,
            peer_usage,
        } && {
            &&& call_id == id
            &&& Some(holder_ssi) == c.floor_holder
            &&& peer_ssi != holder_ssi
            &&& (peer_ssi == c.calling_ssi || peer_ssi == c.called_ssi)
            &&& holder_ssi == c.calling_ssi ==> holder_ts == c.calling_ts && holder_usage == c.calling_usage
                && peer_ts == c.called_ts && peer_usage == c.called_usage
            &&& holder_ssi == c.called_ssi ==> holder_ts == c.called_ts && holder_usage == c.called_usage
                && peer_ts == c.calling_ts && peer_usage == c.calling_usage
        },
{
}

} // verus!

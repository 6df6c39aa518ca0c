//! One tick of call control: calls past their maximum duration, individual setups past
//! their timeout, setup retries held for a station's energy-economy window, hangtime
//! expiry, and the tasks of the circuit manager (D-SETUP resends and the forced close of a
//! stale circuit).
use std::collections::HashMap;
use vstd::prelude::*;
use vstd::std_specs::iter::IteratorSpec;

use super::timers::{
    dsetup_held, dsetup_retry_due, ee_dsetup_blocks, hangtime_over, retry_due, CachedSetup, CallTable,
    GroupCall, IndividualCall, TIMESLOTS_PER_SECOND,
};
use crate::tdma::TdmaTime;

verus! {

broadcast use vstd::std_specs::hash::group_hash_axioms;

/// An individual setup not answered for this many timeslots (60 s) is released.
pub const SETUP_TIMEOUT_TS: i64 = 4320;

/// Disconnect cause "user requested disconnection".
pub const CAUSE_USER_REQUESTED: u8 = 1;

/// Disconnect cause "expiry of timer".
pub const CAUSE_EXPIRY_OF_TIMER: u8 = 13;

/// A task of the circuit manager for this tick.
#[derive(Debug, Clone, Copy, PartialEq, Eq, Structural)]
pub enum CircuitTask {
    /// Time to resend the D-SETUP of a call (late entry), on the circuit `usage`/`ts`.
    SendDSetup { call_id: u16, usage: u8, ts: u8 },
    /// The circuit of a call on `ts` is stale and must be closed.
    SendClose { call_id: u16, ts: u8 },
}

/// A traffic circuit: its usage marker and timeslot.
#[derive(Debug, Clone, Copy, PartialEq, Eq, Structural)]
pub struct CircuitSlot {
    pub usage: u8,
    pub ts: u8,
}

/// What call control does in a tick.
#[derive(Debug, Clone, Copy, PartialEq, Eq, Structural)]
pub enum CcAction {
    /// Send the cached D-SETUP of the call to `dest_ssi` again: on the control channel
    /// (`channel` None) or with the allocation of its circuit. A late
    /// entry into an established group call grants the floor to another user.
    ResendSetup { call_id: u16, dest_ssi: u32, channel: Option<CircuitSlot>, late_entry: bool },
    /// Release a group call with the cause.
    ReleaseGroup { call_id: u16, cause: u8 },
    /// Release an individual call with the cause.
    ReleaseIndividual { call_id: u16, cause: u8 },
    /// Force-close a stale circuit on `ts`: D-RELEASE (expiry of timer) to `dest_release`
    /// and to `party_release` when set, a release of the Brew session `network_release` when
    /// set, then close the circuit and free `ts` and `peer_ts`.
    ForceClose {
        call_id: u16,
        ts: u8,
        dest_release: Option<u32>,
        party_release: Option<u32>,
        network_release: Option<u128>,
        peer_ts: Option<u8>,
    },
}

/// A call that a tick ended, as reported to telemetry (the group is not known any more).
#[derive(Debug, Clone, Copy, PartialEq, Eq, Structural)]
pub enum CallEndEvent {
    GroupCallEnded { call_id: u16, gssi: u32 },
    IndividualCallEnded { call_id: u16 },
}

/// `e` reports a call (a group call when `group`) that was among `before` and is no
/// longer among `after`.
pub open spec fn ended_in(e: CallEndEvent, group: bool, before: Set<u16>, after: Set<u16>) -> bool {
    match e {
        CallEndEvent::GroupCallEnded { call_id, gssi } => group && gssi == 0 && before.contains(call_id)
            && !after.contains(call_id),
        CallEndEvent::IndividualCallEnded { call_id } => !group && before.contains(call_id) && !after.contains(
            call_id,
        ),
    }
}

pub open spec fn is_group_event(e: CallEndEvent) -> bool {
    e is GroupCallEnded
}

/// What a tick did: the timer actions (in no particular order) and the circuit-manager
/// actions (in task order).
pub struct TickActions {
    pub timer: Vec<CcAction>,
    pub circuit: Vec<CcAction>,
}

/// The calls and cached setups of call control as values.
#[verifier::ext_equal]
pub struct CallTableView {
    pub groups: Map<u16, GroupCall>,
    pub inds: Map<u16, IndividualCall>,
    pub setups: Map<u16, CachedSetup>,
}

/// Every time stored in the calls is a valid TDMA time.
pub open spec fn times_wf(v: CallTableView) -> bool {
    &&& forall|id: u16| #[trigger]
        v.groups.contains_key(id) ==> {
            &&& v.groups[id].started.wf()
            &&& v.groups[id].hangtime_start matches Some(s) ==> s.wf()
        }
    &&& forall|id: u16| #[trigger]
        v.inds.contains_key(id) ==> {
            &&& v.inds[id].setup_started matches Some(s) ==> s.wf()
            &&& v.inds[id].connected_at matches Some(s) ==> s.wf()
        }
}

/// `secs` (when not 0) have passed from `start` to `now`.
pub open spec fn over_limit(start: TdmaTime, now: TdmaTime, secs: u32) -> bool {
    secs > 0 && now.index() - start.index() >= secs * TIMESLOTS_PER_SECOND
}

pub open spec fn group_timed_out(c: GroupCall, now: TdmaTime, secs: u32) -> bool {
    over_limit(c.started, now, secs)
}

pub open spec fn ind_timed_out(c: IndividualCall, now: TdmaTime, secs: u32) -> bool {
    c.active && (c.connected_at matches Some(s) && over_limit(s, now, secs))
}

pub open spec fn setup_timed_out(c: IndividualCall, now: TdmaTime) -> bool {
    c.setup_pending && (c.setup_started matches Some(s) && now.index() - s.index() >= SETUP_TIMEOUT_TS)
}

/// A pending setup is retried now: the retry is due, its cached setup is an individual one,
/// and the called station is not held for its monitoring window.
pub open spec fn retry_now(v: CallTableView, id: u16, now: TdmaTime, windows: Map<u32, (u8, u8, u8)>) -> bool {
    let c = v.inds[id];
    &&& retry_due(c.setup_pending, c.setup_started, now)
    &&& v.setups.contains_key(id)
    &&& v.setups[id].is_individual
    &&& !dsetup_held(windows, v.setups[id].dest_ssi, now, c.setup_started)
}

/// The table after releasing the group calls `gs` and the individual calls `is`.
pub open spec fn drop_calls(v: CallTableView, gs: Set<u16>, is: Set<u16>) -> CallTableView {
    CallTableView {
        groups: v.groups.remove_keys(gs),
        inds: v.inds.remove_keys(is),
        setups: v.setups.remove_keys(gs.union(is)),
    }
}

pub open spec fn timed_out_groups(v: CallTableView, now: TdmaTime, secs: u32) -> Set<u16> {
    v.groups.dom().filter(|id: u16| group_timed_out(v.groups[id], now, secs))
}

pub open spec fn timed_out_inds(v: CallTableView, now: TdmaTime, secs: u32) -> Set<u16> {
    v.inds.dom().filter(|id: u16| ind_timed_out(v.inds[id], now, secs))
}

/// After the maximum-duration check.
pub open spec fn after_timeouts(v: CallTableView, now: TdmaTime, secs: u32) -> CallTableView {
    drop_calls(v, timed_out_groups(v, now, secs), timed_out_inds(v, now, secs))
}

pub open spec fn expired_setups(v: CallTableView, now: TdmaTime) -> Set<u16> {
    v.inds.dom().filter(|id: u16| setup_timed_out(v.inds[id], now))
}

/// After the setup-timeout check.
pub open spec fn after_setup(v: CallTableView, now: TdmaTime) -> CallTableView {
    drop_calls(v, Set::empty(), expired_setups(v, now))
}

pub open spec fn retried(v: CallTableView, now: TdmaTime, windows: Map<u32, (u8, u8, u8)>) -> Set<u16> {
    v.inds.dom().filter(|id: u16| retry_now(v, id, now, windows))
}

pub open spec fn hangtime_ended(v: CallTableView, now: TdmaTime, hangtime_secs: u32) -> Set<u16> {
    v.groups.dom().filter(|id: u16| hangtime_over(v.groups[id], now, hangtime_secs))
}

/// After the hangtime check.
pub open spec fn after_hangtime(v: CallTableView, now: TdmaTime, hangtime_secs: u32) -> CallTableView {
    drop_calls(v, hangtime_ended(v, now, hangtime_secs), Set::empty())
}

/// `a` releases a call of `s` (a group call when `group`) with `cause`.
pub open spec fn is_release_in(a: CcAction, group: bool, cause: u8, s: Set<u16>) -> bool {
    match a {
        CcAction::ReleaseGroup { call_id, cause: c } => group && c == cause && s.contains(call_id),
        CcAction::ReleaseIndividual { call_id, cause: c } => !group && c == cause && s.contains(call_id),
        _ => false,
    }
}

/// `a` resends, on the control channel, the cached setup of a call of `s`.
pub open spec fn is_resend_in(a: CcAction, s: Set<u16>, setups: Map<u16, CachedSetup>) -> bool {
    match a {
        CcAction::ResendSetup { call_id, dest_ssi, channel, late_entry } => s.contains(call_id) && dest_ssi
            == setups[call_id].dest_ssi && channel is None && !late_entry,
        _ => false,
    }
}

/// The timer actions of a tick from table `v`: releases of the calls past their maximum
/// duration (group calls as user requested, individual calls as expiry of timer), of the
/// setups past their timeout (expiry of timer), the setup retries, and the releases of the
/// group calls whose hangtime ran out (user requested).
pub open spec fn timer_action(
    v: CallTableView,
    a: CcAction,
    now: TdmaTime,
    windows: Map<u32, (u8, u8, u8)>,
    hangtime_secs: u32,
    call_timeout_secs: u32,
) -> bool {
    let v1 = after_timeouts(v, now, call_timeout_secs);
    let v2 = after_setup(v1, now);
    ||| is_release_in(a, true, CAUSE_USER_REQUESTED, timed_out_groups(v, now, call_timeout_secs))
    ||| is_release_in(a, false, CAUSE_EXPIRY_OF_TIMER, timed_out_inds(v, now, call_timeout_secs))
    ||| is_release_in(a, false, CAUSE_EXPIRY_OF_TIMER, expired_setups(v1, now))
    ||| is_resend_in(a, retried(v2, now, windows), v2.setups)
    ||| is_release_in(a, true, CAUSE_USER_REQUESTED, hangtime_ended(v2, now, hangtime_secs))
}

/// The table after the timer part of a tick.
pub open spec fn after_timers(v: CallTableView, now: TdmaTime, hangtime_secs: u32, call_timeout_secs: u32) -> CallTableView {
    after_hangtime(after_setup(after_timeouts(v, now, call_timeout_secs), now), now, hangtime_secs)
}

/// The forced close of the stale circuit of call `id` on `ts`.
pub open spec fn force_close(v: CallTableView, id: u16, ts: u8) -> CcAction {
    let ind = v.inds.contains_key(id);
    let c = v.inds[id];
    CcAction::ForceClose {
        call_id: id,
        ts,
        dest_release: if v.setups.contains_key(id) {
            Some(v.setups[id].dest_ssi)
        } else {
            None
        },
        party_release: if !ind {
            None
        } else if v.setups.contains_key(id) {
            if !c.calling_over_brew {
                Some(c.calling_ssi)
            } else {
                None
            }
        } else if !c.calling_over_brew {
            Some(c.calling_ssi)
        } else if !c.called_over_brew {
            Some(c.called_ssi)
        } else {
            None
        },
        network_release: if ind && (c.called_over_brew || c.calling_over_brew) {
            c.brew_uuid
        } else {
            None
        },
        peer_ts: if ind && c.called_ts != c.calling_ts && c.called_ts != ts {
            Some(c.called_ts)
        } else {
            None
        },
    }
}

/// The effect of one circuit-manager task.
pub open spec fn task_step(
    v: CallTableView,
    task: CircuitTask,
    now: TdmaTime,
    windows: Map<u32, (u8, u8, u8)>,
) -> (CallTableView, Seq<CcAction>) {
    match task {
        CircuitTask::SendDSetup { call_id, usage, ts } => {
            if !v.setups.contains_key(call_id) || !v.setups[call_id].resend {
                (v, Seq::empty())
            } else {
                let cs = v.setups[call_id];
                let started = if v.inds.contains_key(call_id) {
                    v.inds[call_id].setup_started
                } else {
                    None
                };
                if cs.is_individual && dsetup_held(windows, cs.dest_ssi, now, started) {
                    (v, Seq::empty())
                } else {
                    (
                        v,
                        seq![
                            CcAction::ResendSetup {
                                call_id,
                                dest_ssi: cs.dest_ssi,
                                channel: if cs.is_individual {
                                    None
                                } else {
                                    Some(CircuitSlot { usage, ts })
                                },
                                late_entry: v.groups.contains_key(call_id),
                            },
                        ],
                    )
                }
            }
        },
        CircuitTask::SendClose { call_id, ts } => (
            CallTableView {
                groups: v.groups.remove(call_id),
                inds: v.inds.remove(call_id),
                setups: v.setups.remove(call_id),
            },
            seq![force_close(v, call_id, ts)],
        ),
    }
}

/// The effect of the circuit-manager tasks, in order.
pub open spec fn run_tasks(
    v: CallTableView,
    tasks: Seq<CircuitTask>,
    now: TdmaTime,
    windows: Map<u32, (u8, u8, u8)>,
) -> (CallTableView, Seq<CcAction>)
    decreases tasks.len(),
{
    if tasks.len() == 0 {
        (v, Seq::empty())
    } else {
        let (v1, a1) = run_tasks(v, tasks.drop_last(), now, windows);
        let (v2, a2) = task_step(v1, tasks.last(), now, windows);
        (v2, a1 + a2)
    }
}

/// After the timer part of a tick no call outlives its limits: no remaining call is past its
/// maximum duration, no remaining setup past its timeout, and no remaining group call past
/// its hangtime.
pub proof fn lemma_tick_leaves_no_expired_call(
    v: CallTableView,
    now: TdmaTime,
    hangtime_secs: u32,
    call_timeout_secs: u32,
)
    ensures
        ({
            let w = after_timers(v, now, hangtime_secs, call_timeout_secs);
            &&& forall|id: u16| #[trigger] w.groups.contains_key(id) ==> !group_timed_out(w.groups[id], now, call_timeout_secs)
                && !hangtime_over(w.groups[id], now, hangtime_secs)
            &&& forall|id: u16| #[trigger] w.inds.contains_key(id) ==> !ind_timed_out(w.inds[id], now, call_timeout_secs)
                && !setup_timed_out(w.inds[id], now)
        }),
{
    let v1 = after_timeouts(v, now, call_timeout_secs);
    let v2 = after_setup(v1, now);
    let w = after_timers(v, now, hangtime_secs, call_timeout_secs);
    assert forall|id: u16| #[trigger] w.groups.contains_key(id) implies !group_timed_out(w.groups[id], now, call_timeout_secs)
        && !hangtime_over(w.groups[id], now, hangtime_secs) by {
        assert(v2.groups.contains_key(id));
        assert(!hangtime_ended(v2, now, hangtime_secs).contains(id));
        assert(v.groups.contains_key(id));
        assert(!timed_out_groups(v, now, call_timeout_secs).contains(id));
    }
    assert forall|id: u16| #[trigger] w.inds.contains_key(id) implies !ind_timed_out(w.inds[id], now, call_timeout_secs)
        && !setup_timed_out(w.inds[id], now) by {
        assert(v1.inds.contains_key(id));
        assert(!expired_setups(v1, now).contains(id));
        assert(v.inds.contains_key(id));
        assert(!timed_out_inds(v, now, call_timeout_secs).contains(id));
    }
}

/// The ids of the entries of `m` that satisfy `sp`.
fn collect_ids<V, F: Fn(u16, &V) -> bool>(m: &HashMap<u16, V>, pred: &F, Ghost(sp): Ghost<spec_fn(u16, V) -> bool>) -> (r: Vec<u16>)
    requires
        forall|id: u16| #[trigger] m@.contains_key(id) ==> pred.requires((id, &m@[id])),
        forall|id: u16, b: bool| m@.contains_key(id) && #[trigger] pred.ensures((id, &m@[id]), b) ==> b == sp(id, m@[id]),
    ensures
        r@.to_set() == m@.dom().filter(|id: u16| sp(id, m@[id])),
        r@.no_duplicates(),
{
    let mut out: Vec<u16> = Vec::new();
    let ghost keys = vstd::std_specs::hash::spec_keys_iter(m).remaining();
    for k in it: m.keys()
        invariant
            it.seq() == keys,
            keys.no_duplicates(),
            out@.no_duplicates(),
            keys.unref().to_set() == m@.dom(),
            forall|id: u16| #[trigger] m@.contains_key(id) ==> pred.requires((id, &m@[id])),
            forall|id: u16, b: bool| m@.contains_key(id) && #[trigger] pred.ensures((id, &m@[id]), b) ==> b == sp(id, m@[id]),
            forall|id: u16| #[trigger]
                out@.contains(id) <==> (keys.unref().take(it.index() as int).contains(id) && sp(id, m@[id])),
    {
        let ghost idx = it.index();
        let id = *k;
        let ghost before = out@;
        proof {
            assert(keys.unref()[idx as int] == id);
            assert(keys.unref().contains(id));
            assert(keys.unref().to_set().contains(id));
            assert(keys.unref().take(idx + 1) =~= keys.unref().take(idx as int).push(id));
            assert(!keys.unref().take(idx as int).contains(id)) by {
                if keys.unref().take(idx as int).contains(id) {
                    let a = choose|a: int| 0 <= a < idx && keys.unref().take(idx as int)[a] == id;
                    assert(keys[a] != keys[idx as int]);
                }
            }
        }
        let hit = match m.get(&id) {
            Some(v) => pred(id, v),
            None => false,
        };
        if hit {
            out.push(id);
        }
        proof {
            assert forall|x: u16| #[trigger] out@.contains(x) <==> (keys.unref().take(idx + 1).contains(x) && sp(
                x,
                m@[x],
            )) by {
                vstd::seq_lib::lemma_seq_contains_after_push(keys.unref().take(idx as int), id, x);
                if hit {
                    vstd::seq_lib::lemma_seq_contains_after_push(before, id, x);
                }
            }
            if hit {
                assert forall|a: int, b: int| 0 <= a < b < out@.len() implies out@[a] != out@[b] by {
                    if b == out@.len() - 1 {
                        assert(before.contains(out@[a]));
                    }
                }
            }
        }
    }
    proof {
        assert(keys.unref().take(keys.len() as int) =~= keys.unref());
        assert forall|id: u16| m@.contains_key(id) implies keys.unref().contains(id) by {
            assert(keys.unref().to_set().contains(id));
        }
        assert(out@.to_set() =~= m@.dom().filter(|id: u16| sp(id, m@[id])));
    }
    out
}

/// Appends an end event for every call of `ids` that `after` no longer holds.
fn push_ended<V>(out: &mut Vec<CallEndEvent>, ids: &Vec<u16>, after: &HashMap<u16, V>, group: bool)
    requires
        ids@.no_duplicates(),
        old(out)@.no_duplicates(),
        forall|e: CallEndEvent| #[trigger] old(out)@.contains(e) ==> is_group_event(e) != group,
    ensures
        final(out)@.no_duplicates(),
        forall|e: CallEndEvent| #[trigger]
            final(out)@.contains(e) <==> (old(out)@.contains(e) || ended_in(e, group, ids@.to_set(), after@.dom())),
{
    let mut i: usize = 0;
    while i < ids.len()
        invariant
            0 <= i <= ids.len(),
            ids@.no_duplicates(),
            forall|e: CallEndEvent| #[trigger] old(out)@.contains(e) ==> is_group_event(e) != group,
            out@.no_duplicates(),
            forall|e: CallEndEvent| #[trigger]
                out@.contains(e) <==> (old(out)@.contains(e) || ended_in(e, group, ids@.take(i as int).to_set(), after@.dom())),
        decreases ids.len() - i,
    {
        let id = ids[i];
        let ghost before = out@;
        proof {
            assert(ids@.take(i + 1) =~= ids@.take(i as int).push(id));
            ids@.take(i as int).lemma_push_to_set_commute(id);
            assert(!ids@.take(i as int).contains(id)) by {
                if ids@.take(i as int).contains(id) {
                    let a = choose|a: int| 0 <= a < i && ids@.take(i as int)[a] == id;
                    assert(ids@[a] != ids@[i as int]);
                }
            }
        }
        if !after.contains_key(&id) {
            let ev = if group {
                CallEndEvent::GroupCallEnded { call_id: id, gssi: 0 }
            } else {
                CallEndEvent::IndividualCallEnded { call_id: id }
            };
            out.push(ev);
            proof {
                assert(!before.contains(ev));
                assert forall|a: int, b: int| 0 <= a < b < out@.len() implies out@[a] != out@[b] by {
                    if b == out@.len() - 1 {
                        assert(before.contains(out@[a]));
                    }
                }
                assert forall|e: CallEndEvent| #[trigger]
                    out@.contains(e) <==> (old(out)@.contains(e) || ended_in(e, group, ids@.take(i + 1).to_set(), after@.dom())) by {
                    vstd::seq_lib::lemma_seq_contains_after_push(before, ev, e);
                }
            }
        } else {
            proof {
                assert forall|e: CallEndEvent| #[trigger]
                    out@.contains(e) <==> (old(out)@.contains(e) || ended_in(e, group, ids@.take(i + 1).to_set(), after@.dom())) by {
                }
            }
        }
        i = i + 1;
    }
    proof {
        assert(ids@.take(ids.len() as int) =~= ids@);
    }
}

/// Removes the entries of `ids` from `m`.
fn remove_ids<V>(m: &mut HashMap<u16, V>, ids: &Vec<u16>)
    ensures
        final(m)@ == old(m)@.remove_keys(ids@.to_set()),
{
    let mut i: usize = 0;
    while i < ids.len()
        invariant
            0 <= i <= ids.len(),
            m@ == old(m)@.remove_keys(ids@.take(i as int).to_set()),
        decreases ids.len() - i,
    {
        let ghost before = m@;
        m.remove(&ids[i]);
        proof {
            assert(ids@.take(i + 1) =~= ids@.take(i as int).push(ids@[i as int]));
            ids@.take(i as int).lemma_push_to_set_commute(ids@[i as int]);
            assert(m@ =~= old(m)@.remove_keys(ids@.take(i + 1).to_set()));
        }
        i = i + 1;
    }
    proof {
        assert(ids@.take(ids.len() as int) =~= ids@);
    }
}

/// Appends a release of every call of `ids`.
fn push_releases(out: &mut Vec<CcAction>, ids: &Vec<u16>, group: bool, cause: u8)
    ensures
        forall|a: CcAction| #[trigger]
            final(out)@.contains(a) <==> (old(out)@.contains(a) || is_release_in(a, group, cause, ids@.to_set())),
{
    let mut i: usize = 0;
    while i < ids.len()
        invariant
            0 <= i <= ids.len(),
            forall|a: CcAction| #[trigger]
                out@.contains(a) <==> (old(out)@.contains(a) || is_release_in(a, group, cause, ids@.take(i as int).to_set())),
        decreases ids.len() - i,
    {
        let id = ids[i];
        let act = if group {
            CcAction::ReleaseGroup { call_id: id, cause }
        } else {
            CcAction::ReleaseIndividual { call_id: id, cause }
        };
        let ghost before = out@;
        out.push(act);
        proof {
            assert(ids@.take(i + 1) =~= ids@.take(i as int).push(id));
            ids@.take(i as int).lemma_push_to_set_commute(id);
            assert forall|a: CcAction| #[trigger]
                out@.contains(a) <==> (old(out)@.contains(a) || is_release_in(a, group, cause, ids@.take(i + 1).to_set())) by {
                vstd::seq_lib::lemma_seq_contains_after_push(before, act, a);
            }
        }
        i = i + 1;
    }
    proof {
        assert(ids@.take(ids.len() as int) =~= ids@);
    }
}

/// Appends a control-channel resend of the cached setup of every call of `ids`.
fn push_resends(out: &mut Vec<CcAction>, ids: &Vec<u16>, setups: &HashMap<u16, CachedSetup>)
    requires
        forall|k: int| 0 <= k < ids@.len() ==> setups@.contains_key(#[trigger] ids@[k]),
    ensures
        forall|a: CcAction| #[trigger]
            final(out)@.contains(a) <==> (old(out)@.contains(a) || is_resend_in(a, ids@.to_set(), setups@)),
{
    let mut i: usize = 0;
    while i < ids.len()
        invariant
            0 <= i <= ids.len(),
            forall|k: int| 0 <= k < ids@.len() ==> setups@.contains_key(#[trigger] ids@[k]),
            forall|a: CcAction| #[trigger]
                out@.contains(a) <==> (old(out)@.contains(a) || is_resend_in(a, ids@.take(i as int).to_set(), setups@)),
        decreases ids.len() - i,
    {
        let id = ids[i];
        let dest = match setups.get(&id) {
            Some(cs) => cs.dest_ssi,
            None => 0,
        };
        let act = CcAction::ResendSetup { call_id: id, dest_ssi: dest, channel: None, late_entry: false };
        let ghost before = out@;
        out.push(act);
        proof {
            assert(setups@.contains_key(ids@[i as int]));
            assert(ids@.take(i + 1) =~= ids@.take(i as int).push(id));
            ids@.take(i as int).lemma_push_to_set_commute(id);
            assert forall|a: CcAction| #[trigger]
                out@.contains(a) <==> (old(out)@.contains(a) || is_resend_in(a, ids@.take(i + 1).to_set(), setups@)) by {
                vstd::seq_lib::lemma_seq_contains_after_push(before, act, a);
            }
        }
        i = i + 1;
    }
    proof {
        assert(ids@.take(ids.len() as int) =~= ids@);
    }
}


impl CallTable {
    /// The calls and cached setups as values.
    pub open spec fn tv(&self) -> CallTableView {
        CallTableView { groups: self.group_calls@, inds: self.individual_calls@, setups: self.setups@ }
    }

    /// The forced close of the stale circuit of call `id` on `ts`.
    fn force_close_action(&self, id: u16, ts: u8) -> (a: CcAction)
        ensures
            a == force_close(self.tv(), id, ts),
    {
        let dest_release = match self.setups.get(&id) {
            Some(cs) => Some(cs.dest_ssi),
            None => None,
        };
        match self.individual_calls.get(&id) {
            None => CcAction::ForceClose {
                call_id: id,
                ts,
                dest_release,
                party_release: None,
                network_release: None,
                peer_ts: None,
            },
            Some(c) => {
                let party_release = if self.setups.contains_key(&id) {
                    if !c.calling_over_brew {
                        Some(c.calling_ssi)
                    } else {
                        None
                    }
                } else if !c.calling_over_brew {
                    Some(c.calling_ssi)
                } else if !c.called_over_brew {
                    Some(c.called_ssi)
                } else {
                    None
                };
                let network_release = if c.called_over_brew || c.calling_over_brew {
                    c.brew_uuid
                } else {
                    None
                };
                let peer_ts = if c.called_ts != c.calling_ts && c.called_ts != ts {
                    Some(c.called_ts)
                } else {
                    None
                };
                CcAction::ForceClose { call_id: id, ts, dest_release, party_release, network_release, peer_ts }
            },
        }
    }

    /// One tick of call control at `now`. First calls past their maximum duration
    /// (`call_timeout_secs`, none when 0) are released, then individual setups past their
    /// timeout; pending setups whose retry is due are resent unless the called station is
    /// held for its energy-economy window (`windows`); group calls whose hangtime ran out are
    /// released. Then the circuit manager's `tasks` run in order: a D-SETUP resend (skipped
    /// without a cached resendable setup, or while an individual call's station is held), or
    /// the forced close of a stale circuit, which drops the call.
    pub fn tick(
        &mut self,
        now: TdmaTime,
        windows: &HashMap<u32, (u8, u8, u8)>,
        hangtime_secs: u32,
        call_timeout_secs: u32,
        tasks: &Vec<CircuitTask>,
    ) -> (out: TickActions)
        requires
            now.wf(),
            times_wf(old(self).tv()),
            hangtime_secs * 72 <= i32::MAX,
        ensures
            forall|a: CcAction| #[trigger]
                out.timer@.contains(a) <==> timer_action(old(self).tv(), a, now, windows@, hangtime_secs, call_timeout_secs),
            final(self).tv() == run_tasks(
                after_timers(old(self).tv(), now, hangtime_secs, call_timeout_secs),
                tasks@,
                now,
                windows@,
            ).0,
            out.circuit@ == run_tasks(
                after_timers(old(self).tv(), now, hangtime_secs, call_timeout_secs),
                tasks@,
                now,
                windows@,
            ).1,
            final(self).echo == old(self).echo,
            times_wf(final(self).tv()),
    {
        let ghost v0 = self.tv();
        let mut timer: Vec<CcAction> = Vec::new();
        // Maximum call duration.
        let pg = |id: u16, c: &GroupCall| -> (b: bool)
            requires
                c.started.wf(),
                now.wf(),
            ensures
                b == group_timed_out(*c, now, call_timeout_secs),
            { call_timeout_secs > 0 && c.started.age(now) >= (call_timeout_secs as i64) * 72 };
        let ga = collect_ids(&self.group_calls, &pg, Ghost(|id: u16, c: GroupCall| group_timed_out(c, now, call_timeout_secs)));
        let pi = |id: u16, c: &IndividualCall| -> (b: bool)
            requires
                c.connected_at matches Some(s) ==> s.wf(),
                now.wf(),
            ensures
                b == ind_timed_out(*c, now, call_timeout_secs),
            {
                c.active && match c.connected_at {
                    Some(s) => call_timeout_secs > 0 && s.age(now) >= (call_timeout_secs as i64) * 72,
                    None => false,
                }
            };
        let ia = collect_ids(&self.individual_calls, &pi, Ghost(|id: u16, c: IndividualCall| ind_timed_out(c, now, call_timeout_secs)));
        proof {
            assert(ga@.to_set() =~= timed_out_groups(v0, now, call_timeout_secs));
            assert(ia@.to_set() =~= timed_out_inds(v0, now, call_timeout_secs));
        }
        remove_ids(&mut self.group_calls, &ga);
        remove_ids(&mut self.individual_calls, &ia);
        remove_ids(&mut self.setups, &ga);
        remove_ids(&mut self.setups, &ia);
        push_releases(&mut timer, &ga, true, CAUSE_USER_REQUESTED);
        push_releases(&mut timer, &ia, false, CAUSE_EXPIRY_OF_TIMER);
        let ghost v1 = after_timeouts(v0, now, call_timeout_secs);
        proof {
            assert(self.setups@ =~= v1.setups);
            assert(self.tv() =~= v1);
        }
        // Setup timeout.
        let ps = |id: u16, c: &IndividualCall| -> (b: bool)
            requires
                c.setup_started matches Some(s) ==> s.wf(),
                now.wf(),
            ensures
                b == setup_timed_out(*c, now),
            {
                c.setup_pending && match c.setup_started {
                    Some(s) => s.age(now) >= SETUP_TIMEOUT_TS,
                    None => false,
                }
            };
        let sa = collect_ids(&self.individual_calls, &ps, Ghost(|id: u16, c: IndividualCall| setup_timed_out(c, now)));
        proof {
            assert(sa@.to_set() =~= expired_setups(v1, now));
        }
        remove_ids(&mut self.individual_calls, &sa);
        remove_ids(&mut self.setups, &sa);
        push_releases(&mut timer, &sa, false, CAUSE_EXPIRY_OF_TIMER);
        let ghost v2 = after_setup(v1, now);
        proof {
            assert(self.setups@ =~= v2.setups);
            assert(self.individual_calls@ =~= v2.inds);
            assert(self.group_calls@ =~= v2.groups);
            assert(self.tv() =~= v2);
        }
        // Setup retries.
        let setups_ref = &self.setups;
        let pr = |id: u16, c: &IndividualCall| -> (b: bool)
            requires
                c.setup_started matches Some(s) ==> s.wf(),
                now.wf(),
            ensures
                b == (retry_due(c.setup_pending, c.setup_started, now) && setups_ref@.contains_key(id)
                    && setups_ref@[id].is_individual && !dsetup_held(
                    windows@,
                    setups_ref@[id].dest_ssi,
                    now,
                    c.setup_started,
                )),
            {
                if dsetup_retry_due(c.setup_pending, c.setup_started, now) {
                    match setups_ref.get(&id) {
                        Some(cs) => cs.is_individual && !ee_dsetup_blocks(windows, cs.dest_ssi, now, c.setup_started),
                        None => false,
                    }
                } else {
                    false
                }
            };
        let ra = collect_ids(
            &self.individual_calls,
            &pr,
            Ghost(
                |id: u16, c: IndividualCall|
                    retry_due(c.setup_pending, c.setup_started, now) && v2.setups.contains_key(id)
                        && v2.setups[id].is_individual && !dsetup_held(windows@, v2.setups[id].dest_ssi, now, c.setup_started),
            ),
        );
        proof {
            assert(ra@.to_set() =~= retried(v2, now, windows@));
            assert forall|k: int| 0 <= k < ra@.len() implies self.setups@.contains_key(#[trigger] ra@[k]) by {
                assert(ra@.to_set().contains(ra@[k]));
            }
        }
        push_resends(&mut timer, &ra, &self.setups);
        // Hangtime.
        let ha = self.hangtime_expired_calls(now, hangtime_secs);
        proof {
            assert(ha@.to_set() =~= hangtime_ended(v2, now, hangtime_secs));
        }
        remove_ids(&mut self.group_calls, &ha);
        remove_ids(&mut self.setups, &ha);
        push_releases(&mut timer, &ha, true, CAUSE_USER_REQUESTED);
        let ghost v3 = after_hangtime(v2, now, hangtime_secs);
        proof {
            assert(self.setups@ =~= v3.setups);
            assert(self.tv() =~= v3);
            assert forall|a: CcAction| #[trigger]
                timer@.contains(a) <==> timer_action(v0, a, now, windows@, hangtime_secs, call_timeout_secs) by {
            }
        }
        // Circuit-manager tasks.
        let mut circuit: Vec<CcAction> = Vec::new();
        let mut i: usize = 0;
        proof {
            assert(tasks@.take(0) =~= Seq::<CircuitTask>::empty());
            assert(circuit@ =~= run_tasks(v3, tasks@.take(0), now, windows@).1);
        }
        while i < tasks.len()
            invariant
                0 <= i <= tasks.len(),
                now.wf(),
                times_wf(self.tv()),
                self.tv() == run_tasks(v3, tasks@.take(i as int), now, windows@).0,
                circuit@ == run_tasks(v3, tasks@.take(i as int), now, windows@).1,
                self.echo == old(self).echo,
            decreases tasks.len() - i,
        {
            let ghost vb = self.tv();
            let ghost before = circuit@;
            let task = tasks[i];
            proof {
                assert(tasks@.take(i + 1).drop_last() =~= tasks@.take(i as int));
                assert(tasks@.take(i + 1).last() == task);
            }
            match task {
                CircuitTask::SendDSetup { call_id, usage, ts } => {
                    match self.setups.get(&call_id) {
                        Some(cs) => {
                            let cs = *cs;
                            if cs.resend {
                                let started = match self.individual_calls.get(&call_id) {
                                    Some(c) => c.setup_started,
                                    None => None,
                                };
                                let held = cs.is_individual && ee_dsetup_blocks(windows, cs.dest_ssi, now, started);
                                if !held {
                                    let channel = if cs.is_individual {
                                        None
                                    } else {
                                        Some(CircuitSlot { usage, ts })
                                    };
                                    let late_entry = self.group_calls.contains_key(&call_id);
                                    circuit.push(
                                        CcAction::ResendSetup { call_id, dest_ssi: cs.dest_ssi, channel, late_entry },
                                    );
                                }
                            }
                        },
                        None => {},
                    }
                },
                CircuitTask::SendClose { call_id, ts } => {
                    let act = self.force_close_action(call_id, ts);
                    self.group_calls.remove(&call_id);
                    self.individual_calls.remove(&call_id);
                    self.setups.remove(&call_id);
                    circuit.push(act);
                },
            }
            proof {
                let st = task_step(vb, task, now, windows@);
                assert(self.tv() =~= st.0);
                assert(circuit@ =~= before + st.1);
            }
            i = i + 1;
        }
        proof {
            assert(tasks@.take(tasks.len() as int) =~= tasks@);
        }
        TickActions { timer, circuit }
    }
}

impl CallTable {
    /// A tick (see [`CallTable::tick`]) that also reports the calls it ended: one
    /// `GroupCallEnded` (with group 0) per group call and one `IndividualCallEnded` per
    /// individual call that was in the table before and is not after, and nothing else.
    pub fn tick_with_events(
        &mut self,
        now: TdmaTime,
        windows: &HashMap<u32, (u8, u8, u8)>,
        hangtime_secs: u32,
        call_timeout_secs: u32,
        tasks: &Vec<CircuitTask>,
    ) -> (r: (TickActions, Vec<CallEndEvent>))
        requires
            now.wf(),
            times_wf(old(self).tv()),
            hangtime_secs * 72 <= i32::MAX,
        ensures
            forall|a: CcAction| #[trigger]
                r.0.timer@.contains(a) <==> timer_action(old(self).tv(), a, now, windows@, hangtime_secs, call_timeout_secs),
            final(self).tv() == run_tasks(
                after_timers(old(self).tv(), now, hangtime_secs, call_timeout_secs),
                tasks@,
                now,
                windows@,
            ).0,
            r.0.circuit@ == run_tasks(
                after_timers(old(self).tv(), now, hangtime_secs, call_timeout_secs),
                tasks@,
                now,
                windows@,
            ).1,
            final(self).echo == old(self).echo,
            times_wf(final(self).tv()),
            r.1@.no_duplicates(),
            forall|e: CallEndEvent| #[trigger]
                r.1@.contains(e) <==> (ended_in(e, true, old(self).group_calls@.dom(), final(self).group_calls@.dom())
                    || ended_in(e, false, old(self).individual_calls@.dom(), final(self).individual_calls@.dom())),
    {
        let every_group = |id: u16, c: &GroupCall| -> (b: bool)
            ensures
                b,
            { true };
        let every_ind = |id: u16, c: &IndividualCall| -> (b: bool)
            ensures
                b,
            { true };
        let gb = collect_ids(&self.group_calls, &every_group, Ghost(|id: u16, c: GroupCall| true));
        let ib = collect_ids(&self.individual_calls, &every_ind, Ghost(|id: u16, c: IndividualCall| true));
        proof {
            assert(gb@.to_set() =~= old(self).group_calls@.dom());
            assert(ib@.to_set() =~= old(self).individual_calls@.dom());
        }
        let acts = self.tick(now, windows, hangtime_secs, call_timeout_secs, tasks);
        let mut events: Vec<CallEndEvent> = Vec::new();
        push_ended(&mut events, &gb, &self.group_calls, true);
        push_ended(&mut events, &ib, &self.individual_calls, false);
        (acts, events)
    }
}

} // verus!

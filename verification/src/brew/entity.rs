//! Call and subscriber bookkeeping of the Brew entity.
//!
//! The entity keeps track of downlink group calls arriving from the network (and of calls in
//! hangtime whose circuit may be reused), of local uplink calls forwarded to the network, and
//! of which local subscribers are affiliated to which groups. Each handler updates that state
//! and returns a [`BrewReaction`]: the messages for the other entities of the stack, the
//! commands for the worker that talks to the network, and the operations on the downlink
//! playout buffers, which are kept outside the library.
use std::collections::{HashMap, HashSet};
use vstd::prelude::*;
use vstd::std_specs::iter::IteratorSpec;

use super::voice::{acelp_from_ste, ste_frame_ok, ste_from_uplink};
use crate::registry::StackState;

verus! {

broadcast use vstd::std_specs::hash::group_hash_axioms;

/// How a subscriber event from the network server is classified.
#[derive(Debug, Clone, Copy, PartialEq, Eq, Structural)]
pub enum ExternalSubscriberEvent {
    Affiliate,
    Deaffiliate,
    Deregister,
    Other,
}

/// Events the worker reports to the entity. `C` is the record describing an individual
/// circuit call, which the entity forwards to call control unchanged.
#[derive(Debug)]
pub enum BrewEvent<C> {
    Connected { server_version: u8 },
    VersionDetected { version: u8 },
    Disconnected { reason: String },
    GroupCallStart { uuid: u128, source_issi: u32, dest_gssi: u32, priority: u8, service: u16 },
    GroupCallEnd { uuid: u128, cause: u8 },
    VoiceFrame { uuid: u128, length_bits: u16, data: Vec<u8> },
    SubscriberEvent { kind: ExternalSubscriberEvent, issi: u32, groups: Vec<u32> },
    SdsTransfer { uuid: u128, source: u32, destination: u32, data: Vec<u8>, length_bits: u16 },
    SdsReport { uuid: u128, status: u8 },
    CircuitSetupRequest { uuid: u128, call: C },
    CircuitSetupAccept { uuid: u128 },
    CircuitSetupReject { uuid: u128, cause: u8 },
    CircuitCallAlert { uuid: u128 },
    CircuitConnectRequest { uuid: u128, call: C },
    CircuitConnectConfirm { uuid: u128, grant: u8, permission: u8 },
    CircuitCallRelease { uuid: u128, cause: u8 },
    CircuitDtmf { uuid: u128, length_bits: u16, data: Vec<u8> },
    ServerError { error_type: u8, data: Vec<u8> },
}

/// Individual-call signalling forwarded to call control.
#[derive(Debug)]
pub enum CircuitNotice<C> {
    SetupRequest { uuid: u128, call: C },
    SetupAccept { uuid: u128 },
    SetupReject { uuid: u128, cause: u8 },
    Alert { uuid: u128 },
    ConnectRequest { uuid: u128, call: C },
    ConnectConfirm { uuid: u128, grant: u8, permission: u8 },
    Release { uuid: u128, cause: u8 },
}

/// What handling one worker event asks for.
pub struct EventOutcome<C> {
    pub reaction: BrewReaction,
    pub circuit: Option<CircuitNotice<C>>,
    /// A change of the backhaul state to report to telemetry: (connected, server version).
    pub connection_change: Option<(bool, u8)>,
}

/// Subscriber life-cycle actions exchanged between mobility management, call control and the
/// Brew entity.
#[derive(Debug, Clone, Copy, PartialEq, Eq, Structural)]
pub enum SubscriberAction {
    Register,
    Deregister,
    Affiliate,
    Deaffiliate,
}

/// Messages the Brew entity queues for other entities of the stack.
#[derive(Debug)]
pub enum StackMsg {
    /// To call control: a network group call starts (or changes speaker).
    NetworkCallStart { uuid: u128, source_issi: u32, dest_gssi: u32, priority: u8 },
    /// To call control: a network group call ends.
    NetworkCallEnd { uuid: u128 },
    /// To call control: a subscriber seen on the network (re)affiliated or left.
    SubscriberUpdate { issi: u32, groups: Vec<u32>, action: SubscriberAction },
    /// To mobility management: the backhaul reconnected.
    BrewReconnected,
    /// To call control: short data from the network for a local MS.
    SdsData { source_issi: u32, dest_issi: u32, length_bits: u16, data: Vec<u8> },
}

/// An individual circuit call as exchanged with call control and, field for field, with
/// the network.
#[derive(Debug, Clone)]
pub struct CircuitCall {
    pub source_issi: u32,
    pub destination: u32,
    /// Dialled number, when the call is addressed by number.
    pub number: String,
    pub priority: u8,
    pub service: u16,
    pub mode: u8,
    pub duplex: bool,
    pub method: u8,
    pub communication: u8,
    pub grant: u8,
    pub permission: u8,
    pub timeout: u8,
    pub ownership: u8,
    pub queued: bool,
}

/// Individual-call signalling from call control towards the network, and the readiness of
/// the local circuit of such a call.
#[derive(Debug)]
pub enum CmceCallControl {
    SetupRequest { uuid: u128, call: CircuitCall },
    SetupAccept { uuid: u128 },
    SetupReject { uuid: u128, cause: u8 },
    Alert { uuid: u128 },
    ConnectRequest { uuid: u128, call: CircuitCall },
    ConnectConfirm { uuid: u128, grant: u8, permission: u8 },
    /// The circuit of the call is open on `ts`: uplink voice there goes to the network and
    /// downlink voice of the session is played out there.
    MediaReady { uuid: u128, call_id: u16, ts: u8 },
    Dtmf { uuid: u128, length_bits: u16, data: Vec<u8> },
    Release { uuid: u128, cause: u8 },
}

/// The worker command a signalling message becomes, for the messages that are only
/// forwarded.
pub open spec fn forwarded_command(msg: CmceCallControl) -> Option<BrewCommand> {
    match msg {
        CmceCallControl::SetupRequest { uuid, call } => Some(BrewCommand::SendSetupRequest { uuid, call }),
        CmceCallControl::SetupAccept { uuid } => Some(BrewCommand::SendSetupAccept { uuid }),
        CmceCallControl::SetupReject { uuid, cause } => Some(BrewCommand::SendSetupReject { uuid, cause }),
        CmceCallControl::Alert { uuid } => Some(BrewCommand::SendCallAlert { uuid }),
        CmceCallControl::ConnectRequest { uuid, call } => Some(BrewCommand::SendConnectRequest { uuid, call }),
        CmceCallControl::ConnectConfirm { uuid, grant, permission } => Some(
            BrewCommand::SendConnectConfirm { uuid, grant, permission },
        ),
        CmceCallControl::Dtmf { uuid, length_bits, data } => Some(BrewCommand::SendDtmf { uuid, length_bits, data }),
        _ => None,
    }
}

/// Commands for the worker that speaks the wire protocol.
#[derive(Debug)]
pub enum BrewCommand {
    SendSetupRequest { uuid: u128, call: CircuitCall },
    SendConnectRequest { uuid: u128, call: CircuitCall },
    RegisterSubscriber { issi: u32 },
    DeregisterSubscriber { issi: u32 },
    AffiliateGroups { issi: u32, groups: Vec<u32> },
    DeaffiliateGroups { issi: u32, groups: Vec<u32> },
    SendGroupTx { uuid: u128, source_issi: u32, dest_gssi: u32, priority: u8, service: u16 },
    SendVoiceFrame { uuid: u128, length_bits: u16, data: Vec<u8> },
    SendGroupIdle { uuid: u128, cause: u8 },
    SendSds { uuid: u128, source: u32, destination: u32, data: Vec<u8>, length_bits: u16 },
    SendSdsReport { uuid: u128, status: u8 },
    SendSetupAccept { uuid: u128 },
    SendSetupReject { uuid: u128, cause: u8 },
    SendCallAlert { uuid: u128 },
    SendConnectConfirm { uuid: u128, grant: u8, permission: u8 },
    SendCallRelease { uuid: u128, cause: u8 },
    SendDtmf { uuid: u128, length_bits: u16, data: Vec<u8> },
    Disconnect,
}

/// Operations on the per-session downlink playout buffers.
#[derive(Debug)]
pub enum PlayoutOp {
    /// Create the buffer of the session if it has none.
    Create { uuid: u128 },
    /// Discard the frames buffered for the session (speaker change).
    Flush { uuid: u128 },
    /// Queue a speech payload for playout.
    Push { uuid: u128, data: Vec<u8> },
    /// Keep playing out what is buffered on `ts`, then discard the buffer.
    Drain { uuid: u128, ts: u8 },
    /// Discard the buffer of the session.
    Drop { uuid: u128 },
    /// Discard every buffer.
    DropAll,
}

/// Everything a handler asks the surrounding code to do.
pub struct BrewReaction {
    pub stack: Vec<StackMsg>,
    pub commands: Vec<BrewCommand>,
    pub playout: Vec<PlayoutOp>,
}

impl BrewReaction {
    pub fn none() -> (r: Self)
        ensures
            r.stack@.len() == 0,
            r.commands@.len() == 0,
            r.playout@.len() == 0,
    {
        BrewReaction { stack: Vec::new(), commands: Vec::new(), playout: Vec::new() }
    }
}

/// A downlink group call from the network, currently transmitting. Its circuit resources are
/// known once call control reported the call ready.
#[derive(Debug, Clone, Copy, PartialEq, Eq, Structural)]
pub struct ActiveCall {
    pub call_id: Option<u16>,
    pub ts: Option<u8>,
    pub usage: Option<u8>,
    pub source_issi: u32,
    pub dest_gssi: u32,
    pub frame_count: u64,
}

/// A group call in hangtime whose circuit is still allocated.
#[derive(Debug, Clone, Copy, PartialEq, Eq, Structural)]
pub struct HangingCall {
    pub uuid: u128,
    pub call_id: u16,
    pub ts: u8,
    pub usage: u8,
    pub source_issi: u32,
    pub dest_gssi: u32,
    pub frame_count: u64,
    /// Milliseconds timestamp at which the call entered hangtime.
    pub since_ms: u64,
}

#[derive(Debug, Clone, Copy, PartialEq, Eq, Structural)]
pub enum UlForwardKind {
    /// PTT group call.
    Group,
    /// Full-duplex individual circuit call.
    Circuit,
}

/// A local uplink call forwarded to the network.
#[derive(Debug, Clone, Copy, PartialEq, Eq, Structural)]
pub struct UlForwardedCall {
    pub uuid: u128,
    pub call_id: u16,
    pub source_issi: u32,
    /// Destination GSSI (group call) or called ISSI (circuit call).
    pub dest_gssi: u32,
    pub frame_count: u64,
    pub kind: UlForwardKind,
}

/// Minimum spacing of two RSSI exports for the same MS, in milliseconds.
pub const RSSI_EXPORT_INTERVAL_MS: u64 = 5000;

/// State of the Brew entity.
pub struct BrewEntity {
    /// Whether the worker reports a live connection.
    pub connected: bool,
    /// Downlink calls from the network, by session UUID.
    pub active_calls: HashMap<u128, ActiveCall>,
    /// Calls in hangtime, by destination GSSI (at most one per group).
    pub hanging_calls: HashMap<u32, HangingCall>,
    /// Local uplink calls forwarded to the network, by timeslot.
    pub ul_forwarded: HashMap<u8, UlForwardedCall>,
    /// Local subscriber -> affiliated groups, as reported by mobility management.
    pub subscriber_groups: HashMap<u32, HashSet<u32>>,
    /// Last RSSI export per ISSI (milliseconds timestamp).
    pub rssi_last_sent: HashMap<u32, u64>,
    /// Sessions that own a downlink playout buffer.
    pub playout: HashSet<u128>,
    /// Ended sessions whose buffer is still being played out, with its timeslot.
    pub draining: HashMap<u128, u8>,
}

/// The version (4, random) and variant (RFC 4122) bits of a version-4 UUID.
pub open spec fn is_v4_uuid(u: u128) -> bool {
    (u >> 76u128) & 0xf == 4 && (u >> 62u128) & 3 == 2
}

/// A fresh random session identifier, the value of a version-4 UUID.
#[verifier::external_body]
fn new_session_id() -> (r: u128)
    ensures
        (r >> 76u128) & 0xf == 4,
        (r >> 62u128) & 3 == 2,
{
    uuid::Uuid::new_v4().as_u128()
}

/// Groups of `issi` in `m`, empty when absent.
pub open spec fn groups_of(m: Map<u32, Set<u32>>, issi: u32) -> Set<u32> {
    if m.contains_key(issi) {
        m[issi]
    } else {
        Set::empty()
    }
}

/// The elements of `gs` that are not in `base`, each once, in order of first occurrence.
pub open spec fn fresh_elements(base: Set<u32>, gs: Seq<u32>) -> Seq<u32>
    decreases gs.len(),
{
    if gs.len() == 0 {
        seq![]
    } else {
        let prev = fresh_elements(base, gs.drop_last());
        let g = gs.last();
        if base.contains(g) || gs.drop_last().contains(g) {
            prev
        } else {
            prev.push(g)
        }
    }
}

/// The elements of `gs` that are in `base`, each once, in order of first occurrence.
pub open spec fn present_elements(base: Set<u32>, gs: Seq<u32>) -> Seq<u32>
    decreases gs.len(),
{
    if gs.len() == 0 {
        seq![]
    } else {
        let prev = present_elements(base, gs.drop_last());
        let g = gs.last();
        if base.contains(g) && !gs.drop_last().contains(g) {
            prev.push(g)
        } else {
            prev
        }
    }
}

/// Whether an RSSI export for an MS is due at `now_ms`.
pub open spec fn rssi_due(last: Option<u64>, now_ms: u64) -> bool {
    match last {
        None => true,
        Some(t) => now_ms >= t && now_ms - t >= RSSI_EXPORT_INTERVAL_MS,
    }
}

/// Whether a hangtime call idle since `h.since_ms` has reached `hangtime_ms` at `now_ms`.
pub open spec fn hangtime_over(h: HangingCall, now_ms: u64, hangtime_ms: u64) -> bool {
    now_ms >= h.since_ms && now_ms - h.since_ms >= hangtime_ms
}

/// Selection of hangtime entries.
enum HangingFilter {
    Expired { now_ms: u64, hangtime_ms: u64 },
    Session { uuid: u128 },
}

spec fn hanging_selected(f: HangingFilter, h: HangingCall) -> bool {
    match f {
        HangingFilter::Expired { now_ms, hangtime_ms } => hangtime_over(h, now_ms, hangtime_ms),
        HangingFilter::Session { uuid } => h.uuid == uuid,
    }
}

fn hanging_selected_exec(f: &HangingFilter, h: &HangingCall) -> (r: bool)
    ensures
        r == hanging_selected(*f, *h),
{
    match f {
        HangingFilter::Expired { now_ms, hangtime_ms } => *now_ms >= h.since_ms && *now_ms - h.since_ms >= *hangtime_ms,
        HangingFilter::Session { uuid } => h.uuid == *uuid,
    }
}

/// The groups whose hangtime entry matches `f`, each once.
fn hanging_keys_where(m: &HashMap<u32, HangingCall>, f: HangingFilter) -> (r: Vec<u32>)
    ensures
        r@.to_set() == m@.dom().filter(|g: u32| hanging_selected(f, m@[g])),
{
    let mut out: Vec<u32> = Vec::new();
    let ghost keys = vstd::std_specs::hash::spec_keys_iter(m).remaining();
    for g in it: m.keys()
        invariant
            it.seq() == keys,
            forall|x: u32| #[trigger] out@.contains(x) <==> (keys.unref().take(it.index() as int).contains(x)
                && m@.contains_key(x) && hanging_selected(f, m@[x])),
    {
        let ghost idx = it.index();
        let ghost before = out@;
        match m.get(g) {
            Some(h) => {
                if hanging_selected_exec(&f, h) {
                    out.push(*g);
                }
            }
            None => {}
        }
        proof {
            let t0 = keys.unref().take(idx as int);
            let t1 = keys.unref().take(idx + 1);
            assert(keys.unref()[idx as int] == *g);
            assert(keys.unref().to_set() == m@.dom());
            assert(keys.unref().contains(*g));
            assert forall|x: u32| #[trigger] t1.contains(x) <==> (t0.contains(x) || x == *g) by {
                if t1.contains(x) {
                    let j = choose|j: int| 0 <= j < t1.len() && t1[j] == x;
                    if j < idx {
                        assert(t0[j] == x);
                    }
                }
                if t0.contains(x) {
                    let j = choose|j: int| 0 <= j < t0.len() && t0[j] == x;
                    assert(t1[j] == x);
                }
                if x == *g {
                    assert(t1[idx as int] == x);
                }
            }
            assert forall|x: u32| #[trigger] out@.contains(x) <==> (before.contains(x) || (x == *g && m@.contains_key(x)
                && hanging_selected(f, m@[x]))) by {
                if out@ != before {
                    assert(out@ == before.push(*g));
                    if out@.contains(x) && x != *g {
                        let j = choose|j: int| 0 <= j < out@.len() && out@[j] == x;
                        assert(before[j] == x);
                    }
                    if before.contains(x) {
                        let j = choose|j: int| 0 <= j < before.len() && before[j] == x;
                        assert(out@[j] == x);
                    }
                    assert(out@[before.len() as int] == *g);
                }
            }
        }
    }
    proof {
        assert(keys.unref().take(keys.len() as int) =~= keys.unref());
        assert(keys.unref().to_set() == m@.dom());
        assert(out@.to_set() =~= m@.dom().filter(|g: u32| hanging_selected(f, m@[g])));
    }
    out
}

/// Removes the given keys from the map.
fn remove_keys<V>(m: &mut HashMap<u32, V>, keys: &Vec<u32>)
    ensures
        final(m)@ == old(m)@.remove_keys(keys@.to_set()),
{
    let mut i: usize = 0;
    while i < keys.len()
        invariant
            0 <= i <= keys.len(),
            m@ == old(m)@.remove_keys(keys@.take(i as int).to_set()),
        decreases keys.len() - i,
    {
        let g = keys[i];
        m.remove(&g);
        proof {
            let t0 = keys@.take(i as int);
            let t1 = keys@.take(i + 1);
            assert(t1 =~= t0.push(g));
            assert forall|x: u32| #[trigger] t1.contains(x) <==> (t0.contains(x) || x == g) by {
                if t1.contains(x) && x != g {
                    let j = choose|j: int| 0 <= j < t1.len() && t1[j] == x;
                    assert(t0[j] == x);
                }
                if t0.contains(x) {
                    let j = choose|j: int| 0 <= j < t0.len() && t0[j] == x;
                    assert(t1[j] == x);
                }
                if x == g {
                    assert(t1[i as int] == x);
                }
            }
            assert(t1.to_set() =~= t0.to_set().insert(g));
            assert(m@ =~= old(m)@.remove_keys(t1.to_set()));
        }
        i = i + 1;
    }
    proof {
        assert(keys@.take(i as int) =~= keys@);
    }
}

/// Whether the forwarding entry is the circuit of session `uuid`.
pub open spec fn is_circuit_of(f: UlForwardedCall, uuid: u128) -> bool {
    f.uuid == uuid && f.kind == UlForwardKind::Circuit
}

/// Removes the forwarding entries of circuit `uuid` from every timeslot; returns whether there
/// was one.
fn remove_circuit_forwards(m: &mut HashMap<u8, UlForwardedCall>, uuid: u128) -> (had: bool)
    ensures
        had == exists|t: u8| #[trigger] old(m)@.contains_key(t) && is_circuit_of(old(m)@[t], uuid),
        final(m)@ == old(m)@.restrict(old(m)@.dom().filter(|t: u8| !is_circuit_of(old(m)@[t], uuid))),
{
    let ghost start = m@;
    let mut had = false;
    let mut ts: u8 = 0;
    loop
        invariant
            m@ == start.restrict(start.dom().filter(|t: u8| !(t < ts && is_circuit_of(start[t], uuid)))),
            had == exists|t: u8| t < ts && #[trigger] start.contains_key(t) && is_circuit_of(start[t], uuid),
            start == old(m)@,
        decreases 255 - ts,
    {
        let hit = match m.get(&ts) {
            Some(fwd) => fwd.uuid == uuid && fwd.kind == UlForwardKind::Circuit,
            None => false,
        };
        if hit {
            m.remove(&ts);
            had = true;
        }
        proof {
            assert(m@ =~= start.restrict(start.dom().filter(|t: u8| !(t <= ts && is_circuit_of(start[t], uuid)))));
        }
        if ts == 255 {
            proof {
                assert(m@ =~= start.restrict(start.dom().filter(|t: u8| !is_circuit_of(start[t], uuid))));
            }
            return had;
        }
        ts = ts + 1;
    }
}

/// Inserts every element of `gs` into `set`; returns the elements that were new, in order.
fn insert_all(set: &mut HashSet<u32>, gs: &Vec<u32>) -> (fresh: Vec<u32>)
    ensures
        final(set)@ == old(set)@.union(gs@.to_set()),
        fresh@ == fresh_elements(old(set)@, gs@),
{
    let mut fresh: Vec<u32> = Vec::new();
    let mut i: usize = 0;
    while i < gs.len()
        invariant
            0 <= i <= gs.len(),
            set@ == old(set)@.union(gs@.take(i as int).to_set()),
            fresh@ == fresh_elements(old(set)@, gs@.take(i as int)),
        decreases gs.len() - i,
    {
        let g = gs[i];
        let ghost t0 = gs@.take(i as int);
        let ghost t1 = gs@.take(i + 1);
        proof {
            assert(t1 =~= t0.push(g));
            assert(t1.drop_last() =~= t0);
            assert forall|x: u32| #[trigger] t1.contains(x) <==> (t0.contains(x) || x == g) by {
                if t1.contains(x) && x != g {
                    let j = choose|j: int| 0 <= j < t1.len() && t1[j] == x;
                    assert(t0[j] == x);
                }
                if t0.contains(x) {
                    let j = choose|j: int| 0 <= j < t0.len() && t0[j] == x;
                    assert(t1[j] == x);
                }
                if x == g {
                    assert(t1[i as int] == x);
                }
            }
        }
        if set.insert(g) {
            fresh.push(g);
        }
        proof {
            assert(set@ =~= old(set)@.union(t1.to_set()));
        }
        i = i + 1;
    }
    proof {
        assert(gs@.take(i as int) =~= gs@);
    }
    fresh
}

/// Removes every element of `gs` from `set`; returns the elements that were present, in order.
fn remove_all(set: &mut HashSet<u32>, gs: &Vec<u32>) -> (removed: Vec<u32>)
    ensures
        final(set)@ == old(set)@.difference(gs@.to_set()),
        removed@ == present_elements(old(set)@, gs@),
{
    let mut removed: Vec<u32> = Vec::new();
    let mut i: usize = 0;
    while i < gs.len()
        invariant
            0 <= i <= gs.len(),
            set@ == old(set)@.difference(gs@.take(i as int).to_set()),
            removed@ == present_elements(old(set)@, gs@.take(i as int)),
        decreases gs.len() - i,
    {
        let g = gs[i];
        let ghost t0 = gs@.take(i as int);
        let ghost t1 = gs@.take(i + 1);
        proof {
            assert(t1 =~= t0.push(g));
            assert(t1.drop_last() =~= t0);
            assert forall|x: u32| #[trigger] t1.contains(x) <==> (t0.contains(x) || x == g) by {
                if t1.contains(x) && x != g {
                    let j = choose|j: int| 0 <= j < t1.len() && t1[j] == x;
                    assert(t0[j] == x);
                }
                if t0.contains(x) {
                    let j = choose|j: int| 0 <= j < t0.len() && t0[j] == x;
                    assert(t1[j] == x);
                }
                if x == g {
                    assert(t1[i as int] == x);
                }
            }
        }
        if set.remove(&g) {
            removed.push(g);
        }
        proof {
            assert(set@ =~= old(set)@.difference(t1.to_set()));
        }
        i = i + 1;
    }
    proof {
        assert(gs@.take(i as int) =~= gs@);
    }
    removed
}

/// The elements of a set, each once.
fn set_to_vec(set: &HashSet<u32>) -> (r: Vec<u32>)
    ensures
        r@.to_set() == set@,
        r@.no_duplicates(),
{
    let mut out: Vec<u32> = Vec::new();
    let ghost keys = vstd::std_specs::hash::spec_hash_keys_iter(set).remaining();
    for g in it: set.iter()
        invariant
            it.seq() == keys,
            out@ == keys.unref().take(it.index() as int),
    {
        out.push(*g);
        proof {
            assert(keys.unref().take(it.index() + 1) =~= out@);
        }
    }
    proof {
        assert(keys.unref().take(keys.len() as int) =~= keys.unref());
        assert(keys.unref().to_set() == set@);
        assert forall|a: int, b: int| 0 <= a < b < out@.len() implies out@[a] != out@[b] by {
            assert(keys.no_duplicates());
            assert(keys[a] != keys[b]);
        }
    }
    out
}

/// Outcome of [`BrewEntity::handle_group_call_start`].
pub open spec fn handle_group_call_start_post(old: BrewEntity, new: BrewEntity, uuid: u128, source_issi: u32, dest_gssi: u32, priority: u8, r: BrewReaction) -> bool {
    &&& r.commands@.len() == 0
    &&& old.active_calls@.contains_key(uuid) ==> {
                let call = old.active_calls@[uuid];
                &&& new.hanging_calls@ == old.hanging_calls@
                &&& new.playout@ == old.playout@
                &&& if call.source_issi != source_issi {
                    &&& new.active_calls@ == old.active_calls@.insert(uuid, ActiveCall { source_issi, ..call })
                    &&& r.stack@.len() == 1
                    &&& r.stack@[0] == (StackMsg::NetworkCallStart { uuid, source_issi, dest_gssi, priority })
                    &&& r.playout@.len() == 1
                    &&& r.playout@[0] == (PlayoutOp::Flush { uuid })
                } else {
                    &&& new.active_calls@ == old.active_calls@
                    &&& r.stack@.len() == 0
                    &&& r.playout@.len() == 0
                }
    }
    &&& !old.active_calls@.contains_key(uuid) ==> {
                let frames = if old.hanging_calls@.contains_key(dest_gssi) {
                    old.hanging_calls@[dest_gssi].frame_count
                } else {
                    0
                };
                &&& new.hanging_calls@ == old.hanging_calls@.remove(dest_gssi)
                &&& new.active_calls@ == old.active_calls@.insert(
                    uuid,
                    ActiveCall { call_id: None, ts: None, usage: None, source_issi, dest_gssi, frame_count: frames },
                )
                &&& new.playout@ == old.playout@.insert(uuid)
                &&& r.stack@.len() == 1
                &&& r.stack@[0] == (StackMsg::NetworkCallStart { uuid, source_issi, dest_gssi, priority })
                &&& r.playout@.len() == 1
                &&& r.playout@[0] == (PlayoutOp::Create { uuid })
    }
    &&& new.connected == old.connected
    &&& new.ul_forwarded@ == old.ul_forwarded@
    &&& new.groups_view() == old.groups_view()
    &&& new.draining@ == old.draining@
    &&& new.rssi_last_sent@ == old.rssi_last_sent@
}

/// Outcome of [`BrewEntity::handle_group_call_end`].
pub open spec fn handle_group_call_end_post(old: BrewEntity, new: BrewEntity, uuid: u128, has_buffered_frames: bool, now_ms: u64, r: BrewReaction) -> bool {
    &&& r.commands@.len() == 0
    &&& !old.active_calls@.contains_key(uuid) ==> {
                &&& r.stack@.len() == 0
                &&& r.playout@.len() == 0
                &&& new.active_calls@ == old.active_calls@
                &&& new.hanging_calls@ == old.hanging_calls@
                &&& new.playout@ == old.playout@
                &&& new.draining@ == old.draining@
    }
    &&& old.active_calls@.contains_key(uuid) ==> {
                let call = old.active_calls@[uuid];
                let drains = old.playout@.contains(uuid) && call.ts is Some && has_buffered_frames;
                &&& new.active_calls@ == old.active_calls@.remove(uuid)
                &&& new.playout@ == old.playout@.remove(uuid)
                &&& new.draining@ == (if drains {
                    old.draining@.insert(uuid, call.ts->0)
                } else {
                    old.draining@
                })
                &&& r.playout@ == (if drains {
                    seq![PlayoutOp::Drain { uuid, ts: call.ts->0 }]
                } else {
                    seq![PlayoutOp::Drop { uuid }]
                })
                &&& r.stack@.len() == 1
                &&& r.stack@[0] == (StackMsg::NetworkCallEnd { uuid })
                &&& new.hanging_calls@ == (match (call.call_id, call.ts, call.usage) {
                    (Some(call_id), Some(ts), Some(usage)) => old.hanging_calls@.insert(
                        call.dest_gssi,
                        HangingCall {
                            uuid,
                            call_id,
                            ts,
                            usage,
                            source_issi: call.source_issi,
                            dest_gssi: call.dest_gssi,
                            frame_count: call.frame_count,
                            since_ms: now_ms,
                        },
                    ),
                    _ => old.hanging_calls@,
                })
    }
    &&& new.connected == old.connected
    &&& new.ul_forwarded@ == old.ul_forwarded@
    &&& new.groups_view() == old.groups_view()
    &&& new.rssi_last_sent@ == old.rssi_last_sent@
}

/// Outcome of [`BrewEntity::handle_voice_frame`].
pub open spec fn handle_voice_frame_post(old: BrewEntity, new: BrewEntity, uuid: u128, data: Vec<u8>, r: BrewReaction) -> bool {
    &&& r.stack@.len() == 0
    &&& r.commands@.len() == 0
    &&& !old.active_calls@.contains_key(uuid) ==> new.active_calls@ == old.active_calls@
                && r.playout@.len() == 0
    &&& old.active_calls@.contains_key(uuid) ==> {
                let call = old.active_calls@[uuid];
                let count = if call.frame_count < u64::MAX { (call.frame_count + 1) as u64 } else { call.frame_count };
                &&& new.active_calls@ == old.active_calls@.insert(uuid, ActiveCall { frame_count: count, ..call })
                &&& (call.ts is None || data.len() < 36) ==> r.playout@.len() == 0
                &&& (call.ts is Some && data.len() >= 36) ==> (r.playout@.len() == 1
                    && (r.playout@[0] matches PlayoutOp::Push { uuid: u, data: d }
                    && u == uuid && d@ == data@.subrange(1, data.len() as int)))
    }
    &&& new.playout@ == (if old.active_calls@.contains_key(uuid) && old.active_calls@[uuid].ts is Some
        && data.len() >= 36 {
        old.playout@.insert(uuid)
    } else {
        old.playout@
    })
    &&& new.hanging_calls@ == old.hanging_calls@
    &&& new.ul_forwarded@ == old.ul_forwarded@
    &&& new.draining@ == old.draining@
    &&& new.groups_view() == old.groups_view()
    &&& new.connected == old.connected
    &&& new.rssi_last_sent@ == old.rssi_last_sent@
}

/// Outcome of [`BrewEntity::release_all_calls`].
pub open spec fn release_all_calls_post(old: BrewEntity, new: BrewEntity, r: BrewReaction) -> bool {
    &&& r.commands@.len() == 0
    &&& r.stack@.len() == old.active_calls@.len()
    &&& forall|k: int| 0 <= k < r.stack@.len() ==> (#[trigger] r.stack@[k] matches StackMsg::NetworkCallEnd { uuid }
                && old.active_calls@.contains_key(uuid))
    &&& forall|u: u128| #[trigger] old.active_calls@.contains_key(u) ==> exists|k: int| 0 <= k < r.stack@.len()
                && r.stack@[k] == (StackMsg::NetworkCallEnd { uuid: u })
    &&& r.playout@ == seq![PlayoutOp::DropAll]
    &&& new.active_calls@ == Map::<u128, ActiveCall>::empty()
    &&& new.hanging_calls@ == Map::<u32, HangingCall>::empty()
    &&& new.playout@ == Set::<u128>::empty()
    &&& new.draining@ == Map::<u128, u8>::empty()
    &&& new.ul_forwarded@ == old.ul_forwarded@
    &&& new.groups_view() == old.groups_view()
    &&& new.connected == old.connected
}

/// `cmds` are the resynchronisation commands for the subscribers `ks` (in that order) whose
/// routability to the network is `bs`: every routable subscriber is registered again, and
/// then affiliated to all its groups when it has any.
pub open spec fn resync_ok(cmds: Seq<BrewCommand>, ks: Seq<u32>, bs: Seq<bool>, view: Map<u32, Set<u32>>) -> bool
    decreases ks.len(),
{
    if ks.len() == 0 {
        cmds.len() == 0
    } else {
        let k = ks.last();
        let g = view[k];
        let n: int = if !bs.last() {
            0
        } else if g.is_empty() {
            1
        } else {
            2
        };
        &&& n <= cmds.len()
        &&& resync_ok(cmds.take(cmds.len() - n), ks.drop_last(), bs.drop_last(), view)
        &&& n >= 1 ==> cmds[cmds.len() - n] == (BrewCommand::RegisterSubscriber { issi: k })
        &&& n == 2 ==> (cmds.last() matches BrewCommand::AffiliateGroups { issi, groups } && issi == k
            && groups@.to_set() == g && groups@.no_duplicates())
    }
}

/// `cmds` resynchronise every subscriber of `view`, visited in some order, with routability
/// as decided by `routable`.
pub open spec fn resync_result<F: Fn(u32) -> bool>(cmds: Seq<BrewCommand>, view: Map<u32, Set<u32>>, routable: F) -> bool {
    exists|ks: Seq<u32>, bs: Seq<bool>|
        #![trigger resync_ok(cmds, ks, bs, view)]
        ks.to_set() == view.dom() && ks.no_duplicates() && bs.len() == ks.len() && (forall|j: int|
            0 <= j < ks.len() ==> routable.ensures((ks[j],), #[trigger] bs[j])) && resync_ok(cmds, ks, bs, view)
}

impl BrewEntity {
    pub open spec fn groups_view(&self) -> Map<u32, Set<u32>> {
        self.subscriber_groups@.map_values(|s: HashSet<u32>| s@)
    }

    pub fn new() -> (r: Self)
        ensures
            !r.connected,
            r.active_calls@ == Map::<u128, ActiveCall>::empty(),
            r.hanging_calls@ == Map::<u32, HangingCall>::empty(),
            r.ul_forwarded@ == Map::<u8, UlForwardedCall>::empty(),
            r.groups_view() == Map::<u32, Set<u32>>::empty(),
            r.rssi_last_sent@ == Map::<u32, u64>::empty(),
            r.playout@ == Set::<u128>::empty(),
            r.draining@ == Map::<u128, u8>::empty(),
    {
        let r = BrewEntity {
            connected: false,
            active_calls: HashMap::new(),
            hanging_calls: HashMap::new(),
            ul_forwarded: HashMap::new(),
            subscriber_groups: HashMap::new(),
            rssi_last_sent: HashMap::new(),
            playout: HashSet::new(),
            draining: HashMap::new(),
        };
        assert(r.groups_view() =~= Map::<u32, Set<u32>>::empty());
        r
    }

    /// A group call from the network starts. A repeated start of a known session only matters
    /// when the speaker changed: the stale audio is discarded and call control is told. A new
    /// session reuses the hangtime circuit of its group if there is one (carrying over the
    /// frame count) and otherwise starts from scratch; either way call control is asked to
    /// start the call and a playout buffer is created.
    pub fn handle_group_call_start(&mut self, uuid: u128, source_issi: u32, dest_gssi: u32, priority: u8) -> (r: BrewReaction)
        ensures
            handle_group_call_start_post(*old(self), *final(self), uuid, source_issi, dest_gssi, priority, r),
    {
        let mut r = BrewReaction::none();
        match self.active_calls.get(&uuid) {
            Some(call) => {
                let call = *call;
                if call.source_issi != source_issi {
                    self.active_calls.insert(uuid, ActiveCall { source_issi, ..call });
                    r.playout.push(PlayoutOp::Flush { uuid });
                    r.stack.push(StackMsg::NetworkCallStart { uuid, source_issi, dest_gssi, priority });
                }
                return r;
            }
            None => {}
        }
        let frames = match self.hanging_calls.remove(&dest_gssi) {
            Some(hanging) => hanging.frame_count,
            None => 0,
        };
        self.active_calls.insert(
            uuid,
            ActiveCall { call_id: None, ts: None, usage: None, source_issi, dest_gssi, frame_count: frames },
        );
        self.playout.insert(uuid);
        r.playout.push(PlayoutOp::Create { uuid });
        r.stack.push(StackMsg::NetworkCallStart { uuid, source_issi, dest_gssi, priority });
        r
    }

    /// A group call from the network ends (GROUP_IDLE). Call control is asked to end it; a
    /// call whose circuit was allocated is kept in hangtime under its group so that the next
    /// call to the group can reuse the circuit; frames still buffered keep playing out.
    pub fn handle_group_call_end(&mut self, uuid: u128, has_buffered_frames: bool, now_ms: u64) -> (r: BrewReaction)
        ensures
            handle_group_call_end_post(*old(self), *final(self), uuid, has_buffered_frames, now_ms, r),
    {
        let mut r = BrewReaction::none();
        let call = match self.active_calls.remove(&uuid) {
            Some(c) => c,
            None => {
                assert(self.active_calls@ =~= old(self).active_calls@);
                return r;
            }
        };
        let had_buffer = self.playout.remove(&uuid);
        match call.ts {
            Some(ts) if had_buffer && has_buffered_frames => {
                self.draining.insert(uuid, ts);
                r.playout.push(PlayoutOp::Drain { uuid, ts });
                assert(r.playout@ =~= seq![PlayoutOp::Drain { uuid, ts }]);
            }
            _ => {
                r.playout.push(PlayoutOp::Drop { uuid });
                assert(r.playout@ =~= seq![PlayoutOp::Drop { uuid }]);
            }
        }
        r.stack.push(StackMsg::NetworkCallEnd { uuid });
        match (call.call_id, call.ts, call.usage) {
            (Some(call_id), Some(ts), Some(usage)) => {
                self.hanging_calls.insert(
                    call.dest_gssi,
                    HangingCall {
                        uuid,
                        call_id,
                        ts,
                        usage,
                        source_issi: call.source_issi,
                        dest_gssi: call.dest_gssi,
                        frame_count: call.frame_count,
                        since_ms: now_ms,
                    },
                );
            }
            _ => {}
        }
        r
    }

    /// Forgets the hangtime calls that have been idle for at least `hangtime_ms` at `now_ms`
    /// (call control releases their circuits on its own).
    pub fn expire_hanging_calls(&mut self, now_ms: u64, hangtime_ms: u64)
        ensures
            final(self).hanging_calls@ == old(self).hanging_calls@.remove_keys(
                old(self).hanging_calls@.dom().filter(|g: u32| hangtime_over(old(self).hanging_calls@[g], now_ms, hangtime_ms)),
            ),
            final(self).active_calls@ == old(self).active_calls@,
            final(self).ul_forwarded@ == old(self).ul_forwarded@,
            final(self).playout@ == old(self).playout@,
            final(self).draining@ == old(self).draining@,
            final(self).groups_view() == old(self).groups_view(),
            final(self).connected == old(self).connected,
            final(self).rssi_last_sent@ == old(self).rssi_last_sent@,
    {
        let expired = hanging_keys_where(&self.hanging_calls, HangingFilter::Expired { now_ms, hangtime_ms });
        remove_keys(&mut self.hanging_calls, &expired);
        proof {
            let m = old(self).hanging_calls@;
            assert(expired@.to_set() =~= m.dom().filter(|g: u32| hangtime_over(m[g], now_ms, hangtime_ms)));
        }
    }

    /// A speech frame for a network session arrives. Frames of unknown sessions are ignored;
    /// the frame counter of a known session is advanced (it saturates at its maximum); frames
    /// arriving before the circuit is allocated, or shorter than a full STE frame, are
    /// dropped; otherwise the speech payload without its STE header is queued for playout.
    pub fn handle_voice_frame(&mut self, uuid: u128, data: Vec<u8>) -> (r: BrewReaction)
        ensures
            handle_voice_frame_post(*old(self), *final(self), uuid, data, r),
    {
        let mut r = BrewReaction::none();
        let call = match self.active_calls.get(&uuid) {
            Some(c) => *c,
            None => {
                return r;
            }
        };
        let count = if call.frame_count < u64::MAX { call.frame_count + 1 } else { call.frame_count };
        self.active_calls.insert(uuid, ActiveCall { frame_count: count, ..call });
        if call.ts.is_none() {
            return r;
        }
        match acelp_from_ste(&data) {
            Some(acelp) => {
                self.playout.insert(uuid);
                r.playout.push(PlayoutOp::Push { uuid, data: acelp });
            }
            None => {}
        }
        r
    }

    /// Call control reports the circuit of a network session: the call learns its call
    /// identifier, timeslot and usage marker.
    pub fn rx_network_call_ready(&mut self, uuid: u128, call_id: u16, ts: u8, usage: u8)
        ensures
            final(self).active_calls@ == (if old(self).active_calls@.contains_key(uuid) {
                old(self).active_calls@.insert(
                    uuid,
                    ActiveCall { call_id: Some(call_id), ts: Some(ts), usage: Some(usage), ..old(self).active_calls@[uuid] },
                )
            } else {
                old(self).active_calls@
            }),
            final(self).hanging_calls@ == old(self).hanging_calls@,
            final(self).ul_forwarded@ == old(self).ul_forwarded@,
            final(self).playout@ == old(self).playout@,
            final(self).draining@ == old(self).draining@,
            final(self).groups_view() == old(self).groups_view(),
            final(self).connected == old(self).connected,
    {
        match self.active_calls.get(&uuid) {
            Some(call) => {
                let call = *call;
                self.active_calls.insert(
                    uuid,
                    ActiveCall { call_id: Some(call_id), ts: Some(ts), usage: Some(usage), ..call },
                );
            }
            None => {}
        }
    }

    /// Drops the state of an individual circuit call: its playout buffers, the uplink
    /// forwarding entries of that circuit, and its downlink call entry. Returns whether the
    /// session had a playout buffer or a forwarded circuit.
    pub fn drop_network_circuit(&mut self, uuid: u128) -> (had: bool)
        ensures
            had == (old(self).playout@.contains(uuid) || exists|ts: u8| #[trigger] old(self).ul_forwarded@.contains_key(ts)
                && is_circuit_of(old(self).ul_forwarded@[ts], uuid)),
            final(self).playout@ == old(self).playout@.remove(uuid),
            final(self).draining@ == old(self).draining@.remove(uuid),
            final(self).active_calls@ == old(self).active_calls@.remove(uuid),
            final(self).ul_forwarded@ == old(self).ul_forwarded@.restrict(
                old(self).ul_forwarded@.dom().filter(|ts: u8| !is_circuit_of(old(self).ul_forwarded@[ts], uuid)),
            ),
            final(self).hanging_calls@ == old(self).hanging_calls@,
            final(self).groups_view() == old(self).groups_view(),
            final(self).connected == old(self).connected,
            final(self).rssi_last_sent@ == old(self).rssi_last_sent@,
    {
        let had_buffer = self.playout.remove(&uuid);
        self.draining.remove(&uuid);
        let had_ts = remove_circuit_forwards(&mut self.ul_forwarded, uuid);
        self.active_calls.remove(&uuid);
        had_buffer || had_ts
    }

    /// Individual-call signalling from call control. The forwarded messages become worker
    /// commands only while the backhaul is connected. A ready circuit is recorded: uplink
    /// voice on its timeslot is forwarded, the session gets a downlink call entry (kept when
    /// it has one) and a playout buffer. A release drops the circuit's state and tells the
    /// network only when the circuit existed and the backhaul is connected.
    pub fn rx_cmce_call_control(&mut self, msg: CmceCallControl) -> (r: BrewReaction)
        ensures
            final(self).connected == old(self).connected,
            final(self).hanging_calls@ == old(self).hanging_calls@,
            final(self).groups_view() == old(self).groups_view(),
            final(self).rssi_last_sent@ == old(self).rssi_last_sent@,
            r.stack@.len() == 0,
            forwarded_command(msg) matches Some(cmd) ==> {
                &&& r.commands@ == (if old(self).connected {
                    seq![cmd]
                } else {
                    Seq::empty()
                })
                &&& r.playout@.len() == 0
                &&& final(self).active_calls@ == old(self).active_calls@
                &&& final(self).ul_forwarded@ == old(self).ul_forwarded@
                &&& final(self).playout@ == old(self).playout@
                &&& final(self).draining@ == old(self).draining@
            },
            msg matches CmceCallControl::MediaReady { uuid, call_id, ts } ==> {
                &&& r.commands@.len() == 0
                &&& final(self).ul_forwarded@ == old(self).ul_forwarded@.insert(
                    ts,
                    UlForwardedCall {
                        uuid,
                        call_id,
                        source_issi: 0,
                        dest_gssi: 0,
                        frame_count: 0,
                        kind: UlForwardKind::Circuit,
                    },
                )
                &&& final(self).active_calls@ == (if old(self).active_calls@.contains_key(uuid) {
                    old(self).active_calls@
                } else {
                    old(self).active_calls@.insert(
                        uuid,
                        ActiveCall {
                            call_id: Some(call_id),
                            ts: Some(ts),
                            usage: None,
                            source_issi: 0,
                            dest_gssi: 0,
                            frame_count: 0,
                        },
                    )
                })
                &&& final(self).playout@ == old(self).playout@.insert(uuid)
                &&& final(self).draining@ == old(self).draining@
                &&& old(self).playout@.contains(uuid) ==> r.playout@.len() == 0
                &&& !old(self).playout@.contains(uuid) ==> (r.playout@.len() == 1 && r.playout@[0] == (PlayoutOp::Create { uuid }))
            },
            msg matches CmceCallControl::Release { uuid, cause } ==> {
                let had = old(self).playout@.contains(uuid) || exists|ts: u8| #[trigger]
                    old(self).ul_forwarded@.contains_key(ts) && is_circuit_of(old(self).ul_forwarded@[ts], uuid);
                &&& r.commands@ == (if had && old(self).connected {
                    seq![BrewCommand::SendCallRelease { uuid, cause }]
                } else {
                    Seq::empty()
                })
                &&& r.playout@.len() == 0
                &&& final(self).playout@ == old(self).playout@.remove(uuid)
                &&& final(self).draining@ == old(self).draining@.remove(uuid)
                &&& final(self).active_calls@ == old(self).active_calls@.remove(uuid)
                &&& final(self).ul_forwarded@ == old(self).ul_forwarded@.restrict(
                    old(self).ul_forwarded@.dom().filter(|ts: u8| !is_circuit_of(old(self).ul_forwarded@[ts], uuid)),
                )
            },
    {
        let mut r = BrewReaction::none();
        let ghost m = msg;
        match msg {
            CmceCallControl::MediaReady { uuid, call_id, ts } => {
                self.ul_forwarded.insert(
                    ts,
                    UlForwardedCall {
                        uuid,
                        call_id,
                        source_issi: 0,
                        dest_gssi: 0,
                        frame_count: 0,
                        kind: UlForwardKind::Circuit,
                    },
                );
                if !self.active_calls.contains_key(&uuid) {
                    self.active_calls.insert(
                        uuid,
                        ActiveCall {
                            call_id: Some(call_id),
                            ts: Some(ts),
                            usage: None,
                            source_issi: 0,
                            dest_gssi: 0,
                            frame_count: 0,
                        },
                    );
                }
                if !self.playout.contains(&uuid) {
                    self.playout.insert(uuid);
                    r.playout.push(PlayoutOp::Create { uuid });
                }
                proof {
                    assert(self.playout@ =~= old(self).playout@.insert(uuid));
                }
            },
            CmceCallControl::Release { uuid, cause } => {
                let had = self.drop_network_circuit(uuid);
                if had && self.connected {
                    r.commands.push(BrewCommand::SendCallRelease { uuid, cause });
                }
            },
            CmceCallControl::SetupRequest { uuid, call } => {
                if self.connected {
                    r.commands.push(BrewCommand::SendSetupRequest { uuid, call });
                }
            },
            CmceCallControl::SetupAccept { uuid } => {
                if self.connected {
                    r.commands.push(BrewCommand::SendSetupAccept { uuid });
                }
            },
            CmceCallControl::SetupReject { uuid, cause } => {
                if self.connected {
                    r.commands.push(BrewCommand::SendSetupReject { uuid, cause });
                }
            },
            CmceCallControl::Alert { uuid } => {
                if self.connected {
                    r.commands.push(BrewCommand::SendCallAlert { uuid });
                }
            },
            CmceCallControl::ConnectRequest { uuid, call } => {
                if self.connected {
                    r.commands.push(BrewCommand::SendConnectRequest { uuid, call });
                }
            },
            CmceCallControl::ConnectConfirm { uuid, grant, permission } => {
                if self.connected {
                    r.commands.push(BrewCommand::SendConnectConfirm { uuid, grant, permission });
                }
            },
            CmceCallControl::Dtmf { uuid, length_bits, data } => {
                if self.connected {
                    r.commands.push(BrewCommand::SendDtmf { uuid, length_bits, data });
                }
            },
        }
        proof {
            match forwarded_command(m) {
                Some(cmd) => {
                    if old(self).connected {
                        assert(r.commands@ =~= seq![cmd]);
                    } else {
                        assert(r.commands@ =~= Seq::<BrewCommand>::empty());
                    }
                },
                None => {},
            }
        }
        r
    }

    /// Call control ends a network call: an active call is dropped together with its playout
    /// buffer and any hangtime entry of its group; otherwise a hangtime entry of the session is
    /// dropped.
    pub fn drop_network_call(&mut self, uuid: u128)
        ensures
            old(self).active_calls@.contains_key(uuid) ==> {
                &&& final(self).active_calls@ == old(self).active_calls@.remove(uuid)
                &&& final(self).playout@ == old(self).playout@.remove(uuid)
                &&& final(self).hanging_calls@ == old(self).hanging_calls@.remove(old(self).active_calls@[uuid].dest_gssi)
            },
            !old(self).active_calls@.contains_key(uuid) ==> {
                &&& final(self).active_calls@ == old(self).active_calls@
                &&& final(self).playout@ == old(self).playout@
                &&& final(self).hanging_calls@ == old(self).hanging_calls@.restrict(
                    old(self).hanging_calls@.dom().filter(|g: u32| old(self).hanging_calls@[g].uuid != uuid),
                )
            },
            final(self).ul_forwarded@ == old(self).ul_forwarded@,
            final(self).draining@ == old(self).draining@,
            final(self).groups_view() == old(self).groups_view(),
            final(self).connected == old(self).connected,
    {
        match self.active_calls.remove(&uuid) {
            Some(call) => {
                self.playout.remove(&uuid);
                self.hanging_calls.remove(&call.dest_gssi);
                return;
            }
            None => {}
        }
        let matching = hanging_keys_where(&self.hanging_calls, HangingFilter::Session { uuid });
        remove_keys(&mut self.hanging_calls, &matching);
        proof {
            let m = old(self).hanging_calls@;
            assert(matching@.to_set() =~= m.dom().filter(|g: u32| m[g].uuid == uuid));
            assert(m.remove_keys(m.dom().filter(|g: u32| m[g].uuid == uuid)) =~= m.restrict(
                m.dom().filter(|g: u32| m[g].uuid != uuid),
            ));
        }
    }

    /// The backhaul went down: every network call is ended towards call control and all call,
    /// hangtime and playout state is discarded.
    pub fn release_all_calls(&mut self) -> (r: BrewReaction)
        ensures
            release_all_calls_post(*old(self), *final(self), r),
    {
        let mut r = BrewReaction::none();
        let ghost keys = vstd::std_specs::hash::spec_keys_iter(&self.active_calls).remaining();
        for u in it: self.active_calls.keys()
            invariant
                it.seq() == keys,
                r.commands@.len() == 0,
                r.playout@.len() == 0,
                r.stack@.len() == it.index(),
                forall|k: int| 0 <= k < r.stack@.len() ==> #[trigger] r.stack@[k] == (StackMsg::NetworkCallEnd { uuid: *keys[k] }),
        {
            r.stack.push(StackMsg::NetworkCallEnd { uuid: *u });
        }
        proof {
            let old_calls = self.active_calls@;
            assert(keys.unref().to_set() == old_calls.dom());
            assert forall|k: int| 0 <= k < r.stack@.len() implies (#[trigger] r.stack@[k] matches StackMsg::NetworkCallEnd { uuid }
                && old_calls.contains_key(uuid)) by {
                assert(keys.unref()[k] == *keys[k]);
                assert(keys.unref().contains(*keys[k]));
            }
            assert forall|u: u128| #[trigger] old_calls.contains_key(u) implies exists|k: int| 0 <= k < r.stack@.len()
                && r.stack@[k] == (StackMsg::NetworkCallEnd { uuid: u }) by {
                assert(keys.unref().contains(u));
                let k = choose|k: int| 0 <= k < keys.unref().len() && keys.unref()[k] == u;
                assert(r.stack@[k] == (StackMsg::NetworkCallEnd { uuid: u }));
            }
            assert(old_calls.dom().len() == keys.len());
        }
        self.active_calls.clear();
        self.hanging_calls.clear();
        self.playout.clear();
        self.draining.clear();
        r.playout.push(PlayoutOp::DropAll);
        assert(r.playout@ =~= seq![PlayoutOp::DropAll]);
        r
    }

    /// A local uplink call takes the floor on `ts`. Nothing is forwarded while disconnected
    /// or for a source that is not routable to the network. A timeslot that is already being
    /// forwarded keeps its session and announces the new talker; otherwise a new session is
    /// opened for the call.
    pub fn handle_local_call_start(&mut self, call_id: u16, source_issi: u32, dest_gssi: u32, ts: u8, source_routable: bool) -> (r: BrewReaction)
        ensures
            r.stack@.len() == 0,
            r.playout@.len() == 0,
            !old(self).connected || !source_routable ==> r.commands@.len() == 0 && final(self).ul_forwarded@ == old(self).ul_forwarded@,
            old(self).connected && source_routable ==> {
                let uuid = final(self).ul_forwarded@[ts].uuid;
                &&& final(self).ul_forwarded@.contains_key(ts)
                &&& old(self).ul_forwarded@.contains_key(ts) ==> uuid == old(self).ul_forwarded@[ts].uuid
                &&& !old(self).ul_forwarded@.contains_key(ts) ==> is_v4_uuid(uuid)
                &&& final(self).ul_forwarded@ == old(self).ul_forwarded@.insert(
                    ts,
                    UlForwardedCall {
                        uuid,
                        call_id,
                        source_issi,
                        dest_gssi,
                        frame_count: 0,
                        kind: if old(self).ul_forwarded@.contains_key(ts) {
                            old(self).ul_forwarded@[ts].kind
                        } else {
                            UlForwardKind::Group
                        },
                    },
                )
                &&& r.commands@ == seq![BrewCommand::SendGroupTx { uuid, source_issi, dest_gssi, priority: 0, service: 0 }]
            },
            final(self).active_calls@ == old(self).active_calls@,
            final(self).hanging_calls@ == old(self).hanging_calls@,
            final(self).playout@ == old(self).playout@,
            final(self).draining@ == old(self).draining@,
            final(self).groups_view() == old(self).groups_view(),
            final(self).connected == old(self).connected,
    {
        let mut r = BrewReaction::none();
        if !self.connected || !source_routable {
            return r;
        }
        match self.ul_forwarded.get(&ts) {
            Some(fwd) => {
                let fwd = *fwd;
                self.ul_forwarded.insert(ts, UlForwardedCall { call_id, source_issi, dest_gssi, frame_count: 0, ..fwd });
                r.commands.push(BrewCommand::SendGroupTx { uuid: fwd.uuid, source_issi, dest_gssi, priority: 0, service: 0 });
                return r;
            }
            None => {}
        }
        let uuid = new_session_id();
        r.commands.push(BrewCommand::SendGroupTx { uuid, source_issi, dest_gssi, priority: 0, service: 0 });
        self.ul_forwarded.insert(
            ts,
            UlForwardedCall { uuid, call_id, source_issi, dest_gssi, frame_count: 0, kind: UlForwardKind::Group },
        );
        r
    }

    /// A local uplink call released the floor on `ts`: forwarding stops and the network is
    /// told that the transmission ended normally.
    pub fn handle_local_call_tx_stopped(&mut self, ts: u8) -> (r: BrewReaction)
        ensures
            r.stack@.len() == 0,
            r.playout@.len() == 0,
            final(self).ul_forwarded@ == old(self).ul_forwarded@.remove(ts),
            r.commands@ == (if old(self).ul_forwarded@.contains_key(ts) {
                seq![BrewCommand::SendGroupIdle { uuid: old(self).ul_forwarded@[ts].uuid, cause: 0 }]
            } else {
                Seq::<BrewCommand>::empty()
            }),
            final(self).active_calls@ == old(self).active_calls@,
            final(self).hanging_calls@ == old(self).hanging_calls@,
            final(self).playout@ == old(self).playout@,
            final(self).draining@ == old(self).draining@,
            final(self).groups_view() == old(self).groups_view(),
            final(self).connected == old(self).connected,
    {
        let mut r = BrewReaction::none();
        match self.ul_forwarded.remove(&ts) {
            Some(fwd) => {
                r.commands.push(BrewCommand::SendGroupIdle { uuid: fwd.uuid, cause: 0 });
            }
            None => {}
        }
        r
    }

    /// A local call ended on `ts`; any forwarding entry left on the timeslot is dropped.
    pub fn handle_local_call_end(&mut self, ts: u8)
        ensures
            final(self).ul_forwarded@ == old(self).ul_forwarded@.remove(ts),
            final(self).active_calls@ == old(self).active_calls@,
            final(self).hanging_calls@ == old(self).hanging_calls@,
            final(self).playout@ == old(self).playout@,
            final(self).draining@ == old(self).draining@,
            final(self).groups_view() == old(self).groups_view(),
            final(self).connected == old(self).connected,
    {
        self.ul_forwarded.remove(&ts);
    }

    /// Uplink speech on `ts`. When the timeslot is forwarded, its frame counter advances
    /// (saturating) and the frame is sent in STE format, unless it is too short to convert.
    pub fn handle_ul_voice(&mut self, ts: u8, acelp_bits: Vec<u8>) -> (r: BrewReaction)
        ensures
            r.stack@.len() == 0,
            r.playout@.len() == 0,
            !old(self).ul_forwarded@.contains_key(ts) ==> r.commands@.len() == 0 && final(self).ul_forwarded@
                == old(self).ul_forwarded@,
            old(self).ul_forwarded@.contains_key(ts) ==> {
                let fwd = old(self).ul_forwarded@[ts];
                let count = if fwd.frame_count < u64::MAX { (fwd.frame_count + 1) as u64 } else { fwd.frame_count };
                &&& final(self).ul_forwarded@ == old(self).ul_forwarded@.insert(ts, UlForwardedCall { frame_count: count, ..fwd })
                &&& r.commands@.len() <= 1
                &&& ste_frame_ok(acelp_bits@, if r.commands@.len() == 1 {
                    match r.commands@[0] {
                        BrewCommand::SendVoiceFrame { data, .. } => Some(data@),
                        _ => None,
                    }
                } else {
                    None
                })
                &&& r.commands@.len() == 1 ==> (r.commands@[0] matches BrewCommand::SendVoiceFrame { uuid, length_bits, data }
                    && uuid == fwd.uuid && length_bits == data.len() * 8)
            },
            final(self).active_calls@ == old(self).active_calls@,
            final(self).hanging_calls@ == old(self).hanging_calls@,
            final(self).playout@ == old(self).playout@,
            final(self).draining@ == old(self).draining@,
            final(self).groups_view() == old(self).groups_view(),
            final(self).connected == old(self).connected,
    {
        let mut r = BrewReaction::none();
        let fwd = match self.ul_forwarded.get(&ts) {
            Some(f) => *f,
            None => {
                return r;
            }
        };
        let count = if fwd.frame_count < u64::MAX { fwd.frame_count + 1 } else { fwd.frame_count };
        self.ul_forwarded.insert(ts, UlForwardedCall { frame_count: count, ..fwd });
        match ste_from_uplink(acelp_bits) {
            Some(data) => {
                assert(data.len() == 36);
                let length_bits = (data.len() * 8) as u16;
                r.commands.push(BrewCommand::SendVoiceFrame { uuid: fwd.uuid, length_bits, data });
            }
            None => {}
        }
        r
    }

    /// Short data from the network for `destination`. It is only handed to call control (and
    /// its session acknowledged with report status 0) when the destination is registered on
    /// the cell; Brew always carries variable-length user data.
    pub fn handle_sds_transfer(&self, uuid: u128, source: u32, destination: u32, data: Vec<u8>, length_bits: u16, dest_registered: bool) -> (r: BrewReaction)
        ensures
            r.playout@.len() == 0,
            !dest_registered ==> r.stack@.len() == 0 && r.commands@.len() == 0,
            dest_registered ==> {
                &&& r.stack@.len() == 1
                &&& r.stack@[0] matches StackMsg::SdsData { source_issi, dest_issi, length_bits: lb, data: d }
                    && source_issi == source && dest_issi == destination && lb == length_bits && d@ == data@
                &&& r.commands@ == seq![BrewCommand::SendSdsReport { uuid, status: 0 }]
            },
    {
        let mut r = BrewReaction::none();
        if !dest_registered {
            return r;
        }
        r.stack.push(StackMsg::SdsData { source_issi: source, dest_issi: destination, length_bits, data });
        r.commands.push(BrewCommand::SendSdsReport { uuid, status: 0 });
        r
    }

    /// Short data from a local MS for the network: sent in a new session while connected,
    /// dropped otherwise.
    pub fn handle_sds_send(&self, source: u32, destination: u32, data: Vec<u8>, length_bits: u16) -> (r: BrewReaction)
        ensures
            r.playout@.len() == 0,
            r.stack@.len() == 0,
            !self.connected ==> r.commands@.len() == 0,
            self.connected ==> (r.commands@.len() == 1 && (r.commands@[0] matches BrewCommand::SendSds {
                uuid,
                source: s,
                destination: d,
                data: bytes,
                length_bits: lb,
            } && s == source && d == destination && bytes@ == data@ && lb == length_bits && is_v4_uuid(uuid))),
    {
        let mut r = BrewReaction::none();
        if !self.connected {
            return r;
        }
        let uuid = new_session_id();
        r.commands.push(BrewCommand::SendSds { uuid, source, destination, data, length_bits });
        r
    }

    /// Subscriber update from mobility management. The entity mirrors every local
    /// subscriber's affiliations; what is sent to the network is filtered by whether the ISSI
    /// is routable there. A registration creates the (empty) record if needed; a
    /// deregistration drops the record and, for a routable ISSI, first deaffiliates its
    /// remaining groups; (de)affiliations only send the groups that actually changed.
    pub fn handle_subscriber_update(&mut self, issi: u32, groups: Vec<u32>, action: SubscriberAction, routable: bool) -> (r: BrewReaction)
        ensures
            r.stack@.len() == 0,
            r.playout@.len() == 0,
            action == SubscriberAction::Register ==> {
                &&& final(self).groups_view() == old(self).groups_view().insert(issi, groups_of(old(self).groups_view(), issi))
                &&& r.commands@ == (if routable {
                    seq![BrewCommand::RegisterSubscriber { issi }]
                } else {
                    Seq::<BrewCommand>::empty()
                })
            },
            action == SubscriberAction::Deregister ==> {
                let existing = groups_of(old(self).groups_view(), issi);
                &&& final(self).groups_view() == old(self).groups_view().remove(issi)
                &&& !routable ==> r.commands@.len() == 0
                &&& (routable && existing.is_empty()) ==> r.commands@ == seq![BrewCommand::DeregisterSubscriber { issi }]
                &&& (routable && !existing.is_empty()) ==> (r.commands@.len() == 2
                    && (r.commands@[0] matches BrewCommand::DeaffiliateGroups { issi: i, groups: gs }
                        && i == issi && gs@.to_set() == existing && gs@.no_duplicates())
                    && r.commands@[1] == (BrewCommand::DeregisterSubscriber { issi }))
            },
            action == SubscriberAction::Affiliate ==> {
                let base = groups_of(old(self).groups_view(), issi);
                let fresh = fresh_elements(base, groups@);
                &&& final(self).groups_view() == old(self).groups_view().insert(issi, base.union(groups@.to_set()))
                &&& (routable && fresh.len() > 0) ==> (r.commands@.len() == 1
                    && (r.commands@[0] matches BrewCommand::AffiliateGroups { issi: i, groups: gs } && i == issi && gs@ == fresh))
                &&& !(routable && fresh.len() > 0) ==> r.commands@.len() == 0
            },
            action == SubscriberAction::Deaffiliate ==> {
                let known = old(self).groups_view().contains_key(issi);
                let removed = if known {
                    present_elements(old(self).groups_view()[issi], groups@)
                } else {
                    Seq::<u32>::empty()
                };
                &&& final(self).groups_view() == (if known {
                    old(self).groups_view().insert(issi, old(self).groups_view()[issi].difference(groups@.to_set()))
                } else {
                    old(self).groups_view()
                })
                &&& (routable && removed.len() > 0) ==> (r.commands@.len() == 1
                    && (r.commands@[0] matches BrewCommand::DeaffiliateGroups { issi: i, groups: gs } && i == issi && gs@ == removed))
                &&& !(routable && removed.len() > 0) ==> r.commands@.len() == 0
            },
            final(self).active_calls@ == old(self).active_calls@,
            final(self).hanging_calls@ == old(self).hanging_calls@,
            final(self).ul_forwarded@ == old(self).ul_forwarded@,
            final(self).playout@ == old(self).playout@,
            final(self).draining@ == old(self).draining@,
            final(self).connected == old(self).connected,
    {
        let mut r = BrewReaction::none();
        let ghost gv = old(self).groups_view();
        match action {
            SubscriberAction::Register => {
                if !self.subscriber_groups.contains_key(&issi) {
                    self.subscriber_groups.insert(issi, HashSet::new());
                }
                proof {
                    assert(self.groups_view() =~= gv.insert(issi, groups_of(gv, issi)));
                }
                if routable {
                    r.commands.push(BrewCommand::RegisterSubscriber { issi });
                }
            }
            SubscriberAction::Deregister => {
                let existing: Vec<u32> = match self.subscriber_groups.remove(&issi) {
                    Some(set) => set_to_vec(&set),
                    None => Vec::new(),
                };
                proof {
                    assert(self.groups_view() =~= gv.remove(issi));
                    assert(existing@.to_set() =~= groups_of(gv, issi));
                    if existing@.len() == 0 {
                        assert(existing@.to_set() =~= Set::<u32>::empty());
                    }
                    if groups_of(gv, issi).is_empty() && existing@.len() > 0 {
                        assert(existing@.to_set().contains(existing@[0]));
                    }
                }
                if routable {
                    if existing.len() > 0 {
                        r.commands.push(BrewCommand::DeaffiliateGroups { issi, groups: existing });
                    }
                    r.commands.push(BrewCommand::DeregisterSubscriber { issi });
                }
            }
            SubscriberAction::Affiliate => {
                let mut set = match self.subscriber_groups.remove(&issi) {
                    Some(set) => set,
                    None => HashSet::new(),
                };
                let fresh = insert_all(&mut set, &groups);
                self.subscriber_groups.insert(issi, set);
                proof {
                    assert(self.groups_view() =~= gv.insert(issi, groups_of(gv, issi).union(groups@.to_set())));
                }
                if fresh.len() > 0 && routable {
                    r.commands.push(BrewCommand::AffiliateGroups { issi, groups: fresh });
                }
            }
            SubscriberAction::Deaffiliate => {
                match self.subscriber_groups.remove(&issi) {
                    Some(mut set) => {
                        let removed = remove_all(&mut set, &groups);
                        self.subscriber_groups.insert(issi, set);
                        proof {
                            assert(self.groups_view() =~= gv.insert(issi, gv[issi].difference(groups@.to_set())));
                        }
                        if removed.len() > 0 && routable {
                            r.commands.push(BrewCommand::DeaffiliateGroups { issi, groups: removed });
                        }
                    }
                    None => {
                        proof {
                            assert(self.groups_view() =~= gv);
                        }
                    }
                }
            }
        }
        r
    }

    /// After (re)connecting, every local subscriber that is routable to the network is
    /// registered again and re-affiliated to its groups.
    pub fn resync_subscribers<F: Fn(u32) -> bool>(&self, routable: &F) -> (r: Vec<BrewCommand>)
        requires
            forall|i: u32| routable.requires((i,)),
        ensures
            resync_result(r@, self.groups_view(), *routable),
    {
        let mut cmds: Vec<BrewCommand> = Vec::new();
        let ghost view = self.groups_view();
        let ghost mut bs: Seq<bool> = Seq::empty();
        let ghost keys = vstd::std_specs::hash::spec_keys_iter(&self.subscriber_groups).remaining();
        for k in it: self.subscriber_groups.keys()
            invariant
                it.seq() == keys,
                view == self.groups_view(),
                forall|i: u32| routable.requires((i,)),
                bs.len() == it.index(),
                forall|j: int| 0 <= j < bs.len() ==> routable.ensures((keys.unref()[j],), #[trigger] bs[j]),
                resync_ok(cmds@, keys.unref().take(it.index() as int), bs, view),
        {
            let ghost idx = it.index();
            let ghost before = cmds@;
            let issi = *k;
            let b = routable(issi);
            proof {
                assert(keys.unref()[idx as int] == issi);
                assert(keys.unref().to_set() == self.subscriber_groups@.dom());
                assert(keys.unref().contains(issi));
            }
            if b {
                cmds.push(BrewCommand::RegisterSubscriber { issi });
                match self.subscriber_groups.get(&issi) {
                    Some(groups) => {
                        if !groups.is_empty() {
                            let list = set_to_vec(groups);
                            cmds.push(BrewCommand::AffiliateGroups { issi, groups: list });
                        }
                    }
                    None => {}
                }
            }
            proof {
                let ks1 = keys.unref().take(idx + 1);
                assert(ks1.drop_last() =~= keys.unref().take(idx as int));
                assert(ks1.last() == issi);
                let bs1 = bs.push(b);
                assert(bs1.drop_last() =~= bs);
                let g = view[issi];
                let n: int = if !b { 0 } else if g.is_empty() { 1 } else { 2 };
                assert(cmds@.len() == before.len() + n);
                assert(cmds@.take(cmds@.len() - n) =~= before);
                assert(resync_ok(cmds@, ks1, bs1, view));
                bs = bs1;
                assert forall|j: int| 0 <= j < bs.len() implies routable.ensures((keys.unref()[j],), #[trigger] bs[j]) by {
                    if j < idx {
                        assert(bs[j] == bs1.drop_last()[j]);
                    }
                }
            }
        }
        proof {
            assert(keys.unref().take(keys.len() as int) =~= keys.unref());
            assert(keys.unref().to_set() == view.dom());
            assert(keys.unref().no_duplicates()) by {
                assert forall|a: int, b: int| 0 <= a < b < keys.len() implies keys.unref()[a] != keys.unref()[b] by {
                    assert(keys.no_duplicates());
                    assert(keys[a] != keys[b]);
                }
            }
            assert(resync_ok(cmds@, keys.unref(), bs, view));
        }
        cmds
    }

    /// Handles one event reported by the worker (see the per-event handlers). `now_ms` and
    /// `has_buffered_frames` (whether the session's playout buffer still holds frames) are only
    /// used for the end of a group call; `routable` decides which subscribers are resynchronised
    /// after a connection.
    pub fn handle_event<C, F: Fn(u32) -> bool>(
        &mut self,
        ev: BrewEvent<C>,
        state: &mut StackState,
        now_ms: u64,
        has_buffered_frames: bool,
        routable: &F,
    ) -> (out: EventOutcome<C>)
        requires
            forall|i: u32| routable.requires((i,)),
        ensures
            ev matches BrewEvent::Connected { server_version } ==> {
                &&& final(self).connected && final(state).network_connected
                &&& out.connection_change == (if old(state).network_connected {
                    None
                } else {
                    Some((true, server_version))
                })
                &&& resync_result(out.reaction.commands@, old(self).groups_view(), *routable)
                &&& out.reaction.stack@.len() == 0 && out.reaction.playout@.len() == 0 && out.circuit is None
                &&& final(self).active_calls@ == old(self).active_calls@
                &&& final(self).groups_view() == old(self).groups_view()
            },
            ev matches BrewEvent::VersionDetected { version } ==> {
                &&& final(self).connected && final(state).network_connected
                &&& out.connection_change == (if old(state).network_connected {
                    None
                } else {
                    Some((true, version))
                })
                &&& out.reaction.stack@ == seq![StackMsg::BrewReconnected]
                &&& out.reaction.commands@.len() == 0 && out.reaction.playout@.len() == 0 && out.circuit is None
                &&& final(self).active_calls@ == old(self).active_calls@
                &&& final(self).groups_view() == old(self).groups_view()
            },
            ev is Disconnected ==> {
                let mid = BrewEntity { connected: false, ..*old(self) };
                &&& !final(self).connected && !final(state).network_connected
                &&& out.connection_change == (if old(state).network_connected {
                    Some((false, 0u8))
                } else {
                    None
                })
                &&& release_all_calls_post(mid, *final(self), out.reaction)
                &&& out.circuit is None
            },
            ev matches BrewEvent::GroupCallStart { uuid, source_issi, dest_gssi, priority, service } ==> {
                &&& handle_group_call_start_post(*old(self), *final(self), uuid, source_issi, dest_gssi, priority, out.reaction)
                &&& out.circuit is None && out.connection_change is None
            },
            ev matches BrewEvent::GroupCallEnd { uuid, cause } ==> {
                &&& handle_group_call_end_post(*old(self), *final(self), uuid, has_buffered_frames, now_ms, out.reaction)
                &&& out.circuit is None && out.connection_change is None
            },
            ev matches BrewEvent::VoiceFrame { uuid, length_bits, data } ==> {
                &&& handle_voice_frame_post(*old(self), *final(self), uuid, data, out.reaction)
                &&& out.circuit is None && out.connection_change is None
            },
            ev matches BrewEvent::SdsTransfer { uuid, source, destination, data, length_bits } ==> {
                let registered = old(state).subscribers@.contains_key(destination);
                &&& out.reaction.playout@.len() == 0
                &&& !registered ==> out.reaction.stack@.len() == 0 && out.reaction.commands@.len() == 0
                &&& registered ==> {
                    &&& out.reaction.stack@.len() == 1
                    &&& out.reaction.stack@[0] matches StackMsg::SdsData { source_issi, dest_issi, length_bits: lb, data: d }
                        && source_issi == source && dest_issi == destination && lb == length_bits && d@ == data@
                    &&& out.reaction.commands@ == seq![BrewCommand::SendSdsReport { uuid, status: 0 }]
                }
                &&& out.circuit is None && out.connection_change is None
                &&& *final(self) == *old(self)
            },
            ev matches BrewEvent::SubscriberEvent { kind, issi, groups } ==> {
                &&& out.reaction.commands@.len() == 0 && out.reaction.playout@.len() == 0
                &&& out.circuit is None && out.connection_change is None
                &&& *final(self) == *old(self)
                &&& (kind == ExternalSubscriberEvent::Deregister) ==> (out.reaction.stack@.len() == 1 && (
                    out.reaction.stack@[0] matches StackMsg::SubscriberUpdate { issi: i, groups: g, action }
                    && i == issi && g@.len() == 0 && action == SubscriberAction::Deregister))
                &&& (kind == ExternalSubscriberEvent::Affiliate || kind == ExternalSubscriberEvent::Deaffiliate) ==> {
                    &&& groups@.len() == 0 ==> out.reaction.stack@.len() == 0
                    &&& groups@.len() > 0 ==> (out.reaction.stack@.len() == 1 && (
                        out.reaction.stack@[0] matches StackMsg::SubscriberUpdate { issi: i, groups: g, action }
                        && i == issi && g@ == groups@ && action == (if kind == ExternalSubscriberEvent::Affiliate {
                            SubscriberAction::Affiliate
                        } else {
                            SubscriberAction::Deaffiliate
                        })))
                }
                &&& kind == ExternalSubscriberEvent::Other ==> out.reaction.stack@.len() == 0
            },
            (ev is SdsReport || ev is ServerError || ev is CircuitDtmf) ==> {
                &&& out.reaction.stack@.len() == 0 && out.reaction.commands@.len() == 0 && out.reaction.playout@.len() == 0
                &&& out.circuit is None && out.connection_change is None
                &&& *final(self) == *old(self)
            },
            (ev is CircuitSetupRequest || ev is CircuitSetupAccept || ev is CircuitSetupReject || ev is CircuitCallAlert
                || ev is CircuitConnectRequest || ev is CircuitConnectConfirm || ev is CircuitCallRelease) ==> {
                &&& out.reaction.stack@.len() == 0 && out.reaction.commands@.len() == 0 && out.reaction.playout@.len() == 0
                &&& out.connection_change is None
                &&& *final(self) == *old(self)
                &&& match ev {
                    BrewEvent::CircuitSetupRequest { uuid, call } => out.circuit == Some(CircuitNotice::SetupRequest { uuid, call }),
                    BrewEvent::CircuitSetupAccept { uuid } => out.circuit == Some(CircuitNotice::<C>::SetupAccept { uuid }),
                    BrewEvent::CircuitSetupReject { uuid, cause } => out.circuit == Some(CircuitNotice::<C>::SetupReject { uuid, cause }),
                    BrewEvent::CircuitCallAlert { uuid } => out.circuit == Some(CircuitNotice::<C>::Alert { uuid }),
                    BrewEvent::CircuitConnectRequest { uuid, call } => out.circuit == Some(CircuitNotice::ConnectRequest { uuid, call }),
                    BrewEvent::CircuitConnectConfirm { uuid, grant, permission } => out.circuit == Some(
                        CircuitNotice::<C>::ConnectConfirm { uuid, grant, permission },
                    ),
                    BrewEvent::CircuitCallRelease { uuid, cause } => out.circuit == Some(CircuitNotice::<C>::Release { uuid, cause }),
                    _ => true,
                }
            },
            !(ev is Connected || ev is VersionDetected || ev is Disconnected) ==> final(state).network_connected
                == old(state).network_connected,
    {
        let mut out = EventOutcome { reaction: BrewReaction::none(), circuit: None, connection_change: None };
        match ev {
            BrewEvent::Connected { server_version } => {
                self.connected = true;
                out.reaction.commands = self.resync_subscribers(routable);
                if self.set_network_connected(state, true) {
                    out.connection_change = Some((true, server_version));
                }
            }
            BrewEvent::VersionDetected { version } => {
                if self.set_network_connected(state, true) {
                    out.connection_change = Some((true, version));
                }
                out.reaction.stack.push(StackMsg::BrewReconnected);
                assert(out.reaction.stack@ =~= seq![StackMsg::BrewReconnected]);
            }
            BrewEvent::Disconnected { reason } => {
                if self.set_network_connected(state, false) {
                    out.connection_change = Some((false, 0));
                }
                out.reaction = self.release_all_calls();
            }
            BrewEvent::GroupCallStart { uuid, source_issi, dest_gssi, priority, service } => {
                out.reaction = self.handle_group_call_start(uuid, source_issi, dest_gssi, priority);
            }
            BrewEvent::GroupCallEnd { uuid, cause } => {
                out.reaction = self.handle_group_call_end(uuid, has_buffered_frames, now_ms);
            }
            BrewEvent::VoiceFrame { uuid, length_bits, data } => {
                out.reaction = self.handle_voice_frame(uuid, data);
            }
            BrewEvent::SdsTransfer { uuid, source, destination, data, length_bits } => {
                let registered = state.subscribers.is_registered(destination);
                out.reaction = self.handle_sds_transfer(uuid, source, destination, data, length_bits, registered);
            }
            BrewEvent::SdsReport { uuid, status } => {}
            BrewEvent::SubscriberEvent { kind, issi, groups } => {
                match kind {
                    ExternalSubscriberEvent::Affiliate => {
                        if groups.len() > 0 {
                            out.reaction.stack.push(StackMsg::SubscriberUpdate { issi, groups, action: SubscriberAction::Affiliate });
                        }
                    }
                    ExternalSubscriberEvent::Deaffiliate => {
                        if groups.len() > 0 {
                            out.reaction.stack.push(
                                StackMsg::SubscriberUpdate { issi, groups, action: SubscriberAction::Deaffiliate },
                            );
                        }
                    }
                    ExternalSubscriberEvent::Deregister => {
                        out.reaction.stack.push(
                            StackMsg::SubscriberUpdate { issi, groups: Vec::new(), action: SubscriberAction::Deregister },
                        );
                    }
                    ExternalSubscriberEvent::Other => {}
                }
            }
            BrewEvent::ServerError { error_type, data } => {}
            BrewEvent::CircuitSetupRequest { uuid, call } => {
                out.circuit = Some(CircuitNotice::SetupRequest { uuid, call });
            }
            BrewEvent::CircuitSetupAccept { uuid } => {
                out.circuit = Some(CircuitNotice::SetupAccept { uuid });
            }
            BrewEvent::CircuitSetupReject { uuid, cause } => {
                out.circuit = Some(CircuitNotice::SetupReject { uuid, cause });
            }
            BrewEvent::CircuitCallAlert { uuid } => {
                out.circuit = Some(CircuitNotice::Alert { uuid });
            }
            BrewEvent::CircuitConnectRequest { uuid, call } => {
                out.circuit = Some(CircuitNotice::ConnectRequest { uuid, call });
            }
            BrewEvent::CircuitConnectConfirm { uuid, grant, permission } => {
                out.circuit = Some(CircuitNotice::ConnectConfirm { uuid, grant, permission });
            }
            BrewEvent::CircuitCallRelease { uuid, cause } => {
                out.circuit = Some(CircuitNotice::Release { uuid, cause });
            }
            BrewEvent::CircuitDtmf { uuid, length_bits, data } => {}
        }
        out
    }

    /// Records the backhaul state in the entity and in the shared stack state; returns whether
    /// the shared state changed (the change is then reported to telemetry).
    pub fn set_network_connected(&mut self, state: &mut StackState, connected: bool) -> (changed: bool)
        ensures
            final(self).connected == connected,
            final(state).network_connected == connected,
            changed == (old(state).network_connected != connected),
            final(self).active_calls@ == old(self).active_calls@,
            final(self).hanging_calls@ == old(self).hanging_calls@,
            final(self).ul_forwarded@ == old(self).ul_forwarded@,
            final(self).playout@ == old(self).playout@,
            final(self).draining@ == old(self).draining@,
            final(self).groups_view() == old(self).groups_view(),
            final(state).subscribers@ == old(state).subscribers@,
            final(state).active_call_ts@ == old(state).active_call_ts@,
            final(state).ee_monitoring_windows@ == old(state).ee_monitoring_windows@,
    {
        self.connected = connected;
        if state.network_connected != connected {
            state.network_connected = connected;
            true
        } else {
            false
        }
    }

    /// Decides whether an RSSI measurement of `issi` is exported now: only with the export
    /// feature enabled, while connected, and at most once per `RSSI_EXPORT_INTERVAL_MS` per
    /// MS. A due export records `now_ms` as the last export time.
    pub fn rssi_export_due(&mut self, issi: u32, now_ms: u64, feature_enabled: bool) -> (due: bool)
        ensures
            due == (feature_enabled && old(self).connected && rssi_due(
                if old(self).rssi_last_sent@.contains_key(issi) {
                    Some(old(self).rssi_last_sent@[issi])
                } else {
                    None
                },
                now_ms,
            )),
            final(self).rssi_last_sent@ == (if due {
                old(self).rssi_last_sent@.insert(issi, now_ms)
            } else {
                old(self).rssi_last_sent@
            }),
            final(self).connected == old(self).connected,
            final(self).active_calls@ == old(self).active_calls@,
            final(self).groups_view() == old(self).groups_view(),
    {
        if !feature_enabled || !self.connected {
            return false;
        }
        let due = match self.rssi_last_sent.get(&issi) {
            None => true,
            Some(last) => now_ms >= *last && now_ms - *last >= RSSI_EXPORT_INTERVAL_MS,
        };
        if due {
            self.rssi_last_sent.insert(issi, now_ms);
        }
        due
    }
}

/// A network group call that starts and then ends is over: it is no longer active, its
/// playout buffer is released, and call control is told both times.
pub proof fn lemma_group_call_start_then_end(
    e0: BrewEntity,
    e1: BrewEntity,
    e2: BrewEntity,
    uuid: u128,
    source_issi: u32,
    dest_gssi: u32,
    priority: u8,
    has_buffered_frames: bool,
    now_ms: u64,
    r1: BrewReaction,
    r2: BrewReaction,
)
    requires
        handle_group_call_start_post(e0, e1, uuid, source_issi, dest_gssi, priority, r1),
        handle_group_call_end_post(e1, e2, uuid, has_buffered_frames, now_ms, r2),
    ensures
        !e2.active_calls@.contains_key(uuid),
        !e2.playout@.contains(uuid),
        r2.stack@ == seq![StackMsg::NetworkCallEnd { uuid }],
        e2.groups_view() == e0.groups_view(),
{
    assert(e1.active_calls@.contains_key(uuid));
    assert(r2.stack@ =~= seq![StackMsg::NetworkCallEnd { uuid }]);
}

} // verus!

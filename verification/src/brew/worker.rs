//! Protocol-side bookkeeping of the Brew worker: which wire message each entity command
//! becomes, the subscriber state used for a graceful teardown, and the pairing of SDS
//! headers (SHORT_TRANSFER) with their payload frames (SDS_TRANSFER).
use std::collections::{HashMap, HashSet};
use vstd::prelude::*;
use vstd::std_specs::iter::IteratorSpec;

use super::entity::{BrewCommand, BrewEvent, CircuitCall, fresh_elements, present_elements};

verus! {

broadcast use vstd::std_specs::hash::group_hash_axioms;

/// Messages the worker puts on the wire (their byte encoding is done by the protocol codec).
#[derive(Debug)]
pub enum WireMsg {
    SubscriberRegister { issi: u32 },
    SubscriberReregister { issi: u32 },
    SubscriberDeregister { issi: u32 },
    SubscriberAffiliate { issi: u32, groups: Vec<u32> },
    SubscriberDeaffiliate { issi: u32, groups: Vec<u32> },
    GroupTx { uuid: u128, source_issi: u32, dest_gssi: u32, priority: u8, service: u16 },
    SetupRequest { uuid: u128, call: CircuitCall },
    ConnectRequest { uuid: u128, call: CircuitCall },
    VoiceFrame { uuid: u128, length_bits: u16, data: Vec<u8> },
    GroupIdle { uuid: u128, cause: u8 },
    /// Header of an SDS; the payload frame follows only if the header was sent.
    ShortTransfer { uuid: u128, source: u32, destination: u32 },
    SdsFrame { uuid: u128, length_bits: u16, data: Vec<u8> },
    SdsReport { uuid: u128, status: u8 },
    SetupAccept { uuid: u128 },
    SetupReject { uuid: u128, cause: u8 },
    CallAlert { uuid: u128 },
    ConnectConfirm { uuid: u128, grant: u8, permission: u8 },
    CallRelease { uuid: u128, cause: u8 },
    Dtmf { uuid: u128, length_bits: u16, data: Vec<u8> },
}

/// What the worker does with one command from the entity.
#[derive(Debug)]
pub enum WorkerStep {
    /// Send these messages, in order (a later one only after the earlier ones were sent).
    Send { msgs: Vec<WireMsg> },
    /// Nothing to send (the command is disabled by configuration).
    Ignore,
    /// Send these messages, then close the transport and stop.
    Teardown { msgs: Vec<WireMsg> },
}

/// SDS header waiting for its payload frame.
#[derive(Debug, Clone, Copy, PartialEq, Eq, Structural)]
pub struct PendingSdsHeader {
    pub source: u32,
    pub destination: u32,
    pub received_at_ms: u64,
}

/// Age after which an SDS header without payload is dropped, in milliseconds.
pub const PENDING_SDS_TIMEOUT_MS: u64 = 30000;

/// Largest SDS payload accepted from the network, in bits.
pub const MAX_SDS_BITS: u16 = 2047;

/// The call state of a call-control message from the network, as decoded by the codec.
#[derive(Debug, Clone, Copy, PartialEq, Eq, Structural)]
pub enum CallState {
    GroupTx,
    GroupIdle,
    SetupRequest,
    SetupAccept,
    SetupReject,
    CallAlert,
    ConnectRequest,
    ConnectConfirm,
    CallRelease,
    ShortTransfer,
    /// A state the worker does not handle, with its wire number.
    Other(u8),
}

/// The payload of a call-control message. `C` is the record of an individual circuit call.
#[derive(Debug)]
pub enum CallPayload<C> {
    GroupTransmission { source: u32, destination: u32, priority: u8, service: u16, has_mnemonic: bool },
    Cause(u8),
    CircularCall(C),
    CircularGrant { grant: u8, permission: u8 },
    ShortTransfer { source: u32, destination: u32 },
    Empty,
}

/// The cause a message carries: its cause payload, else 0.
pub open spec fn payload_cause<C>(p: CallPayload<C>) -> u8 {
    match p {
        CallPayload::Cause(c) => c,
        _ => 0,
    }
}

/// The events one call-control message becomes; a SHORT_TRANSFER becomes none (its header
/// is kept until the payload frame arrives).
pub open spec fn call_control_spec<C>(
    state: CallState,
    uuid: u128,
    payload: CallPayload<C>,
    gssi_routable: bool,
) -> Seq<BrewEvent<C>> {
    match state {
        CallState::GroupTx => match payload {
            CallPayload::GroupTransmission { source, destination, priority, service, has_mnemonic } => (if has_mnemonic {
                seq![BrewEvent::<C>::VersionDetected { version: 1 }]
            } else {
                Seq::empty()
            }) + (if gssi_routable {
                seq![BrewEvent::<C>::GroupCallStart { uuid, source_issi: source, dest_gssi: destination, priority, service }]
            } else {
                Seq::empty()
            }),
            _ => Seq::empty(),
        },
        CallState::GroupIdle => seq![BrewEvent::GroupCallEnd { uuid, cause: payload_cause(payload) }],
        CallState::SetupRequest => match payload {
            CallPayload::CircularCall(call) => seq![BrewEvent::CircuitSetupRequest { uuid, call }],
            _ => Seq::empty(),
        },
        CallState::SetupAccept => seq![BrewEvent::CircuitSetupAccept { uuid }],
        CallState::SetupReject => seq![BrewEvent::CircuitSetupReject { uuid, cause: payload_cause(payload) }],
        CallState::CallAlert => seq![BrewEvent::CircuitCallAlert { uuid }],
        CallState::ConnectRequest => match payload {
            CallPayload::CircularCall(call) => seq![BrewEvent::CircuitConnectRequest { uuid, call }],
            _ => Seq::empty(),
        },
        CallState::ConnectConfirm => match payload {
            CallPayload::CircularGrant { grant, permission } => seq![
                BrewEvent::CircuitConnectConfirm { uuid, grant, permission },
            ],
            _ => seq![BrewEvent::CircuitConnectConfirm { uuid, grant: 0, permission: 0 }],
        },
        CallState::CallRelease => seq![
            BrewEvent::GroupCallEnd { uuid, cause: payload_cause(payload) },
            BrewEvent::CircuitCallRelease { uuid, cause: payload_cause(payload) },
        ],
        CallState::ShortTransfer => Seq::empty(),
        CallState::Other(_) => Seq::empty(),
    }
}

pub struct WorkerState {
    /// Registered subscribers and their groups, as commanded by the entity.
    pub subscriber_groups: HashMap<u32, HashSet<u32>>,
    /// SDS headers by session, awaiting their payload.
    pub pending_sds: HashMap<u128, PendingSdsHeader>,
}

pub open spec fn strictly_increasing(s: Seq<u32>) -> bool {
    forall|a: int, b: int| 0 <= a < b < s.len() ==> s[a] < s[b]
}

/// Sorts a list without duplicates into increasing order.
pub fn sort_unique(v: &Vec<u32>) -> (r: Vec<u32>)
    requires
        v@.no_duplicates(),
    ensures
        strictly_increasing(r@),
        r@.to_set() == v@.to_set(),
        r@.len() == v@.len(),
{
    let mut out: Vec<u32> = Vec::new();
    let mut i: usize = 0;
    while i < v.len()
        invariant
            0 <= i <= v.len(),
            v@.no_duplicates(),
            strictly_increasing(out@),
            out@.to_set() == v@.take(i as int).to_set(),
            out@.len() == i,
        decreases v.len() - i,
    {
        let x = v[i];
        let mut p: usize = 0;
        while p < out.len() && out[p] < x
            invariant
                0 <= p <= out.len(),
                forall|a: int| 0 <= a < p ==> out@[a] < x,
            decreases out.len() - p,
        {
            p = p + 1;
        }
        proof {
            assert(!v@.take(i as int).contains(x)) by {
                if v@.take(i as int).contains(x) {
                    let j = choose|j: int| 0 <= j < i && v@.take(i as int)[j] == x;
                    assert(v@[j] == v@[i as int]);
                }
            }
            assert(!out@.contains(x)) by {
                if out@.contains(x) {
                    assert(out@.to_set().contains(x));
                }
            }
            if p < out.len() {
                assert(out@[p as int] != x);
                assert(out@[p as int] > x);
            }
        }
        let ghost before = out@;
        out.insert(p, x);
        proof {
            assert(out@ == before.insert(p as int, x));
            assert forall|a: int, b: int| 0 <= a < b < out@.len() implies out@[a] < out@[b] by {
                if b < p {
                } else if a < p && b == p {
                } else if a < p && b > p {
                    assert(out@[b] == before[b - 1]);
                    if p < before.len() {
                        assert(before[p as int] > x);
                        if b - 1 > p {
                            assert(before[p as int] < before[b - 1]);
                        }
                    }
                } else if a == p {
                    assert(out@[b] == before[b - 1]);
                    assert(before[p as int] > x || b - 1 == p as int);
                    if b - 1 > p {
                        assert(before[p as int] < before[b - 1]);
                    }
                } else {
                    assert(out@[a] == before[a - 1]);
                    assert(out@[b] == before[b - 1]);
                }
            }
            let t0 = v@.take(i as int);
            let t1 = v@.take(i + 1);
            assert(t1 =~= t0.push(x));
            assert forall|y: u32| #[trigger] out@.contains(y) <==> (before.contains(y) || y == x) by {
                if out@.contains(y) {
                    let j = choose|j: int| 0 <= j < out@.len() && out@[j] == y;
                    if j < p {
                        assert(before[j] == y);
                    } else if j > p {
                        assert(before[j - 1] == y);
                    }
                }
                if before.contains(y) {
                    let j = choose|j: int| 0 <= j < before.len() && before[j] == y;
                    if j < p {
                        assert(out@[j] == y);
                    } else {
                        assert(out@[j + 1] == y);
                    }
                }
                if y == x {
                    assert(out@[p as int] == y);
                }
            }
            assert forall|y: u32| #[trigger] t1.contains(y) <==> (t0.contains(y) || y == x) by {
                if t1.contains(y) && y != x {
                    let j = choose|j: int| 0 <= j < t1.len() && t1[j] == y;
                    assert(t0[j] == y);
                }
                if t0.contains(y) {
                    let j = choose|j: int| 0 <= j < t0.len() && t0[j] == y;
                    assert(t1[j] == y);
                }
                if y == x {
                    assert(t1[i as int] == y);
                }
            }
            assert forall|y: u32| out@.to_set().contains(y) == t1.to_set().contains(y) by {
                assert(before.to_set().contains(y) == t0.to_set().contains(y));
            }
            assert(out@.to_set() =~= t1.to_set());
        }
        i = i + 1;
    }
    proof {
        assert(v@.take(i as int) =~= v@);
    }
    out
}

impl WorkerState {
    pub open spec fn groups_view(&self) -> Map<u32, Set<u32>> {
        self.subscriber_groups@.map_values(|s: HashSet<u32>| s@)
    }

    pub fn new() -> (r: Self)
        ensures
            r.groups_view() == Map::<u32, Set<u32>>::empty(),
            r.pending_sds@ == Map::<u128, PendingSdsHeader>::empty(),
    {
        let r = WorkerState { subscriber_groups: HashMap::new(), pending_sds: HashMap::new() };
        assert(r.groups_view() =~= Map::<u32, Set<u32>>::empty());
        r
    }

    /// The graceful-teardown messages: for every subscriber (in some order) a
    /// deaffiliation from all its groups in increasing order, when it has any, followed by
    /// its deregistration.
    pub fn teardown_messages(&self) -> (r: Vec<WireMsg>)
        ensures
            is_teardown_of(r@, self.groups_view()),
    {
        let mut msgs: Vec<WireMsg> = Vec::new();
        let ghost view = self.groups_view();
        let ghost keys = vstd::std_specs::hash::spec_keys_iter(&self.subscriber_groups).remaining();
        for k in it: self.subscriber_groups.keys()
            invariant
                it.seq() == keys,
                view == self.groups_view(),
                teardown_ok(msgs@, keys.unref().take(it.index() as int), view),
        {
            let ghost idx = it.index();
            let ghost before = msgs@;
            let issi = *k;
            proof {
                assert(keys.unref()[idx as int] == issi);
                assert(keys.unref().to_set() == self.subscriber_groups@.dom());
                assert(keys.unref().contains(issi));
            }
            match self.subscriber_groups.get(&issi) {
                Some(groups) => {
                    if !groups.is_empty() {
                        let list = set_elements(groups);
                        let sorted = sort_unique(&list);
                        msgs.push(WireMsg::SubscriberDeaffiliate { issi, groups: sorted });
                    }
                }
                None => {}
            }
            msgs.push(WireMsg::SubscriberDeregister { issi });
            proof {
                let ks1 = keys.unref().take(idx + 1);
                assert(ks1.drop_last() =~= keys.unref().take(idx as int));
                let n: int = if view[issi].is_empty() { 1 } else { 2 };
                assert(msgs@.take(msgs@.len() - n) =~= before);
                assert(teardown_ok(msgs@, ks1, view));
            }
        }
        proof {
            assert(keys.unref().take(keys.len() as int) =~= keys.unref());
            assert(keys.unref().to_set() == view.dom());
            assert(keys.unref().no_duplicates()) by {
                assert forall|a: int, b: int| 0 <= a < b < keys.len() implies keys.unref()[a] != keys.unref()[b] by {
                    assert(keys.no_duplicates());
                    assert(keys[a] != keys[b]);
                }
            }
            assert(teardown_ok(msgs@, keys.unref(), view));
        }
        msgs
    }

    /// Turns a command of the entity into wire messages and keeps the subscriber state that
    /// the teardown needs. A registration of a known ISSI is sent as a re-registration. SDS
    /// and SDS reports are ignored while SDS over Brew is disabled.
    pub fn apply_command(&mut self, cmd: BrewCommand, sds_enabled: bool) -> (step: WorkerStep)
        ensures
            cmd matches BrewCommand::RegisterSubscriber { issi } ==> {
                &&& final(self).groups_view() == old(self).groups_view().insert(issi, groups_in(old(self).groups_view(), issi))
                &&& step matches WorkerStep::Send { msgs } && msgs@.len() == 1 && msgs@[0] == (if old(
                    self,
                ).groups_view().contains_key(issi) {
                    WireMsg::SubscriberReregister { issi }
                } else {
                    WireMsg::SubscriberRegister { issi }
                })
            },
            cmd matches BrewCommand::DeregisterSubscriber { issi } ==> {
                &&& final(self).groups_view() == old(self).groups_view().remove(issi)
                &&& step matches WorkerStep::Send { msgs } && msgs@.len() == 1 && msgs@[0] == (WireMsg::SubscriberDeregister { issi })
            },
            cmd matches BrewCommand::AffiliateGroups { issi, groups } ==> {
                &&& final(self).groups_view() == old(self).groups_view().insert(
                    issi,
                    groups_in(old(self).groups_view(), issi).union(groups@.to_set()),
                )
                &&& step matches WorkerStep::Send { msgs } && msgs@.len() == 1 && (msgs@[0] matches WireMsg::SubscriberAffiliate {
                    issi: i,
                    groups: g,
                } && i == issi && g@ == groups@)
            },
            cmd matches BrewCommand::DeaffiliateGroups { issi, groups } ==> {
                &&& final(self).groups_view() == (if old(self).groups_view().contains_key(issi) {
                    old(self).groups_view().insert(issi, old(self).groups_view()[issi].difference(groups@.to_set()))
                } else {
                    old(self).groups_view()
                })
                &&& step matches WorkerStep::Send { msgs } && msgs@.len() == 1 && (msgs@[0] matches WireMsg::SubscriberDeaffiliate {
                    issi: i,
                    groups: g,
                } && i == issi && g@ == groups@)
            },
            cmd matches BrewCommand::SendSds { uuid, source, destination, data, length_bits } ==> {
                &&& !sds_enabled ==> step is Ignore
                &&& sds_enabled ==> (step matches WorkerStep::Send { msgs } && msgs@.len() == 2
                    && msgs@[0] == (WireMsg::ShortTransfer { uuid, source, destination })
                    && (msgs@[1] matches WireMsg::SdsFrame { uuid: u, length_bits: lb, data: d } && u == uuid
                        && lb == length_bits && d@ == data@))
            },
            cmd matches BrewCommand::SendSdsReport { uuid, status } ==> {
                &&& !sds_enabled ==> step is Ignore
                &&& sds_enabled ==> (step matches WorkerStep::Send { msgs } && msgs@.len() == 1
                    && msgs@[0] == (WireMsg::SdsReport { uuid, status }))
            },
            cmd matches BrewCommand::SendGroupTx { uuid, source_issi, dest_gssi, priority, service } ==> (
            step matches WorkerStep::Send { msgs } && msgs@.len() == 1 && msgs@[0] == (WireMsg::GroupTx {
                uuid,
                source_issi,
                dest_gssi,
                priority,
                service,
            })),
            cmd matches BrewCommand::SendVoiceFrame { uuid, length_bits, data } ==> (step matches WorkerStep::Send { msgs }
                && msgs@.len() == 1 && (msgs@[0] matches WireMsg::VoiceFrame { uuid: u, length_bits: lb, data: d } && u == uuid
                && lb == length_bits && d@ == data@)),
            cmd matches BrewCommand::SendGroupIdle { uuid, cause } ==> (step matches WorkerStep::Send { msgs } && msgs@.len() == 1
                && msgs@[0] == (WireMsg::GroupIdle { uuid, cause })),
            cmd matches BrewCommand::SendSetupRequest { uuid, call } ==> (step matches WorkerStep::Send { msgs }
                && msgs@ == seq![WireMsg::SetupRequest { uuid, call }]),
            cmd matches BrewCommand::SendConnectRequest { uuid, call } ==> (step matches WorkerStep::Send { msgs }
                && msgs@ == seq![WireMsg::ConnectRequest { uuid, call }]),
            cmd matches BrewCommand::SendSetupAccept { uuid } ==> (step matches WorkerStep::Send { msgs } && msgs@.len() == 1
                && msgs@[0] == (WireMsg::SetupAccept { uuid })),
            cmd matches BrewCommand::SendSetupReject { uuid, cause } ==> (step matches WorkerStep::Send { msgs } && msgs@.len() == 1
                && msgs@[0] == (WireMsg::SetupReject { uuid, cause })),
            cmd matches BrewCommand::SendCallAlert { uuid } ==> (step matches WorkerStep::Send { msgs } && msgs@.len() == 1
                && msgs@[0] == (WireMsg::CallAlert { uuid })),
            cmd matches BrewCommand::SendConnectConfirm { uuid, grant, permission } ==> (step matches WorkerStep::Send { msgs }
                && msgs@.len() == 1 && msgs@[0] == (WireMsg::ConnectConfirm { uuid, grant, permission })),
            cmd matches BrewCommand::SendCallRelease { uuid, cause } ==> (step matches WorkerStep::Send { msgs } && msgs@.len() == 1
                && msgs@[0] == (WireMsg::CallRelease { uuid, cause })),
            cmd matches BrewCommand::SendDtmf { uuid, length_bits, data } ==> (step matches WorkerStep::Send { msgs }
                && msgs@.len() == 1 && (msgs@[0] matches WireMsg::Dtmf { uuid: u, length_bits: lb, data: d } && u == uuid
                && lb == length_bits && d@ == data@)),
            cmd is Disconnect ==> (step matches WorkerStep::Teardown { msgs } && is_teardown_of(
                msgs@,
                old(self).groups_view(),
            )),
            !(cmd is RegisterSubscriber || cmd is DeregisterSubscriber || cmd is AffiliateGroups || cmd is DeaffiliateGroups)
                ==> final(self).groups_view() == old(self).groups_view(),
            final(self).pending_sds@ == old(self).pending_sds@,
    {
        let ghost gv = old(self).groups_view();
        match cmd {
            BrewCommand::RegisterSubscriber { issi } => {
                let already = self.subscriber_groups.contains_key(&issi);
                if !already {
                    self.subscriber_groups.insert(issi, HashSet::new());
                }
                proof {
                    assert(self.groups_view() =~= gv.insert(issi, groups_in(gv, issi)));
                }
                let msg = if already {
                    WireMsg::SubscriberReregister { issi }
                } else {
                    WireMsg::SubscriberRegister { issi }
                };
                WorkerStep::Send { msgs: vec_one(msg) }
            }
            BrewCommand::DeregisterSubscriber { issi } => {
                self.subscriber_groups.remove(&issi);
                proof {
                    assert(self.groups_view() =~= gv.remove(issi));
                }
                WorkerStep::Send { msgs: vec_one(WireMsg::SubscriberDeregister { issi }) }
            }
            BrewCommand::AffiliateGroups { issi, groups } => {
                let mut set = match self.subscriber_groups.remove(&issi) {
                    Some(set) => set,
                    None => HashSet::new(),
                };
                add_all(&mut set, &groups);
                self.subscriber_groups.insert(issi, set);
                proof {
                    assert(self.groups_view() =~= gv.insert(issi, groups_in(gv, issi).union(groups@.to_set())));
                }
                WorkerStep::Send { msgs: vec_one(WireMsg::SubscriberAffiliate { issi, groups }) }
            }
            BrewCommand::DeaffiliateGroups { issi, groups } => {
                match self.subscriber_groups.remove(&issi) {
                    Some(mut set) => {
                        drop_all(&mut set, &groups);
                        self.subscriber_groups.insert(issi, set);
                        proof {
                            assert(self.groups_view() =~= gv.insert(issi, gv[issi].difference(groups@.to_set())));
                        }
                    }
                    None => {
                        proof {
                            assert(self.groups_view() =~= gv);
                        }
                    }
                }
                WorkerStep::Send { msgs: vec_one(WireMsg::SubscriberDeaffiliate { issi, groups }) }
            }
            BrewCommand::SendGroupTx { uuid, source_issi, dest_gssi, priority, service } => {
                WorkerStep::Send { msgs: vec_one(WireMsg::GroupTx { uuid, source_issi, dest_gssi, priority, service }) }
            }
            BrewCommand::SendVoiceFrame { uuid, length_bits, data } => {
                WorkerStep::Send { msgs: vec_one(WireMsg::VoiceFrame { uuid, length_bits, data }) }
            }
            BrewCommand::SendGroupIdle { uuid, cause } => {
                WorkerStep::Send { msgs: vec_one(WireMsg::GroupIdle { uuid, cause }) }
            }
            BrewCommand::SendSds { uuid, source, destination, data, length_bits } => {
                if !sds_enabled {
                    return WorkerStep::Ignore;
                }
                let mut msgs: Vec<WireMsg> = Vec::new();
                msgs.push(WireMsg::ShortTransfer { uuid, source, destination });
                msgs.push(WireMsg::SdsFrame { uuid, length_bits, data });
                WorkerStep::Send { msgs }
            }
            BrewCommand::SendSdsReport { uuid, status } => {
                if !sds_enabled {
                    return WorkerStep::Ignore;
                }
                WorkerStep::Send { msgs: vec_one(WireMsg::SdsReport { uuid, status }) }
            }
            BrewCommand::SendSetupAccept { uuid } => WorkerStep::Send { msgs: vec_one(WireMsg::SetupAccept { uuid }) },
            BrewCommand::SendSetupReject { uuid, cause } => WorkerStep::Send {
                msgs: vec_one(WireMsg::SetupReject { uuid, cause }),
            },
            BrewCommand::SendCallAlert { uuid } => WorkerStep::Send { msgs: vec_one(WireMsg::CallAlert { uuid }) },
            BrewCommand::SendConnectConfirm { uuid, grant, permission } => WorkerStep::Send {
                msgs: vec_one(WireMsg::ConnectConfirm { uuid, grant, permission }),
            },
            BrewCommand::SendCallRelease { uuid, cause } => WorkerStep::Send {
                msgs: vec_one(WireMsg::CallRelease { uuid, cause }),
            },
            BrewCommand::SendSetupRequest { uuid, call } => WorkerStep::Send {
                msgs: vec_one(WireMsg::SetupRequest { uuid, call }),
            },
            BrewCommand::SendConnectRequest { uuid, call } => WorkerStep::Send {
                msgs: vec_one(WireMsg::ConnectRequest { uuid, call }),
            },
            BrewCommand::SendDtmf { uuid, length_bits, data } => WorkerStep::Send {
                msgs: vec_one(WireMsg::Dtmf { uuid, length_bits, data }),
            },
            BrewCommand::Disconnect => {
                let msgs = self.teardown_messages();
                WorkerStep::Teardown { msgs }
            },
        }
    }

    /// Drops the SDS headers that waited longer than `PENDING_SDS_TIMEOUT_MS` at `now_ms`.
    pub fn expire_pending_sds(&mut self, now_ms: u64)
        ensures
            final(self).pending_sds@ == old(self).pending_sds@.remove_keys(
                old(self).pending_sds@.dom().filter(|u: u128| sds_header_expired(old(self).pending_sds@[u], now_ms)),
            ),
            final(self).groups_view() == old(self).groups_view(),
    {
        let expired = expired_headers(&self.pending_sds, now_ms);
        remove_sessions(&mut self.pending_sds, &expired);
    }

    /// An SDS header (SHORT_TRANSFER) arrived: remember it until its payload comes.
    pub fn on_short_transfer(&mut self, uuid: u128, source: u32, destination: u32, now_ms: u64)
        ensures
            final(self).pending_sds@ == old(self).pending_sds@.insert(
                uuid,
                PendingSdsHeader { source, destination, received_at_ms: now_ms },
            ),
            final(self).groups_view() == old(self).groups_view(),
    {
        self.pending_sds.insert(uuid, PendingSdsHeader { source, destination, received_at_ms: now_ms });
    }

    /// An SDS payload frame arrived. It is ignored while SDS over Brew is disabled or when it
    /// is longer than `MAX_SDS_BITS`; otherwise it is paired with the waiting header of its
    /// session (consuming it) into one SDS transfer event, and dropped when there is none.
    pub fn on_sds_frame<C>(&mut self, uuid: u128, length_bits: u16, data: Vec<u8>, sds_enabled: bool) -> (ev: Option<BrewEvent<C>>)
        ensures
            (!sds_enabled || length_bits > MAX_SDS_BITS) ==> ev is None && final(self).pending_sds@ == old(self).pending_sds@,
            (sds_enabled && length_bits <= MAX_SDS_BITS) ==> {
                &&& final(self).pending_sds@ == old(self).pending_sds@.remove(uuid)
                &&& !old(self).pending_sds@.contains_key(uuid) ==> ev is None
                &&& old(self).pending_sds@.contains_key(uuid) ==> (ev matches Some(BrewEvent::SdsTransfer {
                    uuid: u,
                    source,
                    destination,
                    data: d,
                    length_bits: lb,
                }) && u == uuid && source == old(self).pending_sds@[uuid].source && destination == old(
                    self,
                ).pending_sds@[uuid].destination && d@ == data@ && lb == length_bits)
            },
            final(self).groups_view() == old(self).groups_view(),
    {
        if !sds_enabled || length_bits > MAX_SDS_BITS {
            return None;
        }
        match self.pending_sds.remove(&uuid) {
            Some(p) => Some(
                BrewEvent::SdsTransfer { uuid, source: p.source, destination: p.destination, data, length_bits },
            ),
            None => None,
        }
    }

    /// Events for a GROUP_TX from the network: a message carrying a mnemonic reveals a
    /// version-1 server; the call itself is only reported for a routable group.
    pub fn on_group_tx<C>(
        &self,
        uuid: u128,
        source_issi: u32,
        dest_gssi: u32,
        priority: u8,
        service: u16,
        has_mnemonic: bool,
        gssi_routable: bool,
    ) -> (evs: Vec<BrewEvent<C>>)
        ensures
            evs@.len() == (if has_mnemonic { 1int } else { 0 }) + (if gssi_routable { 1int } else { 0 }),
            has_mnemonic ==> evs@[0] == (BrewEvent::<C>::VersionDetected { version: 1 }),
            gssi_routable ==> evs@.last() == (BrewEvent::<C>::GroupCallStart { uuid, source_issi, dest_gssi, priority, service }),
    {
        let mut evs: Vec<BrewEvent<C>> = Vec::new();
        if has_mnemonic {
            evs.push(BrewEvent::VersionDetected { version: 1 });
        }
        if gssi_routable {
            evs.push(BrewEvent::GroupCallStart { uuid, source_issi, dest_gssi, priority, service });
        }
        evs
    }

    /// A CALL_RELEASE ends both a group call and a circuit call of the session; the entity
    /// acts on whichever it knows.
    pub fn on_call_release<C>(&self, uuid: u128, cause: u8) -> (evs: Vec<BrewEvent<C>>)
        ensures
            evs@.len() == 2,
            evs@[0] == (BrewEvent::<C>::GroupCallEnd { uuid, cause }),
            evs@[1] == (BrewEvent::<C>::CircuitCallRelease { uuid, cause }),
    {
        let mut evs: Vec<BrewEvent<C>> = Vec::new();
        evs.push(BrewEvent::GroupCallEnd { uuid, cause });
        evs.push(BrewEvent::CircuitCallRelease { uuid, cause });
        evs
    }
}

impl WorkerState {
    /// Turns a call-control message from the network into events for the entity. A group
    /// transmission is reported only for a routable group (and reveals a version-1 server
    /// when it carries a mnemonic); a missing cause reads as 0, a missing grant as 0/0; a
    /// SHORT_TRANSFER header is stored for its payload frame.
    pub fn call_control_events<C>(
        &mut self,
        state: CallState,
        uuid: u128,
        payload: CallPayload<C>,
        gssi_routable: bool,
        now_ms: u64,
    ) -> (evs: Vec<BrewEvent<C>>)
        ensures
            evs@ == call_control_spec(state, uuid, payload, gssi_routable),
            final(self).pending_sds@ == (match (state, payload) {
                (CallState::ShortTransfer, CallPayload::ShortTransfer { source, destination }) => old(
                    self,
                ).pending_sds@.insert(uuid, PendingSdsHeader { source, destination, received_at_ms: now_ms }),
                _ => old(self).pending_sds@,
            }),
            final(self).groups_view() == old(self).groups_view(),
    {
        let mut evs: Vec<BrewEvent<C>> = Vec::new();
        match state {
            CallState::GroupTx => {
                match payload {
                    CallPayload::GroupTransmission { source, destination, priority, service, has_mnemonic } => {
                        let e = self.on_group_tx(uuid, source, destination, priority, service, has_mnemonic, gssi_routable);
                        proof {
                            let a: Seq<BrewEvent<C>> = if has_mnemonic {
                                seq![BrewEvent::<C>::VersionDetected { version: 1 }]
                            } else {
                                Seq::empty()
                            };
                            let b: Seq<BrewEvent<C>> = if gssi_routable {
                                seq![BrewEvent::<C>::GroupCallStart { uuid, source_issi: source, dest_gssi: destination, priority, service }]
                            } else {
                                Seq::empty()
                            };
                            assert(e@ =~= a + b);
                        }
                        evs = e;
                    },
                    _ => {},
                }
            },
            CallState::GroupIdle => {
                let cause = match payload {
                    CallPayload::Cause(c) => c,
                    _ => 0,
                };
                evs.push(BrewEvent::GroupCallEnd { uuid, cause });
            },
            CallState::SetupRequest => {
                match payload {
                    CallPayload::CircularCall(call) => evs.push(BrewEvent::CircuitSetupRequest { uuid, call }),
                    _ => {},
                }
            },
            CallState::SetupAccept => evs.push(BrewEvent::CircuitSetupAccept { uuid }),
            CallState::SetupReject => {
                let cause = match payload {
                    CallPayload::Cause(c) => c,
                    _ => 0,
                };
                evs.push(BrewEvent::CircuitSetupReject { uuid, cause });
            },
            CallState::CallAlert => evs.push(BrewEvent::CircuitCallAlert { uuid }),
            CallState::ConnectRequest => {
                match payload {
                    CallPayload::CircularCall(call) => evs.push(BrewEvent::CircuitConnectRequest { uuid, call }),
                    _ => {},
                }
            },
            CallState::ConnectConfirm => {
                let (grant, permission) = match payload {
                    CallPayload::CircularGrant { grant, permission } => (grant, permission),
                    _ => (0u8, 0u8),
                };
                evs.push(BrewEvent::CircuitConnectConfirm { uuid, grant, permission });
            },
            CallState::CallRelease => {
                let cause = match payload {
                    CallPayload::Cause(c) => c,
                    _ => 0,
                };
                evs = self.on_call_release(uuid, cause);
            },
            CallState::ShortTransfer => {
                match payload {
                    CallPayload::ShortTransfer { source, destination } => {
                        self.on_short_transfer(uuid, source, destination, now_ms);
                    },
                    _ => {},
                }
            },
            CallState::Other(_) => {},
        }
        proof {
            assert(evs@ =~= call_control_spec(state, uuid, payload, gssi_routable));
        }
        evs
    }
}

/// Status of an SDS report frame: its first byte, 0 when empty.
pub fn sds_report_status(data: &Vec<u8>) -> (status: u8)
    ensures
        status == (if data@.len() == 0 { 0 } else { data@[0] }),
{
    if data.len() == 0 {
        0
    } else {
        data[0]
    }
}

pub open spec fn groups_in(m: Map<u32, Set<u32>>, issi: u32) -> Set<u32> {
    if m.contains_key(issi) {
        m[issi]
    } else {
        Set::empty()
    }
}

/// Whether an SDS header received at `h.received_at_ms` is older than the timeout at `now_ms`.
pub open spec fn sds_header_expired(h: PendingSdsHeader, now_ms: u64) -> bool {
    now_ms >= h.received_at_ms && now_ms - h.received_at_ms > PENDING_SDS_TIMEOUT_MS
}

/// `msgs` are the teardown messages for the subscribers `ks`, in that order.
/// The messages that end the session for every subscriber of `view`: for each ISSI, in
/// some order that visits each once, a deaffiliation from its groups in increasing order
/// when it has any, then its deregistration.
pub open spec fn is_teardown_of(msgs: Seq<WireMsg>, view: Map<u32, Set<u32>>) -> bool {
    exists|ks: Seq<u32>|
        #![trigger teardown_ok(msgs, ks, view)]
        ks.to_set() == view.dom() && ks.no_duplicates() && teardown_ok(msgs, ks, view)
}

pub open spec fn teardown_ok(msgs: Seq<WireMsg>, ks: Seq<u32>, view: Map<u32, Set<u32>>) -> bool
    decreases ks.len(),
{
    if ks.len() == 0 {
        msgs.len() == 0
    } else {
        let k = ks.last();
        let g = view[k];
        let n: int = if g.is_empty() {
            1
        } else {
            2
        };
        &&& n <= msgs.len()
        &&& teardown_ok(msgs.take(msgs.len() - n), ks.drop_last(), view)
        &&& msgs.last() == (WireMsg::SubscriberDeregister { issi: k })
        &&& n == 2 ==> (msgs[msgs.len() - 2] matches WireMsg::SubscriberDeaffiliate { issi, groups } && issi == k
            && groups@.to_set() == g && strictly_increasing(groups@))
    }
}

fn vec_one(m: WireMsg) -> (r: Vec<WireMsg>)
    ensures
        r@ == seq![m],
{
    let mut v: Vec<WireMsg> = Vec::new();
    v.push(m);
    assert(v@ =~= seq![m]);
    v
}

fn set_elements(set: &HashSet<u32>) -> (r: Vec<u32>)
    ensures
        r@.to_set() == set@,
        r@.no_duplicates(),
{
    let mut out: Vec<u32> = Vec::new();
    let ghost keys = vstd::std_specs::hash::spec_hash_keys_iter(set).remaining();
    for g in it: set.iter()
        invariant
            it.seq() == keys,
            out@ == keys.unref().take(it.index() as int),
    {
        out.push(*g);
        proof {
            assert(keys.unref().take(it.index() + 1) =~= out@);
        }
    }
    proof {
        assert(keys.unref().take(keys.len() as int) =~= keys.unref());
        assert(keys.unref().to_set() == set@);
        assert forall|a: int, b: int| 0 <= a < b < out@.len() implies out@[a] != out@[b] by {
            assert(keys.no_duplicates());
            assert(keys[a] != keys[b]);
        }
    }
    out
}

fn add_all(set: &mut HashSet<u32>, gs: &Vec<u32>)
    ensures
        final(set)@ == old(set)@.union(gs@.to_set()),
{
    let mut i: usize = 0;
    while i < gs.len()
        invariant
            0 <= i <= gs.len(),
            set@ == old(set)@.union(gs@.take(i as int).to_set()),
        decreases gs.len() - i,
    {
        let g = gs[i];
        set.insert(g);
        proof {
            let t0 = gs@.take(i as int);
            let t1 = gs@.take(i + 1);
            assert(t1 =~= t0.push(g));
            assert forall|x: u32| #[trigger] t1.contains(x) <==> (t0.contains(x) || x == g) by {
                if t1.contains(x) && x != g {
                    let j = choose|j: int| 0 <= j < t1.len() && t1[j] == x;
                    assert(t0[j] == x);
                }
                if t0.contains(x) {
                    let j = choose|j: int| 0 <= j < t0.len() && t0[j] == x;
                    assert(t1[j] == x);
                }
                if x == g {
                    assert(t1[i as int] == x);
                }
            }
            assert(set@ =~= old(set)@.union(t1.to_set()));
        }
        i = i + 1;
    }
    proof {
        assert(gs@.take(i as int) =~= gs@);
    }
}

fn drop_all(set: &mut HashSet<u32>, gs: &Vec<u32>)
    ensures
        final(set)@ == old(set)@.difference(gs@.to_set()),
{
    let mut i: usize = 0;
    while i < gs.len()
        invariant
            0 <= i <= gs.len(),
            set@ == old(set)@.difference(gs@.take(i as int).to_set()),
        decreases gs.len() - i,
    {
        let g = gs[i];
        set.remove(&g);
        proof {
            let t0 = gs@.take(i as int);
            let t1 = gs@.take(i + 1);
            assert(t1 =~= t0.push(g));
            assert forall|x: u32| #[trigger] t1.contains(x) <==> (t0.contains(x) || x == g) by {
                if t1.contains(x) && x != g {
                    let j = choose|j: int| 0 <= j < t1.len() && t1[j] == x;
                    assert(t0[j] == x);
                }
                if t0.contains(x) {
                    let j = choose|j: int| 0 <= j < t0.len() && t0[j] == x;
                    assert(t1[j] == x);
                }
                if x == g {
                    assert(t1[i as int] == x);
                }
            }
            assert(set@ =~= old(set)@.difference(t1.to_set()));
        }
        i = i + 1;
    }
    proof {
        assert(gs@.take(i as int) =~= gs@);
    }
}

/// The sessions whose SDS header has expired at `now_ms`.
fn expired_headers(m: &HashMap<u128, PendingSdsHeader>, now_ms: u64) -> (r: Vec<u128>)
    ensures
        r@.to_set() == m@.dom().filter(|u: u128| sds_header_expired(m@[u], now_ms)),
{
    let mut out: Vec<u128> = Vec::new();
    let ghost keys = vstd::std_specs::hash::spec_keys_iter(m).remaining();
    for u in it: m.keys()
        invariant
            it.seq() == keys,
            forall|x: u128| #[trigger] out@.contains(x) <==> (keys.unref().take(it.index() as int).contains(x)
                && m@.contains_key(x) && sds_header_expired(m@[x], now_ms)),
    {
        let ghost idx = it.index();
        let ghost before = out@;
        match m.get(u) {
            Some(h) => {
                if now_ms >= h.received_at_ms && now_ms - h.received_at_ms > PENDING_SDS_TIMEOUT_MS {
                    out.push(*u);
                }
            }
            None => {}
        }
        proof {
            let t0 = keys.unref().take(idx as int);
            let t1 = keys.unref().take(idx + 1);
            assert(keys.unref()[idx as int] == *u);
            assert(keys.unref().to_set() == m@.dom());
            assert(keys.unref().contains(*u));
            assert forall|x: u128| #[trigger] t1.contains(x) <==> (t0.contains(x) || x == *u) by {
                if t1.contains(x) {
                    let j = choose|j: int| 0 <= j < t1.len() && t1[j] == x;
                    if j < idx {
                        assert(t0[j] == x);
                    }
                }
                if t0.contains(x) {
                    let j = choose|j: int| 0 <= j < t0.len() && t0[j] == x;
                    assert(t1[j] == x);
                }
                if x == *u {
                    assert(t1[idx as int] == x);
                }
            }
            assert forall|x: u128| #[trigger] out@.contains(x) <==> (before.contains(x) || (x == *u && m@.contains_key(x)
                && sds_header_expired(m@[x], now_ms))) by {
                if out@ != before {
                    assert(out@ == before.push(*u));
                    if out@.contains(x) && x != *u {
                        let j = choose|j: int| 0 <= j < out@.len() && out@[j] == x;
                        assert(before[j] == x);
                    }
                    if before.contains(x) {
                        let j = choose|j: int| 0 <= j < before.len() && before[j] == x;
                        assert(out@[j] == x);
                    }
                    assert(out@[before.len() as int] == *u);
                }
            }
        }
    }
    proof {
        assert(keys.unref().take(keys.len() as int) =~= keys.unref());
        assert(keys.unref().to_set() == m@.dom());
        assert(out@.to_set() =~= m@.dom().filter(|u: u128| sds_header_expired(m@[u], now_ms)));
    }
    out
}

fn remove_sessions(m: &mut HashMap<u128, PendingSdsHeader>, keys: &Vec<u128>)
    ensures
        final(m)@ == old(m)@.remove_keys(keys@.to_set()),
{
    let mut i: usize = 0;
    while i < keys.len()
        invariant
            0 <= i <= keys.len(),
            m@ == old(m)@.remove_keys(keys@.take(i as int).to_set()),
        decreases keys.len() - i,
    {
        let g = keys[i];
        m.remove(&g);
        proof {
            let t0 = keys@.take(i as int);
            let t1 = keys@.take(i + 1);
            assert(t1 =~= t0.push(g));
            assert forall|x: u128| #[trigger] t1.contains(x) <==> (t0.contains(x) || x == g) by {
                if t1.contains(x) && x != g {
                    let j = choose|j: int| 0 <= j < t1.len() && t1[j] == x;
                    assert(t0[j] == x);
                }
                if t0.contains(x) {
                    let j = choose|j: int| 0 <= j < t0.len() && t0[j] == x;
                    assert(t1[j] == x);
                }
                if x == g {
                    assert(t1[i as int] == x);
                }
            }
            assert(t1.to_set() =~= t0.to_set().insert(g));
            assert(m@ =~= old(m)@.remove_keys(t1.to_set()));
        }
        i = i + 1;
    }
    proof {
        assert(keys@.take(i as int) =~= keys@);
    }
}

} // verus!

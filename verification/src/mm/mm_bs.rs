//! Mobility management of the base station.
//!
//! [`MmBs`] keeps one record per registered mobile station (its attached groups, granted
//! energy saving mode, last layer-2 handle, registration time and a pending
//! re-registration command) and turns each uplink request into the downlink answers and
//! subscriber updates that the rest of the stack acts on. The subscriber registry shared
//! with the other entities is updated alongside.
use std::collections::HashMap;
use vstd::prelude::*;
use vstd::std_specs::iter::IteratorSpec;

use super::messages::{
    effects, esm_code, grant_energy_saving, granted_information, mode_from_status_info, requested_mode,
    demand_supported, feature_check_u_location_update_demand, opt_vec_view, EnergySavingInformation,
    GroupLocationDemand, LocationUpdateDemand, GroupIdentityAttachment, GroupIdentityDownlink, GroupIdentityUplink, LocationUpdateType, RejectCause,
    StatusUplink, ClassOfMs, DownlinkView, EnergySavingMode, MmDownlink, MmEffect, MmOutput, SubscriberUpdate,
};
use crate::brew::entity::SubscriberAction;
use crate::brew::worker::{sort_unique, strictly_increasing};
use crate::registry::{groups_in, StackState, SubscriberRegistry};

verus! {

broadcast use vstd::std_specs::hash::group_hash_axioms;

/// Grace period, after a re-registration command, before an unresponsive station is dropped.
pub const COMMAND_GRACE_MS: u64 = 60000;

/// A roaming update this soon after the last registration is a soft re-attach.
pub const SOFT_REATTACH_MS: u64 = 120000;

/// At most this many groups are attached or detached per request: the acknowledgement must
/// fit in one downlink burst.
pub const MAX_GROUPS_PER_ATTACH: usize = 12;

/// The record of one registered mobile station.
#[derive(Debug, Clone)]
pub struct MmClient {
    /// Attached groups, in attachment order, each once.
    pub groups: Vec<u32>,
    pub energy_saving_mode: EnergySavingMode,
    pub monitoring_frame: Option<u8>,
    pub monitoring_multiframe: Option<u8>,
    /// Layer-2 handle of the last uplink, for unsolicited downlink PDUs.
    pub last_handle: u32,
    /// Time of the last (re-)registration.
    pub registered_at_ms: u64,
    /// Set while a re-registration command is outstanding: when it lapses.
    pub command_deadline_ms: Option<u64>,
    pub class_of_ms: Option<ClassOfMs>,
    pub tei: Option<u64>,
}

/// The record of a station as a value.
pub struct ClientState {
    pub groups: Seq<u32>,
    pub energy_saving_mode: EnergySavingMode,
    pub monitoring_frame: Option<u8>,
    pub monitoring_multiframe: Option<u8>,
    pub last_handle: u32,
    pub registered_at_ms: u64,
    pub command_deadline_ms: Option<u64>,
    pub class_of_ms: Option<ClassOfMs>,
    pub tei: Option<u64>,
}

impl View for MmClient {
    type V = ClientState;

    open spec fn view(&self) -> ClientState {
        ClientState {
            groups: self.groups@,
            energy_saving_mode: self.energy_saving_mode,
            monitoring_frame: self.monitoring_frame,
            monitoring_multiframe: self.monitoring_multiframe,
            last_handle: self.last_handle,
            registered_at_ms: self.registered_at_ms,
            command_deadline_ms: self.command_deadline_ms,
            class_of_ms: self.class_of_ms,
            tei: self.tei,
        }
    }
}

/// A station just registered at `now_ms`.
pub open spec fn fresh_client(now_ms: u64) -> ClientState {
    ClientState {
        groups: Seq::empty(),
        energy_saving_mode: EnergySavingMode::StayAlive,
        monitoring_frame: None,
        monitoring_multiframe: None,
        last_handle: 0,
        registered_at_ms: now_ms,
        command_deadline_ms: None,
        class_of_ms: None,
        tei: None,
    }
}

/// The groups recorded for `issi`, empty for an unknown station.
pub open spec fn client_groups(m: Map<u32, ClientState>, issi: u32) -> Seq<u32> {
    if m.contains_key(issi) {
        m[issi].groups
    } else {
        Seq::empty()
    }
}

/// The updates that take a station off the network: a deaffiliation from its groups when it
/// has any, then its deregistration.
pub open spec fn release_effects(issi: u32, groups: Seq<u32>) -> Seq<MmEffect> {
    (if groups.len() > 0 {
        seq![MmEffect::Subscriber { issi, groups, action: SubscriberAction::Deaffiliate }]
    } else {
        Seq::empty()
    }) + seq![MmEffect::Subscriber { issi, groups: Seq::empty(), action: SubscriberAction::Deregister }]
}

pub open spec fn command_effect(issi: u32, handle: u32) -> MmEffect {
    MmEffect::Downlink(DownlinkView::Command { issi, handle })
}

/// Whether a station's registration has run out at `now_ms`: a pending command lapses at
/// its deadline; otherwise, with periodic registration on, the registration lapses
/// `periodic_secs` after it was made.
pub open spec fn registration_expired(c: ClientState, now_ms: u64, periodic_secs: u64) -> bool {
    match c.command_deadline_ms {
        Some(d) => now_ms >= d,
        None => periodic_secs > 0 && now_ms >= c.registered_at_ms + periodic_secs * 1000,
    }
}

/// The deadline of a command sent at `now_ms`.
pub open spec fn command_deadline(now_ms: u64) -> u64 {
    if now_ms + COMMAND_GRACE_MS > u64::MAX {
        u64::MAX
    } else {
        (now_ms + COMMAND_GRACE_MS) as u64
    }
}

/// The monitoring window published for a station: (frame, multiframe, cycle length) when it
/// was granted an energy saving mode with a window.
pub open spec fn monitoring_window(c: ClientState) -> Option<(u8, u8, u8)> {
    if c.energy_saving_mode != EnergySavingMode::StayAlive && c.monitoring_frame is Some
        && c.monitoring_multiframe is Some {
        Some((c.monitoring_frame->0, c.monitoring_multiframe->0, (esm_code(c.energy_saving_mode) + 1) as u8))
    } else {
        None
    }
}

/// Whether the runtime whitelist, or else the configuration, admits `issi`; an empty
/// runtime list means an open network.
pub open spec fn issi_admitted(whitelist: Option<Vec<u32>>, config_allows: bool, issi: u32) -> bool {
    match whitelist {
        Some(list) => list@.len() == 0 || list@.contains(issi),
        None => config_allows,
    }
}

pub fn issi_allowed(whitelist: &Option<Vec<u32>>, config_allows: bool, issi: u32) -> (r: bool)
    ensures
        r == issi_admitted(*whitelist, config_allows, issi),
{
    match whitelist {
        Some(list) => {
            if list.len() == 0 {
                return true;
            }
            let mut i: usize = 0;
            while i < list.len()
                invariant
                    0 <= i <= list.len(),
                    *whitelist == Some(*list),
                    forall|j: int| 0 <= j < i ==> list@[j] != issi,
                decreases list.len() - i,
            {
                if list[i] == issi {
                    proof {
                        assert(list@[i as int] == issi);
                    }
                    return true;
                }
                i = i + 1;
            }
            false
        },
        None => config_allows,
    }
}

/// `ks` lists the stations of `dom` in increasing ISSI order.
pub open spec fn in_issi_order(ks: Seq<u32>, dom: Set<u32>) -> bool {
    strictly_increasing(ks) && ks.to_set() == dom
}

/// What the expiry check does for one lapsed station: with a command outstanding, a reject
/// for timer expiry on its last handle; otherwise a new command; then its release.
pub open spec fn expiry_effects(issi: u32, c: ClientState) -> Seq<MmEffect> {
    (if c.command_deadline_ms is Some {
        seq![
            MmEffect::Downlink(
                DownlinkView::Reject {
                    issi,
                    handle: c.last_handle,
                    location_update_type: LocationUpdateType::PeriodicLocationUpdating,
                    address_extension: None,
                    cause: RejectCause::ExpiryOfTimer,
                },
            ),
        ]
    } else {
        seq![command_effect(issi, 0)]
    }) + release_effects(issi, c.groups)
}

/// The expiry effects of the stations `ks`, in that order.
pub open spec fn expiry_run(ks: Seq<u32>, m: Map<u32, ClientState>) -> Seq<MmEffect>
    decreases ks.len(),
{
    if ks.len() == 0 {
        Seq::empty()
    } else {
        expiry_run(ks.drop_last(), m) + expiry_effects(ks.last(), m[ks.last()])
    }
}

/// The stations after the expiry check of those in `done`: a lapsed command drops the
/// station, a lapsed registration leaves it waiting for the answer to a new command.
pub open spec fn after_expiry(m: Map<u32, ClientState>, done: Set<u32>, now_ms: u64) -> Map<u32, ClientState> {
    Map::new(
        |k: u32| m.contains_key(k) && !(done.contains(k) && m[k].command_deadline_ms is Some),
        |k: u32|
            if done.contains(k) {
                ClientState { command_deadline_ms: Some(command_deadline(now_ms)), ..m[k] }
            } else {
                m[k]
            },
    )
}

/// The stations whose registration has run out.
pub open spec fn expired_set(m: Map<u32, ClientState>, now_ms: u64, periodic_secs: u64) -> Set<u32> {
    m.dom().filter(|k: u32| registration_expired(m[k], now_ms, periodic_secs))
}

/// The published monitoring windows of the stations of `m`.
pub open spec fn windows_of(m: Map<u32, ClientState>) -> Map<u32, (u8, u8, u8)> {
    Map::new(|k: u32| m.contains_key(k) && monitoring_window(m[k]) is Some, |k: u32| monitoring_window(m[k])->0)
}

fn expired_now(c: &MmClient, now_ms: u64, periodic_secs: u64) -> (r: bool)
    ensures
        r == registration_expired(c@, now_ms, periodic_secs),
{
    match c.command_deadline_ms {
        Some(d) => now_ms >= d,
        None => {
            let span: u128 = (periodic_secs as u128) * 1000;
            periodic_secs > 0 && (now_ms as u128) >= (c.registered_at_ms as u128) + span
        },
    }
}

/// The state threaded through a run of group attachments and detachments of one station:
/// its groups, the subscriber registry, the acknowledged groups, and the groups actually
/// attached and detached.
pub struct GroupFold {
    pub groups: Seq<u32>,
    pub reg: Map<u32, Set<u32>>,
    pub accepted: Seq<GroupIdentityDownlink>,
    pub attached: Seq<u32>,
    pub detached: Seq<u32>,
}

/// One requested group. Only plain GSSIs are handled; anything else is skipped. A detach is
/// acknowledged and, if the group was attached, recorded; an attach is acknowledged as
/// permanent (lifetime 0) with the requested class of usage and, if the group was not yet
/// attached, recorded.
pub open spec fn group_step(f: GroupFold, issi: u32, it: GroupIdentityUplink) -> GroupFold {
    match it.gssi {
        None => f,
        Some(g) => {
            if it.vgssi is Some || it.address_extension is Some {
                f
            } else if it.detachment is Some {
                let changed = f.groups.contains(g);
                GroupFold {
                    groups: if changed { f.groups.remove(f.groups.index_of(g)) } else { f.groups },
                    reg: if changed { f.reg.insert(issi, groups_in(f.reg, issi).remove(g)) } else { f.reg },
                    accepted: f.accepted.push(
                        GroupIdentityDownlink { gssi: g, attachment: None, detachment: it.detachment },
                    ),
                    attached: f.attached,
                    detached: if changed { f.detached.push(g) } else { f.detached },
                }
            } else {
                let changed = !f.groups.contains(g);
                let class = match it.class_of_usage {
                    Some(c) => c,
                    None => 0,
                };
                GroupFold {
                    groups: if changed { f.groups.push(g) } else { f.groups },
                    reg: if changed { f.reg.insert(issi, groups_in(f.reg, issi).insert(g)) } else { f.reg },
                    accepted: f.accepted.push(
                        GroupIdentityDownlink {
                            gssi: g,
                            attachment: Some(GroupIdentityAttachment { lifetime: 0, class_of_usage: class }),
                            detachment: None,
                        },
                    ),
                    attached: if changed { f.attached.push(g) } else { f.attached },
                    detached: f.detached,
                }
            }
        },
    }
}

/// The requested groups handled in order.
pub open spec fn group_fold(f: GroupFold, issi: u32, items: Seq<GroupIdentityUplink>) -> GroupFold
    decreases items.len(),
{
    if items.len() == 0 {
        f
    } else {
        group_step(group_fold(f, issi, items.drop_last()), issi, items.last())
    }
}

/// A fold starting from a station's groups and the registry.
pub open spec fn fold_start(groups: Seq<u32>, reg: Map<u32, Set<u32>>) -> GroupFold {
    GroupFold { groups, reg, accepted: Seq::empty(), attached: Seq::empty(), detached: Seq::empty() }
}

/// One affiliation for the newly attached groups and one deaffiliation for the detached
/// ones, each when not empty.
pub open spec fn attach_detach_effects(issi: u32, attached: Seq<u32>, detached: Seq<u32>) -> Seq<MmEffect> {
    (if attached.len() > 0 {
        seq![MmEffect::Subscriber { issi, groups: attached, action: SubscriberAction::Affiliate }]
    } else {
        Seq::empty()
    }) + (if detached.len() > 0 {
        seq![MmEffect::Subscriber { issi, groups: detached, action: SubscriberAction::Deaffiliate }]
    } else {
        Seq::empty()
    })
}

/// The updates after a run of attachments.
pub open spec fn fold_effects(issi: u32, f: GroupFold) -> Seq<MmEffect> {
    attach_detach_effects(issi, f.attached, f.detached)
}

pub open spec fn is_migration(t: LocationUpdateType) -> bool {
    t == LocationUpdateType::MigratingLocationUpdating
        || t == LocationUpdateType::ServiceRestorationMigratingLocationUpdating
}

pub open spec fn is_roaming(t: LocationUpdateType) -> bool {
    t == LocationUpdateType::RoamingLocationUpdating
        || t == LocationUpdateType::ServiceRestorationRoamingLocationUpdating
}

pub open spec fn register_effect(issi: u32) -> MmEffect {
    MmEffect::Subscriber { issi, groups: Seq::empty(), action: SubscriberAction::Register }
}

pub open spec fn reject_effect(issi: u32, handle: u32, t: LocationUpdateType, ext: Option<u64>) -> MmEffect {
    MmEffect::Downlink(
        DownlinkView::Reject {
            issi,
            handle,
            location_update_type: t,
            address_extension: ext,
            cause: RejectCause::MigrationNotSupported,
        },
    )
}

/// On a soft re-attach, call control alone is told that the station left and came back,
/// so that it drops the station's individual calls but keeps its group listeners.
pub open spec fn soft_release_effects(issi: u32, groups: Seq<u32>) -> Seq<MmEffect> {
    seq![
        MmEffect::CmceOnly { issi, groups: Seq::empty(), action: SubscriberAction::Deregister },
        MmEffect::CmceOnly { issi, groups: Seq::empty(), action: SubscriberAction::Register },
    ] + (if groups.len() > 0 {
        seq![MmEffect::CmceOnly { issi, groups, action: SubscriberAction::Affiliate }]
    } else {
        Seq::empty()
    })
}

/// The energy saving grant of a registration: for the requested mode, or else for the mode
/// the station already had.
pub open spec fn registration_grant(
    m: Map<u32, ClientState>,
    issi: u32,
    pdu: LocationUpdateDemand,
) -> Option<EnergySavingInformation> {
    match pdu.energy_saving_mode {
        Some(e) => Some(granted_information(issi, e)),
        None => if m.contains_key(issi) {
            Some(granted_information(issi, m[issi].energy_saving_mode))
        } else {
            None
        },
    }
}

/// The station's record after a registration, before its groups are handled: registered
/// now on this handle, with no command outstanding, with its grant and class of MS.
pub open spec fn lu_client(
    m: Map<u32, ClientState>,
    issi: u32,
    handle: u32,
    pdu: LocationUpdateDemand,
    now_ms: u64,
) -> ClientState {
    let base = if m.contains_key(issi) {
        m[issi]
    } else {
        fresh_client(now_ms)
    };
    let grant = registration_grant(m, issi, pdu);
    ClientState {
        last_handle: handle,
        energy_saving_mode: match grant {
            Some(g) => g.energy_saving_mode,
            None => EnergySavingMode::StayAlive,
        },
        monitoring_frame: match grant {
            Some(g) => g.frame_number,
            None => None,
        },
        monitoring_multiframe: match grant {
            Some(g) => g.multiframe_number,
            None => None,
        },
        registered_at_ms: now_ms,
        command_deadline_ms: None,
        class_of_ms: pdu.class_of_ms,
        ..base
    }
}

/// The subscriber updates of a registration. A known station that roams in within
/// `SOFT_REATTACH_MS` of its last registration is soft re-attached; one that roams in later
/// is cleaned up (released and registered again). A new station, one attaching anew, or
/// one answering a command is registered.
pub open spec fn lu_register_effects(
    known: bool,
    c: ClientState,
    issi: u32,
    t: LocationUpdateType,
    now_ms: u64,
) -> Seq<MmEffect> {
    (if known && is_roaming(t) {
        if now_ms < c.registered_at_ms + SOFT_REATTACH_MS {
            soft_release_effects(issi, c.groups)
        } else {
            release_effects(issi, c.groups) + seq![register_effect(issi)]
        }
    } else {
        Seq::empty()
    }) + (if !known || t == LocationUpdateType::ItsiAttach || (known && c.command_deadline_ms is Some) {
        seq![register_effect(issi)]
    } else {
        Seq::empty()
    })
}

/// The group acknowledgement element as a value.
pub open spec fn group_accept_view(
    ga: Option<Option<Vec<GroupIdentityDownlink>>>,
) -> Option<Option<Seq<GroupIdentityDownlink>>> {
    match ga {
        Some(x) => Some(opt_vec_view(x)),
        None => None,
    }
}

/// The group part of a registration.
pub struct GroupOutcome {
    pub groups: Seq<u32>,
    pub reg: Map<u32, Set<u32>>,
    pub effects: Seq<MmEffect>,
    pub group_accept: Option<Option<Seq<GroupIdentityDownlink>>>,
}

/// The groups of a registration. With a group demand: mode 1 first detaches every group;
/// the listed groups are then handled as in [`group_step`] and acknowledged. Without one, a
/// known station's recorded groups are affiliated again, so that call control and Brew
/// learn them back after the station returns to coverage.
pub open spec fn lu_groups(
    issi: u32,
    known: bool,
    groups: Seq<u32>,
    reg: Map<u32, Set<u32>>,
    demand: Option<GroupLocationDemand>,
) -> GroupOutcome {
    match demand {
        Some(d) => {
            let g1 = if d.attach_detach_mode == 1 {
                Seq::empty()
            } else {
                groups
            };
            let r1 = if d.attach_detach_mode == 1 {
                reg_without(reg, issi, groups)
            } else {
                reg
            };
            let e1 = if d.attach_detach_mode == 1 && groups.len() > 0 {
                seq![MmEffect::Subscriber { issi, groups, action: SubscriberAction::Deaffiliate }]
            } else {
                Seq::empty()
            };
            match d.uplink {
                Some(items) => {
                    let f = group_fold(fold_start(g1, r1), issi, items@);
                    GroupOutcome {
                        groups: f.groups,
                        reg: f.reg,
                        effects: e1 + fold_effects(issi, f),
                        group_accept: Some(Some(f.accepted)),
                    }
                },
                None => GroupOutcome { groups: g1, reg: r1, effects: e1, group_accept: Some(None) },
            }
        },
        None => {
            if known && groups.len() > 0 {
                GroupOutcome {
                    groups,
                    reg: reg_with(reg, issi, groups),
                    effects: seq![MmEffect::Subscriber { issi, groups, action: SubscriberAction::Affiliate }],
                    group_accept: None,
                }
            } else {
                GroupOutcome { groups, reg, effects: Seq::empty(), group_accept: None }
            }
        },
    }
}

/// SCCH information for a station that needs the common linearisation channel or a common
/// SCCH: one SCCH on frame 18, on the control timeslot.
pub open spec fn scch_information(class: Option<ClassOfMs>) -> Option<u64> {
    match class {
        Some(c) => if c.clch_needed || c.common_scch {
            Some(1u64)
        } else {
            None
        },
        None => None,
    }
}

/// Group changes only add or update registry entries: a registered station stays so.
proof fn lemma_fold_keeps_key(f: GroupFold, issi: u32, items: Seq<GroupIdentityUplink>, k: u32)
    requires
        f.reg.contains_key(k),
    ensures
        group_fold(f, issi, items).reg.contains_key(k),
    decreases items.len(),
{
    if items.len() > 0 {
        lemma_fold_keeps_key(f, issi, items.drop_last(), k);
    }
}

proof fn lemma_lu_groups_keeps_key(
    issi: u32,
    known: bool,
    groups: Seq<u32>,
    reg: Map<u32, Set<u32>>,
    demand: Option<GroupLocationDemand>,
    k: u32,
)
    requires
        reg.contains_key(k),
    ensures
        lu_groups(issi, known, groups, reg, demand).reg.contains_key(k),
{
    match demand {
        Some(d) => {
            let g1 = if d.attach_detach_mode == 1 { Seq::empty() } else { groups };
            let r1 = if d.attach_detach_mode == 1 { reg_without(reg, issi, groups) } else { reg };
            match d.uplink {
                Some(items) => lemma_fold_keeps_key(fold_start(g1, r1), issi, items@, k),
                None => {},
            }
        },
        None => {},
    }
}

/// The requested groups handled in one request: at most `MAX_GROUPS_PER_ATTACH`.
pub open spec fn capped(items: Seq<GroupIdentityUplink>) -> Seq<GroupIdentityUplink> {
    if items.len() > MAX_GROUPS_PER_ATTACH {
        items.take(MAX_GROUPS_PER_ATTACH as int)
    } else {
        items
    }
}

/// The registry after every group of `gs` is deaffiliated from `issi`.
pub open spec fn reg_without(r: Map<u32, Set<u32>>, issi: u32, gs: Seq<u32>) -> Map<u32, Set<u32>> {
    if gs.len() > 0 {
        r.insert(issi, groups_in(r, issi).difference(gs.to_set()))
    } else {
        r
    }
}

/// The registry after every group of `gs` is affiliated to `issi`.
pub open spec fn reg_with(r: Map<u32, Set<u32>>, issi: u32, gs: Seq<u32>) -> Map<u32, Set<u32>> {
    if gs.len() > 0 {
        r.insert(issi, groups_in(r, issi).union(gs.to_set()))
    } else {
        r
    }
}

/// The acknowledgement of a station's current groups, sent when a request carries none:
/// each as a permanent attachment of class of usage 4.
pub open spec fn current_groups_ack(groups: Seq<u32>) -> Option<Seq<GroupIdentityDownlink>> {
    if groups.len() > 0 {
        Some(
            groups.map_values(
                |g: u32|
                    GroupIdentityDownlink {
                        gssi: g,
                        attachment: Some(GroupIdentityAttachment { lifetime: 0, class_of_usage: 4 }),
                        detachment: None,
                    },
            ),
        )
    } else {
        None
    }
}

fn deaffiliate_all(reg: &mut SubscriberRegistry, issi: u32, gs: &Vec<u32>)
    ensures
        final(reg)@ == reg_without(old(reg)@, issi, gs@),
        old(reg).wf() ==> final(reg).wf(),
{
    let mut i: usize = 0;
    while i < gs.len()
        invariant
            0 <= i <= gs.len(),
            reg@ == reg_without(old(reg)@, issi, gs@.take(i as int)),
            old(reg).wf() ==> reg.wf(),
        decreases gs.len() - i,
    {
        let g = gs[i];
        let ghost cur = groups_in(reg@, issi);
        proof {
            assert(cur =~= groups_in(old(reg)@, issi).difference(gs@.take(i as int).to_set()));
        }
        reg.deaffiliate(issi, g);
        proof {
            assert(cur.remove(g) =~= groups_in(old(reg)@, issi).difference(gs@.take(i as int).to_set().insert(g)));
            assert(gs@.take(i + 1) =~= gs@.take(i as int).push(g));
            gs@.take(i as int).lemma_push_to_set_commute(g);
            assert(reg@ =~= reg_without(old(reg)@, issi, gs@.take(i + 1)));
        }
        i = i + 1;
    }
    proof {
        assert(gs@.take(gs@.len() as int) =~= gs@);
    }
}

fn affiliate_all(reg: &mut SubscriberRegistry, issi: u32, gs: &Vec<u32>)
    ensures
        final(reg)@ == reg_with(old(reg)@, issi, gs@),
        old(reg).wf() ==> final(reg).wf(),
{
    let mut i: usize = 0;
    while i < gs.len()
        invariant
            0 <= i <= gs.len(),
            reg@ == reg_with(old(reg)@, issi, gs@.take(i as int)),
            old(reg).wf() ==> reg.wf(),
        decreases gs.len() - i,
    {
        let g = gs[i];
        let ghost cur = groups_in(reg@, issi);
        proof {
            assert(cur =~= groups_in(old(reg)@, issi).union(gs@.take(i as int).to_set()));
        }
        reg.affiliate(issi, g);
        proof {
            assert(cur.insert(g) =~= groups_in(old(reg)@, issi).union(gs@.take(i as int).to_set().insert(g)));
            assert(gs@.take(i + 1) =~= gs@.take(i as int).push(g));
            gs@.take(i as int).lemma_push_to_set_commute(g);
            assert(reg@ =~= reg_with(old(reg)@, issi, gs@.take(i + 1)));
        }
        i = i + 1;
    }
    proof {
        assert(gs@.take(gs@.len() as int) =~= gs@);
    }
}

/// Index of `g` in a list without duplicates, if it is there.
fn position_of(v: &Vec<u32>, g: u32) -> (r: Option<usize>)
    requires
        v@.no_duplicates(),
    ensures
        r is None <==> !v@.contains(g),
        r matches Some(p) ==> p < v@.len() && p == v@.index_of(g) && v@[p as int] == g,
{
    let mut i: usize = 0;
    while i < v.len()
        invariant
            0 <= i <= v.len(),
            v@.no_duplicates(),
            forall|j: int| 0 <= j < i ==> v@[j] != g,
        decreases v.len() - i,
    {
        if v[i] == g {
            proof {
                assert(v@.contains(g));
                let q = v@.index_of(g);
                assert(v@[q] == g);
                assert(q == i as int);
            }
            return Some(i);
        }
        i = i + 1;
    }
    None
}

/// Handles the requested groups of one station in order, on its group list and the
/// registry; returns the acknowledged groups and the groups attached and detached.
fn run_group_requests(
    groups: &mut Vec<u32>,
    reg: &mut SubscriberRegistry,
    issi: u32,
    items: &Vec<GroupIdentityUplink>,
) -> (r: (Vec<GroupIdentityDownlink>, Vec<u32>, Vec<u32>))
    requires
        old(groups)@.no_duplicates(),
    ensures
        ({
            let f = group_fold(fold_start(old(groups)@, old(reg)@), issi, items@);
            &&& final(groups)@ == f.groups
            &&& final(reg)@ == f.reg
            &&& r.0@ == f.accepted
            &&& r.1@ == f.attached
            &&& r.2@ == f.detached
        }),
        final(groups)@.no_duplicates(),
        old(reg).wf() ==> final(reg).wf(),
{
    let ghost f0 = fold_start(groups@, reg@);
    let mut accepted: Vec<GroupIdentityDownlink> = Vec::new();
    let mut attached: Vec<u32> = Vec::new();
    let mut detached: Vec<u32> = Vec::new();
    let mut i: usize = 0;
    while i < items.len()
        invariant
            0 <= i <= items.len(),
            groups@.no_duplicates(),
            old(reg).wf() ==> reg.wf(),
            ({
                let f = group_fold(f0, issi, items@.take(i as int));
                &&& groups@ == f.groups
                &&& reg@ == f.reg
                &&& accepted@ == f.accepted
                &&& attached@ == f.attached
                &&& detached@ == f.detached
            }),
        decreases items.len() - i,
    {
        let it = items[i];
        proof {
            assert(items@.take(i + 1).drop_last() =~= items@.take(i as int));
            assert(items@.take(i + 1).last() == it);
        }
        match it.gssi {
            None => {},
            Some(g) => {
                if it.vgssi.is_some() || it.address_extension.is_some() {
                } else if it.detachment.is_some() {
                    match position_of(groups, g) {
                        Some(p) => {
                            groups.remove(p);
                            let ghost cur = groups_in(reg@, issi);
                            reg.deaffiliate(issi, g);
                            detached.push(g);
                            proof {
                                let before = groups@;
                                assert forall|a: int, b: int|
                                    0 <= a < b < groups@.len() implies groups@[a] != groups@[b] by {
                                    let s0 = group_fold(f0, issi, items@.take(i as int)).groups;
                                    s0.remove_ensures(p as int);
                                    let a0 = if a < p { a } else { a + 1 };
                                    let b0 = if b < p { b } else { b + 1 };
                                    assert(groups@[a] == s0[a0]);
                                    assert(groups@[b] == s0[b0]);
                                }
                            }
                        },
                        None => {},
                    }
                    accepted.push(GroupIdentityDownlink { gssi: g, attachment: None, detachment: it.detachment });
                } else {
                    let class: u8 = match it.class_of_usage {
                        Some(c) => c,
                        None => 0,
                    };
                    match position_of(groups, g) {
                        Some(_) => {},
                        None => {
                            groups.push(g);
                            reg.affiliate(issi, g);
                            attached.push(g);
                            proof {
                                let s0 = group_fold(f0, issi, items@.take(i as int)).groups;
                                assert forall|a: int, b: int|
                                    0 <= a < b < groups@.len() implies groups@[a] != groups@[b] by {
                                    if b == groups@.len() - 1 {
                                        assert(s0.contains(groups@[a]));
                                    }
                                }
                            }
                        },
                    }
                    accepted.push(
                        GroupIdentityDownlink {
                            gssi: g,
                            attachment: Some(GroupIdentityAttachment { lifetime: 0, class_of_usage: class }),
                            detachment: None,
                        },
                    );
                }
            },
        }
        i = i + 1;
    }
    proof {
        assert(items@.take(items@.len() as int) =~= items@);
    }
    (accepted, attached, detached)
}

/// The stations, registry and updates after the first part of a U-ATTACH/DETACH GROUP
/// IDENTITY that asks to replace all groups: an unknown station is registered, a known one
/// is released from all its groups.
pub struct AttachPrep {
    pub clients: Map<u32, ClientState>,
    pub reg: Map<u32, Set<u32>>,
    pub effects: Seq<MmEffect>,
}

pub open spec fn attach_prep(
    m: Map<u32, ClientState>,
    r: Map<u32, Set<u32>>,
    issi: u32,
    detach_all: bool,
    now_ms: u64,
) -> AttachPrep {
    if !detach_all {
        AttachPrep { clients: m, reg: r, effects: Seq::empty() }
    } else if !m.contains_key(issi) {
        AttachPrep {
            clients: m.insert(issi, fresh_client(now_ms)),
            reg: r.insert(issi, Set::empty()),
            effects: seq![MmEffect::Subscriber { issi, groups: Seq::empty(), action: SubscriberAction::Register }],
        }
    } else {
        let gs = m[issi].groups;
        AttachPrep {
            clients: m.insert(issi, ClientState { groups: Seq::empty(), ..m[issi] }),
            reg: reg_without(r, issi, gs),
            effects: if gs.len() > 0 {
                seq![MmEffect::Subscriber { issi, groups: gs, action: SubscriberAction::Deaffiliate }]
            } else {
                Seq::empty()
            },
        }
    }
}

fn new_client(now_ms: u64) -> (c: MmClient)
    ensures
        c@ == fresh_client(now_ms),
        c.groups@.no_duplicates(),
{
    MmClient {
        groups: Vec::new(),
        energy_saving_mode: EnergySavingMode::StayAlive,
        monitoring_frame: None,
        monitoring_multiframe: None,
        last_handle: 0,
        registered_at_ms: now_ms,
        command_deadline_ms: None,
        class_of_ms: None,
        tei: None,
    }
}

/// Emits the subscriber updates of a registration, for a station known with record `c`
/// or new.
fn emit_register_updates(
    out: &mut Vec<MmOutput>,
    issi: u32,
    known: bool,
    c: &MmClient,
    t: LocationUpdateType,
    now_ms: u64,
)
    ensures
        effects(final(out)@) == effects(old(out)@) + lu_register_effects(known, c@, issi, t, now_ms),
{
    let ghost e0 = effects(out@);
    let roaming = t == LocationUpdateType::RoamingLocationUpdating
        || t == LocationUpdateType::ServiceRestorationRoamingLocationUpdating;
    if known && roaming {
        let soft = (now_ms as u128) < (c.registered_at_ms as u128) + (SOFT_REATTACH_MS as u128);
        if soft {
            out.push(
                MmOutput::CmceOnly(SubscriberUpdate { issi, groups: Vec::new(), action: SubscriberAction::Deregister }),
            );
            out.push(
                MmOutput::CmceOnly(SubscriberUpdate { issi, groups: Vec::new(), action: SubscriberAction::Register }),
            );
            if c.groups.len() > 0 {
                out.push(
                    MmOutput::CmceOnly(
                        SubscriberUpdate { issi, groups: c.groups.clone(), action: SubscriberAction::Affiliate },
                    ),
                );
            }
            proof {
                assert(effects(out@) =~= e0 + soft_release_effects(issi, c.groups@));
            }
        } else {
            MmBs::emit_release(out, issi, c.groups.clone());
            let ghost e_rel = effects(out@);
            out.push(
                MmOutput::Subscriber(SubscriberUpdate { issi, groups: Vec::new(), action: SubscriberAction::Register }),
            );
            proof {
                assert(effects(out@) =~= e_rel.push(register_effect(issi)));
                assert(effects(out@) =~= e0 + (release_effects(issi, c.groups@) + seq![register_effect(issi)]));
            }
        }
    }
    let ghost e1 = effects(out@);
    proof {
        let part1 = if known && is_roaming(t) {
            if now_ms < c@.registered_at_ms + SOFT_REATTACH_MS {
                soft_release_effects(issi, c@.groups)
            } else {
                release_effects(issi, c@.groups) + seq![register_effect(issi)]
            }
        } else {
            Seq::<MmEffect>::empty()
        };
        assert(e1 =~= e0 + part1);
    }
    let ghost part1 = effects(out@).skip(e0.len() as int);
    if !known || t == LocationUpdateType::ItsiAttach || (known && c.command_deadline_ms.is_some()) {
        out.push(
            MmOutput::Subscriber(SubscriberUpdate { issi, groups: Vec::new(), action: SubscriberAction::Register }),
        );
    }
    proof {
        let part2 = if !known || t == LocationUpdateType::ItsiAttach || (known && c@.command_deadline_ms is Some) {
            seq![register_effect(issi)]
        } else {
            Seq::<MmEffect>::empty()
        };
        assert(e1 =~= e0 + part1);
        assert(effects(out@) =~= e1 + part2);
        assert(lu_register_effects(known, c@, issi, t, now_ms) =~= part1 + part2);
        assert((e0 + part1) + part2 =~= e0 + (part1 + part2));
    }
}

/// Handles the group part of a registration (see [`lu_groups`]) on the station's group list
/// and the registry; returns the group acknowledgement element.
fn lu_group_phase(
    groups: &mut Vec<u32>,
    reg: &mut SubscriberRegistry,
    issi: u32,
    known: bool,
    demand: Option<GroupLocationDemand>,
    out: &mut Vec<MmOutput>,
) -> (ga: Option<Option<Vec<GroupIdentityDownlink>>>)
    requires
        old(groups)@.no_duplicates(),
    ensures
        ({
            let g = lu_groups(issi, known, old(groups)@, old(reg)@, demand);
            &&& final(groups)@ == g.groups
            &&& final(reg)@ == g.reg
            &&& effects(final(out)@) == effects(old(out)@) + g.effects
            &&& group_accept_view(ga) == g.group_accept
        }),
        final(groups)@.no_duplicates(),
        old(reg).wf() ==> final(reg).wf(),
{
    let ghost e0 = effects(out@);
    match demand {
        Some(d) => {
            if d.attach_detach_mode == 1 {
                let mut prior: Vec<u32> = Vec::new();
                std::mem::swap(&mut prior, groups);
                deaffiliate_all(reg, issi, &prior);
                if prior.len() > 0 {
                    out.push(
                        MmOutput::Subscriber(
                            SubscriberUpdate { issi, groups: prior, action: SubscriberAction::Deaffiliate },
                        ),
                    );
                }
            }
            let ghost g1 = groups@;
            let ghost r1 = reg@;
            let ghost e1 = effects(out@);
            proof {
                if d.attach_detach_mode == 1 {
                    assert(g1 =~= Seq::<u32>::empty());
                }
            }
            match d.uplink {
                Some(items) => {
                    let (acc, attached, detached) = run_group_requests(groups, reg, issi, &items);
                    let ghost f = group_fold(fold_start(g1, r1), issi, items@);
                    if attached.len() > 0 {
                        out.push(
                            MmOutput::Subscriber(
                                SubscriberUpdate { issi, groups: attached, action: SubscriberAction::Affiliate },
                            ),
                        );
                    }
                    if detached.len() > 0 {
                        out.push(
                            MmOutput::Subscriber(
                                SubscriberUpdate { issi, groups: detached, action: SubscriberAction::Deaffiliate },
                            ),
                        );
                    }
                    proof {
                        assert(effects(out@) =~= e0 + lu_groups(issi, known, old(groups)@, old(reg)@, Some(d)).effects);
                    }
                    Some(Some(acc))
                },
                None => {
                    proof {
                        assert(effects(out@) =~= e0 + lu_groups(issi, known, old(groups)@, old(reg)@, Some(d)).effects);
                    }
                    Some(None)
                },
            }
        },
        None => {
            if known && groups.len() > 0 {
                affiliate_all(reg, issi, groups);
                out.push(
                    MmOutput::Subscriber(
                        SubscriberUpdate { issi, groups: groups.clone(), action: SubscriberAction::Affiliate },
                    ),
                );
            }
            proof {
                assert(effects(out@) =~= e0 + lu_groups(issi, known, old(groups)@, old(reg)@, None).effects);
            }
            None
        },
    }
}

/// The mobility-management entity of the base station.
pub struct MmBs {
    pub clients: HashMap<u32, MmClient>,
}

impl MmBs {
    pub open spec fn clients_view(&self) -> Map<u32, ClientState> {
        self.clients@.map_values(|c: MmClient| c@)
    }

    /// Each station's groups are recorded once each.
    pub open spec fn wf(&self) -> bool {
        forall|i: u32| #[trigger]
            self.clients@.contains_key(i) ==> {
                &&& self.clients@[i].groups@.no_duplicates()
                &&& self.clients@[i].monitoring_frame matches Some(f) ==> 1 <= f <= 18
            }
    }

    pub fn new() -> (r: Self)
        ensures
            r.clients_view() == Map::<u32, ClientState>::empty(),
            r.wf(),
    {
        let r = MmBs { clients: HashMap::new() };
        proof {
            assert(r.clients_view() =~= Map::<u32, ClientState>::empty());
        }
        r
    }

    /// The registered ISSIs in increasing order.
    fn sorted_issis(&self) -> (r: Vec<u32>)
        ensures
            in_issi_order(r@, self.clients@.dom()),
    {
        let mut all: Vec<u32> = Vec::new();
        let ghost keys = vstd::std_specs::hash::spec_keys_iter(&self.clients).remaining();
        for k in it: self.clients.keys()
            invariant
                it.seq() == keys,
                all@ == keys.unref().take(it.index() as int),
        {
            all.push(*k);
            proof {
                assert(keys.unref().take(it.index() + 1) =~= all@);
            }
        }
        proof {
            assert(keys.unref().take(keys.len() as int) =~= keys.unref());
            assert(keys.unref().to_set() == self.clients@.dom());
            assert forall|a: int, b: int| 0 <= a < b < all@.len() implies all@[a] != all@[b] by {
                assert(keys.no_duplicates());
                assert(keys[a] != keys[b]);
            }
        }
        sort_unique(&all)
    }

    fn emit_release(out: &mut Vec<MmOutput>, issi: u32, groups: Vec<u32>)
        ensures
            effects(final(out)@) == effects(old(out)@) + release_effects(issi, groups@),
    {
        let ghost before = effects(out@);
        if groups.len() > 0 {
            out.push(MmOutput::Subscriber(SubscriberUpdate { issi, groups, action: SubscriberAction::Deaffiliate }));
        }
        out.push(
            MmOutput::Subscriber(SubscriberUpdate { issi, groups: Vec::new(), action: SubscriberAction::Deregister }),
        );
        proof {
            assert(effects(out@) =~= before + release_effects(issi, groups@));
        }
    }

    /// Handles a U-ITSI DETACH: a known station is forgotten, deregistered, and released
    /// from its groups.
    pub fn rx_u_itsi_detach(&mut self, state: &mut StackState, issi: u32) -> (out: Vec<MmOutput>)
        requires
            old(self).wf(),
        ensures
            final(self).wf(),
            old(self).clients_view().contains_key(issi) ==> {
                &&& final(self).clients_view() == old(self).clients_view().remove(issi)
                &&& final(state).subscribers@ == old(state).subscribers@.remove(issi)
                &&& effects(out@) == release_effects(issi, old(self).clients_view()[issi].groups)
            },
            !old(self).clients_view().contains_key(issi) ==> {
                &&& final(self).clients_view() == old(self).clients_view()
                &&& final(state).subscribers@ == old(state).subscribers@
                &&& out@.len() == 0
            },
            old(state).subscribers.wf() ==> final(state).subscribers.wf(),
    {
        let mut out: Vec<MmOutput> = Vec::new();
        match self.clients.remove(&issi) {
            Some(client) => {
                state.subscribers.deregister(issi);
                Self::emit_release(&mut out, issi, client.groups);
                proof {
                    assert(self.clients_view() =~= old(self).clients_view().remove(issi));
                    assert(effects(Seq::<MmOutput>::empty()) =~= Seq::<MmEffect>::empty());
                    assert(Seq::<MmEffect>::empty() + release_effects(issi, client.groups@) =~= release_effects(
                        issi,
                        client.groups@,
                    ));
                }
            },
            None => {
                proof {
                    assert(self.clients_view() =~= old(self).clients_view());
                }
            },
        }
        out
    }

    /// Handles a kick from call control: the station is told to register again, released
    /// from its groups and deregistered, and forgotten.
    pub fn rx_kick(&mut self, state: &mut StackState, issi: u32) -> (out: Vec<MmOutput>)
        requires
            old(self).wf(),
        ensures
            final(self).wf(),
            final(self).clients_view() == old(self).clients_view().remove(issi),
            final(state).subscribers@ == old(state).subscribers@.remove(issi),
            effects(out@) == seq![command_effect(issi, 0)] + release_effects(
                issi,
                client_groups(old(self).clients_view(), issi),
            ),
            old(state).subscribers.wf() ==> final(state).subscribers.wf(),
    {
        let mut out: Vec<MmOutput> = Vec::new();
        out.push(MmOutput::Downlink(MmDownlink::LocationUpdateCommand { issi, handle: 0 }));
        let groups: Vec<u32> = match self.clients.get(&issi) {
            Some(c) => c.groups.clone(),
            None => Vec::new(),
        };
        proof {
            assert(groups@ == client_groups(old(self).clients_view(), issi));
            assert(effects(out@) =~= seq![command_effect(issi, 0)]);
        }
        Self::emit_release(&mut out, issi, groups);
        self.clients.remove(&issi);
        state.subscribers.deregister(issi);
        proof {
            assert(self.clients_view() =~= old(self).clients_view().remove(issi));
        }
        out
    }

    /// Handles a U-MM STATUS. A request to change the energy saving mode is granted as at
    /// registration and answered with a D-MM STATUS carrying the grant; a response to a
    /// change records the mode; any other kind is answered with "function not supported".
    pub fn rx_u_mm_status(
        &mut self,
        issi: u32,
        handle: u32,
        status: StatusUplink,
        dep_info: Option<u64>,
        dep_len: Option<u32>,
    ) -> (out: Vec<MmOutput>)
        requires
            old(self).wf(),
            dep_len matches Some(l) ==> l < 67,
        ensures
            final(self).wf(),
            status is ChangeOfEnergySavingModeRequest ==> {
                let info = granted_information(issi, requested_mode(dep_info, dep_len));
                &&& effects(out@) == seq![MmEffect::Downlink(DownlinkView::EnergySaving { issi, handle, info })]
                &&& old(self).clients_view().contains_key(issi) ==> final(self).clients_view() == old(
                    self,
                ).clients_view().insert(
                    issi,
                    ClientState {
                        energy_saving_mode: info.energy_saving_mode,
                        monitoring_frame: info.frame_number,
                        monitoring_multiframe: info.multiframe_number,
                        ..old(self).clients_view()[issi]
                    },
                )
                &&& !old(self).clients_view().contains_key(issi) ==> final(self).clients_view() == old(
                    self,
                ).clients_view()
            },
            status is ChangeOfEnergySavingModeResponse ==> {
                &&& out@.len() == 0
                &&& old(self).clients_view().contains_key(issi) ==> final(self).clients_view() == old(
                    self,
                ).clients_view().insert(
                    issi,
                    ClientState {
                        energy_saving_mode: requested_mode(dep_info, dep_len),
                        ..old(self).clients_view()[issi]
                    },
                )
                &&& !old(self).clients_view().contains_key(issi) ==> final(self).clients_view() == old(
                    self,
                ).clients_view()
            },
            status matches StatusUplink::Other { code } ==> {
                &&& effects(out@) == seq![
                    MmEffect::Downlink(DownlinkView::NotSupported { issi, handle, status_code: code }),
                ]
                &&& final(self).clients_view() == old(self).clients_view()
            },
    {
        let mut out: Vec<MmOutput> = Vec::new();
        match status {
            StatusUplink::ChangeOfEnergySavingModeRequest => {
                let esm = mode_from_status_info(dep_info, dep_len);
                let info = grant_energy_saving(issi, esm);
                match self.clients.remove(&issi) {
                    Some(mut c) => {
                        c.energy_saving_mode = info.energy_saving_mode;
                        c.monitoring_frame = info.frame_number;
                        c.monitoring_multiframe = info.multiframe_number;
                        self.clients.insert(issi, c);
                        proof {
                            assert(self.clients_view() =~= old(self).clients_view().insert(
                                issi,
                                ClientState {
                                    energy_saving_mode: info.energy_saving_mode,
                                    monitoring_frame: info.frame_number,
                                    monitoring_multiframe: info.multiframe_number,
                                    ..old(self).clients_view()[issi]
                                },
                            ));
                        }
                    },
                    None => {
                        proof {
                            assert(self.clients_view() =~= old(self).clients_view());
                        }
                    },
                }
                out.push(MmOutput::Downlink(MmDownlink::MmStatusEnergySaving { issi, handle, info }));
                proof {
                    assert(effects(out@) =~= seq![MmEffect::Downlink(DownlinkView::EnergySaving { issi, handle, info })]);
                }
            },
            StatusUplink::ChangeOfEnergySavingModeResponse => {
                let esm = mode_from_status_info(dep_info, dep_len);
                match self.clients.remove(&issi) {
                    Some(mut c) => {
                        c.energy_saving_mode = esm;
                        self.clients.insert(issi, c);
                        proof {
                            assert(self.clients_view() =~= old(self).clients_view().insert(
                                issi,
                                ClientState { energy_saving_mode: esm, ..old(self).clients_view()[issi] },
                            ));
                        }
                    },
                    None => {
                        proof {
                            assert(self.clients_view() =~= old(self).clients_view());
                        }
                    },
                }
            },
            StatusUplink::Other { code } => {
                out.push(MmOutput::Downlink(MmDownlink::FunctionNotSupported { issi, handle, status_code: code }));
                proof {
                    assert(effects(out@) =~= seq![
                        MmEffect::Downlink(DownlinkView::NotSupported { issi, handle, status_code: code }),
                    ]);
                }
            },
        }
        out
    }

    /// After the Brew backhaul reconnects, every registered station is told to register
    /// again, on its last handle, so that it re-affiliates.
    pub fn rx_brew_reconnected(&self) -> (out: Vec<MmOutput>)
        ensures
            exists|ks: Seq<u32>|
                #![trigger in_issi_order(ks, self.clients_view().dom())]
                in_issi_order(ks, self.clients_view().dom()) && effects(out@) == ks.map_values(
                    |k: u32| command_effect(k, self.clients_view()[k].last_handle),
                ),
    {
        let ks = self.sorted_issis();
        let mut out: Vec<MmOutput> = Vec::new();
        let mut i: usize = 0;
        while i < ks.len()
            invariant
                0 <= i <= ks.len(),
                ks@.to_set() == self.clients@.dom(),
                effects(out@) == ks@.take(i as int).map_values(
                    |k: u32| command_effect(k, self.clients_view()[k].last_handle),
                ),
            decreases ks.len() - i,
        {
            let issi = ks[i];
            proof {
                assert(ks@.contains(issi));
                assert(ks@.to_set().contains(issi));
            }
            let handle = match self.clients.get(&issi) {
                Some(c) => c.last_handle,
                None => 0,
            };
            let ghost before = effects(out@);
            out.push(MmOutput::Downlink(MmDownlink::LocationUpdateCommand { issi, handle }));
            proof {
                let f = |k: u32| command_effect(k, self.clients_view()[k].last_handle);
                assert(handle == self.clients_view()[issi].last_handle);
                assert(effects(out@) =~= before.push(command_effect(issi, handle)));
                assert(ks@.take(i + 1) =~= ks@.take(i as int).push(issi));
                assert(ks@.take(i + 1).map_values(f) =~= ks@.take(i as int).map_values(f).push(f(issi)));
            }
            i = i + 1;
        }
        proof {
            assert(ks@.take(ks@.len() as int) =~= ks@);
            assert(self.clients_view().dom() =~= self.clients@.dom());
            assert(in_issi_order(ks@, self.clients_view().dom()));
        }
        out
    }

    /// Rebuilds the published monitoring windows from the station records, replacing the old
    /// map: every station in energy economy with a window, and no other. Each window's frame
    /// is in 1..=18 and its cycle at least 2 multiframes.
    pub fn publish_monitoring_windows(&self, state: &mut StackState)
        requires
            self.wf(),
        ensures
            final(state).ee_monitoring_windows@ == windows_of(self.clients_view()),
            forall|i: u32| #[trigger]
                final(state).ee_monitoring_windows@.contains_key(i) ==> {
                    let w = final(state).ee_monitoring_windows@[i];
                    1 <= w.0 <= 18 && w.2 >= 2
                },
            final(state).subscribers == old(state).subscribers,
            final(state).live_sds_queue == old(state).live_sds_queue,
            final(state).next_live_sds_id == old(state).next_live_sds_id,
            final(state).wx_override == old(state).wx_override,
            final(state).active_call_ts == old(state).active_call_ts,
            final(state).issi_whitelist_override == old(state).issi_whitelist_override,
            final(state).network_connected == old(state).network_connected,
    {
        let mut map: HashMap<u32, (u8, u8, u8)> = HashMap::new();
        let ghost keys = vstd::std_specs::hash::spec_keys_iter(&self.clients).remaining();
        let ghost m = self.clients_view();
        for k in it: self.clients.keys()
            invariant
                it.seq() == keys,
                m == self.clients_view(),
                keys.unref().to_set() == self.clients@.dom(),
                map@ == windows_of(m).restrict(keys.unref().take(it.index() as int).to_set()),
        {
            let ghost idx = it.index();
            let issi = *k;
            proof {
                assert(keys.unref()[idx as int] == issi);
                assert(keys.unref().contains(issi));
            }
            match self.clients.get(&issi) {
                Some(c) => {
                    if c.energy_saving_mode != EnergySavingMode::StayAlive {
                        match (c.monitoring_frame, c.monitoring_multiframe) {
                            (Some(f), Some(mf)) => {
                                map.insert(issi, (f, mf, c.energy_saving_mode.code() + 1));
                            },
                            _ => {},
                        }
                    }
                },
                None => {},
            }
            proof {
                assert(keys.unref().take(idx + 1) =~= keys.unref().take(idx as int).push(issi));
                keys.unref().take(idx as int).lemma_push_to_set_commute(issi);
                assert(map@ =~= windows_of(m).restrict(keys.unref().take(idx + 1).to_set()));
            }
        }
        proof {
            assert(keys.unref().take(keys.len() as int) =~= keys.unref());
            assert(map@ =~= windows_of(m));
        }
        state.ee_monitoring_windows = map;
    }

    /// The periodic-registration check, run every tick. A station whose registration ran
    /// out is sent a re-registration command and given `COMMAND_GRACE_MS` to answer, and is
    /// meanwhile released from Brew and deregistered; one that did not answer in time is
    /// rejected with "expiry of timer" and forgotten. Stations are handled in increasing
    /// ISSI order; the monitoring windows are then published again.
    pub fn tick_start(&mut self, state: &mut StackState, now_ms: u64, periodic_secs: u64) -> (out: Vec<MmOutput>)
        requires
            old(self).wf(),
        ensures
            final(self).wf(),
            ({
                let exp = expired_set(old(self).clients_view(), now_ms, periodic_secs);
                exists|ks: Seq<u32>|
                    #![trigger in_issi_order(ks, exp)]
                    in_issi_order(ks, exp) && effects(out@) == expiry_run(ks, old(self).clients_view())
            }),
            final(self).clients_view() == after_expiry(
                old(self).clients_view(),
                expired_set(old(self).clients_view(), now_ms, periodic_secs),
                now_ms,
            ),
            final(state).subscribers@ == old(state).subscribers@.remove_keys(
                expired_set(old(self).clients_view(), now_ms, periodic_secs),
            ),
            old(state).subscribers.wf() ==> final(state).subscribers.wf(),
            final(state).ee_monitoring_windows@ == windows_of(final(self).clients_view()),
    {
        let ghost m = old(self).clients_view();
        let ghost exp = expired_set(m, now_ms, periodic_secs);
        let all = self.sorted_issis();
        let mut ks: Vec<u32> = Vec::new();
        let mut i: usize = 0;
        while i < all.len()
            invariant
                0 <= i <= all.len(),
                m == self.clients_view(),
                in_issi_order(all@, self.clients@.dom()),
                strictly_increasing(ks@),
                forall|k: u32| #[trigger] ks@.contains(k) <==> (all@.take(i as int).contains(k)
                    && registration_expired(m[k], now_ms, periodic_secs)),
            decreases all.len() - i,
        {
            let issi = all[i];
            proof {
                assert(all@.contains(issi));
                assert(all@.to_set().contains(issi));
            }
            let lapsed = match self.clients.get(&issi) {
                Some(c) => expired_now(c, now_ms, periodic_secs),
                None => false,
            };
            let ghost before = ks@;
            if lapsed {
                ks.push(issi);
                proof {
                    assert forall|a: int, b: int| 0 <= a < b < ks@.len() implies ks@[a] < ks@[b] by {
                        if b == ks@.len() - 1 {
                            assert(before.contains(ks@[a]));
                            assert(all@.take(i as int).contains(ks@[a]));
                            let c = choose|c: int| 0 <= c < i && all@.take(i as int)[c] == ks@[a];
                            assert(all@[c] < all@[i as int]);
                        }
                    }
                }
            }
            proof {
                let t = all@.take(i + 1);
                assert(t =~= all@.take(i as int).push(issi));
                assert(!before.contains(issi)) by {
                    if before.contains(issi) {
                        assert(all@.take(i as int).contains(issi));
                        let c = choose|c: int| 0 <= c < i && all@.take(i as int)[c] == issi;
                        assert(all@[c] < all@[i as int]);
                    }
                }
                assert(lapsed == registration_expired(m[issi], now_ms, periodic_secs));
                assert forall|k: u32| #[trigger] t.contains(k) == (all@.take(i as int).contains(k) || k == issi) by {
                    vstd::seq_lib::lemma_seq_contains_after_push(all@.take(i as int), issi, k);
                }
                if lapsed {
                    assert forall|k: u32| #[trigger] ks@.contains(k) == (before.contains(k) || k == issi) by {
                        vstd::seq_lib::lemma_seq_contains_after_push(before, issi, k);
                    }
                }
                assert forall|k: u32| #[trigger] ks@.contains(k) <==> (t.contains(k)
                    && registration_expired(m[k], now_ms, periodic_secs)) by {
                    if ks@.contains(k) && k != issi {
                        let c = choose|c: int| 0 <= c < ks@.len() && ks@[c] == k;
                        assert(before[c] == k);
                        assert(before.contains(k));
                    }
                    if t.contains(k) && k != issi {
                        let c = choose|c: int| 0 <= c < t.len() && t[c] == k;
                        assert(all@.take(i as int)[c] == k);
                        assert(all@.take(i as int).contains(k));
                    }
                    if lapsed && k == issi {
                        assert(ks@[ks@.len() - 1] == issi);
                    }
                    if before.contains(k) {
                        let c = choose|c: int| 0 <= c < before.len() && before[c] == k;
                        assert(ks@[c] == k);
                    }
                }
            }
            i = i + 1;
        }
        proof {
            assert(all@.take(all@.len() as int) =~= all@);
            assert(ks@.to_set() =~= exp) by {
                assert forall|k: u32| ks@.to_set().contains(k) == exp.contains(k) by {
                    if exp.contains(k) {
                        assert(all@.to_set().contains(k));
                    }
                }
            }
        }
        let mut out: Vec<MmOutput> = Vec::new();
        let mut j: usize = 0;
        while j < ks.len()
            invariant
                0 <= j <= ks.len(),
                in_issi_order(ks@, exp),
                exp == expired_set(m, now_ms, periodic_secs),
                self.wf(),
                self.clients_view() == after_expiry(m, ks@.take(j as int).to_set(), now_ms),
                state.subscribers@ == old(state).subscribers@.remove_keys(ks@.take(j as int).to_set()),
                old(state).subscribers.wf() ==> state.subscribers.wf(),
                effects(out@) == expiry_run(ks@.take(j as int), m),
            decreases ks.len() - j,
        {
            let issi = ks[j];
            let ghost done = ks@.take(j as int).to_set();
            proof {
                assert(ks@.contains(issi));
                assert(ks@.to_set().contains(issi));
                assert(!done.contains(issi)) by {
                    if done.contains(issi) {
                        assert(ks@.take(j as int).contains(issi));
                        let a = choose|a: int| 0 <= a < j && ks@.take(j as int)[a] == issi;
                        assert(ks@[a] < ks@[j as int]);
                    }
                }
                assert(self.clients_view().contains_key(issi));
                assert(self.clients_view()[issi] == m[issi]);
                assert(ks@.take(j + 1).drop_last() =~= ks@.take(j as int));
                assert(ks@.take(j + 1) =~= ks@.take(j as int).push(issi));
                ks@.take(j as int).lemma_push_to_set_commute(issi);
                assert(self.clients@[issi].groups@.no_duplicates());
            }
            let ghost before = effects(out@);
            let ghost prev = self.clients_view();
            let c = self.clients.remove(&issi).unwrap();
            proof {
                assert(c@ == m[issi]);
            }
            let groups = c.groups.clone();
            if c.command_deadline_ms.is_some() {
                out.push(
                    MmOutput::Downlink(
                        MmDownlink::LocationUpdateReject {
                            issi,
                            handle: c.last_handle,
                            location_update_type: LocationUpdateType::PeriodicLocationUpdating,
                            address_extension: None,
                            cause: RejectCause::ExpiryOfTimer,
                        },
                    ),
                );
                state.subscribers.deregister(issi);
                Self::emit_release(&mut out, issi, groups);
                proof {
                    assert(self.clients_view() =~= prev.remove(issi));
                    assert(m[issi].command_deadline_ms is Some);
                }
            } else {
                out.push(MmOutput::Downlink(MmDownlink::LocationUpdateCommand { issi, handle: 0 }));
                let mut c2 = c;
                c2.command_deadline_ms = Some(now_ms.saturating_add(COMMAND_GRACE_MS));
                proof {
                    assert(c2@ == ClientState { command_deadline_ms: Some(command_deadline(now_ms)), ..m[issi] });
                }
                self.clients.insert(issi, c2);
                proof {
                    assert(self.clients_view() =~= prev.insert(issi, c2@));
                }
                Self::emit_release(&mut out, issi, groups);
                state.subscribers.deregister(issi);
            }
            proof {
                assert(effects(out@) =~= before + expiry_effects(issi, m[issi]));
                assert(self.clients_view() =~= after_expiry(m, ks@.take(j + 1).to_set(), now_ms));
                assert(state.subscribers@ =~= old(state).subscribers@.remove_keys(ks@.take(j + 1).to_set()));
            }
            j = j + 1;
        }
        proof {
            assert(ks@.take(ks@.len() as int) =~= ks@);
        }
        self.publish_monitoring_windows(state);
        out
    }

    /// Attaches and detaches the requested groups of a known station (see [`group_step`]),
    /// on its record and on the registry, and publishes the changes; an unknown station's
    /// requests are all skipped. Returns the acknowledged groups.
    pub fn try_attach_detach_groups(
        &mut self,
        reg: &mut SubscriberRegistry,
        issi: u32,
        items: &Vec<GroupIdentityUplink>,
        out: &mut Vec<MmOutput>,
    ) -> (accepted: Vec<GroupIdentityDownlink>)
        requires
            old(self).wf(),
        ensures
            final(self).wf(),
            old(reg).wf() ==> final(reg).wf(),
            old(self).clients_view().contains_key(issi) ==> {
                let c = old(self).clients_view()[issi];
                let f = group_fold(fold_start(c.groups, old(reg)@), issi, items@);
                &&& final(self).clients_view() == old(self).clients_view().insert(
                    issi,
                    ClientState { groups: f.groups, ..c },
                )
                &&& final(reg)@ == f.reg
                &&& accepted@ == f.accepted
                &&& effects(final(out)@) == effects(old(out)@) + fold_effects(issi, f)
            },
            !old(self).clients_view().contains_key(issi) ==> {
                &&& final(self).clients_view() == old(self).clients_view()
                &&& final(reg)@ == old(reg)@
                &&& accepted@.len() == 0
                &&& final(out)@ == old(out)@
            },
    {
        let ghost before = effects(out@);
        match self.clients.remove(&issi) {
            Some(mut c) => {
                proof {
                    assert(old(self).clients@[issi].groups@.no_duplicates());
                }
                let ghost c0 = c@;
                let (accepted, attached, detached) = run_group_requests(&mut c.groups, reg, issi, items);
                let ghost f = group_fold(fold_start(c0.groups, old(reg)@), issi, items@);
                self.clients.insert(issi, c);
                if attached.len() > 0 {
                    out.push(
                        MmOutput::Subscriber(
                            SubscriberUpdate { issi, groups: attached, action: SubscriberAction::Affiliate },
                        ),
                    );
                }
                if detached.len() > 0 {
                    out.push(
                        MmOutput::Subscriber(
                            SubscriberUpdate { issi, groups: detached, action: SubscriberAction::Deaffiliate },
                        ),
                    );
                }
                proof {
                    assert(self.clients_view() =~= old(self).clients_view().insert(
                        issi,
                        ClientState { groups: f.groups, ..c0 },
                    ));
                    assert(effects(out@) =~= before + fold_effects(issi, f));
                }
                accepted
            },
            None => {
                proof {
                    assert(self.clients_view() =~= old(self).clients_view());
                }
                Vec::new()
            },
        }
    }

    /// Handles a U-ATTACH/DETACH GROUP IDENTITY. Without requested groups the station's
    /// current groups are acknowledged. Otherwise a request to replace all groups first
    /// registers an unknown station or releases a known one from all its groups; then at
    /// most `MAX_GROUPS_PER_ATTACH` requested groups are handled and acknowledged, so that
    /// what is attached is what the station is told.
    pub fn rx_u_attach_detach_group_identity(
        &mut self,
        state: &mut StackState,
        issi: u32,
        handle: u32,
        detach_all: bool,
        uplink: Option<Vec<GroupIdentityUplink>>,
        now_ms: u64,
    ) -> (out: Vec<MmOutput>)
        requires
            old(self).wf(),
        ensures
            final(self).wf(),
            old(state).subscribers.wf() ==> final(state).subscribers.wf(),
            uplink is None ==> {
                &&& effects(out@) == seq![
                    MmEffect::Downlink(
                        DownlinkView::Ack {
                            issi,
                            handle,
                            downlink: current_groups_ack(client_groups(old(self).clients_view(), issi)),
                        },
                    ),
                ]
                &&& final(self).clients_view() == old(self).clients_view()
                &&& final(state).subscribers@ == old(state).subscribers@
            },
            uplink matches Some(items) ==> {
                let p = attach_prep(old(self).clients_view(), old(state).subscribers@, issi, detach_all, now_ms);
                let known = p.clients.contains_key(issi);
                let f = group_fold(fold_start(p.clients[issi].groups, p.reg), issi, capped(items@));
                &&& known ==> {
                    &&& final(self).clients_view() == p.clients.insert(
                        issi,
                        ClientState { groups: f.groups, ..p.clients[issi] },
                    )
                    &&& final(state).subscribers@ == f.reg
                    &&& effects(out@) == p.effects + fold_effects(issi, f) + seq![
                        MmEffect::Downlink(DownlinkView::Ack { issi, handle, downlink: Some(f.accepted) }),
                    ]
                }
                &&& !known ==> {
                    &&& final(self).clients_view() == p.clients
                    &&& final(state).subscribers@ == p.reg
                    &&& effects(out@) == p.effects + seq![
                        MmEffect::Downlink(DownlinkView::Ack { issi, handle, downlink: Some(Seq::empty()) }),
                    ]
                }
            },
    {
        let mut out: Vec<MmOutput> = Vec::new();
        let items = match uplink {
            None => {
                let current: Vec<u32> = match self.clients.get(&issi) {
                    Some(c) => c.groups.clone(),
                    None => Vec::new(),
                };
                let mut acks: Vec<GroupIdentityDownlink> = Vec::new();
                let mut i: usize = 0;
                while i < current.len()
                    invariant
                        0 <= i <= current.len(),
                        acks@ == current@.take(i as int).map_values(
                            |g: u32|
                                GroupIdentityDownlink {
                                    gssi: g,
                                    attachment: Some(GroupIdentityAttachment { lifetime: 0, class_of_usage: 4 }),
                                    detachment: None,
                                },
                        ),
                    decreases current.len() - i,
                {
                    acks.push(
                        GroupIdentityDownlink {
                            gssi: current[i],
                            attachment: Some(GroupIdentityAttachment { lifetime: 0, class_of_usage: 4 }),
                            detachment: None,
                        },
                    );
                    proof {
                        assert(current@.take(i + 1) =~= current@.take(i as int).push(current@[i as int]));
                        assert(acks@ =~= current@.take(i + 1).map_values(
                            |g: u32|
                                GroupIdentityDownlink {
                                    gssi: g,
                                    attachment: Some(GroupIdentityAttachment { lifetime: 0, class_of_usage: 4 }),
                                    detachment: None,
                                },
                        ));
                    }
                    i = i + 1;
                }
                proof {
                    assert(current@.take(current@.len() as int) =~= current@);
                    assert(current@ == client_groups(old(self).clients_view(), issi));
                }
                let downlink = if acks.len() > 0 {
                    Some(acks)
                } else {
                    None
                };
                out.push(MmOutput::Downlink(MmDownlink::AttachDetachAck { issi, handle, downlink }));
                proof {
                    assert(effects(out@) =~= seq![
                        MmEffect::Downlink(
                            DownlinkView::Ack {
                                issi,
                                handle,
                                downlink: current_groups_ack(client_groups(old(self).clients_view(), issi)),
                            },
                        ),
                    ]);
                }
                return out;
            },
            Some(items) => items,
        };
        let ghost p = attach_prep(old(self).clients_view(), old(state).subscribers@, issi, detach_all, now_ms);
        if detach_all {
            match self.clients.remove(&issi) {
                None => {
                    self.clients.insert(issi, new_client(now_ms));
                    state.subscribers.register(issi);
                    out.push(
                        MmOutput::Subscriber(
                            SubscriberUpdate { issi, groups: Vec::new(), action: SubscriberAction::Register },
                        ),
                    );
                    proof {
                        assert(self.clients_view() =~= p.clients);
                        assert(effects(out@) =~= p.effects);
                    }
                },
                Some(mut c) => {
                    let prior = c.groups;
                    c.groups = Vec::new();
                    self.clients.insert(issi, c);
                    deaffiliate_all(&mut state.subscribers, issi, &prior);
                    if prior.len() > 0 {
                        out.push(
                            MmOutput::Subscriber(
                                SubscriberUpdate { issi, groups: prior, action: SubscriberAction::Deaffiliate },
                            ),
                        );
                    }
                    proof {
                        assert(self.clients_view() =~= p.clients);
                        assert(effects(out@) =~= p.effects);
                    }
                },
            }
        } else {
            proof {
                assert(effects(out@) =~= p.effects);
            }
        }
        proof {
            assert(self.clients_view() == p.clients);
            assert(state.subscribers@ == p.reg);
            assert(effects(out@) == p.effects);
        }
        let mut clamped: Vec<GroupIdentityUplink> = Vec::new();
        let mut i: usize = 0;
        while i < items.len() && i < MAX_GROUPS_PER_ATTACH
            invariant
                0 <= i <= items.len(),
                i <= MAX_GROUPS_PER_ATTACH,
                clamped@ == items@.take(i as int),
            decreases items.len() - i,
        {
            clamped.push(items[i]);
            proof {
                assert(items@.take(i + 1) =~= items@.take(i as int).push(items@[i as int]));
            }
            i = i + 1;
        }
        proof {
            assert(clamped@ =~= capped(items@));
        }
        let accepted = self.try_attach_detach_groups(&mut state.subscribers, issi, &clamped, &mut out);
        let ghost mid = effects(out@);
        proof {
            if !p.clients.contains_key(issi) {
                assert(accepted@ =~= Seq::<GroupIdentityDownlink>::empty());
            }
        }
        out.push(MmOutput::Downlink(MmDownlink::AttachDetachAck { issi, handle, downlink: Some(accepted) }));
        proof {
            assert(effects(out@) =~= mid.push(
                MmEffect::Downlink(DownlinkView::Ack { issi, handle, downlink: Some(accepted@) }),
            ));
        }
        out
    }

    /// Handles a U-LOCATION UPDATE DEMAND.
    ///
    /// A migrating station is released and rejected ("migration not supported"), since the
    /// identity exchange of a migration is not implemented. A demand asking for an
    /// unsupported feature is ignored. A station that the whitelist does not admit is
    /// rejected. Otherwise the station is registered (see [`lu_register_effects`],
    /// [`lu_client`] and [`lu_groups`]) and accepted, as a periodic update when periodic
    /// registration is on; a new station that neither attached anew nor reported groups is
    /// then asked to register again with its group report. Every accepted station is in the
    /// registry afterwards, also a known one whose registry entry had been dropped.
    #[verifier::spinoff_prover]
    #[verifier::rlimit(60)]
    pub fn rx_u_location_update_demand(
        &mut self,
        state: &mut StackState,
        issi: u32,
        handle: u32,
        pdu: LocationUpdateDemand,
        config_allows: bool,
        periodic_secs: u64,
        now_ms: u64,
    ) -> (out: Vec<MmOutput>)
        requires
            old(self).wf(),
        ensures
            final(self).wf(),
            old(state).subscribers.wf() ==> final(state).subscribers.wf(),
            final(state).issi_whitelist_override == old(state).issi_whitelist_override,
            is_migration(pdu.location_update_type) ==> {
                let m = old(self).clients_view();
                &&& final(self).clients_view() == m.remove(issi)
                &&& final(state).subscribers@ == (if m.contains_key(issi) {
                    old(state).subscribers@.remove(issi)
                } else {
                    old(state).subscribers@
                })
                &&& effects(out@) == (if m.contains_key(issi) {
                    release_effects(issi, m[issi].groups)
                } else {
                    Seq::empty()
                }) + seq![reject_effect(issi, handle, pdu.location_update_type, pdu.address_extension)]
            },
            !is_migration(pdu.location_update_type) && !demand_supported(pdu) ==> {
                &&& final(self).clients_view() == old(self).clients_view()
                &&& final(state).subscribers@ == old(state).subscribers@
                &&& out@.len() == 0
            },
            !is_migration(pdu.location_update_type) && demand_supported(pdu) && !issi_admitted(
                old(state).issi_whitelist_override,
                config_allows,
                issi,
            ) ==> {
                &&& final(self).clients_view() == old(self).clients_view()
                &&& final(state).subscribers@ == old(state).subscribers@
                &&& effects(out@) == seq![reject_effect(issi, handle, pdu.location_update_type, pdu.address_extension)]
            },
            !is_migration(pdu.location_update_type) && demand_supported(pdu) && issi_admitted(
                old(state).issi_whitelist_override,
                config_allows,
                issi,
            ) ==> {
                let m = old(self).clients_view();
                let known = m.contains_key(issi);
                let t = pdu.location_update_type;
                let c = lu_client(m, issi, handle, pdu, now_ms);
                let r1 = if old(state).subscribers@.contains_key(issi) {
                    old(state).subscribers@
                } else {
                    old(state).subscribers@.insert(issi, Set::empty())
                };
                let g = lu_groups(issi, known, c.groups, r1, pdu.group_identity_location_demand);
                let accept = MmEffect::Downlink(
                    DownlinkView::Accept {
                        issi,
                        handle,
                        accept_type: if periodic_secs > 0 {
                            LocationUpdateType::PeriodicLocationUpdating
                        } else {
                            t
                        },
                        energy_saving: registration_grant(m, issi, pdu),
                        scch_information: scch_information(pdu.class_of_ms),
                        group_accept: g.group_accept,
                    },
                );
                &&& final(self).clients_view() == m.insert(issi, ClientState { groups: g.groups, ..c })
                &&& final(state).subscribers@ == g.reg
                &&& final(state).subscribers@.contains_key(issi)
                &&& effects(out@) == lu_register_effects(known, m[issi], issi, t, now_ms) + g.effects + seq![accept] + (if !known
                    && t != LocationUpdateType::ItsiAttach && pdu.group_identity_location_demand is None {
                    seq![command_effect(issi, handle)]
                } else {
                    Seq::empty()
                })
            },
    {
        let ghost m = old(self).clients_view();
        let ghost r0 = old(state).subscribers@;
        let mut out: Vec<MmOutput> = Vec::new();
        let t = pdu.location_update_type;
        if t == LocationUpdateType::MigratingLocationUpdating
            || t == LocationUpdateType::ServiceRestorationMigratingLocationUpdating {
            match self.clients.remove(&issi) {
                Some(client) => {
                    state.subscribers.deregister(issi);
                    Self::emit_release(&mut out, issi, client.groups);
                },
                None => {},
            }
            let ghost mid = effects(out@);
            out.push(
                MmOutput::Downlink(
                    MmDownlink::LocationUpdateReject {
                        issi,
                        handle,
                        location_update_type: t,
                        address_extension: pdu.address_extension,
                        cause: RejectCause::MigrationNotSupported,
                    },
                ),
            );
            proof {
                assert(self.clients_view() =~= m.remove(issi));
                assert(effects(Seq::<MmOutput>::empty()) =~= Seq::<MmEffect>::empty());
                assert(effects(out@) =~= mid.push(reject_effect(issi, handle, t, pdu.address_extension)));
                if m.contains_key(issi) {
                    assert(mid =~= Seq::<MmEffect>::empty() + release_effects(issi, m[issi].groups));
                } else {
                    assert(mid =~= Seq::<MmEffect>::empty());
                }
            }
            return out;
        }
        if !feature_check_u_location_update_demand(&pdu) {
            return out;
        }
        let known = self.clients.contains_key(&issi);
        let requested: Option<EnergySavingMode> = match pdu.energy_saving_mode {
            Some(e) => Some(e),
            None => match self.clients.get(&issi) {
                Some(c) => Some(c.energy_saving_mode),
                None => None,
            },
        };
        let grant: Option<EnergySavingInformation> = match requested {
            Some(e) => Some(grant_energy_saving(issi, e)),
            None => None,
        };
        proof {
            assert(grant == registration_grant(m, issi, pdu));
        }
        if !issi_allowed(&state.issi_whitelist_override, config_allows, issi) {
            out.push(
                MmOutput::Downlink(
                    MmDownlink::LocationUpdateReject {
                        issi,
                        handle,
                        location_update_type: t,
                        address_extension: pdu.address_extension,
                        cause: RejectCause::MigrationNotSupported,
                    },
                ),
            );
            proof {
                assert(effects(out@) =~= seq![reject_effect(issi, handle, t, pdu.address_extension)]);
            }
            return out;
        }
        let mut c = match self.clients.remove(&issi) {
            Some(c) => c,
            None => new_client(now_ms),
        };
        proof {
            if known {
                assert(c@ == m[issi]);
                assert(old(self).clients@[issi].groups@.no_duplicates());
            } else {
                assert(c@ == fresh_client(now_ms));
            }
        }
        emit_register_updates(&mut out, issi, known, &c, t, now_ms);
        if !state.subscribers.is_registered(issi) {
            state.subscribers.register(issi);
        }
        c.last_handle = handle;
        match grant {
            Some(g) => {
                c.energy_saving_mode = g.energy_saving_mode;
                c.monitoring_frame = g.frame_number;
                c.monitoring_multiframe = g.multiframe_number;
            },
            None => {
                c.energy_saving_mode = EnergySavingMode::StayAlive;
                c.monitoring_frame = None;
                c.monitoring_multiframe = None;
            },
        }
        c.class_of_ms = pdu.class_of_ms;
        c.registered_at_ms = now_ms;
        c.command_deadline_ms = None;
        let ghost cl = lu_client(m, issi, handle, pdu, now_ms);
        let ghost r1 = state.subscribers@;
        let ghost e0 = effects(out@);
        proof {
            assert(c@ == cl);
        }
        let has_groups = pdu.group_identity_location_demand.is_some();
        let group_accept = lu_group_phase(
            &mut c.groups,
            &mut state.subscribers,
            issi,
            known,
            pdu.group_identity_location_demand,
            &mut out,
        );
        let ghost g = lu_groups(issi, known, cl.groups, r1, pdu.group_identity_location_demand);
        proof {
            lemma_lu_groups_keeps_key(issi, known, cl.groups, r1, pdu.group_identity_location_demand, issi);
        }
        self.clients.insert(issi, c);
        let accept_type = if periodic_secs > 0 {
            LocationUpdateType::PeriodicLocationUpdating
        } else {
            t
        };
        let scch: Option<u64> = match pdu.class_of_ms {
            Some(cm) => if cm.clch_needed || cm.common_scch {
                Some(1u64)
            } else {
                None
            },
            None => None,
        };
        let ghost e2 = effects(out@);
        out.push(
            MmOutput::Downlink(
                MmDownlink::LocationUpdateAccept {
                    issi,
                    handle,
                    accept_type,
                    energy_saving: grant,
                    scch_information: scch,
                    group_accept,
                },
            ),
        );
        let ghost e3 = effects(out@);
        if !known && t != LocationUpdateType::ItsiAttach && !has_groups {
            out.push(MmOutput::Downlink(MmDownlink::LocationUpdateCommand { issi, handle }));
        }
        proof {
            assert(self.clients_view() =~= m.insert(issi, ClientState { groups: g.groups, ..cl }));
            assert(e3 =~= e2.push(
                MmEffect::Downlink(
                    DownlinkView::Accept {
                        issi,
                        handle,
                        accept_type,
                        energy_saving: registration_grant(m, issi, pdu),
                        scch_information: scch_information(pdu.class_of_ms),
                        group_accept: g.group_accept,
                    },
                ),
            ));
        }
        out
    }

    /// Handles a U-TEI PROVIDE: the terminal equipment identity of a known station is kept.
    pub fn rx_u_tei_provide(&mut self, issi: u32, tei: u64)
        requires
            old(self).wf(),
        ensures
            final(self).wf(),
            old(self).clients_view().contains_key(issi) ==> final(self).clients_view() == old(
                self,
            ).clients_view().insert(issi, ClientState { tei: Some(tei), ..old(self).clients_view()[issi] }),
            !old(self).clients_view().contains_key(issi) ==> final(self).clients_view() == old(self).clients_view(),
    {
        match self.clients.remove(&issi) {
            Some(mut c) => {
                c.tei = Some(tei);
                self.clients.insert(issi, c);
                proof {
                    assert(self.clients_view() =~= old(self).clients_view().insert(
                        issi,
                        ClientState { tei: Some(tei), ..old(self).clients_view()[issi] },
                    ));
                }
            },
            None => {
                proof {
                    assert(self.clients_view() =~= old(self).clients_view());
                }
            },
        }
    }
}

/// A run of group requests attaches and detaches at most one group per request.
pub proof fn lemma_fold_counts(f: GroupFold, issi: u32, items: Seq<GroupIdentityUplink>)
    ensures
        group_fold(f, issi, items).attached.len() <= f.attached.len() + items.len(),
        group_fold(f, issi, items).detached.len() <= f.detached.len() + items.len(),
        group_fold(f, issi, items).accepted.len() <= f.accepted.len() + items.len(),
    decreases items.len(),
{
    if items.len() > 0 {
        lemma_fold_counts(f, issi, items.drop_last());
    }
}

/// One U-ATTACH/DETACH GROUP IDENTITY attaches at most `MAX_GROUPS_PER_ATTACH` groups, and
/// acknowledges at most as many, so that its acknowledgement fits one downlink burst.
pub proof fn lemma_attach_capped(groups: Seq<u32>, reg: Map<u32, Set<u32>>, issi: u32, items: Seq<GroupIdentityUplink>)
    ensures
        group_fold(fold_start(groups, reg), issi, capped(items)).attached.len() <= MAX_GROUPS_PER_ATTACH,
        group_fold(fold_start(groups, reg), issi, capped(items)).accepted.len() <= MAX_GROUPS_PER_ATTACH,
{
    lemma_fold_counts(fold_start(groups, reg), issi, capped(items));
}


/// A location-update accept tells a station of the SCCH exactly when its class of MS asks
/// for the common linearisation channel or for a common SCCH, either one alone being
/// enough; the SCCH is then the one on frame 18 (value 1). A station that asks for neither,
/// or sends no class of MS, is told of none.
pub proof fn lemma_scch_follows_class_of_ms(class: ClassOfMs)
    ensures
        class.common_scch ==> scch_information(Some(class)) == Some(1u64),
        class.clch_needed ==> scch_information(Some(class)) == Some(1u64),
        scch_information(Some(class)) is Some <==> (class.clch_needed || class.common_scch),
        scch_information(None) is None,
{
}

} // verus!

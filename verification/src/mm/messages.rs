//! Mobility-management values exchanged with the radio and with the other entities: the
//! decoded uplink requests the base station acts on, the downlink answers it builds, and the
//! subscriber updates it publishes.
use vstd::prelude::*;

use crate::brew::entity::SubscriberAction;

verus! {

/// Energy saving mode of a mobile station (ETSI EN 300 392-2, clause 16.10.10).
#[derive(Debug, Clone, Copy, PartialEq, Eq, Structural)]
pub enum EnergySavingMode {
    StayAlive,
    Eg1,
    Eg2,
    Eg3,
    Eg4,
    Eg5,
    Eg6,
    Eg7,
}

/// The 3-bit code of a mode.
pub open spec fn esm_code(m: EnergySavingMode) -> u8 {
    match m {
        EnergySavingMode::StayAlive => 0,
        EnergySavingMode::Eg1 => 1,
        EnergySavingMode::Eg2 => 2,
        EnergySavingMode::Eg3 => 3,
        EnergySavingMode::Eg4 => 4,
        EnergySavingMode::Eg5 => 5,
        EnergySavingMode::Eg6 => 6,
        EnergySavingMode::Eg7 => 7,
    }
}

/// The mode with a given code, if any.
pub open spec fn esm_of_code(v: u64) -> Option<EnergySavingMode> {
    if v == 0 {
        Some(EnergySavingMode::StayAlive)
    } else if v == 1 {
        Some(EnergySavingMode::Eg1)
    } else if v == 2 {
        Some(EnergySavingMode::Eg2)
    } else if v == 3 {
        Some(EnergySavingMode::Eg3)
    } else if v == 4 {
        Some(EnergySavingMode::Eg4)
    } else if v == 5 {
        Some(EnergySavingMode::Eg5)
    } else if v == 6 {
        Some(EnergySavingMode::Eg6)
    } else if v == 7 {
        Some(EnergySavingMode::Eg7)
    } else {
        None
    }
}

impl EnergySavingMode {
    pub fn code(self) -> (r: u8)
        ensures
            r == esm_code(self),
    {
        match self {
            EnergySavingMode::StayAlive => 0,
            EnergySavingMode::Eg1 => 1,
            EnergySavingMode::Eg2 => 2,
            EnergySavingMode::Eg3 => 3,
            EnergySavingMode::Eg4 => 4,
            EnergySavingMode::Eg5 => 5,
            EnergySavingMode::Eg6 => 6,
            EnergySavingMode::Eg7 => 7,
        }
    }

    pub fn from_code(v: u64) -> (r: Option<EnergySavingMode>)
        ensures
            r == esm_of_code(v),
    {
        if v == 0 {
            Some(EnergySavingMode::StayAlive)
        } else if v == 1 {
            Some(EnergySavingMode::Eg1)
        } else if v == 2 {
            Some(EnergySavingMode::Eg2)
        } else if v == 3 {
            Some(EnergySavingMode::Eg3)
        } else if v == 4 {
            Some(EnergySavingMode::Eg4)
        } else if v == 5 {
            Some(EnergySavingMode::Eg5)
        } else if v == 6 {
            Some(EnergySavingMode::Eg6)
        } else if v == 7 {
            Some(EnergySavingMode::Eg7)
        } else {
            None
        }
    }
}

/// A granted energy saving mode with the monitoring window of the mobile station.
#[derive(Debug, Clone, Copy, PartialEq, Eq)]
pub struct EnergySavingInformation {
    pub energy_saving_mode: EnergySavingMode,
    /// Frame (1..=18) in which the station wakes up.
    pub frame_number: Option<u8>,
    /// Multiframe, within the cycle of the mode, in which the station wakes up.
    pub multiframe_number: Option<u8>,
}

/// The mode the base station grants for a request: modes above Eg3 are capped at Eg3 to
/// bound call-setup latency.
pub open spec fn granted_mode(requested: EnergySavingMode) -> EnergySavingMode {
    match requested {
        EnergySavingMode::StayAlive => EnergySavingMode::StayAlive,
        EnergySavingMode::Eg1 => EnergySavingMode::Eg1,
        EnergySavingMode::Eg2 => EnergySavingMode::Eg2,
        _ => EnergySavingMode::Eg3,
    }
}

/// What is granted to `issi` for a request: the capped mode and, unless the station stays
/// alive, a wake-up frame `issi % 18 + 1` and multiframe `(issi / 18) % (code + 1)`, which
/// spreads stations over the monitoring slots.
pub open spec fn granted_information(issi: u32, requested: EnergySavingMode) -> EnergySavingInformation {
    let g = granted_mode(requested);
    if g == EnergySavingMode::StayAlive {
        EnergySavingInformation { energy_saving_mode: g, frame_number: None, multiframe_number: None }
    } else {
        EnergySavingInformation {
            energy_saving_mode: g,
            frame_number: Some(((issi % 18) + 1) as u8),
            multiframe_number: Some(((issi / 18) % ((esm_code(g) + 1) as u32)) as u8),
        }
    }
}

/// Decides the energy saving mode granted to a station and its monitoring window.
pub fn grant_energy_saving(issi: u32, requested: EnergySavingMode) -> (r: EnergySavingInformation)
    ensures
        r == granted_information(issi, requested),
{
    let granted = match requested {
        EnergySavingMode::StayAlive => EnergySavingMode::StayAlive,
        EnergySavingMode::Eg1 => EnergySavingMode::Eg1,
        EnergySavingMode::Eg2 => EnergySavingMode::Eg2,
        _ => EnergySavingMode::Eg3,
    };
    if granted == EnergySavingMode::StayAlive {
        EnergySavingInformation { energy_saving_mode: granted, frame_number: None, multiframe_number: None }
    } else {
        let cycle_len: u32 = (granted.code() + 1) as u32;
        let frame_num: u8 = ((issi % 18) + 1) as u8;
        let mframe_num: u8 = ((issi / 18) % cycle_len) as u8;
        EnergySavingInformation {
            energy_saving_mode: granted,
            frame_number: Some(frame_num),
            multiframe_number: Some(mframe_num),
        }
    }
}

/// The mode carried in the status-dependent information of a U-MM STATUS: its first three
/// bits, when there are at least three; a missing or unknown value reads as stay-alive.
pub open spec fn requested_mode(dep_info: Option<u64>, dep_len: Option<u32>) -> EnergySavingMode {
    match dep_info {
        Some(info) => {
            let len = match dep_len {
                Some(l) => l,
                None => 0,
            };
            if len >= 3 {
                match esm_of_code(info >> ((len - 3) as u64)) {
                    Some(m) => m,
                    None => EnergySavingMode::StayAlive,
                }
            } else {
                EnergySavingMode::StayAlive
            }
        },
        None => EnergySavingMode::StayAlive,
    }
}

/// Reads the requested energy saving mode out of the status-dependent information.
pub fn mode_from_status_info(dep_info: Option<u64>, dep_len: Option<u32>) -> (r: EnergySavingMode)
    requires
        dep_len matches Some(l) ==> l < 67,
    ensures
        r == requested_mode(dep_info, dep_len),
{
    match dep_info {
        Some(info) => {
            let len: u32 = match dep_len {
                Some(l) => l,
                None => 0,
            };
            if len >= 3 {
                let shift: u64 = (len - 3) as u64;
                match EnergySavingMode::from_code(info >> shift) {
                    Some(m) => m,
                    None => EnergySavingMode::StayAlive,
                }
            } else {
                EnergySavingMode::StayAlive
            }
        },
        None => EnergySavingMode::StayAlive,
    }
}

/// Kind of a location update (ETSI EN 300 392-2, clause 16.10.35).
#[derive(Debug, Clone, Copy, PartialEq, Eq, Structural)]
pub enum LocationUpdateType {
    RoamingLocationUpdating,
    MigratingLocationUpdating,
    PeriodicLocationUpdating,
    ItsiAttach,
    ServiceRestorationRoamingLocationUpdating,
    ServiceRestorationMigratingLocationUpdating,
    DemandLocationUpdating,
    DisabledMsUpdating,
}

/// Why a location update is rejected.
#[derive(Debug, Clone, Copy, PartialEq, Eq, Structural)]
pub enum RejectCause {
    MigrationNotSupported,
    ExpiryOfTimer,
}

/// The class-of-MS flags the base station reads.
#[derive(Debug, Clone, Copy, PartialEq, Eq, Structural)]
pub struct ClassOfMs {
    pub clch_needed: bool,
    pub common_scch: bool,
}

/// One group in an uplink attach/detach request.
#[derive(Debug, Clone, Copy, PartialEq, Eq)]
pub struct GroupIdentityUplink {
    pub gssi: Option<u32>,
    pub vgssi: Option<u32>,
    pub address_extension: Option<u64>,
    pub class_of_usage: Option<u8>,
    /// Present for a detachment, with its detachment type.
    pub detachment: Option<u8>,
}

/// Attachment details of an accepted group.
#[derive(Debug, Clone, Copy, PartialEq, Eq)]
pub struct GroupIdentityAttachment {
    pub lifetime: u8,
    pub class_of_usage: u8,
}

/// One group in a downlink acknowledgement.
#[derive(Debug, Clone, Copy, PartialEq, Eq)]
pub struct GroupIdentityDownlink {
    pub gssi: u32,
    pub attachment: Option<GroupIdentityAttachment>,
    pub detachment: Option<u8>,
}

/// The group part of a location update demand.
#[derive(Debug, Clone)]
pub struct GroupLocationDemand {
    /// 1 asks to detach every attached group before attaching the listed ones.
    pub attach_detach_mode: u8,
    pub uplink: Option<Vec<GroupIdentityUplink>>,
}

/// A decoded U-LOCATION UPDATE DEMAND.
#[derive(Debug, Clone)]
pub struct LocationUpdateDemand {
    pub location_update_type: LocationUpdateType,
    pub energy_saving_mode: Option<EnergySavingMode>,
    pub request_to_append_la: bool,
    pub cipher_control: bool,
    pub has_ciphering_parameters: bool,
    pub address_extension: Option<u64>,
    pub group_identity_location_demand: Option<GroupLocationDemand>,
    pub class_of_ms: Option<ClassOfMs>,
}

/// Whether a demand asks only for what the base station implements: no migration or
/// disabled-MS updating, no location-area append, no ciphering.
pub open spec fn demand_supported(pdu: LocationUpdateDemand) -> bool {
    &&& pdu.location_update_type != LocationUpdateType::MigratingLocationUpdating
    &&& pdu.location_update_type != LocationUpdateType::DisabledMsUpdating
    &&& !pdu.request_to_append_la
    &&& !pdu.cipher_control
    &&& !pdu.has_ciphering_parameters
}

pub fn feature_check_u_location_update_demand(pdu: &LocationUpdateDemand) -> (r: bool)
    ensures
        r == demand_supported(*pdu),
{
    !(pdu.location_update_type == LocationUpdateType::MigratingLocationUpdating
        || pdu.location_update_type == LocationUpdateType::DisabledMsUpdating || pdu.request_to_append_la
        || pdu.cipher_control || pdu.has_ciphering_parameters)
}

/// The uplink status kinds of a U-MM STATUS that the base station tells apart; any other
/// kind carries its 6-bit code.
#[derive(Debug, Clone, Copy, PartialEq, Eq, Structural)]
pub enum StatusUplink {
    ChangeOfEnergySavingModeRequest,
    ChangeOfEnergySavingModeResponse,
    Other { code: u8 },
}

/// A subscriber life-cycle update published by mobility management.
#[derive(Debug, Clone)]
pub struct SubscriberUpdate {
    pub issi: u32,
    pub groups: Vec<u32>,
    pub action: SubscriberAction,
}

/// A downlink PDU of mobility management, addressed to one station.
#[derive(Debug, Clone)]
pub enum MmDownlink {
    LocationUpdateAccept {
        issi: u32,
        handle: u32,
        accept_type: LocationUpdateType,
        energy_saving: Option<EnergySavingInformation>,
        scch_information: Option<u64>,
        /// The group identity location accept element, if any, with its accepted groups.
        group_accept: Option<Option<Vec<GroupIdentityDownlink>>>,
    },
    LocationUpdateReject {
        issi: u32,
        handle: u32,
        location_update_type: LocationUpdateType,
        address_extension: Option<u64>,
        cause: RejectCause,
    },
    LocationUpdateCommand { issi: u32, handle: u32 },
    AttachDetachAck { issi: u32, handle: u32, downlink: Option<Vec<GroupIdentityDownlink>> },
    MmStatusEnergySaving { issi: u32, handle: u32, info: EnergySavingInformation },
    FunctionNotSupported { issi: u32, handle: u32, status_code: u8 },
}

/// What a mobility-management handler asks the stack to do, in order.
#[derive(Debug, Clone)]
pub enum MmOutput {
    /// A subscriber update for call control, also forwarded to Brew as
    /// [`brew_copy`] decides.
    Subscriber(SubscriberUpdate),
    /// A subscriber update for call control only.
    CmceOnly(SubscriberUpdate),
    Downlink(MmDownlink),
}

/// The downlink PDUs as values.
pub enum DownlinkView {
    Accept {
        issi: u32,
        handle: u32,
        accept_type: LocationUpdateType,
        energy_saving: Option<EnergySavingInformation>,
        scch_information: Option<u64>,
        group_accept: Option<Option<Seq<GroupIdentityDownlink>>>,
    },
    Reject {
        issi: u32,
        handle: u32,
        location_update_type: LocationUpdateType,
        address_extension: Option<u64>,
        cause: RejectCause,
    },
    Command { issi: u32, handle: u32 },
    Ack { issi: u32, handle: u32, downlink: Option<Seq<GroupIdentityDownlink>> },
    EnergySaving { issi: u32, handle: u32, info: EnergySavingInformation },
    NotSupported { issi: u32, handle: u32, status_code: u8 },
}

/// The outputs of mobility management as values.
pub enum MmEffect {
    Subscriber { issi: u32, groups: Seq<u32>, action: SubscriberAction },
    CmceOnly { issi: u32, groups: Seq<u32>, action: SubscriberAction },
    Downlink(DownlinkView),
}

pub open spec fn opt_vec_view<T>(v: Option<Vec<T>>) -> Option<Seq<T>> {
    match v {
        Some(x) => Some(x@),
        None => None,
    }
}

impl View for MmDownlink {
    type V = DownlinkView;

    open spec fn view(&self) -> DownlinkView {
        match *self {
            MmDownlink::LocationUpdateAccept { issi, handle, accept_type, energy_saving, scch_information, group_accept } => {
                DownlinkView::Accept {
                    issi,
                    handle,
                    accept_type,
                    energy_saving,
                    scch_information,
                    group_accept: match group_accept {
                        Some(g) => Some(opt_vec_view(g)),
                        None => None,
                    },
                }
            },
            MmDownlink::LocationUpdateReject { issi, handle, location_update_type, address_extension, cause } => {
                DownlinkView::Reject { issi, handle, location_update_type, address_extension, cause }
            },
            MmDownlink::LocationUpdateCommand { issi, handle } => DownlinkView::Command { issi, handle },
            MmDownlink::AttachDetachAck { issi, handle, downlink } => DownlinkView::Ack {
                issi,
                handle,
                downlink: opt_vec_view(downlink),
            },
            MmDownlink::MmStatusEnergySaving { issi, handle, info } => DownlinkView::EnergySaving { issi, handle, info },
            MmDownlink::FunctionNotSupported { issi, handle, status_code } => DownlinkView::NotSupported {
                issi,
                handle,
                status_code,
            },
        }
    }
}

impl View for MmOutput {
    type V = MmEffect;

    open spec fn view(&self) -> MmEffect {
        match *self {
            MmOutput::Subscriber(u) => MmEffect::Subscriber { issi: u.issi, groups: u.groups@, action: u.action },
            MmOutput::CmceOnly(u) => MmEffect::CmceOnly { issi: u.issi, groups: u.groups@, action: u.action },
            MmOutput::Downlink(d) => MmEffect::Downlink(d@),
        }
    }
}

/// The outputs of a handler as values.
pub open spec fn effects(s: Seq<MmOutput>) -> Seq<MmEffect> {
    s.map_values(|o: MmOutput| o@)
}

/// The elements of `xs` whose flag in `bs` is set, in order.
pub open spec fn keep_flagged(xs: Seq<u32>, bs: Seq<bool>) -> Seq<u32>
    decreases xs.len(),
{
    if xs.len() == 0 || bs.len() == 0 {
        Seq::empty()
    } else {
        let rest = keep_flagged(xs.drop_last(), bs.drop_last());
        if bs.last() {
            rest.push(xs.last())
        } else {
            rest
        }
    }
}

/// `bs` holds, for each element of `xs`, an answer that `f` may give for it.
pub open spec fn answers<F: Fn(u32) -> bool>(f: F, xs: Seq<u32>, bs: Seq<bool>) -> bool {
    bs.len() == xs.len() && forall|j: int| 0 <= j < xs.len() ==> f.ensures((xs[j],), #[trigger] bs[j])
}

/// The copy of a subscriber update that goes to Brew: none while Brew is inactive; else the
/// update restricted to the groups routable over Brew, sent for a (de)registration when the
/// ISSI is routable over Brew and for a (de)affiliation when a routable group remains.
pub open spec fn brew_copy_ok<FI: Fn(u32) -> bool, FG: Fn(u32) -> bool>(
    issi: u32,
    groups: Seq<u32>,
    action: SubscriberAction,
    brew_active: bool,
    issi_routable: FI,
    gssi_routable: FG,
    r: Option<SubscriberUpdate>,
) -> bool {
    if !brew_active {
        r is None
    } else if action == SubscriberAction::Register || action == SubscriberAction::Deregister {
        exists|bs: Seq<bool>, b: bool|
            #![trigger answers(gssi_routable, groups, bs), issi_routable.ensures((issi,), b)]
            answers(gssi_routable, groups, bs) && issi_routable.ensures((issi,), b) && (if b {
                r matches Some(u) && u.issi == issi && u.groups@ == keep_flagged(groups, bs) && u.action == action
            } else {
                r is None
            })
    } else {
        exists|bs: Seq<bool>|
            #![trigger answers(gssi_routable, groups, bs)]
            answers(gssi_routable, groups, bs) && (if keep_flagged(groups, bs).len() > 0 {
                r matches Some(u) && u.issi == issi && u.groups@ == keep_flagged(groups, bs) && u.action == action
            } else {
                r is None
            })
    }
}

/// Decides the copy of a subscriber update that is forwarded to Brew.
pub fn brew_copy<FI: Fn(u32) -> bool, FG: Fn(u32) -> bool>(
    update: &SubscriberUpdate,
    brew_active: bool,
    issi_routable: &FI,
    gssi_routable: &FG,
) -> (r: Option<SubscriberUpdate>)
    requires
        forall|i: u32| issi_routable.requires((i,)),
        forall|g: u32| gssi_routable.requires((g,)),
    ensures
        brew_copy_ok(update.issi, update.groups@, update.action, brew_active, *issi_routable, *gssi_routable, r),
{
    if !brew_active {
        return None;
    }
    let mut kept: Vec<u32> = Vec::new();
    let ghost mut bs: Seq<bool> = Seq::empty();
    let mut i: usize = 0;
    while i < update.groups.len()
        invariant
            0 <= i <= update.groups.len(),
            forall|g: u32| gssi_routable.requires((g,)),
            answers(*gssi_routable, update.groups@.take(i as int), bs),
            kept@ == keep_flagged(update.groups@.take(i as int), bs),
        decreases update.groups.len() - i,
    {
        let g = update.groups[i];
        let b = gssi_routable(g);
        proof {
            let xs1 = update.groups@.take(i + 1);
            assert(xs1.drop_last() =~= update.groups@.take(i as int));
            assert((bs.push(b)).drop_last() =~= bs);
        }
        if b {
            kept.push(g);
        }
        proof {
            bs = bs.push(b);
        }
        i = i + 1;
    }
    proof {
        assert(update.groups@.take(i as int) =~= update.groups@);
    }
    let is_membership = match update.action {
        SubscriberAction::Register => true,
        SubscriberAction::Deregister => true,
        _ => false,
    };
    if is_membership {
        let b = issi_routable(update.issi);
        if b {
            Some(SubscriberUpdate { issi: update.issi, groups: kept, action: update.action })
        } else {
            None
        }
    } else {
        proof {
            assert(answers(*gssi_routable, update.groups@, bs));
        }
        if kept.len() > 0 {
            Some(SubscriberUpdate { issi: update.issi, groups: kept, action: update.action })
        } else {
            None
        }
    }
}

/// The granted mode is never above Eg3, a station that stays alive gets no window, and
/// any other gets a frame in 1..=18 and a multiframe within the cycle of its mode.
pub proof fn lemma_grant_bounds(issi: u32, requested: EnergySavingMode)
    ensures
        esm_code(granted_information(issi, requested).energy_saving_mode) <= 3,
        granted_information(issi, requested).energy_saving_mode == EnergySavingMode::StayAlive
            <==> requested == EnergySavingMode::StayAlive,
        requested != EnergySavingMode::StayAlive ==> {
            let g = granted_information(issi, requested);
            &&& g.frame_number matches Some(f) && 1 <= f <= 18
            &&& g.multiframe_number matches Some(mf) && mf <= esm_code(g.energy_saving_mode)
        },
{
}

/// Granting twice changes nothing: a granted mode is granted as it is.
pub proof fn lemma_grant_idempotent(issi: u32, requested: EnergySavingMode)
    ensures
        granted_information(issi, granted_information(issi, requested).energy_saving_mode) == granted_information(
            issi,
            requested,
        ),
{
}

} // verus!

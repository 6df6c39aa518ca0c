use flowstation::brew::entity::SubscriberAction;
use flowstation::mm::messages::{
    brew_copy, grant_energy_saving, mode_from_status_info, ClassOfMs, EnergySavingMode, GroupIdentityUplink,
    GroupLocationDemand, LocationUpdateDemand, LocationUpdateType, MmDownlink, MmOutput, RejectCause, StatusUplink,
    SubscriberUpdate,
};
use flowstation::mm::mm_bs::{issi_allowed, MmBs};
use flowstation::registry::StackState;

fn demand(t: LocationUpdateType) -> LocationUpdateDemand {
    LocationUpdateDemand {
        location_update_type: t,
        energy_saving_mode: None,
        request_to_append_la: false,
        cipher_control: false,
        has_ciphering_parameters: false,
        address_extension: None,
        group_identity_location_demand: None,
        class_of_ms: None,
    }
}

fn attach(gssi: u32) -> GroupIdentityUplink {
    GroupIdentityUplink { gssi: Some(gssi), vgssi: None, address_extension: None, class_of_usage: Some(2), detachment: None }
}

fn detach(gssi: u32) -> GroupIdentityUplink {
    GroupIdentityUplink { gssi: Some(gssi), vgssi: None, address_extension: None, class_of_usage: None, detachment: Some(1) }
}

fn is_update(o: &MmOutput, issi: u32, action: SubscriberAction, groups: &[u32]) -> bool {
    match o {
        MmOutput::Subscriber(u) => u.issi == issi && u.action == action && u.groups == groups,
        _ => false,
    }
}

#[test]
fn grant_caps_and_spreads() {
    let g = grant_energy_saving(1000, EnergySavingMode::Eg7);
    assert_eq!(g.energy_saving_mode, EnergySavingMode::Eg3);
    assert_eq!(g.frame_number, Some((1000 % 18 + 1) as u8));
    assert_eq!(g.multiframe_number, Some(((1000 / 18) % 4) as u8));
    let s = grant_energy_saving(1000, EnergySavingMode::StayAlive);
    assert_eq!(s.energy_saving_mode, EnergySavingMode::StayAlive);
    assert_eq!(s.frame_number, None);
    let e1 = grant_energy_saving(35, EnergySavingMode::Eg1);
    assert_eq!(e1.frame_number, Some(18));
    assert_eq!(e1.multiframe_number, Some(1));
}

#[test]
fn status_info_mode() {
    // 6 bits: mode 3 in the top three.
    assert_eq!(mode_from_status_info(Some(0b011_000), Some(6)), EnergySavingMode::Eg3);
    assert_eq!(mode_from_status_info(Some(0b011), Some(2)), EnergySavingMode::StayAlive);
    assert_eq!(mode_from_status_info(None, Some(6)), EnergySavingMode::StayAlive);
    assert_eq!(mode_from_status_info(Some(0b1111), Some(3)), EnergySavingMode::StayAlive);
}

#[test]
fn new_station_registers_and_is_commanded() {
    let mut mm = MmBs::new();
    let mut state = StackState::default();
    let out = mm.rx_u_location_update_demand(
        &mut state,
        2001,
        7,
        demand(LocationUpdateType::RoamingLocationUpdating),
        true,
        0,
        1000,
    );
    assert_eq!(out.len(), 3);
    assert!(is_update(&out[0], 2001, SubscriberAction::Register, &[]));
    match &out[1] {
        MmOutput::Downlink(MmDownlink::LocationUpdateAccept { issi, handle, accept_type, group_accept, .. }) => {
            assert_eq!((*issi, *handle), (2001, 7));
            assert_eq!(*accept_type, LocationUpdateType::RoamingLocationUpdating);
            assert!(group_accept.is_none());
        },
        _ => panic!("expected accept"),
    }
    assert!(matches!(out[2], MmOutput::Downlink(MmDownlink::LocationUpdateCommand { issi: 2001, handle: 7 })));
    assert!(state.subscribers.is_registered(2001));
    assert_eq!(mm.clients.get(&2001).unwrap().last_handle, 7);
}

#[test]
fn itsi_attach_with_groups_and_periodic_accept() {
    let mut mm = MmBs::new();
    let mut state = StackState::default();
    let mut pdu = demand(LocationUpdateType::ItsiAttach);
    pdu.energy_saving_mode = Some(EnergySavingMode::Eg2);
    pdu.class_of_ms = Some(ClassOfMs { clch_needed: true, common_scch: false });
    pdu.group_identity_location_demand =
        Some(GroupLocationDemand { attach_detach_mode: 0, uplink: Some(vec![attach(91), attach(92)]) });
    let out = mm.rx_u_location_update_demand(&mut state, 2002, 3, pdu, true, 600, 0);
    assert!(is_update(&out[0], 2002, SubscriberAction::Register, &[]));
    assert!(is_update(&out[1], 2002, SubscriberAction::Affiliate, &[91, 92]));
    match &out[2] {
        MmOutput::Downlink(MmDownlink::LocationUpdateAccept { accept_type, energy_saving, scch_information, group_accept, .. }) => {
            assert_eq!(*accept_type, LocationUpdateType::PeriodicLocationUpdating);
            assert_eq!(energy_saving.unwrap().energy_saving_mode, EnergySavingMode::Eg2);
            assert_eq!(*scch_information, Some(1));
            let acc = group_accept.as_ref().unwrap().as_ref().unwrap();
            assert_eq!(acc.len(), 2);
            assert_eq!(acc[0].gssi, 91);
            assert_eq!(acc[0].attachment.unwrap().lifetime, 0);
            assert_eq!(acc[0].attachment.unwrap().class_of_usage, 2);
        },
        _ => panic!("expected accept"),
    }
    assert_eq!(out.len(), 3);
    assert_eq!(state.subscribers.attached_groups_of(2002).len(), 2);
}

#[test]
fn migration_is_rejected_and_released() {
    let mut mm = MmBs::new();
    let mut state = StackState::default();
    let mut pdu = demand(LocationUpdateType::ItsiAttach);
    pdu.group_identity_location_demand = Some(GroupLocationDemand { attach_detach_mode: 0, uplink: Some(vec![attach(5)]) });
    mm.rx_u_location_update_demand(&mut state, 10, 1, pdu, true, 0, 0);
    let mut m = demand(LocationUpdateType::MigratingLocationUpdating);
    m.address_extension = Some(42);
    let out = mm.rx_u_location_update_demand(&mut state, 10, 2, m, true, 0, 10);
    assert_eq!(out.len(), 3);
    assert!(is_update(&out[0], 10, SubscriberAction::Deaffiliate, &[5]));
    assert!(is_update(&out[1], 10, SubscriberAction::Deregister, &[]));
    match &out[2] {
        MmOutput::Downlink(MmDownlink::LocationUpdateReject { cause, address_extension, .. }) => {
            assert_eq!(*cause, RejectCause::MigrationNotSupported);
            assert_eq!(*address_extension, Some(42));
        },
        _ => panic!("expected reject"),
    }
    assert!(mm.clients.is_empty());
    assert!(!state.subscribers.is_registered(10));
}

#[test]
fn whitelist_rejects_and_unsupported_is_ignored() {
    let mut mm = MmBs::new();
    let mut state = StackState::default();
    state.issi_whitelist_override = Some(vec![1, 2]);
    let out = mm.rx_u_location_update_demand(&mut state, 3, 0, demand(LocationUpdateType::ItsiAttach), true, 0, 0);
    assert_eq!(out.len(), 1);
    assert!(matches!(out[0], MmOutput::Downlink(MmDownlink::LocationUpdateReject { issi: 3, .. })));
    let mut ciph = demand(LocationUpdateType::ItsiAttach);
    ciph.cipher_control = true;
    assert!(mm.rx_u_location_update_demand(&mut state, 1, 0, ciph, true, 0, 0).is_empty());
    assert!(mm.clients.is_empty());
    assert!(issi_allowed(&Some(vec![]), false, 77));
    assert!(!issi_allowed(&None, false, 77));
    assert!(issi_allowed(&Some(vec![76, 77]), false, 77));
}

#[test]
fn soft_reattach_releases_cmce_only() {
    let mut mm = MmBs::new();
    let mut state = StackState::default();
    let mut pdu = demand(LocationUpdateType::ItsiAttach);
    pdu.group_identity_location_demand = Some(GroupLocationDemand { attach_detach_mode: 0, uplink: Some(vec![attach(9)]) });
    mm.rx_u_location_update_demand(&mut state, 20, 1, pdu, true, 0, 1000);
    // Roaming again 30 s later: soft re-attach (call control only), then the stored groups
    // are affiliated again since the update carries no group report.
    let out = mm.rx_u_location_update_demand(&mut state, 20, 1, demand(LocationUpdateType::RoamingLocationUpdating), true, 0, 31000);
    assert!(matches!(&out[0], MmOutput::CmceOnly(u) if u.action == SubscriberAction::Deregister));
    assert!(matches!(&out[1], MmOutput::CmceOnly(u) if u.action == SubscriberAction::Register));
    assert!(matches!(&out[2], MmOutput::CmceOnly(u) if u.action == SubscriberAction::Affiliate && u.groups == vec![9]));
    assert!(is_update(&out[3], 20, SubscriberAction::Affiliate, &[9]));
    assert_eq!(out.len(), 5);
    // Roaming again 3 minutes later: full cleanup.
    let out2 = mm.rx_u_location_update_demand(&mut state, 20, 1, demand(LocationUpdateType::RoamingLocationUpdating), true, 0, 300000);
    assert!(is_update(&out2[0], 20, SubscriberAction::Deaffiliate, &[9]));
    assert!(is_update(&out2[1], 20, SubscriberAction::Deregister, &[]));
    assert!(is_update(&out2[2], 20, SubscriberAction::Register, &[]));
}

#[test]
fn attach_detach_caps_at_twelve() {
    let mut mm = MmBs::new();
    let mut state = StackState::default();
    let items: Vec<GroupIdentityUplink> = (100..115).map(attach).collect();
    let out = mm.rx_u_attach_detach_group_identity(&mut state, 30, 4, true, Some(items), 0);
    assert!(is_update(&out[0], 30, SubscriberAction::Register, &[]));
    let expected: Vec<u32> = (100..112).collect();
    assert!(is_update(&out[1], 30, SubscriberAction::Affiliate, &expected));
    match &out[2] {
        MmOutput::Downlink(MmDownlink::AttachDetachAck { downlink: Some(d), .. }) => assert_eq!(d.len(), 12),
        _ => panic!("expected ack"),
    }
    assert_eq!(mm.clients.get(&30).unwrap().groups.len(), 12);
    // Detaching one group.
    let out2 = mm.rx_u_attach_detach_group_identity(&mut state, 30, 4, false, Some(vec![detach(100)]), 0);
    assert!(is_update(&out2[0], 30, SubscriberAction::Deaffiliate, &[100]));
    assert_eq!(mm.clients.get(&30).unwrap().groups.len(), 11);
    // No groups requested: the current groups are acknowledged.
    let out3 = mm.rx_u_attach_detach_group_identity(&mut state, 30, 4, false, None, 0);
    match &out3[0] {
        MmOutput::Downlink(MmDownlink::AttachDetachAck { downlink: Some(d), .. }) => {
            assert_eq!(d.len(), 11);
            assert_eq!(d[0].attachment.unwrap().class_of_usage, 4);
        },
        _ => panic!("expected ack"),
    }
}

#[test]
fn periodic_expiry_commands_then_rejects() {
    let mut mm = MmBs::new();
    let mut state = StackState::default();
    let mut pdu = demand(LocationUpdateType::ItsiAttach);
    pdu.energy_saving_mode = Some(EnergySavingMode::Eg1);
    mm.rx_u_location_update_demand(&mut state, 40, 9, pdu, true, 60, 0);
    assert_eq!(state.ee_monitoring_windows.len(), 0);
    let none = mm.tick_start(&mut state, 59_999, 60);
    assert!(none.is_empty());
    assert_eq!(state.ee_monitoring_windows.get(&40), Some(&((40 % 18 + 1) as u8, ((40 / 18) % 2) as u8, 2)));
    let first = mm.tick_start(&mut state, 60_000, 60);
    assert!(matches!(first[0], MmOutput::Downlink(MmDownlink::LocationUpdateCommand { issi: 40, handle: 0 })));
    assert!(is_update(&first[1], 40, SubscriberAction::Deregister, &[]));
    assert!(mm.clients.contains_key(&40));
    assert!(!state.subscribers.is_registered(40));
    let second = mm.tick_start(&mut state, 120_000, 60);
    match &second[0] {
        MmOutput::Downlink(MmDownlink::LocationUpdateReject { issi, handle, cause, .. }) => {
            assert_eq!((*issi, *handle), (40, 9));
            assert_eq!(*cause, RejectCause::ExpiryOfTimer);
        },
        _ => panic!("expected reject"),
    }
    assert!(mm.clients.is_empty());
}

#[test]
fn mm_status_and_kick_and_reconnect() {
    let mut mm = MmBs::new();
    let mut state = StackState::default();
    mm.rx_u_location_update_demand(&mut state, 50, 2, demand(LocationUpdateType::ItsiAttach), true, 0, 0);
    mm.rx_u_location_update_demand(&mut state, 49, 5, demand(LocationUpdateType::ItsiAttach), true, 0, 0);
    let out = mm.rx_u_mm_status(50, 2, StatusUplink::ChangeOfEnergySavingModeRequest, Some(0b101), Some(3));
    match &out[0] {
        MmOutput::Downlink(MmDownlink::MmStatusEnergySaving { info, .. }) => {
            assert_eq!(info.energy_saving_mode, EnergySavingMode::Eg3)
        },
        _ => panic!("expected status"),
    }
    assert_eq!(mm.clients.get(&50).unwrap().energy_saving_mode, EnergySavingMode::Eg3);
    let ns = mm.rx_u_mm_status(50, 2, StatusUplink::Other { code: 12 }, None, None);
    assert!(matches!(ns[0], MmOutput::Downlink(MmDownlink::FunctionNotSupported { status_code: 12, .. })));
    let rc = mm.rx_brew_reconnected();
    assert_eq!(rc.len(), 2);
    assert!(matches!(rc[0], MmOutput::Downlink(MmDownlink::LocationUpdateCommand { issi: 49, handle: 5 })));
    assert!(matches!(rc[1], MmOutput::Downlink(MmDownlink::LocationUpdateCommand { issi: 50, handle: 2 })));
    let kick = mm.rx_kick(&mut state, 50);
    assert_eq!(kick.len(), 2);
    assert!(!mm.clients.contains_key(&50));
    let det = mm.rx_u_itsi_detach(&mut state, 49);
    assert!(is_update(&det[0], 49, SubscriberAction::Deregister, &[]));
    assert!(mm.rx_u_itsi_detach(&mut state, 49).is_empty());
}

#[test]
fn brew_copy_filters_routable_groups() {
    let u = SubscriberUpdate { issi: 7, groups: vec![1, 2, 3], action: SubscriberAction::Affiliate };
    let r = brew_copy(&u, true, &|_i: u32| true, &|g: u32| g != 2).unwrap();
    assert_eq!(r.groups, vec![1, 3]);
    assert!(brew_copy(&u, false, &|_i: u32| true, &|_g: u32| true).is_none());
    assert!(brew_copy(&u, true, &|_i: u32| true, &|_g: u32| false).is_none());
    let reg = SubscriberUpdate { issi: 7, groups: vec![], action: SubscriberAction::Register };
    assert!(brew_copy(&reg, true, &|i: u32| i == 7, &|_g: u32| true).is_some());
    assert!(brew_copy(&reg, true, &|i: u32| i == 8, &|_g: u32| true).is_none());
}

#[test]
fn accepted_known_station_is_registered_again() {
    let mut mm = MmBs::new();
    let mut state = StackState::default();
    mm.rx_u_location_update_demand(&mut state, 60, 1, demand(LocationUpdateType::ItsiAttach), true, 0, 0);
    // The registry entry is dropped (as at the periodic-registration timer) while the
    // station record stays.
    state.subscribers.deregister(60);
    assert!(mm.clients.contains_key(&60));
    let out = mm.rx_u_location_update_demand(&mut state, 60, 1, demand(LocationUpdateType::RoamingLocationUpdating), true, 0, 10);
    assert!(out.iter().any(|o| matches!(o, MmOutput::Downlink(MmDownlink::LocationUpdateAccept { issi: 60, .. }))));
    assert!(state.subscribers.is_registered(60));
}

#[test]
fn monitoring_windows_are_published_alone() {
    let mut mm = MmBs::new();
    let mut state = StackState::default();
    mm.rx_u_location_update_demand(&mut state, 37, 1, demand(LocationUpdateType::ItsiAttach), true, 0, 0);
    mm.rx_u_mm_status(37, 1, StatusUplink::ChangeOfEnergySavingModeRequest, Some(0b010), Some(3));
    state.next_live_sds_id = 9;
    state.ee_monitoring_windows.insert(5, (1, 0, 2));
    mm.publish_monitoring_windows(&mut state);
    // Eg2 for ISSI 37: frame 37 % 18 + 1 = 2, multiframe (37 / 18) % 3 = 2, cycle 3; the
    // stale entry is gone and the other state is kept.
    assert_eq!(state.ee_monitoring_windows.len(), 1);
    assert_eq!(state.ee_monitoring_windows.get(&37), Some(&(2, 2, 3)));
    assert_eq!(state.next_live_sds_id, 9);
}

use flowstation::brew::entity::{
    BrewCommand, BrewEntity, BrewEvent, CircuitCall, CmceCallControl, PlayoutOp, StackMsg, SubscriberAction, UlForwardKind,
};
use flowstation::brew::voice::{acelp_from_ste, ste_from_uplink};
use flowstation::brew::worker::{
    sds_report_status, sort_unique, CallPayload, CallState, WireMsg, WorkerState, WorkerStep,
};

#[test]
fn uplink_speech_is_packed_into_ste() {
    let mut bits = vec![0u8; 274];
    bits[0] = 1;
    bits[9] = 1;
    bits[273] = 3;
    let ste = ste_from_uplink(bits).unwrap();
    assert_eq!(ste.len(), 36);
    assert_eq!(ste[0], 0);
    assert_eq!(ste[1], 0x80);
    assert_eq!(ste[2], 0x40);
    // Bit 273 is bit 1 of packed byte 34.
    assert_eq!(ste[35], 0x40);
    assert!(ste_from_uplink(vec![1u8; 100]).is_none());
    let packed = vec![7u8; 35];
    let framed = ste_from_uplink(packed).unwrap();
    assert_eq!(framed[0], 0);
    assert_eq!(&framed[1..], &[7u8; 35][..]);
    let back = acelp_from_ste(&framed).unwrap();
    assert_eq!(back, vec![7u8; 35]);
    assert!(acelp_from_ste(&vec![0u8; 35]).is_none());
}

#[test]
fn network_group_call_start_and_speaker_change() {
    let mut e = BrewEntity::new();
    let r = e.handle_group_call_start(1, 100, 91, 0);
    assert!(matches!(r.stack[0], StackMsg::NetworkCallStart { uuid: 1, source_issi: 100, dest_gssi: 91, priority: 0 }));
    assert!(matches!(r.playout[0], PlayoutOp::Create { uuid: 1 }));
    let same = e.handle_group_call_start(1, 100, 91, 0);
    assert!(same.stack.is_empty());
    let change = e.handle_group_call_start(1, 101, 91, 0);
    assert!(matches!(change.playout[0], PlayoutOp::Flush { uuid: 1 }));
    assert_eq!(e.active_calls.get(&1).unwrap().source_issi, 101);
}

#[test]
fn subscriber_updates_become_commands() {
    let mut e = BrewEntity::new();
    let r = e.handle_subscriber_update(5, vec![], SubscriberAction::Register, true);
    assert!(matches!(r.commands[0], BrewCommand::RegisterSubscriber { issi: 5 }));
    let a = e.handle_subscriber_update(5, vec![91, 92], SubscriberAction::Affiliate, true);
    assert!(matches!(&a.commands[0], BrewCommand::AffiliateGroups { issi: 5, groups } if groups == &vec![91, 92]));
    let again = e.handle_subscriber_update(5, vec![91], SubscriberAction::Affiliate, true);
    assert!(again.commands.is_empty());
    let silent = e.handle_subscriber_update(6, vec![], SubscriberAction::Register, false);
    assert!(silent.commands.is_empty());
}

#[test]
fn worker_registers_and_tears_down() {
    let mut w = WorkerState::new();
    let s = w.apply_command(BrewCommand::RegisterSubscriber { issi: 5 }, true);
    assert!(matches!(&s, WorkerStep::Send { msgs } if matches!(msgs[0], WireMsg::SubscriberRegister { issi: 5 })));
    let s2 = w.apply_command(BrewCommand::RegisterSubscriber { issi: 5 }, true);
    assert!(matches!(&s2, WorkerStep::Send { msgs } if matches!(msgs[0], WireMsg::SubscriberReregister { issi: 5 })));
    w.apply_command(BrewCommand::AffiliateGroups { issi: 5, groups: vec![92, 91] }, true);
    let off = w.apply_command(BrewCommand::SendSdsReport { uuid: 1, status: 0 }, false);
    assert!(matches!(off, WorkerStep::Ignore));
    match w.apply_command(BrewCommand::Disconnect, true) {
        WorkerStep::Teardown { msgs } => {
            assert_eq!(msgs.len(), 2);
            assert!(matches!(&msgs[0], WireMsg::SubscriberDeaffiliate { issi: 5, groups } if groups == &vec![91, 92]));
            assert!(matches!(msgs[1], WireMsg::SubscriberDeregister { issi: 5 }));
        },
        _ => panic!("expected teardown"),
    }
    assert_eq!(sort_unique(&vec![9, 3, 7]), vec![3, 7, 9]);
    assert_eq!(sds_report_status(&vec![]), 0);
    assert_eq!(sds_report_status(&vec![4, 1]), 4);
}

fn circuit_call() -> CircuitCall {
    CircuitCall {
        source_issi: 1001,
        destination: 2002,
        number: String::new(),
        priority: 0,
        service: 0,
        mode: 0,
        duplex: true,
        method: 0,
        communication: 0,
        grant: 0,
        permission: 0,
        timeout: 0,
        ownership: 0,
        queued: false,
    }
}

#[test]
fn circuit_signalling_is_forwarded_only_while_connected() {
    let mut e = BrewEntity::new();
    let r = e.rx_cmce_call_control(CmceCallControl::SetupAccept { uuid: 5 });
    assert!(r.commands.is_empty());
    e.connected = true;
    let r = e.rx_cmce_call_control(CmceCallControl::SetupAccept { uuid: 5 });
    assert!(matches!(r.commands[..], [BrewCommand::SendSetupAccept { uuid: 5 }]));
    let r = e.rx_cmce_call_control(CmceCallControl::SetupRequest { uuid: 6, call: circuit_call() });
    assert!(matches!(&r.commands[..], [BrewCommand::SendSetupRequest { uuid: 6, call }] if call.destination == 2002));
    let r = e.rx_cmce_call_control(CmceCallControl::SetupReject { uuid: 6, cause: 11 });
    assert!(matches!(r.commands[..], [BrewCommand::SendSetupReject { uuid: 6, cause: 11 }]));
}

#[test]
fn circuit_media_ready_and_release() {
    let mut e = BrewEntity::new();
    e.connected = true;
    // Releasing an unknown circuit tells the network nothing.
    let r = e.rx_cmce_call_control(CmceCallControl::Release { uuid: 9, cause: 1 });
    assert!(r.commands.is_empty());
    let r = e.rx_cmce_call_control(CmceCallControl::MediaReady { uuid: 9, call_id: 4, ts: 3 });
    assert!(matches!(r.playout[..], [PlayoutOp::Create { uuid: 9 }]));
    let f = e.ul_forwarded.get(&3).unwrap();
    assert_eq!((f.uuid, f.call_id, f.kind), (9, 4, UlForwardKind::Circuit));
    assert_eq!(e.active_calls.get(&9).unwrap().ts, Some(3));
    // A second readiness keeps the playout buffer.
    let r = e.rx_cmce_call_control(CmceCallControl::MediaReady { uuid: 9, call_id: 4, ts: 3 });
    assert!(r.playout.is_empty());
    let r = e.rx_cmce_call_control(CmceCallControl::Release { uuid: 9, cause: 1 });
    assert!(matches!(r.commands[..], [BrewCommand::SendCallRelease { uuid: 9, cause: 1 }]));
    assert!(e.ul_forwarded.is_empty());
    assert!(!e.active_calls.contains_key(&9));
}

#[test]
fn call_control_messages_become_events() {
    let mut w = WorkerState::new();
    let ev: Vec<BrewEvent<CircuitCall>> = w.call_control_events(CallState::GroupIdle, 3, CallPayload::Empty, true, 0);
    assert!(matches!(ev[..], [BrewEvent::GroupCallEnd { uuid: 3, cause: 0 }]));
    let ev: Vec<BrewEvent<CircuitCall>> = w.call_control_events(CallState::CallRelease, 3, CallPayload::Cause(13), true, 0);
    assert!(matches!(
        ev[..],
        [BrewEvent::GroupCallEnd { uuid: 3, cause: 13 }, BrewEvent::CircuitCallRelease { uuid: 3, cause: 13 }]
    ));
    let gt = CallPayload::GroupTransmission { source: 1, destination: 91, priority: 0, service: 0, has_mnemonic: true };
    let ev: Vec<BrewEvent<CircuitCall>> = w.call_control_events(CallState::GroupTx, 4, gt, false, 0);
    assert!(matches!(ev[..], [BrewEvent::VersionDetected { version: 1 }]));
    let ev: Vec<BrewEvent<CircuitCall>> = w.call_control_events(CallState::ConnectConfirm, 4, CallPayload::Empty, true, 0);
    assert!(matches!(ev[..], [BrewEvent::CircuitConnectConfirm { uuid: 4, grant: 0, permission: 0 }]));
    let ev: Vec<BrewEvent<CircuitCall>> =
        w.call_control_events(CallState::SetupRequest, 4, CallPayload::CircularCall(circuit_call()), true, 0);
    assert!(matches!(&ev[..], [BrewEvent::CircuitSetupRequest { uuid: 4, call }] if call.source_issi == 1001));
    let ev: Vec<BrewEvent<CircuitCall>> =
        w.call_control_events(CallState::ShortTransfer, 8, CallPayload::ShortTransfer { source: 1, destination: 2 }, true, 5);
    assert!(ev.is_empty());
    assert_eq!(w.pending_sds.get(&8).unwrap().received_at_ms, 5);
    let ev: Vec<BrewEvent<CircuitCall>> = w.call_control_events(CallState::Other(99), 8, CallPayload::Empty, true, 0);
    assert!(ev.is_empty());
}

#[test]
fn circuit_requests_go_on_the_wire() {
    let mut w = WorkerState::new();
    match w.apply_command(BrewCommand::SendConnectRequest { uuid: 2, call: circuit_call() }, true) {
        WorkerStep::Send { msgs } => {
            assert!(matches!(&msgs[..], [WireMsg::ConnectRequest { uuid: 2, call }] if call.duplex))
        },
        _ => panic!("expected send"),
    }
}

use std::collections::HashMap;

use flowstation::cc::tick::{CallEndEvent, CcAction, CircuitSlot, CircuitTask, CAUSE_EXPIRY_OF_TIMER, CAUSE_USER_REQUESTED};
use flowstation::cc::timers::{
    dsetup_retry_due, ee_dsetup_blocks, ended_calls, hangtime_timeslots, CachedSetup, CallTable, EchoSession,
    GroupCall, InactivityAction, IndividualCall,
};
use flowstation::tdma::TdmaTime;

fn at(slots: u32) -> TdmaTime {
    TdmaTime::default().add_timeslots(slots)
}

fn p2p(active: bool, holder: Option<u32>) -> IndividualCall {
    IndividualCall {
        active,
        simplex_duplex: false,
        floor_holder: holder,
        calling_ssi: 3000001,
        calling_ts: 2,
        calling_usage: 10,
        called_ssi: 2000002,
        called_ts: 3,
        called_usage: 11,
        setup_pending: false,
        setup_started: None,
        connected_at: None,
        calling_over_brew: false,
        called_over_brew: false,
        brew_uuid: None,
    }
}

fn empty_table() -> CallTable {
    CallTable { group_calls: HashMap::new(), individual_calls: HashMap::new(), setups: HashMap::new(), echo: None }
}

#[test]
fn ee_gate_holds_then_falls_back() {
    let mut windows = HashMap::new();
    windows.insert(2000002u32, (1u8, 30u8, 60u8));
    let start = at(0);
    // Window closed for the whole run; held below the fallback, released after it.
    assert!(ee_dsetup_blocks(&windows, 2000002, at(400), Some(start)));
    assert!(!ee_dsetup_blocks(&windows, 2000002, at(423), Some(start)));
    assert!(!ee_dsetup_blocks(&windows, 2000002, at(400), None));
    // A station without a window is always reachable.
    assert!(!ee_dsetup_blocks(&windows, 7, at(10), Some(start)));
    // Open window: frame 1 of multiframe index 30.
    let open = TdmaTime { h: 0, m: 31, f: 1, t: 1 };
    assert!(!ee_dsetup_blocks(&windows, 2000002, open, Some(open)));
}

#[test]
fn dsetup_retry_schedule() {
    let s = at(0);
    assert!(!dsetup_retry_due(true, Some(s), at(17)));
    assert!(!dsetup_retry_due(true, Some(s), at(18)));
    assert!(dsetup_retry_due(true, Some(s), at(180)));
    assert!(dsetup_retry_due(true, Some(s), at(360)));
    assert!(!dsetup_retry_due(false, Some(s), at(180)));
    assert!(!dsetup_retry_due(true, None, at(180)));
    assert_eq!(hangtime_timeslots(5), 360);
}

#[test]
fn ul_inactivity_hands_floor_to_peer() {
    let mut t = empty_table();
    t.individual_calls.insert(4, p2p(true, Some(3000001)));
    let r = t.handle_ul_inactivity_timeout(2, at(0), &|_g: u32| true);
    assert_eq!(
        r,
        InactivityAction::FloorToPeer {
            call_id: 4,
            holder_ssi: 3000001,
            holder_ts: 2,
            holder_usage: 10,
            peer_ssi: 2000002,
            peer_ts: 3,
            peer_usage: 11,
        }
    );
    assert_eq!(t.individual_calls.get(&4).unwrap().floor_holder, None);
    // Silence on the listener's timeslot is expected.
    t.individual_calls.insert(5, p2p(true, Some(2000002)));
    t.individual_calls.remove(&4);
    assert_eq!(t.handle_ul_inactivity_timeout(2, at(0), &|_g: u32| true), InactivityAction::Idle);
}

#[test]
fn ul_inactivity_ceases_group_talker_and_refreshes_echo() {
    let mut t = empty_table();
    t.group_calls.insert(7, GroupCall { dest_gssi: 91, ts: 2, tx_active: true, hangtime_start: None, started: at(0) });
    let now = at(99);
    let r = t.handle_ul_inactivity_timeout(2, now, &|g: u32| g == 91);
    assert_eq!(r, InactivityAction::TxCeased { call_id: 7, dest_gssi: 91, ts: 2, notify_brew: true });
    let c = t.group_calls.get(&7).unwrap();
    assert!(!c.tx_active);
    assert_eq!(c.hangtime_start, Some(now));
    let ids = t.hangtime_expired_calls(at(99 + 361), 5);
    assert_eq!(ids, vec![7]);
    assert!(t.hangtime_expired_calls(at(99 + 360), 5).is_empty());
    t.echo = Some(EchoSession { call_id: 12, ts: 3 });
    assert_eq!(t.handle_ul_inactivity_timeout(3, now, &|_g: u32| false), InactivityAction::EchoRefresh { call_id: 12, ts: 3 });
    assert_eq!(t.handle_ul_inactivity_timeout(4, now, &|_g: u32| false), InactivityAction::Idle);
}

#[test]
fn ended_calls_are_reported() {
    let mut after: HashMap<u16, u8> = HashMap::new();
    after.insert(2, 0);
    assert_eq!(ended_calls(&vec![1, 2, 3], &after), vec![1, 3]);
    assert!(ended_calls(&vec![2], &after).is_empty());
}

/// Starts an individual call from 3000001 to `called` at the downlink time 0/1/1/1 (call
/// control has paged the called station once), then runs call control for `ticks`
/// timeslots and counts the D-SETUP resends to the called station.
fn count_dsetup_resends(windows: &HashMap<u32, (u8, u8, u8)>, called: u32, ticks: u32) -> usize {
    let started = TdmaTime { h: 0, m: 1, f: 1, t: 1 };
    let mut table = empty_table();
    let mut call = p2p(false, None);
    call.called_ssi = called;
    call.setup_pending = true;
    call.setup_started = Some(started);
    table.individual_calls.insert(4, call);
    table.setups.insert(4, CachedSetup { dest_ssi: called, is_individual: true, resend: true });
    let mut resends = 0;
    for k in 1..=ticks {
        let now = started.add_timeslots(k);
        let acts = table.tick(now, windows, 5, 0, &vec![]);
        assert!(acts.circuit.is_empty());
        for a in &acts.timer {
            match a {
                CcAction::ResendSetup { dest_ssi, .. } if *dest_ssi == called => resends += 1,
                _ => {}
            }
        }
    }
    assert!(table.individual_calls.contains_key(&4), "the setup is still pending");
    resends
}

#[test]
fn test_dsetup_to_ee_ms_held_outside_monitoring_window() {
    let called = 2000002;
    let mut windows = HashMap::new();
    // Frame 1, offset 30, cycle 60: closed for the whole run.
    windows.insert(called, (1u8, 30u8, 60u8));
    let held = count_dsetup_resends(&windows, called, 400);
    assert_eq!(held, 0, "D-SETUP resends to an asleep EE MS must be held while its monitoring window is closed");
}

#[test]
fn test_dsetup_to_non_ee_ms_resends_normally() {
    let called = 2000002;
    let windows = HashMap::new();
    let resends = count_dsetup_resends(&windows, called, 400);
    assert!(resends >= 1, "D-SETUP resends to a non-EE MS must continue normally (gate inactive), got {resends}");
}

#[test]
fn test_dsetup_ee_fallback_resends_after_timeout() {
    let called = 2000002;
    let mut windows = HashMap::new();
    windows.insert(called, (1u8, 30u8, 60u8));
    let resends = count_dsetup_resends(&windows, called, 600);
    assert!(
        resends >= 1,
        "after the EE fallback expires, D-SETUP resends must resume (never worse than before), got {resends}"
    );
}

#[test]
fn tick_releases_calls_past_their_limits() {
    let mut table = empty_table();
    table.group_calls.insert(1, GroupCall { dest_gssi: 91, ts: 2, tx_active: true, hangtime_start: None, started: at(0) });
    table.group_calls.insert(2, GroupCall { dest_gssi: 92, ts: 3, tx_active: false, hangtime_start: Some(at(0)), started: at(0) });
    let mut active = p2p(true, None);
    active.connected_at = Some(at(0));
    table.individual_calls.insert(3, active);
    let mut pending = p2p(false, None);
    pending.setup_pending = true;
    pending.setup_started = Some(at(0));
    table.individual_calls.insert(5, pending);
    table.setups.insert(1, CachedSetup { dest_ssi: 91, is_individual: false, resend: true });
    // 10 s limit at 11 s: the talking group call and the connected call end; the group call
    // in hangtime ends too (5 s hangtime); the setup (60 s timeout) stays.
    let acts = table.tick(at(11 * 72), &HashMap::new(), 5, 10, &vec![]);
    assert_eq!(acts.timer.len(), 3);
    assert!(acts.timer.contains(&CcAction::ReleaseGroup { call_id: 1, cause: CAUSE_USER_REQUESTED }));
    assert!(acts.timer.contains(&CcAction::ReleaseGroup { call_id: 2, cause: CAUSE_USER_REQUESTED }));
    assert!(acts.timer.contains(&CcAction::ReleaseIndividual { call_id: 3, cause: CAUSE_EXPIRY_OF_TIMER }));
    assert!(table.group_calls.is_empty());
    assert!(table.setups.is_empty());
    assert_eq!(table.individual_calls.len(), 1);
    // At 60 s the pending setup times out.
    let acts = table.tick(at(60 * 72), &HashMap::new(), 5, 10, &vec![]);
    assert_eq!(acts.timer, vec![CcAction::ReleaseIndividual { call_id: 5, cause: CAUSE_EXPIRY_OF_TIMER }]);
    assert!(table.individual_calls.is_empty());
}

#[test]
fn tick_runs_circuit_manager_tasks() {
    let mut table = empty_table();
    table.group_calls.insert(1, GroupCall { dest_gssi: 91, ts: 2, tx_active: true, hangtime_start: None, started: at(0) });
    table.setups.insert(1, CachedSetup { dest_ssi: 91, is_individual: false, resend: true });
    let mut call = p2p(true, None);
    call.calling_over_brew = true;
    call.brew_uuid = Some(77);
    table.individual_calls.insert(4, call);
    table.setups.insert(4, CachedSetup { dest_ssi: 2000002, is_individual: true, resend: true });
    let tasks = vec![
        CircuitTask::SendDSetup { call_id: 1, usage: 6, ts: 2 },
        CircuitTask::SendDSetup { call_id: 9, usage: 6, ts: 2 },
        CircuitTask::SendClose { call_id: 4, ts: 2 },
    ];
    let acts = table.tick(at(10), &HashMap::new(), 5, 0, &tasks);
    assert!(acts.timer.is_empty());
    assert_eq!(
        acts.circuit,
        vec![
            CcAction::ResendSetup {
                call_id: 1,
                dest_ssi: 91,
                channel: Some(CircuitSlot { usage: 6, ts: 2 }),
                late_entry: true,
            },
            CcAction::ForceClose {
                call_id: 4,
                ts: 2,
                dest_release: Some(2000002),
                party_release: None,
                network_release: Some(77),
                peer_ts: Some(3),
            },
        ]
    );
    assert!(!table.individual_calls.contains_key(&4));
    assert!(!table.setups.contains_key(&4));
}

#[test]
fn tick_reports_the_calls_it_ended() {
    let mut table = empty_table();
    table.group_calls.insert(1, GroupCall { dest_gssi: 91, ts: 2, tx_active: false, hangtime_start: Some(at(0)), started: at(0) });
    table.group_calls.insert(2, GroupCall { dest_gssi: 92, ts: 3, tx_active: true, hangtime_start: None, started: at(0) });
    table.individual_calls.insert(4, p2p(true, None));
    let tasks = vec![CircuitTask::SendClose { call_id: 4, ts: 3 }];
    let (acts, mut events) = table.tick_with_events(at(6 * 72), &HashMap::new(), 5, 0, &tasks);
    assert_eq!(acts.timer, vec![CcAction::ReleaseGroup { call_id: 1, cause: CAUSE_USER_REQUESTED }]);
    assert_eq!(acts.circuit.len(), 1);
    events.sort_by_key(|e| match e {
        CallEndEvent::GroupCallEnded { call_id, .. } => *call_id,
        CallEndEvent::IndividualCallEnded { call_id } => 100 + *call_id,
    });
    assert_eq!(
        events,
        vec![CallEndEvent::GroupCallEnded { call_id: 1, gssi: 0 }, CallEndEvent::IndividualCallEnded { call_id: 4 }]
    );
}

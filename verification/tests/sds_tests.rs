use flowstation::registry::StackState;
use flowstation::sds::{
    command_for_status, delivery_plan, extract_sds_text, flush_pending_sds, frame_control_sds, is_sds_tl_report,
    issi_on_local_traffic, must_defer, parse_command_action, periodic_wx_due, route_rf_deliver, route_status_deliver,
    sds_tl_message_reference, sds_tl_report_data, status_for_brew, text_reply, traffic_slot, wx_reply, FlushStep,
    MessageReferences, PendingSds, PreCodedStatus, RfRoute, SdsCommandAction, SdsCommandControl, SdsCommandEntry,
    SdsPendingAction, SdsUserData, ShortReportType, StatusRoute,
};
use flowstation::tdma::TdmaTime;

fn t4(bytes: Vec<u8>) -> SdsUserData {
    SdsUserData::Type4((bytes.len() * 8) as u16, bytes)
}

#[test]
fn sds_tl_report_and_reference() {
    assert!(is_sds_tl_report(&t4(vec![0x82, 0x10, 0x00, 7])));
    assert!(is_sds_tl_report(&t4(vec![0x89, 0x10, 0x00, 7, 1])));
    assert!(!is_sds_tl_report(&t4(vec![0x82, 0x10, 0x00])));
    assert_eq!(sds_tl_message_reference(&t4(vec![0x82, 0x04, 42, 0x01, b'h'])), Some(42));
    assert_eq!(sds_tl_message_reference(&t4(vec![0x82, 0x10, 42, 0x01])), None);
    assert_eq!(sds_tl_message_reference(&SdsUserData::Type1(0x8204)), None);
}

#[test]
fn sds_text_is_extracted() {
    assert_eq!(extract_sds_text(&t4(vec![0x82, 0x04, 1, 0x01, b' ', b'M', b'E', 0xff, b'T', b'\t', b' '])), "MET");
    assert_eq!(extract_sds_text(&t4(vec![0x01, b'w', b'x'])), "wx");
    assert_eq!(extract_sds_text(&t4(vec![b'h', b'i'])), "hi");
    assert_eq!(extract_sds_text(&t4(vec![])), "");
}

#[test]
fn message_references_skip_zero() {
    let mut mrs = MessageReferences::new();
    assert_eq!(mrs.take(), 1);
    mrs.next = 255;
    assert_eq!(mrs.take(), 255);
    assert_eq!(mrs.take(), 1);
    assert_eq!(mrs.take(), 1);
    assert_eq!(mrs.take(), 2);
}

#[test]
fn text_framing() {
    let mut mrs = MessageReferences::new();
    match frame_control_sds(&mut mrs, b"hello") {
        SdsUserData::Type4(bits, data) => {
            assert_eq!(data, vec![0x82, 0x04, 1, 0x01, b'h', b'e', b'l', b'l', b'o']);
            assert_eq!(bits, 72);
        },
        _ => panic!("expected type 4"),
    }
    match text_reply(&mut mrs, b"Host IP: 10.0.0.1\n") {
        SdsUserData::Type4(_, data) => assert_eq!(&data[4..], b"Host IP: 10.0.0.1"),
        _ => panic!("expected type 4"),
    }
    match sds_tl_report_data(0x02, 9) {
        SdsUserData::Type4(32, data) => assert_eq!(data, vec![0x82, 0x10, 0x02, 9]),
        _ => panic!("expected report"),
    }
}

#[test]
fn short_reports_become_full_reports_for_brew() {
    let s = PreCodedStatus { raw: 0x7abc, short_report: Some((ShortReportType::DestMemFull, 11)) };
    match status_for_brew(&s) {
        SdsUserData::Type4(32, d) => assert_eq!(d, vec![0x82, 0x10, 0x02, 11]),
        _ => panic!(),
    }
    let r = PreCodedStatus { raw: 0x7abc, short_report: Some((ShortReportType::MessageConsumed, 1)) };
    assert!(matches!(status_for_brew(&r), SdsUserData::Type4(32, d) if d[2] == 0));
    let n = PreCodedStatus { raw: 33, short_report: Some((ShortReportType::ProtOrEncodingNotSupported, 2)) };
    assert!(matches!(status_for_brew(&n), SdsUserData::Type4(32, d) if d[2] == 1));
    let p = PreCodedStatus { raw: 33, short_report: None };
    assert!(matches!(status_for_brew(&p), SdsUserData::Type1(33)));
}

#[test]
fn uplink_sds_routes() {
    let mut state = StackState::default();
    state.subscribers.register(100);
    state.subscribers.register(101);
    state.subscribers.affiliate(101, 9);
    let text = t4(vec![0x82, 0x04, 5, 0x01, b'x']);
    let report = t4(vec![0x82, 0x10, 0, 5]);
    assert_eq!(route_rf_deliver(&state, 555, &report, true, 555, false), RfRoute::WxReport);
    assert_eq!(route_rf_deliver(&state, 555, &text, true, 555, false), RfRoute::WxRequest { confirm: Some(5) });
    assert_eq!(route_rf_deliver(&state, 555, &text, false, 555, false), RfRoute::Drop);
    assert_eq!(route_rf_deliver(&state, 9999, &text, false, 555, true), RfRoute::Dashboard);
    assert_eq!(route_rf_deliver(&state, 100, &text, false, 555, true), RfRoute::LocalIssi);
    assert_eq!(route_rf_deliver(&state, 9, &text, false, 555, true), RfRoute::LocalGroup);
    assert_eq!(route_rf_deliver(&state, 7, &text, false, 555, true), RfRoute::Brew);
    assert_eq!(route_status_deliver(&state, 9999, false), StatusRoute::Command);
    assert_eq!(route_status_deliver(&state, 100, false), StatusRoute::Local);
    assert_eq!(route_status_deliver(&state, 7, true), StatusRoute::Brew);
    assert_eq!(route_status_deliver(&state, 7, false), StatusRoute::Drop);
}

#[test]
fn held_sds_are_flushed_or_failed() {
    let mut state = StackState::default();
    state.subscribers.register(200);
    state.subscribers.affiliate(200, 9);
    state.active_call_ts.insert(9, (2, 5));
    let now = TdmaTime::default();
    assert!(issi_on_local_traffic(&state, 200));
    assert!(must_defer(&state, 200, true, now));
    assert!(!must_defer(&state, 200, false, now));
    assert_eq!(traffic_slot(&state, 200, true), Some((2, 5)));
    assert_eq!(traffic_slot(&state, 200, false), None);
    let plan = delivery_plan(Some((2, 5)), true);
    assert_eq!(plan.stealing, Some((2, 5)));
    assert!(!plan.acknowledged);
    assert!(delivery_plan(None, true).acknowledged);
    let pending = vec![
        PendingSds { source_issi: 1, dest_ssi: 200, user_defined_data: t4(vec![0x82, 0x04, 3, 1, b'a']), queued_at_ms: 0 },
        PendingSds { source_issi: 1, dest_ssi: 200, user_defined_data: t4(vec![b'b']), queued_at_ms: 0 },
        PendingSds { source_issi: 2, dest_ssi: 200, user_defined_data: t4(vec![b'c']), queued_at_ms: 5000 },
        PendingSds { source_issi: 3, dest_ssi: 300, user_defined_data: t4(vec![b'd']), queued_at_ms: 5000 },
    ];
    let (steps, keep) = flush_pending_sds(pending, &state, now, 12000);
    assert_eq!(steps.len(), 2);
    assert!(matches!(steps[0], FlushStep::Fail { from: 200, to: 1, mr: 3 }));
    assert!(matches!(&steps[1], FlushStep::Deliver(p) if p.dest_ssi == 300));
    assert_eq!(keep.len(), 1);
    assert_eq!(keep[0].source_issi, 2);
}

#[test]
fn status_commands_and_weather() {
    let ctrl = Some(SdsCommandControl {
        authorized_issis: vec![10, 11],
        commands: vec![
            SdsCommandEntry { status_code: 5, action: parse_command_action("kick_all") },
            SdsCommandEntry { status_code: 5, action: SdsCommandAction::Restart },
            SdsCommandEntry { status_code: 6, action: parse_command_action("info") },
        ],
    });
    assert_eq!(command_for_status(&ctrl, 10, 5), Some(SdsCommandAction::KickAll));
    assert_eq!(command_for_status(&ctrl, 11, 6), Some(SdsCommandAction::ReplyInfo));
    assert_eq!(command_for_status(&ctrl, 12, 5), None);
    assert_eq!(command_for_status(&ctrl, 10, 7), None);
    assert_eq!(command_for_status(&None, 10, 5), None);
    assert_eq!(parse_command_action("reboot"), SdsCommandAction::Unknown);
    assert_eq!(parse_command_action("shutdown"), SdsCommandAction::Shutdown);
    let _kick = SdsPendingAction::KickAll;
    assert_eq!(wx_reply(""), b"(no data)".to_vec());
    assert_eq!(wx_reply(&"x".repeat(300)).len(), 220);
    assert_eq!(wx_reply("EGLL 12KT"), b"EGLL 12KT".to_vec());
    assert!(periodic_wx_due(true, 91, " EGLL ", None, 0, 1000));
    assert!(!periodic_wx_due(true, 91, "  ", None, 0, 1000));
    assert!(!periodic_wx_due(true, 0, "EGLL", None, 0, 1000));
    assert!(!periodic_wx_due(true, 91, "EGLL", Some(500), 1499, 1000));
    assert!(periodic_wx_due(true, 91, "EGLL", Some(500), 1500, 1000));
}

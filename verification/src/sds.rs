//! Short data service of the base station: SDS-TL framing and reports, the text of an SDS,
//! where an uplink SDS or status goes, when a downlink SDS must wait for its destination,
//! and the status commands of authorised stations.
use vstd::prelude::*;
use vstd::string::StringSliceAdditionalSpecFns;

use crate::cc::timers::window_open;
use crate::registry::{groups_in, StackState};
use crate::tdma::TdmaTime;
use crate::text::ascii_to_string;
use crate::text_ops::{trim, trim_bytes};

verus! {

/// An SDS user-data field: a 16-, 32- or 64-bit pre-defined value (types 1 to 3), or
/// user-defined bits (type 4).
#[derive(Debug, Clone)]
pub enum SdsUserData {
    Type1(u16),
    Type2(u32),
    Type3(u64),
    Type4(u16, Vec<u8>),
}

/// The bytes of a user-data field: the value big-endian, or the type-4 bytes.
pub open spec fn user_bytes(d: SdsUserData) -> Seq<u8> {
    match d {
        SdsUserData::Type1(v) => seq![(v >> 8u16) as u8, (v & 255u16) as u8],
        SdsUserData::Type2(v) => seq![
            (v >> 24u32) as u8,
            ((v >> 16u32) & 255u32) as u8,
            ((v >> 8u32) & 255u32) as u8,
            (v & 255u32) as u8,
        ],
        SdsUserData::Type3(v) => Seq::new(8, |i: int| ((v >> ((56 - 8 * i) as u64)) & 255u64) as u8),
        SdsUserData::Type4(_, data) => data@,
    }
}

impl SdsUserData {
    pub fn to_arr(&self) -> (r: Vec<u8>)
        ensures
            r@ == user_bytes(*self),
    {
        match self {
            SdsUserData::Type1(v) => {
                let mut out: Vec<u8> = Vec::new();
                out.push((*v >> 8u16) as u8);
                out.push((*v & 255u16) as u8);
                proof {
                    assert(out@ =~= user_bytes(*self));
                }
                out
            },
            SdsUserData::Type2(v) => {
                let mut out: Vec<u8> = Vec::new();
                out.push((*v >> 24u32) as u8);
                out.push(((*v >> 16u32) & 255u32) as u8);
                out.push(((*v >> 8u32) & 255u32) as u8);
                out.push((*v & 255u32) as u8);
                proof {
                    assert(out@ =~= user_bytes(*self));
                }
                out
            },
            SdsUserData::Type3(v) => {
                let mut out: Vec<u8> = Vec::new();
                let mut i: u64 = 0;
                while i < 8
                    invariant
                        0 <= i <= 8,
                        *self == SdsUserData::Type3(*v),
                        out@ == Seq::new(8, |k: int| ((*v >> ((56 - 8 * k) as u64)) & 255u64) as u8).take(i as int),
                    decreases 8 - i,
                {
                    out.push(((*v >> (56 - 8 * i)) & 255u64) as u8);
                    proof {
                        assert(out@ =~= Seq::new(8, |k: int| ((*v >> ((56 - 8 * k) as u64)) & 255u64) as u8).take(
                            i + 1,
                        ));
                    }
                    i = i + 1;
                }
                proof {
                    assert(out@ =~= user_bytes(*self));
                }
                out
            },
            SdsUserData::Type4(_, data) => data.clone(),
        }
    }
}

/// Protocol identifier of SDS-TL text messaging.
pub const PID_TEXT: u8 = 0x82;

/// Message type of an SDS-TL report.
pub const SDS_TL_REPORT: u8 = 0x10;

/// Delivery status of an SDS-TL report for a message that could not be delivered.
pub const SDS_TL_STATUS_UNDELIVERABLE: u8 = 0x02;

/// Whether user data is an SDS-TL report (a delivery confirmation, not a text): protocol
/// 0x82 or 0x89, message type 0x10, at least four bytes.
pub open spec fn sds_tl_report(b: Seq<u8>) -> bool {
    b.len() >= 4 && (b[0] == 0x82 || b[0] == 0x89) && b[1] == 0x10
}

/// The message reference (third byte) of an SDS-TL message that is not a report.
pub open spec fn sds_tl_reference(b: Seq<u8>) -> Option<u8> {
    if b.len() >= 4 && (b[0] == 0x82 || b[0] == 0x89) && b[1] != 0x10 {
        Some(b[2])
    } else {
        None
    }
}

pub fn is_sds_tl_report(data: &SdsUserData) -> (r: bool)
    ensures
        r == sds_tl_report(user_bytes(*data)),
{
    let b = data.to_arr();
    b.len() >= 4 && (b[0] == 0x82 || b[0] == 0x89) && b[1] == 0x10
}

pub fn sds_tl_message_reference(data: &SdsUserData) -> (r: Option<u8>)
    ensures
        r == sds_tl_reference(user_bytes(*data)),
{
    let b = data.to_arr();
    if b.len() >= 4 && (b[0] == 0x82 || b[0] == 0x89) && b[1] != 0x10 {
        Some(b[2])
    } else {
        None
    }
}

/// Printable ASCII or tab.
pub open spec fn printable(b: u8) -> bool {
    b == 9 || (0x20 <= b <= 0x7e)
}

/// The printable bytes of `s`, in order.
pub open spec fn printable_only(s: Seq<u8>) -> Seq<u8> {
    s.filter(|b: u8| printable(b))
}

/// The text part of SDS user data: after the 4-byte SDS-TL header of a text message
/// (protocol 0x82, 0x80 or 0x8A), after a bare text-coding byte (1 to 3), or all of it.
pub open spec fn text_payload(b: Seq<u8>) -> Seq<u8> {
    if b.len() > 4 && (b[0] == 0x82 || b[0] == 0x80 || b[0] == 0x8a) {
        b.skip(4)
    } else if b.len() > 1 && 1 <= b[0] <= 3 {
        b.skip(1)
    } else {
        b
    }
}

/// The text of SDS user data: its printable characters, trimmed.
pub open spec fn sds_text(b: Seq<u8>) -> Seq<u8> {
    trim(printable_only(text_payload(b)))
}

/// Keeps the printable bytes.
fn filter_printable(s: &[u8]) -> (r: Vec<u8>)
    ensures
        r@ == printable_only(s@),
        forall|i: int| 0 <= i < r@.len() ==> r@[i] < 128,
{
    let mut out: Vec<u8> = Vec::new();
    let mut i: usize = 0;
    while i < s.len()
        invariant
            0 <= i <= s@.len(),
            out@ == printable_only(s@.take(i as int)),
            forall|k: int| 0 <= k < out@.len() ==> out@[k] < 128,
        decreases s@.len() - i,
    {
        let b = s[i];
        if b == 9 || (b >= 0x20 && b <= 0x7e) {
            out.push(b);
        }
        proof {
            assert(s@.take(i + 1) =~= s@.take(i as int).push(b));
            s@.take(i as int).lemma_filter_push(b, |b: u8| printable(b));
        }
        i = i + 1;
    }
    proof {
        assert(s@.take(s@.len() as int) =~= s@);
    }
    out
}

/// The text of SDS user data as a string (see [`sds_text`]).
pub fn extract_sds_text(data: &SdsUserData) -> (r: String)
    ensures
        r@ == sds_text(user_bytes(*data)).map_values(|b: u8| b as char),
{
    let b = data.to_arr();
    let mut payload: Vec<u8> = Vec::new();
    let start: usize = if b.len() > 4 && (b[0] == 0x82 || b[0] == 0x80 || b[0] == 0x8a) {
        4
    } else if b.len() > 1 && 1 <= b[0] && b[0] <= 3 {
        1
    } else {
        0
    };
    let mut i: usize = start;
    while i < b.len()
        invariant
            start <= i <= b@.len(),
            start <= b@.len(),
            payload@ == b@.subrange(start as int, i as int),
        decreases b@.len() - i,
    {
        payload.push(b[i]);
        proof {
            assert(payload@ =~= b@.subrange(start as int, i + 1));
        }
        i = i + 1;
    }
    proof {
        assert(payload@ =~= text_payload(b@));
    }
    let kept = filter_printable(payload.as_slice());
    let t = trim_bytes(kept.as_slice());
    proof {
        assert forall|k: int| 0 <= k < t@.len() implies t@[k] < 128 by {
            lemma_trim_within(kept@, k);
        }
    }
    ascii_to_string(t)
}

/// Every byte of a trimmed string is a byte of the string.
proof fn lemma_trim_within(s: Seq<u8>, k: int)
    requires
        forall|i: int| 0 <= i < s.len() ==> s[i] < 128,
        0 <= k < trim(s).len(),
    ensures
        trim(s)[k] < 128,
{
    lemma_strip_sub(s, crate::text_ops::ws());
    let a = crate::text_ops::strip_start(s, crate::text_ops::ws());
    lemma_strip_end_sub(a, crate::text_ops::ws());
}

proof fn lemma_strip_sub(s: Seq<u8>, p: spec_fn(u8) -> bool)
    ensures
        forall|i: int|
            0 <= i < crate::text_ops::strip_start(s, p).len() ==> exists|j: int|
                0 <= j < s.len() && s[j] == #[trigger] crate::text_ops::strip_start(s, p)[i],
    decreases s.len(),
{
    if s.len() > 0 && p(s[0]) {
        let t = s.drop_first();
        lemma_strip_sub(t, p);
        assert forall|i: int| 0 <= i < crate::text_ops::strip_start(s, p).len() implies exists|j: int|
            0 <= j < s.len() && s[j] == #[trigger] crate::text_ops::strip_start(s, p)[i] by {
            let j = choose|j: int| 0 <= j < t.len() && t[j] == crate::text_ops::strip_start(t, p)[i];
            assert(s[j + 1] == t[j]);
        }
    } else {
        assert forall|i: int| 0 <= i < crate::text_ops::strip_start(s, p).len() implies exists|j: int|
            0 <= j < s.len() && s[j] == #[trigger] crate::text_ops::strip_start(s, p)[i] by {
            assert(s[i] == crate::text_ops::strip_start(s, p)[i]);
        }
    }
}

proof fn lemma_strip_end_sub(s: Seq<u8>, p: spec_fn(u8) -> bool)
    ensures
        forall|i: int|
            0 <= i < crate::text_ops::strip_end(s, p).len() ==> #[trigger] crate::text_ops::strip_end(s, p)[i] == s[i],
        crate::text_ops::strip_end(s, p).len() <= s.len(),
    decreases s.len(),
{
    if s.len() > 0 && p(s.last()) {
        lemma_strip_end_sub(s.drop_last(), p);
    }
}

/// The SDS-TL simple-text message carrying `text`: protocol 0x82, message type 0x04 (with
/// a delivery report requested), the message reference, encoding 0x01 (ISO 8859-1), text.
pub open spec fn text_message(mr: u8, text: Seq<u8>) -> Seq<u8> {
    seq![0x82u8, 0x04u8, mr, 0x01u8] + text
}

/// The length in bits of a message, as a 16-bit field.
pub open spec fn length_bits(n: nat) -> u16 {
    ((n * 8) % 65536) as u16
}

/// Frames a text as SDS-TL simple-text user data.
pub fn text_user_data(mr: u8, text: &[u8]) -> (r: SdsUserData)
    requires
        text@.len() + 4 <= usize::MAX / 8,
    ensures
        r matches SdsUserData::Type4(bits, data) && data@ == text_message(mr, text@) && bits == length_bits(
            data@.len(),
        ),
{
    let mut v: Vec<u8> = Vec::new();
    v.push(0x82u8);
    v.push(0x04u8);
    v.push(mr);
    v.push(0x01u8);
    crate::text::append(&mut v, text);
    proof {
        assert(v@ =~= text_message(mr, text@));
    }
    let n: usize = v.len() * 8;
    let bits: u16 = (n % 65536) as u16;
    SdsUserData::Type4(bits, v)
}

/// The message references of outgoing SDS-TL texts: 1 to 255 in turn. After 255 the
/// counter passes through 0, which is replaced by 1; so 1 is then given twice in a row.
pub struct MessageReferences {
    pub next: u8,
}

impl MessageReferences {
    pub fn new() -> (r: Self)
        ensures
            r.next == 1,
    {
        MessageReferences { next: 1 }
    }

    pub fn take(&mut self) -> (mr: u8)
        ensures
            old(self).next == 0 ==> mr == 1 && final(self).next == 1,
            old(self).next != 0 ==> mr == old(self).next && final(self).next == (if old(self).next == 255 {
                0
            } else {
                (old(self).next + 1) as u8
            }),
    {
        let v = self.next;
        self.next = self.next.wrapping_add(1);
        if v == 0 {
            self.next = 1;
            1
        } else {
            v
        }
    }
}

/// Frames a text from the control interface (the dashboard or the weather service) as an
/// SDS-TL simple-text message with the next message reference.
pub fn frame_control_sds(mrs: &mut MessageReferences, payload: &[u8]) -> (r: SdsUserData)
    requires
        payload@.len() + 4 <= usize::MAX / 8,
    ensures
        r matches SdsUserData::Type4(bits, data) && data@ == text_message(
            (if old(mrs).next == 0 {
                1
            } else {
                old(mrs).next
            }),
            payload@,
        ) && bits == length_bits(data@.len()),
        final(mrs).next == (if old(mrs).next == 0 || old(mrs).next == 255 {
            if old(mrs).next == 0 {
                1u8
            } else {
                0u8
            }
        } else {
            (old(mrs).next + 1) as u8
        }),
{
    let mr = mrs.take();
    text_user_data(mr, payload)
}

/// Whether the periodic weather broadcast is due: it is enabled, with a destination and a
/// station, and never sent or last sent at least `interval_ms` ago.
pub open spec fn periodic_wx_due_spec(
    enabled: bool,
    dest: u32,
    icao: Seq<u8>,
    last_ms: Option<u64>,
    now_ms: u64,
    interval_ms: u64,
) -> bool {
    enabled && dest != 0 && trim(icao).len() > 0 && match last_ms {
        None => true,
        Some(t) => waited_ms(now_ms, t) >= interval_ms,
    }
}

pub fn periodic_wx_due(
    enabled: bool,
    dest: u32,
    icao: &str,
    last_ms: Option<u64>,
    now_ms: u64,
    interval_ms: u64,
) -> (r: bool)
    ensures
        r == periodic_wx_due_spec(enabled, dest, icao.spec_bytes(), last_ms, now_ms, interval_ms),
{
    if !enabled || dest == 0 {
        return false;
    }
    let t = trim_bytes(icao.as_bytes());
    if t.len() == 0 {
        return false;
    }
    match last_ms {
        None => true,
        Some(l) => now_ms.saturating_sub(l) >= interval_ms,
    }
}

/// The text reply to a status command: printable ASCII only.
pub fn text_reply(mrs: &mut MessageReferences, text: &[u8]) -> (r: SdsUserData)
    requires
        text@.len() + 4 <= usize::MAX / 8,
    ensures
        r matches SdsUserData::Type4(bits, data) && data@ == text_message(
            (if old(mrs).next == 0 {
                1
            } else {
                old(mrs).next
            }),
            printable_only(text@),
        ) && bits == length_bits(data@.len()),
        final(mrs).next == (if old(mrs).next == 0 || old(mrs).next == 255 {
            if old(mrs).next == 0 {
                1u8
            } else {
                0u8
            }
        } else {
            (old(mrs).next + 1) as u8
        }),
{
    let mr = mrs.take();
    let kept = filter_printable(text);
    proof {
        assert(printable_only(text@).len() <= text@.len()) by {
            text@.lemma_filter_len(|b: u8| printable(b));
        }
    }
    text_user_data(mr, kept.as_slice())
}

/// How the receiver of an SDS-TL message answered, as a short report carries it.
#[derive(Debug, Clone, Copy, PartialEq, Eq, Structural)]
pub enum ShortReportType {
    ProtOrEncodingNotSupported,
    DestMemFull,
    MessageReceived,
    MessageConsumed,
}

/// A pre-coded status: its raw 16-bit value, and the SDS-TL short report it carries, if
/// it is one (report type and message reference).
#[derive(Debug, Clone, Copy, PartialEq, Eq)]
pub struct PreCodedStatus {
    pub raw: u16,
    pub short_report: Option<(ShortReportType, u8)>,
}

/// The delivery status of a full SDS-TL report for a short report type.
pub open spec fn delivery_status(t: ShortReportType) -> u8 {
    match t {
        ShortReportType::MessageReceived => 0x00,
        ShortReportType::MessageConsumed => 0x00,
        ShortReportType::DestMemFull => 0x02,
        ShortReportType::ProtOrEncodingNotSupported => 0x01,
    }
}

/// What a status forwarded to Brew carries: a short report becomes a full SDS-TL report
/// (protocol 0x82, type 0x10, delivery status, message reference) so the far end sees a
/// delivery confirmation; any other status goes as its pre-coded value.
pub open spec fn status_for_brew_ok(s: PreCodedStatus, r: SdsUserData) -> bool {
    match s.short_report {
        Some((t, mr)) => r matches SdsUserData::Type4(bits, data) && bits == 32 && data@ == seq![
            0x82u8,
            0x10u8,
            delivery_status(t),
            mr,
        ],
        None => r matches SdsUserData::Type1(v) && v == s.raw,
    }
}

pub fn status_for_brew(s: &PreCodedStatus) -> (r: SdsUserData)
    ensures
        status_for_brew_ok(*s, r),
{
    match s.short_report {
        Some((t, mr)) => {
            let ds: u8 = match t {
                ShortReportType::MessageReceived => 0x00,
                ShortReportType::MessageConsumed => 0x00,
                ShortReportType::DestMemFull => 0x02,
                ShortReportType::ProtOrEncodingNotSupported => 0x01,
            };
            let mut v: Vec<u8> = Vec::new();
            v.push(0x82u8);
            v.push(0x10u8);
            v.push(ds);
            v.push(mr);
            proof {
                assert(v@ =~= seq![0x82u8, 0x10u8, delivery_status(t), mr]);
            }
            SdsUserData::Type4(32, v)
        },
        None => SdsUserData::Type1(s.raw),
    }
}

/// The SDS-TL report a station sends for a message: protocol 0x82, type 0x10, delivery
/// status, message reference.
pub open spec fn report_bytes(status: u8, mr: u8) -> Seq<u8> {
    seq![0x82u8, 0x10u8, status, mr]
}

pub fn sds_tl_report_data(status: u8, mr: u8) -> (r: SdsUserData)
    ensures
        r matches SdsUserData::Type4(bits, data) && bits == 32 && data@ == report_bytes(status, mr),
{
    let mut v: Vec<u8> = Vec::new();
    v.push(0x82u8);
    v.push(0x10u8);
    v.push(status);
    v.push(mr);
    proof {
        assert(v@ =~= report_bytes(status, mr));
    }
    SdsUserData::Type4(32, v)
}

/// Longest weather reply, in bytes.
pub const WX_REPLY_MAX: usize = 220;

/// The payload of a weather reply: the first `WX_REPLY_MAX` bytes of the text, or
/// `(no data)` when it is empty.
pub open spec fn wx_reply_payload(text: Seq<u8>) -> Seq<u8> {
    if text.len() == 0 {
        "(no data)".spec_bytes()
    } else if text.len() > WX_REPLY_MAX {
        text.take(WX_REPLY_MAX as int)
    } else {
        text
    }
}

pub fn wx_reply(text: &str) -> (r: Vec<u8>)
    ensures
        r@ == wx_reply_payload(text.spec_bytes()),
{
    let b = text.as_bytes();
    if b.len() == 0 {
        let mut v: Vec<u8> = Vec::new();
        crate::text::append(&mut v, "(no data)".as_bytes());
        return v;
    }
    let n: usize = if b.len() > WX_REPLY_MAX {
        WX_REPLY_MAX
    } else {
        b.len()
    };
    let mut v: Vec<u8> = Vec::new();
    let mut i: usize = 0;
    while i < n
        invariant
            0 <= i <= n <= b@.len(),
            v@ == b@.take(i as int),
        decreases n - i,
    {
        v.push(b[i]);
        proof {
            assert(v@ =~= b@.take(i + 1));
        }
        i = i + 1;
    }
    proof {
        if b@.len() <= WX_REPLY_MAX {
            assert(b@.take(b@.len() as int) =~= b@);
        }
    }
    v
}

/// Actions an SDS status command asks of the stack that the SDS entity cannot do itself,
/// drained by call control on its next tick.
#[derive(Debug, Clone, Copy, PartialEq, Eq, Structural)]
pub enum SdsPendingAction {
    KickAll,
}

/// ISSI of the dashboard; SDS addressed to it are absorbed.
pub const DASHBOARD_ISSI: u32 = 9999;

/// Where an SDS from a local station goes.
#[derive(Debug, Clone, Copy, PartialEq, Eq, Structural)]
pub enum RfRoute {
    /// A delivery report to the weather service, absorbed.
    WxReport,
    /// A request to the weather service; confirmed first with a report echoing the message
    /// reference, when it has one.
    WxRequest { confirm: Option<u8> },
    /// For the dashboard, absorbed.
    Dashboard,
    /// To a locally registered station.
    LocalIssi,
    /// To a group with local members.
    LocalGroup,
    /// Forwarded over Brew.
    Brew,
    Drop,
}

/// The route of an uplink SDS to `dest`, in order of precedence: the weather service when
/// it is on, the dashboard, a registered station, a group with local members, Brew when it
/// carries SDS; otherwise it is dropped.
pub open spec fn rf_route(
    state: StackState,
    dest: u32,
    data: Seq<u8>,
    wx_enabled: bool,
    wx_service_issi: u32,
    brew_sds: bool,
) -> RfRoute {
    if wx_enabled && dest == wx_service_issi {
        if sds_tl_report(data) {
            RfRoute::WxReport
        } else {
            RfRoute::WxRequest { confirm: sds_tl_reference(data) }
        }
    } else if dest == DASHBOARD_ISSI {
        RfRoute::Dashboard
    } else if state.subscribers@.contains_key(dest) {
        RfRoute::LocalIssi
    } else if state.subscribers.attached().contains(dest) {
        RfRoute::LocalGroup
    } else if brew_sds {
        RfRoute::Brew
    } else {
        RfRoute::Drop
    }
}

pub fn route_rf_deliver(
    state: &StackState,
    dest: u32,
    data: &SdsUserData,
    wx_enabled: bool,
    wx_service_issi: u32,
    brew_sds: bool,
) -> (r: RfRoute)
    ensures
        r == rf_route(*state, dest, user_bytes(*data), wx_enabled, wx_service_issi, brew_sds),
{
    if wx_enabled && dest == wx_service_issi {
        if is_sds_tl_report(data) {
            RfRoute::WxReport
        } else {
            RfRoute::WxRequest { confirm: sds_tl_message_reference(data) }
        }
    } else if dest == DASHBOARD_ISSI {
        RfRoute::Dashboard
    } else if state.subscribers.is_registered(dest) {
        RfRoute::LocalIssi
    } else if state.subscribers.has_group_members(dest) {
        RfRoute::LocalGroup
    } else if brew_sds {
        RfRoute::Brew
    } else {
        RfRoute::Drop
    }
}

/// Where a status from a local station goes.
#[derive(Debug, Clone, Copy, PartialEq, Eq, Structural)]
pub enum StatusRoute {
    /// A status command to the dashboard ISSI.
    Command,
    Local,
    Brew,
    Drop,
}

/// The route of an uplink status to `dest`: a command when sent to the dashboard ISSI, a
/// registered station, Brew when it is active; otherwise it is dropped.
pub open spec fn status_route(state: StackState, dest: u32, brew_active: bool) -> StatusRoute {
    if dest == DASHBOARD_ISSI {
        StatusRoute::Command
    } else if state.subscribers@.contains_key(dest) {
        StatusRoute::Local
    } else if brew_active {
        StatusRoute::Brew
    } else {
        StatusRoute::Drop
    }
}

pub fn route_status_deliver(state: &StackState, dest: u32, brew_active: bool) -> (r: StatusRoute)
    ensures
        r == status_route(*state, dest, brew_active),
{
    if dest == DASHBOARD_ISSI {
        StatusRoute::Command
    } else if state.subscribers.is_registered(dest) {
        StatusRoute::Local
    } else if brew_active {
        StatusRoute::Brew
    } else {
        StatusRoute::Drop
    }
}

/// Whether `dest` is on one of the base station's traffic timeslots: as a party of a call,
/// or as a member of a group with an active call.
pub open spec fn on_local_traffic(state: StackState, dest: u32) -> bool {
    state.active_call_ts@.contains_key(dest) || exists|g: u32|
        #[trigger] groups_in(state.subscribers@, dest).contains(g) && state.active_call_ts@.contains_key(g)
}

pub fn issi_on_local_traffic(state: &StackState, dest: u32) -> (r: bool)
    ensures
        r == on_local_traffic(*state, dest),
{
    if state.active_call_ts.contains_key(&dest) {
        return true;
    }
    let groups = state.subscribers.attached_groups_of(dest);
    let mut i: usize = 0;
    while i < groups.len()
        invariant
            0 <= i <= groups@.len(),
            groups@.to_set() == groups_in(state.subscribers@, dest),
            forall|j: int| 0 <= j < i ==> !state.active_call_ts@.contains_key(#[trigger] groups@[j]),
        decreases groups@.len() - i,
    {
        if state.active_call_ts.contains_key(&groups[i]) {
            proof {
                assert(groups@.to_set().contains(groups@[i as int]));
            }
            return true;
        }
        i = i + 1;
    }
    proof {
        assert forall|g: u32| #[trigger] groups_in(state.subscribers@, dest).contains(g) implies !state.active_call_ts@.contains_key(
            g,
        ) by {
            assert(groups@.to_set().contains(g));
            let j = choose|j: int| 0 <= j < groups@.len() && groups@[j] == g;
            assert(!state.active_call_ts@.contains_key(groups@[j]));
        }
    }
    false
}

/// Whether `dest` is a station in energy economy whose monitoring window is closed at `now`.
pub open spec fn ee_blocked(state: StackState, dest: u32, now: TdmaTime) -> bool {
    state.ee_monitoring_windows@.contains_key(dest) && !window_open(state.ee_monitoring_windows@[dest], now)
}

pub fn ee_window_blocks(state: &StackState, dest: u32, now: TdmaTime) -> (r: bool)
    requires
        now.wf(),
    ensures
        r == ee_blocked(*state, dest, now),
{
    match state.ee_monitoring_windows.get(&dest) {
        Some(w) => !now.in_ee_monitoring_window(w.0, w.1, w.2),
        None => false,
    }
}

/// An individual SDS is held while its destination cannot hear the MCCH: in a call, or
/// asleep outside its energy-economy window. Group SDS are never held.
pub open spec fn sds_held(state: StackState, dest: u32, individual: bool, now: TdmaTime) -> bool {
    individual && (on_local_traffic(state, dest) || ee_blocked(state, dest, now))
}

pub fn must_defer(state: &StackState, dest: u32, individual: bool, now: TdmaTime) -> (r: bool)
    requires
        now.wf(),
    ensures
        r == sds_held(*state, dest, individual, now),
{
    individual && (issi_on_local_traffic(state, dest) || ee_window_blocks(state, dest, now))
}

/// How a downlink SDS or status is sent.
#[derive(Debug, Clone, Copy, PartialEq, Eq)]
pub struct DeliveryPlan {
    /// Stealing on this traffic timeslot with this usage marker, for a destination in a
    /// call; otherwise the MCCH.
    pub stealing: Option<(u8, u8)>,
    /// Acknowledged basic link: only for an individual destination on the MCCH.
    pub acknowledged: bool,
}

/// The plan for a destination reached on `traffic` (if on a traffic channel): stealing
/// on a valid timeslot (1 to 4), which needs the unacknowledged link.
pub open spec fn plan_for(traffic: Option<(u8, u8)>, individual: bool) -> DeliveryPlan {
    match traffic {
        Some((ts, usage)) => if 1 <= ts <= 4 {
            DeliveryPlan { stealing: Some((ts, usage)), acknowledged: false }
        } else {
            DeliveryPlan { stealing: None, acknowledged: individual }
        },
        None => DeliveryPlan { stealing: None, acknowledged: individual },
    }
}

/// The traffic channel on which `dest` can be reached: its own call, or else (for an
/// individual destination) the call of one of its groups.
pub open spec fn traffic_ok(state: StackState, dest: u32, individual: bool, r: Option<(u8, u8)>) -> bool {
    if state.active_call_ts@.contains_key(dest) {
        r == Some(state.active_call_ts@[dest])
    } else if !individual {
        r is None
    } else {
        &&& r matches Some(x) ==> exists|g: u32|
            #[trigger] groups_in(state.subscribers@, dest).contains(g) && state.active_call_ts@.contains_key(g)
                && state.active_call_ts@[g] == x
        &&& r is None ==> !on_local_traffic(state, dest)
    }
}

pub fn traffic_slot(state: &StackState, dest: u32, individual: bool) -> (r: Option<(u8, u8)>)
    ensures
        traffic_ok(*state, dest, individual, r),
{
    match state.active_call_ts.get(&dest) {
        Some(x) => return Some(*x),
        None => {},
    }
    if !individual {
        return None;
    }
    let groups = state.subscribers.attached_groups_of(dest);
    let mut i: usize = 0;
    while i < groups.len()
        invariant
            0 <= i <= groups@.len(),
            individual,
            !state.active_call_ts@.contains_key(dest),
            groups@.to_set() == groups_in(state.subscribers@, dest),
            forall|j: int| 0 <= j < i ==> !state.active_call_ts@.contains_key(#[trigger] groups@[j]),
        decreases groups@.len() - i,
    {
        match state.active_call_ts.get(&groups[i]) {
            Some(x) => {
                proof {
                    let g = groups@[i as int];
                    assert(groups@.to_set().contains(g));
                    assert(groups_in(state.subscribers@, dest).contains(g));
                    assert(state.active_call_ts@.contains_key(g) && state.active_call_ts@[g] == *x);
                }
                return Some(*x);
            },
            None => {},
        }
        i = i + 1;
    }
    proof {
        assert forall|g: u32| #[trigger] groups_in(state.subscribers@, dest).contains(g) implies !state.active_call_ts@.contains_key(
            g,
        ) by {
            assert(groups@.to_set().contains(g));
            let j = choose|j: int| 0 <= j < groups@.len() && groups@[j] == g;
            assert(!state.active_call_ts@.contains_key(groups@[j]));
        }
    }
    None
}

pub fn delivery_plan(traffic: Option<(u8, u8)>, individual: bool) -> (r: DeliveryPlan)
    ensures
        r == plan_for(traffic, individual),
{
    match traffic {
        Some((ts, usage)) => if 1 <= ts && ts <= 4 {
            DeliveryPlan { stealing: Some((ts, usage)), acknowledged: false }
        } else {
            DeliveryPlan { stealing: None, acknowledged: individual }
        },
        None => DeliveryPlan { stealing: None, acknowledged: individual },
    }
}

/// How long a held SDS may wait for its destination before it is given up.
pub const SDS_DEFER_DEADLINE_MS: u64 = 10000;

/// An individual SDS held until its destination can hear it.
pub struct PendingSds {
    pub source_issi: u32,
    pub dest_ssi: u32,
    pub user_defined_data: SdsUserData,
    pub queued_at_ms: u64,
}

/// What the flush of held SDS does with one of them.
pub enum FlushStep {
    /// Deliver it on the MCCH now.
    Deliver(PendingSds),
    /// It is given up: a failure report for message reference `mr` goes from its
    /// destination to its sender.
    Fail { from: u32, to: u32, mr: u8 },
}

pub open spec fn waited_ms(now_ms: u64, since: u64) -> int {
    if now_ms >= since {
        now_ms - since
    } else {
        0
    }
}

/// The flush of held SDS `ps`, in order: one whose destination is now reachable is
/// delivered; one that waited longer than `SDS_DEFER_DEADLINE_MS` is given up, with a
/// failure report to its sender when it is an SDS-TL message with a reference; the others
/// keep waiting. Returns the steps and the SDS still held.
pub open spec fn flush_result(
    ps: Seq<PendingSds>,
    state: StackState,
    now: TdmaTime,
    now_ms: u64,
) -> (Seq<FlushStep>, Seq<PendingSds>)
    decreases ps.len(),
{
    if ps.len() == 0 {
        (Seq::empty(), Seq::empty())
    } else {
        let prev = flush_result(ps.drop_last(), state, now, now_ms);
        let p = ps.last();
        if !on_local_traffic(state, p.dest_ssi) && !ee_blocked(state, p.dest_ssi, now) {
            (prev.0.push(FlushStep::Deliver(p)), prev.1)
        } else if waited_ms(now_ms, p.queued_at_ms) > SDS_DEFER_DEADLINE_MS {
            (
                match sds_tl_reference(user_bytes(p.user_defined_data)) {
                    Some(mr) => prev.0.push(FlushStep::Fail { from: p.dest_ssi, to: p.source_issi, mr }),
                    None => prev.0,
                },
                prev.1,
            )
        } else {
            (prev.0, prev.1.push(p))
        }
    }
}

pub fn flush_pending_sds(pending: Vec<PendingSds>, state: &StackState, now: TdmaTime, now_ms: u64) -> (r: (
    Vec<FlushStep>,
    Vec<PendingSds>,
))
    requires
        now.wf(),
    ensures
        (r.0@, r.1@) == flush_result(pending@, *state, now, now_ms),
{
    let ghost all = pending@;
    assert(all.len() == pending.len());
    let mut rest = pending;
    let mut steps: Vec<FlushStep> = Vec::new();
    let mut keep: Vec<PendingSds> = Vec::new();
    let mut k: usize = 0;
    proof {
        assert(all.take(0) =~= Seq::<PendingSds>::empty());
        assert(all.skip(0) =~= all);
    }
    while rest.len() > 0
        invariant
            now.wf(),
            all.len() <= usize::MAX,
            k + rest@.len() == all.len(),
            rest@ == all.skip(k as int),
            (steps@, keep@) == flush_result(all.take(k as int), *state, now, now_ms),
        decreases rest@.len(),
    {
        let p = rest.remove(0);
        proof {
            assert(p == all[k as int]);
            assert(all.take(k + 1).drop_last() =~= all.take(k as int));
            assert(all.take(k + 1).last() == p);
            assert(rest@ =~= all.skip(k + 1));
        }
        let reachable = !issi_on_local_traffic(state, p.dest_ssi) && !ee_window_blocks(state, p.dest_ssi, now);
        if reachable {
            steps.push(FlushStep::Deliver(p));
        } else if now_ms.saturating_sub(p.queued_at_ms) > SDS_DEFER_DEADLINE_MS {
            match sds_tl_message_reference(&p.user_defined_data) {
                Some(mr) => {
                    steps.push(FlushStep::Fail { from: p.dest_ssi, to: p.source_issi, mr });
                },
                None => {},
            }
        } else {
            keep.push(p);
        }
        k = k + 1;
    }
    proof {
        assert(all.take(k as int) =~= all);
    }
    (steps, keep)
}

/// What a status command asks for.
#[derive(Debug, Clone, Copy, PartialEq, Eq, Structural)]
pub enum SdsCommandAction {
    Restart,
    Shutdown,
    KickAll,
    /// Reply with the host's IP address.
    ReplyIp,
    /// Reply with the host's temperature.
    ReplyTemp,
    /// Reply with the version, IP address and temperature.
    ReplyInfo,
    Unknown,
}

/// The action named in the configuration.
pub open spec fn action_named(name: Seq<u8>) -> SdsCommandAction {
    if name == "restart".spec_bytes() {
        SdsCommandAction::Restart
    } else if name == "shutdown".spec_bytes() {
        SdsCommandAction::Shutdown
    } else if name == "kick_all".spec_bytes() {
        SdsCommandAction::KickAll
    } else if name == "ip".spec_bytes() {
        SdsCommandAction::ReplyIp
    } else if name == "temp".spec_bytes() {
        SdsCommandAction::ReplyTemp
    } else if name == "info".spec_bytes() {
        SdsCommandAction::ReplyInfo
    } else {
        SdsCommandAction::Unknown
    }
}

fn bytes_equal(a: &[u8], b: &[u8]) -> (r: bool)
    ensures
        r == (a@ == b@),
{
    if a.len() != b.len() {
        return false;
    }
    let mut i: usize = 0;
    while i < a.len()
        invariant
            0 <= i <= a@.len(),
            a@.len() == b@.len(),
            forall|j: int| 0 <= j < i ==> a@[j] == b@[j],
        decreases a@.len() - i,
    {
        if a[i] != b[i] {
            return false;
        }
        i = i + 1;
    }
    proof {
        assert(a@ =~= b@);
    }
    true
}

pub fn parse_command_action(name: &str) -> (r: SdsCommandAction)
    ensures
        r == action_named(name.spec_bytes()),
{
    let n = name.as_bytes();
    if bytes_equal(n, "restart".as_bytes()) {
        SdsCommandAction::Restart
    } else if bytes_equal(n, "shutdown".as_bytes()) {
        SdsCommandAction::Shutdown
    } else if bytes_equal(n, "kick_all".as_bytes()) {
        SdsCommandAction::KickAll
    } else if bytes_equal(n, "ip".as_bytes()) {
        SdsCommandAction::ReplyIp
    } else if bytes_equal(n, "temp".as_bytes()) {
        SdsCommandAction::ReplyTemp
    } else if bytes_equal(n, "info".as_bytes()) {
        SdsCommandAction::ReplyInfo
    } else {
        SdsCommandAction::Unknown
    }
}

/// One configured status command.
#[derive(Debug, Clone, Copy, PartialEq, Eq, Structural)]
pub struct SdsCommandEntry {
    pub status_code: u16,
    pub action: SdsCommandAction,
}

/// The status commands: who may send them, and what each status code asks for.
pub struct SdsCommandControl {
    pub authorized_issis: Vec<u32>,
    pub commands: Vec<SdsCommandEntry>,
}

/// The action of a status sent to the dashboard ISSI: none unless commands are configured,
/// the sender is authorised and a command has the status code; then the first such.
pub open spec fn command_action(ctrl: Option<SdsCommandControl>, source: u32, code: u16) -> Option<SdsCommandAction> {
    match ctrl {
        None => None,
        Some(c) => if !c.authorized_issis@.contains(source) {
            None
        } else if exists|i: int| 0 <= i < c.commands@.len() && #[trigger] c.commands@[i].status_code == code {
            Some(
                c.commands@[choose|i: int|
                    0 <= i < c.commands@.len() && c.commands@[i].status_code == code && forall|j: int|
                        0 <= j < i ==> #[trigger] c.commands@[j].status_code != code].action,
            )
        } else {
            None
        },
    }
}

/// The first command with the status code is the one `command_action` picks.
proof fn lemma_first_command(c: SdsCommandControl, source: u32, code: u16, k: int)
    requires
        c.authorized_issis@.contains(source),
        0 <= k < c.commands@.len(),
        c.commands@[k].status_code == code,
        forall|j: int| 0 <= j < k ==> #[trigger] c.commands@[j].status_code != code,
    ensures
        command_action(Some(c), source, code) == Some(c.commands@[k].action),
{
    let w = choose|i: int|
        0 <= i < c.commands@.len() && c.commands@[i].status_code == code && forall|j: int|
            0 <= j < i ==> #[trigger] c.commands@[j].status_code != code;
    assert(0 <= k < c.commands@.len() && c.commands@[k].status_code == code);
    if w < k {
        assert(c.commands@[w].status_code != code);
    } else if w > k {
        assert(c.commands@[k].status_code != code);
    }
}

pub fn command_for_status(ctrl: &Option<SdsCommandControl>, source: u32, code: u16) -> (r: Option<SdsCommandAction>)
    ensures
        r == command_action(*ctrl, source, code),
{
    match ctrl {
        None => None,
        Some(c) => {
            let mut found = false;
            let mut i: usize = 0;
            while i < c.authorized_issis.len()
                invariant
                    0 <= i <= c.authorized_issis@.len(),
                    found == (exists|j: int| 0 <= j < i && c.authorized_issis@[j] == source),
                decreases c.authorized_issis@.len() - i,
            {
                if c.authorized_issis[i] == source {
                    found = true;
                }
                i = i + 1;
            }
            if !found {
                return None;
            }
            let mut k: usize = 0;
            while k < c.commands.len()
                invariant
                    0 <= k <= c.commands@.len(),
                    *ctrl == Some(*c),
                    c.authorized_issis@.contains(source),
                    forall|j: int| 0 <= j < k ==> #[trigger] c.commands@[j].status_code != code,
                decreases c.commands@.len() - k,
            {
                if c.commands[k].status_code == code {
                    proof {
                        lemma_first_command(*c, source, code, k as int);
                    }
                    return Some(c.commands[k].action);
                }
                k = k + 1;
            }
            None
        },
    }
}

/// A report is never taken for a message: it has no reference, so it is never confirmed or
/// answered (which would make the weather service and a station answer each other
/// forever).
pub proof fn lemma_report_has_no_reference(b: Seq<u8>)
    ensures
        sds_tl_report(b) ==> sds_tl_reference(b) is None,
{
}

/// The failure report sent for a given-up SDS is itself a report, so giving up on it in turn
/// sends nothing.
pub proof fn lemma_failure_report_is_final(status: u8, mr: u8)
    ensures
        sds_tl_report(report_bytes(status, mr)),
        sds_tl_reference(report_bytes(status, mr)) is None,
{
}

/// The message references handed out are never 0.
pub proof fn lemma_reference_nonzero(next: u8)
    ensures
        (if next == 0 {
            1u8
        } else {
            next
        }) != 0,
{
}


/// A short report forwarded to Brew becomes a 4-byte SDS-TL report (protocol 0x82, type
/// 0x10) with the report's message reference, whose delivery status is the success value 0
/// exactly when the message arrived (received or consumed); memory full gives 2 and an
/// unsupported protocol or encoding gives 1.
pub proof fn lemma_short_report_status(s: PreCodedStatus, r: SdsUserData, t: ShortReportType, mr: u8)
    requires
        s.short_report == Some((t, mr)),
        status_for_brew_ok(s, r),
    ensures
        r matches SdsUserData::Type4(bits, data) && {
            &&& bits == 32
            &&& data@.len() == 4
            &&& data@[0] == 0x82 && data@[1] == 0x10 && data@[3] == mr
            &&& (data@[2] == 0) <==> (t == ShortReportType::MessageReceived || t == ShortReportType::MessageConsumed)
            &&& t == ShortReportType::DestMemFull ==> data@[2] == 2
            &&& t == ShortReportType::ProtOrEncodingNotSupported ==> data@[2] == 1
        },
{
}

/// The SDS-TL header of a text message is four bytes and nothing more is skipped: the text
/// of a header (protocol 0x82, 0x80 or 0x8A) followed by a payload is the payload's
/// printable bytes, trimmed, the first payload byte included.
pub proof fn lemma_text_follows_header(h: Seq<u8>, t: Seq<u8>)
    requires
        h.len() == 4,
        h[0] == 0x82 || h[0] == 0x80 || h[0] == 0x8a,
        t.len() > 0,
    ensures
        sds_text(h + t) == trim(printable_only(t)),
        text_payload(h + t) == t,
{
    assert((h + t).skip(4) =~= t);
}

} // verus!

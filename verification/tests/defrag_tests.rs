use flowstation::bits::BitBuffer;
use flowstation::tdma::TdmaTime;
use flowstation::umac::bs_defrag::{BsDefrag, SsiType, TetraAddress};

#[test]
fn test_3_chunks() {
    let ssi = 1234;
    let mut buf1 = BitBuffer::from_bitstr("000");
    let t1 = TdmaTime::default().add_timeslots(2); // UL time 0
    let mut buf2 = BitBuffer::from_bitstr("111");
    let t2 = t1.add_timeslots(4);
    let mut buf3 = BitBuffer::from_bitstr("0011");
    let t3 = t2.add_timeslots(4);

    let mut defragger = BsDefrag::new();
    let addr = TetraAddress { ssi, ssi_type: SsiType::Issi };
    defragger.insert_first(&mut buf1, t1, addr, None);
    defragger.insert_next(&mut buf2, ssi, t2);
    let out = defragger.insert_last(&mut buf3, ssi, t3).unwrap();
    assert_eq!(out.buffer.to_bitstr(), "0001110011");
    assert_eq!(out.buffer.get_pos(), 0);
}

#[test]
fn defrag_next_without_first_is_ignored() {
    let mut d = BsDefrag::new();
    let mut b = BitBuffer::from_bitstr("101");
    let t = TdmaTime::default();
    d.insert_next(&mut b, 77, t);
    assert_eq!(b.get_pos(), 0);
    assert!(d.insert_last(&mut b, 77, t).is_none());
}

#[test]
fn defrag_ageing_drops_stale_buffer() {
    let mut d = BsDefrag::new();
    let t = TdmaTime::default();
    let mut b = BitBuffer::from_bitstr("11");
    d.insert_first(&mut b, t, TetraAddress { ssi: 5, ssi_type: SsiType::Issi }, Some(9));
    assert_eq!(d.get_aie_info(5, t), Some(9));
    // 40 timeslots later the buffer is still kept, 44 later it is dropped.
    d.age_buffers(t.add_timeslots(40));
    assert_eq!(d.get_aie_info(5, t), Some(9));
    d.age_buffers(t.add_timeslots(44));
    assert_eq!(d.get_aie_info(5, t), None);
    // The dropped buffer collects nothing more: its last fragment completes no PDU, and the
    // stale entry is removed.
    let mut more = BitBuffer::from_bitstr("0");
    assert!(d.insert_last(&mut more, 5, t).is_none());
    let mut again = BitBuffer::from_bitstr("0");
    assert!(d.insert_last(&mut again, 5, t).is_none());
}

#[test]
fn defrag_overflow_resets_buffer() {
    let mut d = BsDefrag::new();
    let t = TdmaTime::default();
    let mut first = BitBuffer::from_bits(vec![true; 4000]);
    d.insert_first(&mut first, t, TetraAddress { ssi: 8, ssi_type: SsiType::Issi }, None);
    let mut big = BitBuffer::from_bits(vec![false; 100]);
    d.insert_next(&mut big, 8, t);
    // The fragment would exceed 4096 bits: it is not read and the PDU is dropped.
    assert_eq!(big.get_pos(), 0);
    assert_eq!(d.get_aie_info(8, t), None);
    // A last fragment after the overflow completes nothing.
    let mut last = BitBuffer::from_bitstr("1");
    assert!(d.insert_last(&mut last, 8, t).is_none());
}

#[test]
fn defrag_reset_clears_everything() {
    let mut d = BsDefrag::new();
    let t = TdmaTime::default().add_timeslots(3);
    let mut b = BitBuffer::from_bitstr("1");
    d.insert_first(&mut b, t, TetraAddress { ssi: 1, ssi_type: SsiType::Issi }, Some(1));
    d.reset();
    assert_eq!(d.get_aie_info(1, t), None);
}

#[test]
fn tdma_add_and_diff() {
    let t = TdmaTime::default();
    let u = t.add_timeslots(4 * 18 + 5);
    assert_eq!(u, TdmaTime { h: 0, m: 2, f: 1, t: 2 }.add_timeslots(4));
    assert_eq!(u.diff(t), 77);
    assert_eq!(t.age(u), 77);
    let wrap = TdmaTime { h: 65535, m: 60, f: 18, t: 4 }.add_timeslots(1);
    assert_eq!(wrap, TdmaTime { h: 0, m: 1, f: 1, t: 1 });
    // Window (frame 1, multiframe 30 of 60) is open only in multiframe index 30.
    assert!(TdmaTime { h: 0, m: 31, f: 1, t: 3 }.in_ee_monitoring_window(1, 30, 60));
    assert!(!TdmaTime { h: 0, m: 30, f: 1, t: 3 }.in_ee_monitoring_window(1, 30, 60));
    assert!(!TdmaTime { h: 0, m: 31, f: 2, t: 3 }.in_ee_monitoring_window(1, 30, 60));
}

#[test]
fn bitbuffer_copy_and_string() {
    let mut src = BitBuffer::from_bitstr("1100");
    let mut dst = BitBuffer::new();
    dst.copy_bits(&mut src, 3);
    assert_eq!(dst.to_bitstr(), "110");
    assert_eq!(src.get_len_remaining(), 1);
}

use scion_router_proto::dataplane::{
    advance_curr_hf, forward_packet, plan_forward, DropReason, Metrics, PacketOutcome,
};
use scion_router_proto::iface::SockAddr;
use scion_router_proto::scion::{parse_scion_dst_ia, parse_scion_fwd_meta, ScionError};

fn packet(segs: [u8; 3], curr: u8, hops: usize) -> Vec<u8> {
    let num_inf = if segs[2] > 0 { 3 } else if segs[1] > 0 { 2 } else { 1 };
    let hdr_len = 36 + 4 + 8 * num_inf + 12 * hops;
    let mut p = vec![0u8; hdr_len + 8];
    p[5] = (hdr_len / 4) as u8;
    p[8] = 1;
    p[13] = 1;
    p[14..20].copy_from_slice(&[0xff, 0x00, 0x00, 0x00, 0x01, 0x10]);
    let pm: u32 = ((curr as u32) << 24) | ((segs[0] as u32) << 12) | ((segs[1] as u32) << 6) | (segs[2] as u32);
    p[36..40].copy_from_slice(&pm.to_be_bytes());
    let hf0 = 40 + 8 * num_inf;
    for h in 0..hops {
        let egress = 100 + h as u16;
        p[hf0 + 12 * h + 4..hf0 + 12 * h + 6].copy_from_slice(&egress.to_be_bytes());
    }
    p
}

fn addr() -> SockAddr {
    SockAddr::V4 { ip: [127, 0, 0, 1], port: 5000 }
}

#[test]
fn plan_accepts_packet_with_hops_left() {
    let p = packet([3, 0, 0], 1, 3);
    let plan = plan_forward(&p).unwrap();
    assert_eq!(plan.dst.to_string_key(), "1-ff00:0:110");
    assert_eq!(plan.fwd.curr_hf, 1);
    assert_eq!(plan.fwd.total_hf, 3);
    assert_eq!(plan.fwd.egress_ifid, 101);
}

#[test]
fn plan_drop_reasons() {
    assert_eq!(
        plan_forward(&[0u8; 10]).unwrap_err(),
        DropReason::NotScion(ScionError::TooShortForDstIa)
    );
    let mut p = packet([3, 0, 0], 1, 3);
    p[8] = 0;
    assert_eq!(
        plan_forward(&p).unwrap_err(),
        DropReason::FwdMeta(ScionError::UnsupportedPathType(0))
    );
    let p = packet([3, 0, 0], 2, 3);
    assert_eq!(plan_forward(&p).unwrap_err(), DropReason::EndOfPath);
}

#[test]
fn forward_advances_curr_hf_and_keeps_inf_bits() {
    let mut p = packet([2, 2, 0], 1, 4);
    p[36] |= 0b0100_0000; // CurrINF = 1
    let before = p.clone();
    let plan = plan_forward(&p).unwrap();
    let to = forward_packet(&mut p, &plan, Some(addr()), true).unwrap();
    assert_eq!(to, addr());
    assert_eq!(p[36], 0b0100_0010);
    for i in 0..p.len() {
        if i != 36 {
            assert_eq!(p[i], before[i]);
        }
    }
    // the destination stays, the path reads back one hop further
    let d0 = parse_scion_dst_ia(&before).unwrap();
    let d1 = parse_scion_dst_ia(&p).unwrap();
    assert_eq!(d0.isd, d1.isd);
    assert_eq!(d0.asn, d1.asn);
    let m = parse_scion_fwd_meta(&p).unwrap();
    assert_eq!(m.curr_hf, 2);
    assert_eq!(m.total_hf, 4);
    assert_eq!(m.egress_ifid, 102);
}

#[test]
fn forward_without_iface_drops_unchanged() {
    let mut p = packet([3, 0, 0], 0, 3);
    let before = p.clone();
    let plan = plan_forward(&p).unwrap();
    assert_eq!(forward_packet(&mut p, &plan, None, true).unwrap_err(), DropReason::NoIface);
    assert_eq!(forward_packet(&mut p, &plan, Some(addr()), false).unwrap_err(), DropReason::NoIface);
    assert_eq!(p, before);
}

#[test]
fn curr_hf_63_is_end_of_path() {
    // 65 hop fields, all inside the header, and CurrHF at 63: the packet is
    // planned; without an interface it is dropped for that, and with one it
    // is dropped at the end of its path, since the 6-bit CurrHF cannot point
    // at hop field 64.
    let mut p = packet([63, 2, 0], 63, 65);
    let before = p.clone();
    let m = parse_scion_fwd_meta(&p).unwrap();
    assert_eq!(m.curr_hf, 63);
    assert_eq!(m.total_hf, 65);
    let plan = plan_forward(&p).unwrap();
    assert_eq!(forward_packet(&mut p, &plan, None, true).unwrap_err(), DropReason::NoIface);
    assert_eq!(forward_packet(&mut p, &plan, Some(addr()), false).unwrap_err(), DropReason::NoIface);
    assert_eq!(forward_packet(&mut p, &plan, Some(addr()), true).unwrap_err(), DropReason::EndOfPath);
    assert_eq!(p, before);
    // CurrHF 62 still moves on, to 63.
    let mut p = packet([63, 2, 0], 62, 65);
    let plan = plan_forward(&p).unwrap();
    forward_packet(&mut p, &plan, Some(addr()), true).unwrap();
    assert_eq!(p[36] & 0x3f, 63);
    assert_eq!(parse_scion_fwd_meta(&p).unwrap().curr_hf, 63);
}

#[test]
fn advance_sets_next_curr_hf() {
    let mut p = packet([3, 0, 0], 1, 3);
    let meta = parse_scion_fwd_meta(&p).unwrap();
    p[36] |= 0b1100_0000;
    advance_curr_hf(&mut p, &meta);
    assert_eq!(p[36], 0b1100_0010);
}

#[test]
fn metrics_count_each_packet_once() {
    let mut m = Metrics::new();
    let outcomes = [
        PacketOutcome::Dropped(DropReason::NotScion(ScionError::TooShortForDstIa)),
        PacketOutcome::Dropped(DropReason::FwdMeta(ScionError::EmptyPath)),
        PacketOutcome::Dropped(DropReason::EndOfPath),
        PacketOutcome::Dropped(DropReason::NoIface),
        PacketOutcome::Forwarded,
        PacketOutcome::Forwarded,
        PacketOutcome::SendFailed,
    ];
    for o in outcomes.iter() {
        m.count_received();
        m.count_outcome(o);
    }
    assert_eq!(m.rx_packets, 7);
    assert_eq!(m.drop_not_scion, 1);
    assert_eq!(m.drop_fwd_meta, 1);
    assert_eq!(m.drop_end_of_path, 1);
    assert_eq!(m.drop_no_iface, 1);
    assert_eq!(m.forwarded, 2);
    assert_eq!(m.send_errors, 1);
}

#[test]
fn metrics_wrap_around() {
    let mut m = Metrics::new();
    m.rx_packets = u64::MAX;
    m.forwarded = u64::MAX;
    m.count_received();
    m.count_outcome(&PacketOutcome::Forwarded);
    assert_eq!(m.rx_packets, 0);
    assert_eq!(m.forwarded, 0);
}

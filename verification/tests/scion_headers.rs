use scion_router_proto::scion::{parse_scion_dst_ia, parse_scion_fwd_meta, Ia, ScionError, ScionFwdMeta};

/// A SCION packet with DL = SL = 0 (4-byte hosts), so PathMeta lies at 36;
/// `segs` are the three segment lengths, `curr` is CurrHF and `hops` the
/// number of hop fields the header has room for.
fn packet(segs: [u8; 3], curr: u8, hops: usize) -> Vec<u8> {
    let num_inf = if segs[2] > 0 { 3 } else if segs[1] > 0 { 2 } else { 1 };
    let hdr_len = 36 + 4 + 8 * num_inf + 12 * hops;
    let mut p = vec![0u8; hdr_len + 8];
    p[5] = (hdr_len / 4) as u8;
    p[8] = 1;
    // destination ISD-AS 1-ff00:0:110
    p[12] = 0;
    p[13] = 1;
    p[14..20].copy_from_slice(&[0xff, 0x00, 0x00, 0x00, 0x01, 0x10]);
    let pm: u32 = ((curr as u32) << 24) | ((segs[0] as u32) << 12) | ((segs[1] as u32) << 6) | (segs[2] as u32);
    p[36..40].copy_from_slice(&pm.to_be_bytes());
    let hf0 = 40 + 8 * num_inf;
    for h in 0..hops {
        let egress = 100 + h as u16;
        p[hf0 + 12 * h + 4..hf0 + 12 * h + 6].copy_from_slice(&egress.to_be_bytes());
    }
    p
}

#[test]
fn dst_ia_of_packet() {
    let p = packet([2, 0, 0], 0, 2);
    let ia = parse_scion_dst_ia(&p).unwrap();
    assert_eq!(ia.isd, 1);
    assert_eq!(ia.asn, [0xff, 0x00, 0x00, 0x00, 0x01, 0x10]);
    assert_eq!(ia.to_string_key(), "1-ff00:0:110");
}

#[test]
fn dst_ia_too_short() {
    let p = vec![0u8; 19];
    assert_eq!(parse_scion_dst_ia(&p).unwrap_err(), ScionError::TooShortForDstIa);
    assert_eq!(parse_scion_dst_ia(&p).unwrap_err().message(), "packet too short for SCION common+dstIA");
}

#[test]
fn dst_ia_bad_version() {
    let mut p = vec![0u8; 20];
    p[0] = 0x3a;
    assert_eq!(parse_scion_dst_ia(&p).unwrap_err(), ScionError::UnsupportedVersion(3));
    assert_eq!(parse_scion_dst_ia(&p).unwrap_err().message(), "unsupported SCION version 3");
}

#[test]
fn key_formats_isd_decimal_and_as_hex() {
    let ia = Ia { isd: 65535, asn: [0x00, 0x0a, 0xbc, 0xde, 0x12, 0x34] };
    assert_eq!(ia.to_string_key(), "65535-a:bcde:1234");
    let ia = Ia { isd: 0, asn: [0; 6] };
    assert_eq!(ia.to_string_key(), "0-0:0:0");
    let ia = Ia { isd: 1234, asn: [0xff, 0xff, 0x10, 0x00, 0x00, 0x0f] };
    assert_eq!(ia.to_string_key(), "1234-ffff:1000:f");
}

#[test]
fn distinct_ia_distinct_keys() {
    let a = Ia { isd: 1, asn: [0, 0x11, 0, 0x01, 0, 0] };
    let b = Ia { isd: 11, asn: [0, 0x01, 0, 0x01, 0, 0] };
    assert_ne!(a.to_string_key(), b.to_string_key());
}

#[test]
fn fwd_meta_of_packet() {
    let p = packet([2, 0, 0], 0, 2);
    assert_eq!(
        parse_scion_fwd_meta(&p).unwrap(),
        ScionFwdMeta { curr_hf: 0, total_hf: 2, curr_hf_byte_off: 36, egress_ifid: 100 }
    );
    let p = packet([2, 3, 1], 4, 6);
    assert_eq!(
        parse_scion_fwd_meta(&p).unwrap(),
        ScionFwdMeta { curr_hf: 4, total_hf: 6, curr_hf_byte_off: 36, egress_ifid: 104 }
    );
}

#[test]
fn fwd_meta_host_lengths_move_path() {
    let mut p = packet([2, 0, 0], 1, 2);
    // DL = 3, SL = 1: hosts of 16 and 8 bytes, PathMeta at 12 + 16 + 24 = 52
    let mut q = vec![0u8; p.len() + 16];
    q[..36].copy_from_slice(&p[..36]);
    q[52..52 + p.len() - 36].copy_from_slice(&p[36..]);
    q[9] = 0x31;
    q[5] = p[5] + 4;
    p = q;
    assert_eq!(
        parse_scion_fwd_meta(&p).unwrap(),
        ScionFwdMeta { curr_hf: 1, total_hf: 2, curr_hf_byte_off: 52, egress_ifid: 101 }
    );
}

#[test]
fn fwd_meta_errors() {
    assert_eq!(parse_scion_fwd_meta(&[0u8; 11]).unwrap_err(), ScionError::TooShortForCommonHeader);

    let mut p = packet([2, 0, 0], 0, 2);
    p[0] = 0x10;
    assert_eq!(parse_scion_fwd_meta(&p).unwrap_err(), ScionError::UnsupportedVersion(1));

    let mut p = packet([2, 0, 0], 0, 2);
    p[5] = 2;
    assert_eq!(parse_scion_fwd_meta(&p).unwrap_err(), ScionError::InvalidHdrLen(8));
    assert_eq!(parse_scion_fwd_meta(&p).unwrap_err().message(), "invalid SCION hdrlen 8");

    let p = packet([2, 0, 0], 0, 2);
    let hdr_len = p[5] as usize * 4;
    assert_eq!(parse_scion_fwd_meta(&p[..hdr_len - 1]).unwrap_err(), ScionError::ShorterThanHeader);

    let mut p = packet([2, 0, 0], 0, 2);
    p[8] = 3;
    assert_eq!(parse_scion_fwd_meta(&p).unwrap_err(), ScionError::UnsupportedPathType(3));
    assert_eq!(
        parse_scion_fwd_meta(&p).unwrap_err().message(),
        "unsupported PathType 3 (expected SCION=1)"
    );

    let mut p = packet([2, 0, 0], 0, 2);
    p[5] = 9; // 36 bytes: no room for PathMeta
    assert_eq!(parse_scion_fwd_meta(&p).unwrap_err(), ScionError::HeaderTooShortForPathMeta);

    let p = packet([0, 0, 0], 0, 1);
    assert_eq!(parse_scion_fwd_meta(&p).unwrap_err(), ScionError::EmptyPath);
    assert_eq!(parse_scion_fwd_meta(&p).unwrap_err().message(), "empty SCION path");

    let p = packet([2, 0, 0], 2, 3);
    assert_eq!(parse_scion_fwd_meta(&p).unwrap_err(), ScionError::CurrHfOutOfRange);

    let p = packet([3, 0, 0], 2, 2);
    assert_eq!(parse_scion_fwd_meta(&p).unwrap_err(), ScionError::HopFieldOutOfBounds);
    assert_eq!(
        parse_scion_fwd_meta(&p).unwrap_err().message(),
        "hop field out of SCION header bounds"
    );
}

#[test]
fn error_messages() {
    assert_eq!(ScionError::TooShortForCommonHeader.message(), "packet too short for SCION common header");
    assert_eq!(ScionError::ShorterThanHeader.message(), "packet shorter than SCION header length");
    assert_eq!(ScionError::HeaderTooShortForPathMeta.message(), "SCION header too short for PathMeta");
    assert_eq!(ScionError::CurrHfOutOfRange.message(), "CurrHF out of range");
    assert_eq!(ScionError::InvalidHdrLen(1020).message(), "invalid SCION hdrlen 1020");
    assert_eq!(ScionError::UnsupportedVersion(15).message(), "unsupported SCION version 15");
}

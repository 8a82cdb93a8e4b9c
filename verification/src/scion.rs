//! The part of a SCION packet header that the router reads: the common
//! header, the destination ISD-AS of the address header, and the PathMeta
//! and current hop field of a path of type SCION.
use vstd::prelude::*;
use vstd::string::*;

use crate::text::{
    all_digits, dec_text, hex_text, lemma_radix_text_injective, lemma_radix_value_of_text,
    lemma_separator_not_digit, lemma_split_at_separator, push_dec, push_hex,
};

verus! {

/// Offset of the address header (just after the 12-byte common header).
pub const COMMON_HDR_LEN: usize = 12;

/// An ISD-AS: the isolation domain and the 48-bit AS number, kept as its
/// six big-endian bytes.
#[derive(Debug, Clone, Copy)]
pub struct Ia {
    pub isd: u16,
    pub asn: [u8; 6],
}

/// Where the router stands on the path of a packet.
#[derive(Debug, Clone, Copy, PartialEq, Eq)]
pub struct ScionFwdMeta {
    /// Index of the current hop field (`CurrHF` of PathMeta).
    pub curr_hf: u8,
    /// Number of hop fields over the three segments.
    pub total_hf: u8,
    /// Byte offset of PathMeta, whose first byte holds `CurrHF`.
    pub curr_hf_byte_off: usize,
    /// `ConsEgress` of the current hop field.
    pub egress_ifid: u16,
}

/// Why a packet header was refused.
#[derive(Debug, Clone, Copy, PartialEq, Eq)]
pub enum ScionError {
    TooShortForDstIa,
    TooShortForCommonHeader,
    UnsupportedVersion(u8),
    InvalidHdrLen(usize),
    ShorterThanHeader,
    UnsupportedPathType(u8),
    HeaderTooShortForPathMeta,
    EmptyPath,
    CurrHfOutOfRange,
    HopFieldOutOfBounds,
}

// ---------------------------------------------------------------------------
// The header layout, over the packet's bytes.

/// A big-endian 16-bit number.
pub open spec fn be16(hi: u8, lo: u8) -> int {
    hi as int * 256 + lo as int
}

/// A big-endian 32-bit number.
pub open spec fn be32(b0: u8, b1: u8, b2: u8, b3: u8) -> int {
    b0 as int * 0x100_0000 + b1 as int * 0x1_0000 + b2 as int * 0x100 + b3 as int
}

/// The version, the high nibble of the first byte.
pub open spec fn hdr_version(pkt: Seq<u8>) -> int {
    pkt[0] as int / 16
}

/// The header length in bytes: `HdrLen` (byte 5) counts 4-byte units.
pub open spec fn hdr_len_bytes(pkt: Seq<u8>) -> int {
    pkt[5] as int * 4
}

/// `PathType`, byte 8.
pub open spec fn path_type(pkt: Seq<u8>) -> int {
    pkt[8] as int
}

/// Length of the destination host address: `DL` (bits 4..5 of byte 9) counts
/// 4-byte units beyond the first.
pub open spec fn dst_host_len(pkt: Seq<u8>) -> int {
    4 * ((pkt[9] as int / 16) % 4 + 1)
}

/// Length of the source host address: `SL` (bits 0..1 of byte 9).
pub open spec fn src_host_len(pkt: Seq<u8>) -> int {
    4 * (pkt[9] as int % 4 + 1)
}

/// Offset of the path header: common header, then the two ISD-AS (16 bytes)
/// and the two host addresses.
pub open spec fn path_off(pkt: Seq<u8>) -> int {
    12 + 16 + dst_host_len(pkt) + src_host_len(pkt)
}

/// The 32-bit PathMeta word.
pub open spec fn path_meta(pkt: Seq<u8>) -> int {
    let o = path_off(pkt);
    be32(pkt[o], pkt[o + 1], pkt[o + 2], pkt[o + 3])
}

/// `CurrHF`: bits 24..29 of PathMeta.
pub open spec fn meta_curr_hf(pkt: Seq<u8>) -> int {
    (path_meta(pkt) / 0x100_0000) % 64
}

/// `Seg0Len`: bits 12..17 of PathMeta.
pub open spec fn meta_seg0(pkt: Seq<u8>) -> int {
    (path_meta(pkt) / 0x1000) % 64
}

/// `Seg1Len`: bits 6..11 of PathMeta.
pub open spec fn meta_seg1(pkt: Seq<u8>) -> int {
    (path_meta(pkt) / 64) % 64
}

/// `Seg2Len`: bits 0..5 of PathMeta.
pub open spec fn meta_seg2(pkt: Seq<u8>) -> int {
    path_meta(pkt) % 64
}

/// Total number of hop fields.
pub open spec fn meta_total_hf(pkt: Seq<u8>) -> int {
    meta_seg0(pkt) + meta_seg1(pkt) + meta_seg2(pkt)
}

/// Number of info fields: one per non-empty segment, counting up to the last
/// non-empty one, at least one.
pub open spec fn num_info_fields(pkt: Seq<u8>) -> int {
    if meta_seg2(pkt) > 0 {
        3
    } else if meta_seg1(pkt) > 0 {
        2
    } else {
        1
    }
}

/// Offset of the current hop field: after PathMeta (4 bytes), the 8-byte
/// info fields and `CurrHF` 12-byte hop fields.
pub open spec fn curr_hop_field_off(pkt: Seq<u8>) -> int {
    path_off(pkt) + 4 + 8 * num_info_fields(pkt) + 12 * meta_curr_hf(pkt)
}

/// `ConsEgress`, bytes 4..5 of the current hop field.
pub open spec fn meta_egress(pkt: Seq<u8>) -> int {
    let h = curr_hop_field_off(pkt);
    be16(pkt[h + 4], pkt[h + 5])
}

/// The error with which reading the destination ISD-AS refuses `pkt`, if any.
pub open spec fn dst_ia_error(pkt: Seq<u8>) -> Option<ScionError> {
    if pkt.len() < 12 + 2 + 6 {
        Some(ScionError::TooShortForDstIa)
    } else if hdr_version(pkt) != 0 {
        Some(ScionError::UnsupportedVersion(hdr_version(pkt) as u8))
    } else {
        None
    }
}

/// The error with which reading the forwarding meta refuses `pkt`, if any,
/// each check in turn.
pub open spec fn fwd_meta_error(pkt: Seq<u8>) -> Option<ScionError> {
    if pkt.len() < 12 {
        Some(ScionError::TooShortForCommonHeader)
    } else if hdr_version(pkt) != 0 {
        Some(ScionError::UnsupportedVersion(hdr_version(pkt) as u8))
    } else if hdr_len_bytes(pkt) < 12 {
        Some(ScionError::InvalidHdrLen(hdr_len_bytes(pkt) as usize))
    } else if pkt.len() < hdr_len_bytes(pkt) {
        Some(ScionError::ShorterThanHeader)
    } else if path_type(pkt) != 1 {
        Some(ScionError::UnsupportedPathType(path_type(pkt) as u8))
    } else if path_off(pkt) + 4 > hdr_len_bytes(pkt) {
        Some(ScionError::HeaderTooShortForPathMeta)
    } else if meta_total_hf(pkt) == 0 {
        Some(ScionError::EmptyPath)
    } else if meta_curr_hf(pkt) >= meta_total_hf(pkt) {
        Some(ScionError::CurrHfOutOfRange)
    } else if curr_hop_field_off(pkt) + 12 > hdr_len_bytes(pkt) {
        Some(ScionError::HopFieldOutOfBounds)
    } else {
        None
    }
}

/// The forwarding meta of a packet that `fwd_meta_error` accepts.
pub open spec fn fwd_meta_of(pkt: Seq<u8>) -> ScionFwdMeta {
    ScionFwdMeta {
        curr_hf: meta_curr_hf(pkt) as u8,
        total_hf: meta_total_hf(pkt) as u8,
        curr_hf_byte_off: path_off(pkt) as usize,
        egress_ifid: meta_egress(pkt) as u16,
    }
}

/// The result that reading the forwarding meta gives for `pkt`.
pub open spec fn spec_parse_fwd_meta(pkt: Seq<u8>) -> Result<ScionFwdMeta, ScionError> {
    match fwd_meta_error(pkt) {
        Some(e) => Err(e),
        None => Ok(fwd_meta_of(pkt)),
    }
}

/// The ISD number of the destination, bytes 12..13.
pub open spec fn dst_isd(pkt: Seq<u8>) -> int {
    be16(pkt[12], pkt[13])
}

/// The AS number of the destination, bytes 14..19.
pub open spec fn dst_asn(pkt: Seq<u8>) -> Seq<u8> {
    pkt.subrange(14, 20)
}

/// `ia` is the destination ISD-AS that `pkt` carries.
pub open spec fn is_dst_ia_of(ia: Ia, pkt: Seq<u8>) -> bool {
    &&& ia.isd == dst_isd(pkt)
    &&& ia.asn@ == dst_asn(pkt)
}

// ---------------------------------------------------------------------------
// The textual key of an ISD-AS.

/// The `k`-th 16-bit group of the AS number.
pub open spec fn asn_group(asn: Seq<u8>, k: int) -> int {
    be16(asn[2 * k], asn[2 * k + 1])
}

/// `<isd>-<as0>:<as1>:<as2>`, the ISD in decimal and each 16-bit group of the
/// AS number in lower-case hexadecimal without leading zeros.
pub open spec fn ia_key(isd: u16, asn: Seq<u8>) -> Seq<char> {
    dec_text(isd as nat) + seq!['-'] + hex_text(asn_group(asn, 0) as nat) + seq![':']
        + hex_text(asn_group(asn, 1) as nat) + seq![':'] + hex_text(asn_group(asn, 2) as nat)
}

fn be_u16(hi: u8, lo: u8) -> (r: u16)
    ensures
        r == be16(hi, lo),
{
    (hi as u16) * 256 + (lo as u16)
}

impl Ia {
    /// The route key of this ISD-AS, such as `1-ff00:0:110`.
    pub fn to_string_key(self) -> (key: String)
        ensures
            key@ == ia_key(self.isd, self.asn@),
    {
        let a0 = be_u16(self.asn[0], self.asn[1]);
        let a1 = be_u16(self.asn[2], self.asn[3]);
        let a2 = be_u16(self.asn[4], self.asn[5]);
        let mut key = String::new();
        push_dec(&mut key, self.isd as u64);
        proof {
            reveal_strlit("-");
            reveal_strlit(":");
        }
        key.append("-");
        push_hex(&mut key, a0 as u64);
        key.append(":");
        push_hex(&mut key, a1 as u64);
        key.append(":");
        push_hex(&mut key, a2 as u64);
        assert(key@ =~= ia_key(self.isd, self.asn@));
        key
    }
}

/// Distinct ISD-AS have distinct route keys.
pub proof fn lemma_ia_key_injective(isd1: u16, asn1: Seq<u8>, isd2: u16, asn2: Seq<u8>)
    requires
        asn1.len() == 6,
        asn2.len() == 6,
        ia_key(isd1, asn1) == ia_key(isd2, asn2),
    ensures
        isd1 == isd2,
        asn1 == asn2,
{
    let d1 = dec_text(isd1 as nat);
    let d2 = dec_text(isd2 as nat);
    let h1 = Seq::new(3, |k: int| hex_text(asn_group(asn1, k) as nat));
    let h2 = Seq::new(3, |k: int| hex_text(asn_group(asn2, k) as nat));
    lemma_radix_value_of_text(isd1 as nat, 10);
    lemma_radix_value_of_text(isd2 as nat, 10);
    assert forall|k: int| 0 <= k < 3 implies all_digits(#[trigger] h1[k]) && all_digits(h2[k]) by {
        lemma_radix_value_of_text(asn_group(asn1, k) as nat, 16);
        lemma_radix_value_of_text(asn_group(asn2, k) as nat, 16);
    }
    lemma_separator_not_digit('-');
    lemma_separator_not_digit(':');
    let r1 = h1[0] + seq![':'] + h1[1] + seq![':'] + h1[2];
    let r2 = h2[0] + seq![':'] + h2[1] + seq![':'] + h2[2];
    assert(ia_key(isd1, asn1) =~= d1 + seq!['-'] + r1);
    assert(ia_key(isd2, asn2) =~= d2 + seq!['-'] + r2);
    lemma_split_at_separator(d1, r1, d2, r2, '-');
    let s1 = h1[1] + seq![':'] + h1[2];
    let s2 = h2[1] + seq![':'] + h2[2];
    assert(r1 =~= h1[0] + seq![':'] + s1);
    assert(r2 =~= h2[0] + seq![':'] + s2);
    lemma_split_at_separator(h1[0], s1, h2[0], s2, ':');
    lemma_split_at_separator(h1[1], h1[2], h2[1], h2[2], ':');
    lemma_radix_text_injective(isd1 as nat, isd2 as nat, 10);
    assert forall|k: int| 0 <= k < 3 implies asn_group(asn1, k) == asn_group(asn2, k) by {
        lemma_radix_text_injective(asn_group(asn1, k) as nat, asn_group(asn2, k) as nat, 16);
    }
    assert forall|i: int| 0 <= i < 6 implies asn1[i] == asn2[i] by {
        let k = i / 2;
        assert(asn_group(asn1, k) == asn_group(asn2, k));
    }
    assert(asn1 =~= asn2);
}

/// Reads the destination ISD-AS from the address header.
pub fn parse_scion_dst_ia(pkt: &[u8]) -> (res: Result<Ia, ScionError>)
    ensures
        match res {
            Ok(ia) => dst_ia_error(pkt@) is None && is_dst_ia_of(ia, pkt@),
            Err(e) => dst_ia_error(pkt@) == Some(e),
        },
        pkt@.len() >= 20 && pkt@[0] >> 4 == 0 ==> res is Ok,
        res matches Err(ScionError::UnsupportedVersion(v)) ==> v == pkt@[0] >> 4 && v != 0,
{
    proof {
        lemma_dst_ia_version_nibble(pkt@);
    }
    if pkt.len() < 12 + 2 + 6 {
        return Err(ScionError::TooShortForDstIa);
    }
    let b0 = pkt[0];
    let version = b0 >> 4;
    assert(version == b0 / 16) by (bit_vector)
        requires
            version == b0 >> 4,
    ;
    if version != 0 {
        return Err(ScionError::UnsupportedVersion(version));
    }
    let off = COMMON_HDR_LEN;
    let isd = be_u16(pkt[off], pkt[off + 1]);
    let asn: [u8; 6] = [pkt[off + 2], pkt[off + 3], pkt[off + 4], pkt[off + 5], pkt[off + 6], pkt[off + 7]];
    assert(asn@ =~= pkt@.subrange(14, 20));
    Ok(Ia { isd, asn })
}

proof fn lemma_meta_bits(pm: u32)
    ensures
        ((pm >> 24) & 0x3f) as int == (pm as int / 0x100_0000) % 64,
        ((pm >> 12) & 0x3f) as int == (pm as int / 0x1000) % 64,
        ((pm >> 6) & 0x3f) as int == (pm as int / 64) % 64,
        (pm & 0x3f) as int == pm as int % 64,
{
    assert(((pm >> 24) & 0x3f) == (pm / 0x100_0000) % 64) by (bit_vector);
    assert(((pm >> 12) & 0x3f) == (pm / 0x1000) % 64) by (bit_vector);
    assert(((pm >> 6) & 0x3f) == (pm / 64) % 64) by (bit_vector);
    assert((pm & 0x3f) == pm % 64) by (bit_vector);
}

/// Reads the forwarding meta of a packet whose path is of type SCION: the
/// current and total hop-field counts, where PathMeta lies, and the egress
/// interface of the current hop field.
pub fn parse_scion_fwd_meta(pkt: &[u8]) -> (res: Result<ScionFwdMeta, ScionError>)
    ensures
        res == spec_parse_fwd_meta(pkt@),
        res matches Err(ScionError::UnsupportedVersion(v)) ==> v == pkt@[0] >> 4 && v != 0,
        res matches Ok(m) ==> {
            let b9 = pkt@[9];
            let o = m.curr_hf_byte_off as int;
            &&& o == 12 + 16 + 4 * (((b9 >> 4) & 0x03) as int + 1) + 4 * ((b9 & 0x03) as int + 1)
            &&& m.curr_hf == pkt@[o] & 0x3f
            &&& m.total_hf as int == (pkt@[o + 1] & 0x03) as int * 16 + (pkt@[o + 2] >> 4) as int
                + (pkt@[o + 2] & 0x0f) as int * 4 + (pkt@[o + 3] >> 6) as int + (pkt@[o + 3] & 0x3f) as int
        },
{
    proof {
        lemma_fwd_meta_version_nibble(pkt@);
        if spec_parse_fwd_meta(pkt@) is Ok {
            lemma_fwd_meta_from_bytes(pkt@);
        }
    }
    if pkt.len() < 12 {
        return Err(ScionError::TooShortForCommonHeader);
    }
    let b0 = pkt[0];
    let version = b0 >> 4;
    assert(version == b0 / 16) by (bit_vector)
        requires
            version == b0 >> 4,
    ;
    if version != 0 {
        return Err(ScionError::UnsupportedVersion(version));
    }
    let hdr_len_bytes = (pkt[5] as usize) * 4;
    if hdr_len_bytes < 12 {
        return Err(ScionError::InvalidHdrLen(hdr_len_bytes));
    }
    if pkt.len() < hdr_len_bytes {
        return Err(ScionError::ShorterThanHeader);
    }
    let path_type = pkt[8];
    if path_type != 1 {
        return Err(ScionError::UnsupportedPathType(path_type));
    }
    let b9 = pkt[9];
    let dl = (b9 >> 4) & 0x03;
    let sl = b9 & 0x03;
    assert(dl == (b9 / 16) % 4 && sl == b9 % 4) by (bit_vector)
        requires
            dl == (b9 >> 4) & 0x03,
            sl == b9 & 0x03,
    ;
    let dst_host_len = 4usize * (dl as usize + 1);
    let src_host_len = 4usize * (sl as usize + 1);
    let addr_hdr_len = 16usize + dst_host_len + src_host_len;
    let path_off = 12usize + addr_hdr_len;
    if path_off + 4 > hdr_len_bytes {
        return Err(ScionError::HeaderTooShortForPathMeta);
    }
    let pm: u32 = (pkt[path_off] as u32) * 0x100_0000 + (pkt[path_off + 1] as u32) * 0x1_0000
        + (pkt[path_off + 2] as u32) * 0x100 + (pkt[path_off + 3] as u32);
    proof {
        lemma_meta_bits(pm);
    }
    let curr_hf = ((pm >> 24) & 0x3f) as u8;
    let seg0 = ((pm >> 12) & 0x3f) as u8;
    let seg1 = ((pm >> 6) & 0x3f) as u8;
    let seg2 = (pm & 0x3f) as u8;
    let total_hf = seg0.saturating_add(seg1).saturating_add(seg2);
    if total_hf == 0 {
        return Err(ScionError::EmptyPath);
    }
    if curr_hf >= total_hf {
        return Err(ScionError::CurrHfOutOfRange);
    }
    let num_inf: usize = if seg2 > 0 {
        3
    } else if seg1 > 0 {
        2
    } else {
        1
    };
    let hop_fields_off = path_off + 4 + num_inf * 8;
    let curr_hf_off = hop_fields_off + (curr_hf as usize) * 12;
    if curr_hf_off + 12 > hdr_len_bytes {
        return Err(ScionError::HopFieldOutOfBounds);
    }
    let egress_ifid = be_u16(pkt[curr_hf_off + 4], pkt[curr_hf_off + 5]);
    Ok(ScionFwdMeta { curr_hf, total_hf, curr_hf_byte_off: path_off, egress_ifid })
}

/// The bounds that a header accepted by `parse_scion_fwd_meta` keeps.
pub proof fn lemma_fwd_meta_bounds(pkt: Seq<u8>)
    requires
        fwd_meta_error(pkt) is None,
    ensures
        12 <= hdr_len_bytes(pkt) <= pkt.len(),
        36 <= path_off(pkt),
        path_off(pkt) + 4 <= hdr_len_bytes(pkt),
        1 <= meta_total_hf(pkt) <= 189,
        0 <= meta_curr_hf(pkt) < meta_total_hf(pkt),
        meta_curr_hf(pkt) < 64,
        meta_curr_hf(pkt) == pkt[path_off(pkt)] as int % 64,
        0 <= meta_egress(pkt) < 0x1_0000,
{
    let o = path_off(pkt);
    assert(path_meta(pkt) / 0x100_0000 == pkt[o] as int) by (nonlinear_arith)
        requires
            path_meta(pkt) == be32(pkt[o], pkt[o + 1], pkt[o + 2], pkt[o + 3]),
    ;
}

/// A packet whose path can be read also has a destination that can be read.
pub proof fn lemma_readable_path_has_destination(pkt: Seq<u8>)
    requires
        fwd_meta_error(pkt) is None,
    ensures
        dst_ia_error(pkt) is None,
{
    lemma_fwd_meta_bounds(pkt);
}

impl ScionError {
    /// The text of this error.
    pub open spec fn spec_message(self) -> Seq<char> {
        match self {
            ScionError::TooShortForDstIa => "packet too short for SCION common+dstIA"@,
            ScionError::TooShortForCommonHeader => "packet too short for SCION common header"@,
            ScionError::UnsupportedVersion(v) => "unsupported SCION version "@ + dec_text(v as nat),
            ScionError::InvalidHdrLen(n) => "invalid SCION hdrlen "@ + dec_text(n as nat),
            ScionError::ShorterThanHeader => "packet shorter than SCION header length"@,
            ScionError::UnsupportedPathType(t) => "unsupported PathType "@ + dec_text(t as nat)
                + " (expected SCION=1)"@,
            ScionError::HeaderTooShortForPathMeta => "SCION header too short for PathMeta"@,
            ScionError::EmptyPath => "empty SCION path"@,
            ScionError::CurrHfOutOfRange => "CurrHF out of range"@,
            ScionError::HopFieldOutOfBounds => "hop field out of SCION header bounds"@,
        }
    }

    /// The text of this error, as a log line shows it.
    pub fn message(&self) -> (m: String)
        ensures
            m@ == self.spec_message(),
    {
        match self {
            ScionError::TooShortForDstIa => String::from_str("packet too short for SCION common+dstIA"),
            ScionError::TooShortForCommonHeader => String::from_str("packet too short for SCION common header"),
            ScionError::UnsupportedVersion(v) => {
                let mut m = String::from_str("unsupported SCION version ");
                push_dec(&mut m, *v as u64);
                m
            },
            ScionError::InvalidHdrLen(n) => {
                let mut m = String::from_str("invalid SCION hdrlen ");
                push_dec(&mut m, *n as u64);
                m
            },
            ScionError::ShorterThanHeader => String::from_str("packet shorter than SCION header length"),
            ScionError::UnsupportedPathType(t) => {
                let mut m = String::from_str("unsupported PathType ");
                push_dec(&mut m, *t as u64);
                m.append(" (expected SCION=1)");
                m
            },
            ScionError::HeaderTooShortForPathMeta => String::from_str("SCION header too short for PathMeta"),
            ScionError::EmptyPath => String::from_str("empty SCION path"),
            ScionError::CurrHfOutOfRange => String::from_str("CurrHF out of range"),
            ScionError::HopFieldOutOfBounds => String::from_str("hop field out of SCION header bounds"),
        }
    }
}

/// The PathMeta fields, read byte by byte.
pub proof fn lemma_meta_fields_by_byte(b0: u8, b1: u8, b2: u8, b3: u8)
    ensures
        ({
            let w = b0 as int * 0x100_0000 + b1 as int * 0x1_0000 + b2 as int * 0x100 + b3 as int;
            &&& (w / 0x100_0000) % 64 == b0 as int % 64
            &&& (w / 0x1000) % 64 == (b1 as int % 4) * 16 + b2 as int / 16
            &&& (w / 64) % 64 == (b2 as int % 16) * 4 + b3 as int / 64
            &&& w % 64 == b3 as int % 64
        }),
{
    let w = b0 as int * 0x100_0000 + b1 as int * 0x1_0000 + b2 as int * 0x100 + b3 as int;
    assert((w / 0x100_0000) % 64 == b0 as int % 64) by (nonlinear_arith)
        requires
            w == b0 as int * 0x100_0000 + b1 as int * 0x1_0000 + b2 as int * 0x100 + b3 as int,
            0 <= b0 < 256,
            0 <= b1 < 256,
            0 <= b2 < 256,
            0 <= b3 < 256,
    ;
    assert((w / 0x1000) % 64 == (b1 as int % 4) * 16 + b2 as int / 16) by (nonlinear_arith)
        requires
            w == b0 as int * 0x100_0000 + b1 as int * 0x1_0000 + b2 as int * 0x100 + b3 as int,
            0 <= b0 < 256,
            0 <= b1 < 256,
            0 <= b2 < 256,
            0 <= b3 < 256,
    ;
    assert((w / 64) % 64 == (b2 as int % 16) * 4 + b3 as int / 64) by (nonlinear_arith)
        requires
            w == b0 as int * 0x100_0000 + b1 as int * 0x1_0000 + b2 as int * 0x100 + b3 as int,
            0 <= b0 < 256,
            0 <= b1 < 256,
            0 <= b2 < 256,
            0 <= b3 < 256,
    ;
    assert(w % 64 == b3 as int % 64) by (nonlinear_arith)
        requires
            w == b0 as int * 0x100_0000 + b1 as int * 0x1_0000 + b2 as int * 0x100 + b3 as int,
            0 <= b3 < 256,
    ;
}


proof fn lemma_byte_bits(b: u8)
    ensures
        (b & 0x03) as int == b as int % 4,
        ((b >> 4) & 0x03) as int == (b as int / 16) % 4,
        (b >> 4) as int == b as int / 16,
        (b & 0x0f) as int == b as int % 16,
        (b >> 6) as int == b as int / 64,
        (b & 0x3f) as int == b as int % 64,
{
    assert((b & 0x03) == b % 4) by (bit_vector);
    assert(((b >> 4) & 0x03) == (b / 16) % 4) by (bit_vector);
    assert((b >> 4) == b / 16) by (bit_vector);
    assert((b & 0x0f) == b % 16) by (bit_vector);
    assert((b >> 6) == b / 64) by (bit_vector);
    assert((b & 0x3f) == b % 64) by (bit_vector);
}

/// Only the version nibble decides the version check: a packet of at least 20
/// bytes whose first byte has a zero high nibble has a readable destination,
/// whatever its low nibble (the traffic class) holds, and a version error
/// carries that nibble, which is then not zero.
pub proof fn lemma_dst_ia_version_nibble(pkt: Seq<u8>)
    ensures
        pkt.len() >= 20 && pkt[0] >> 4 == 0 ==> dst_ia_error(pkt) is None,
        pkt.len() >= 20 && pkt[0] >> 4 == 0 ==> ({
            let ia = Ia { isd: (pkt[12] as int * 256 + pkt[13] as int) as u16, asn: [pkt[14], pkt[15], pkt[16], pkt[17], pkt[18], pkt[19]] };
            is_dst_ia_of(ia, pkt)
        }),
        forall|v: u8| dst_ia_error(pkt) == Some(ScionError::UnsupportedVersion(v))
            ==> v == pkt[0] >> 4 && v != 0,
{
    if pkt.len() >= 1 {
        lemma_byte_bits(pkt[0]);
    }
    if pkt.len() >= 20 && pkt[0] >> 4 == 0 {
        let ia = Ia { isd: (pkt[12] as int * 256 + pkt[13] as int) as u16, asn: [pkt[14], pkt[15], pkt[16], pkt[17], pkt[18], pkt[19]] };
        assert(ia.asn@ =~= pkt.subrange(14, 20));
    }
}

/// The same for the forwarding meta: a version error carries the version
/// nibble, and only a non-zero nibble gives one.
pub proof fn lemma_fwd_meta_version_nibble(pkt: Seq<u8>)
    ensures
        forall|v: u8| fwd_meta_error(pkt) == Some(ScionError::UnsupportedVersion(v))
            ==> v == pkt[0] >> 4 && v != 0,
        pkt.len() >= 12 && pkt[0] >> 4 != 0 ==> fwd_meta_error(pkt) == Some(
            ScionError::UnsupportedVersion(pkt[0] >> 4),
        ),
{
    if pkt.len() >= 1 {
        lemma_byte_bits(pkt[0]);
    }
}

/// Where PathMeta lies, and what it says, read straight off the bytes: after
/// the common header (12 bytes), the two ISD-AS (16 bytes), and the two host
/// addresses of 4 * (DL + 1) and 4 * (SL + 1) bytes, where DL is the 2-bit
/// field at bits 4..5 of byte 9 and SL the 2-bit field at bits 0..1. CurrHF
/// is the low six bits of PathMeta's first byte, the hop-field total is the sum
/// of the three 6-bit segment lengths, and the egress is bytes 4..5 of the
/// current hop field, which lies after the 8-byte info fields (one per segment
/// up to the last non-empty one) and CurrHF 12-byte hop fields.
pub proof fn lemma_fwd_meta_from_bytes(pkt: Seq<u8>)
    requires
        spec_parse_fwd_meta(pkt) is Ok,
    ensures
        ({
            let m = spec_parse_fwd_meta(pkt)->Ok_0;
            let b9 = pkt[9];
            let o = m.curr_hf_byte_off as int;
            let seg0 = (pkt[o + 1] & 0x03) as int * 16 + (pkt[o + 2] >> 4) as int;
            let seg1 = (pkt[o + 2] & 0x0f) as int * 4 + (pkt[o + 3] >> 6) as int;
            let seg2 = (pkt[o + 3] & 0x3f) as int;
            let ninf: int = if seg2 != 0 { 3 } else if seg1 != 0 { 2 } else { 1 };
            let h = o + 4 + 8 * ninf + 12 * m.curr_hf as int;
            &&& o == 12 + 16 + 4 * (((b9 >> 4) & 0x03) as int + 1) + 4 * ((b9 & 0x03) as int + 1)
            &&& m.curr_hf == pkt[o] & 0x3f
            &&& m.total_hf as int == seg0 + seg1 + seg2
            &&& m.curr_hf < m.total_hf
            &&& h + 12 <= pkt[5] as int * 4 <= pkt.len()
            &&& m.egress_ifid as int == pkt[h + 4] as int * 256 + pkt[h + 5] as int
        }),
{
    lemma_fwd_meta_bounds(pkt);
    let o = path_off(pkt);
    lemma_byte_bits(pkt[9]);
    lemma_byte_bits(pkt[o]);
    lemma_byte_bits(pkt[o + 1]);
    lemma_byte_bits(pkt[o + 2]);
    lemma_byte_bits(pkt[o + 3]);
    lemma_meta_fields_by_byte(pkt[o], pkt[o + 1], pkt[o + 2], pkt[o + 3]);
}

} // verus!

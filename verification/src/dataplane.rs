//! The forwarding decisions of the dataplane, packet by packet: which packets
//! are dropped and why, how the path is advanced, and the counters kept.
use vstd::prelude::*;

use crate::iface::SockAddr;
use crate::scion::{
    lemma_fwd_meta_from_bytes,
    lemma_meta_fields_by_byte,
    be16, spec_parse_fwd_meta,
    curr_hop_field_off, dst_asn, dst_ia_error, dst_isd, fwd_meta_error, fwd_meta_of, hdr_len_bytes,
    hdr_version, is_dst_ia_of, lemma_fwd_meta_bounds, meta_curr_hf, meta_seg0, meta_seg1,
    meta_seg2, meta_total_hf, num_info_fields, parse_scion_dst_ia, parse_scion_fwd_meta,
    path_off, path_type, Ia, ScionError, ScionFwdMeta,
};

verus! {

/// Why a packet is not forwarded.
#[derive(Debug, Clone, Copy, PartialEq, Eq)]
pub enum DropReason {
    /// The destination ISD-AS could not be read.
    NotScion(ScionError),
    /// The path could not be read.
    FwdMeta(ScionError),
    /// The current hop field is the last one, or, for a packet that could
    /// go out, the last one that the 6-bit `CurrHF` can point at.
    EndOfPath,
    /// No next hop or no socket for the egress interface.
    NoIface,
}

/// What the dataplane learned of a packet that it can forward.
#[derive(Debug, Clone, Copy)]
pub struct ForwardPlan {
    pub dst: Ia,
    pub fwd: ScionFwdMeta,
}

/// The reason for which `pkt` is dropped before any interface lookup, if any.
pub open spec fn plan_error(pkt: Seq<u8>) -> Option<DropReason> {
    match dst_ia_error(pkt) {
        Some(e) => Some(DropReason::NotScion(e)),
        None => match fwd_meta_error(pkt) {
            Some(e) => Some(DropReason::FwdMeta(e)),
            None => if meta_curr_hf(pkt) + 1 >= meta_total_hf(pkt) {
                Some(DropReason::EndOfPath)
            } else {
                None
            },
        },
    }
}

/// Reads what forwarding needs from a received packet, or says why the
/// packet is dropped: it is not SCION, its path cannot be read, or it has
/// reached the end of its path.
pub fn plan_forward(pkt: &[u8]) -> (res: Result<ForwardPlan, DropReason>)
    ensures
        match res {
            Ok(plan) => {
                &&& plan_error(pkt@) is None
                &&& is_dst_ia_of(plan.dst, pkt@)
                &&& plan.fwd == fwd_meta_of(pkt@)
                &&& plan.fwd.curr_hf_byte_off < pkt@.len()
                &&& plan.fwd.curr_hf + 1 < plan.fwd.total_hf
                &&& plan.fwd.curr_hf < 64
            },
            Err(reason) => plan_error(pkt@) == Some(reason),
        },
        res == Err::<ForwardPlan, DropReason>(DropReason::EndOfPath) <==> {
            &&& dst_ia_error(pkt@) is None
            &&& spec_parse_fwd_meta(pkt@) is Ok
            &&& (spec_parse_fwd_meta(pkt@)->Ok_0).curr_hf + 1 >= (spec_parse_fwd_meta(pkt@)->Ok_0).total_hf
        },
{
    let dst = match parse_scion_dst_ia(pkt) {
        Ok(ia) => ia,
        Err(e) => return Err(DropReason::NotScion(e)),
    };
    let fwd = match parse_scion_fwd_meta(pkt) {
        Ok(m) => m,
        Err(e) => return Err(DropReason::FwdMeta(e)),
    };
    proof {
        lemma_fwd_meta_bounds(pkt@);
    }
    if fwd.curr_hf.saturating_add(1) >= fwd.total_hf {
        return Err(DropReason::EndOfPath);
    }
    Ok(ForwardPlan { dst, fwd })
}

/// PathMeta's first byte with `CurrHF` (its low six bits) set to
/// `curr_hf + 1`, keeping `CurrINF` in the two high bits.
pub open spec fn advanced_meta_byte(old: u8, curr_hf: u8) -> u8 {
    ((old as int / 64) * 64 + curr_hf as int + 1) as u8
}

/// The packet after the current hop field has been moved on by one.
pub open spec fn advanced_packet(pkt: Seq<u8>, fwd: ScionFwdMeta) -> Seq<u8> {
    pkt.update(
        fwd.curr_hf_byte_off as int,
        advanced_meta_byte(pkt[fwd.curr_hf_byte_off as int], fwd.curr_hf),
    )
}

/// Moves `CurrHF` on to the next hop field, in place.
pub fn advance_curr_hf(pkt: &mut Vec<u8>, fwd: &ScionFwdMeta)
    requires
        fwd.curr_hf_byte_off < old(pkt)@.len(),
        fwd.curr_hf < 63,
    ensures
        final(pkt)@ == advanced_packet(old(pkt)@, *fwd),
        final(pkt)@.len() == old(pkt)@.len(),
        forall|i: int| 0 <= i < old(pkt)@.len() && i != fwd.curr_hf_byte_off ==> #[trigger] final(pkt)@[i] == old(pkt)@[i],
        final(pkt)@[fwd.curr_hf_byte_off as int] as int % 64 == fwd.curr_hf + 1,
        final(pkt)@[fwd.curr_hf_byte_off as int] as int / 64 == old(pkt)@[fwd.curr_hf_byte_off as int] as int / 64,
{
    let off = fwd.curr_hf_byte_off;
    let pm0 = pkt[off];
    let curr = fwd.curr_hf;
    let c_bits = pm0 & 0b1100_0000;
    let next_curr = curr + 1;
    let b = c_bits | (next_curr & 0b0011_1111);
    assert(b == ((pm0 as int / 64) * 64 + curr as int + 1) as u8
        && b % 64 == curr + 1 && b / 64 == pm0 / 64) by (bit_vector)
        requires
            c_bits == pm0 & 0b1100_0000,
            curr < 63,
            next_curr == curr + 1,
            b == c_bits | (next_curr & 0b0011_1111),
    ;
    pkt.set(off, b);
}

/// Forwards a planned packet when the egress interface has both a next hop
/// and a socket: advances its path and answers the address to send to.
/// Without a next hop or a socket the packet is dropped, unchanged. A packet
/// whose `CurrHF` is 63 cannot be moved on (the field has six bits), so it is
/// dropped at the end of its path, unchanged, rather than sent with its path
/// rewound.
pub fn forward_packet(
    pkt: &mut Vec<u8>,
    plan: &ForwardPlan,
    next_hop: Option<SockAddr>,
    has_socket: bool,
) -> (res: Result<SockAddr, DropReason>)
    requires
        plan.fwd.curr_hf_byte_off < old(pkt)@.len(),
    ensures
        !(next_hop is Some && has_socket) ==> {
            &&& res == Err::<SockAddr, DropReason>(DropReason::NoIface)
            &&& final(pkt)@ == old(pkt)@
        },
        next_hop is Some && has_socket && plan.fwd.curr_hf < 63 ==> {
            &&& res == Ok::<SockAddr, DropReason>(next_hop->0)
            &&& final(pkt)@ == advanced_packet(old(pkt)@, plan.fwd)
        },
        next_hop is Some && has_socket && plan.fwd.curr_hf >= 63 ==> {
            &&& res == Err::<SockAddr, DropReason>(DropReason::EndOfPath)
            &&& final(pkt)@ == old(pkt)@
        },
{
    match next_hop {
        Some(addr) => {
            if has_socket {
                if plan.fwd.curr_hf >= 63 {
                    return Err(DropReason::EndOfPath);
                }
                advance_curr_hf(pkt, &plan.fwd);
                Ok(addr)
            } else {
                Err(DropReason::NoIface)
            }
        },
        None => Err(DropReason::NoIface),
    }
}

/// Forwarding leaves the destination alone: the advanced packet carries the
/// same destination ISD-AS as the received one.
pub proof fn lemma_forwarding_keeps_destination(pkt: Seq<u8>)
    requires
        fwd_meta_error(pkt) is None,
    ensures
        ({
            let adv = advanced_packet(pkt, fwd_meta_of(pkt));
            &&& adv.len() == pkt.len()
            &&& dst_ia_error(adv) == dst_ia_error(pkt)
            &&& dst_isd(adv) == dst_isd(pkt)
            &&& dst_asn(adv) == dst_asn(pkt)
        }),
{
    lemma_fwd_meta_bounds(pkt);
    let adv = advanced_packet(pkt, fwd_meta_of(pkt));
    assert(dst_asn(adv) =~= dst_asn(pkt));
}

/// Forwarding moves the path on by one hop field: once `CurrHF` has been
/// advanced, the path reads back with `CurrHF` one higher, the same hop-field
/// count and PathMeta offset, and the egress of the next hop field, unless that
/// hop field lies beyond the header.
pub proof fn lemma_forwarding_advances_path(pkt: Seq<u8>)
    requires
        fwd_meta_error(pkt) is None,
        meta_curr_hf(pkt) + 1 < meta_total_hf(pkt),
        meta_curr_hf(pkt) + 1 < 64,
    ensures
        ({
            let adv = advanced_packet(pkt, fwd_meta_of(pkt));
            let h = curr_hop_field_off(pkt);
            let next = ScionFwdMeta {
                curr_hf: (meta_curr_hf(pkt) + 1) as u8,
                total_hf: fwd_meta_of(pkt).total_hf,
                curr_hf_byte_off: fwd_meta_of(pkt).curr_hf_byte_off,
                egress_ifid: be16(pkt[h + 16], pkt[h + 17]) as u16,
            };
            &&& meta_curr_hf(adv) == meta_curr_hf(pkt) + 1
            &&& curr_hop_field_off(adv) == h + 12
            &&& spec_parse_fwd_meta(adv) == if h + 24 <= hdr_len_bytes(pkt) {
                Ok::<ScionFwdMeta, ScionError>(next)
            } else {
                Err::<ScionFwdMeta, ScionError>(ScionError::HopFieldOutOfBounds)
            }
        }),
{
    lemma_fwd_meta_bounds(pkt);
    let fwd = fwd_meta_of(pkt);
    let adv = advanced_packet(pkt, fwd);
    let o = path_off(pkt);
    let c = meta_curr_hf(pkt);
    assert(adv[0] == pkt[0] && adv[5] == pkt[5] && adv[8] == pkt[8] && adv[9] == pkt[9]);
    assert(adv.len() == pkt.len());
    assert(hdr_version(adv) == hdr_version(pkt));
    assert(hdr_len_bytes(adv) == hdr_len_bytes(pkt));
    assert(path_type(adv) == path_type(pkt));
    assert(path_off(adv) == o);
    let b0 = pkt[o];
    let nb0 = advanced_meta_byte(b0, c as u8);
    assert(adv[o] == nb0);
    assert(adv[o + 1] == pkt[o + 1] && adv[o + 2] == pkt[o + 2] && adv[o + 3] == pkt[o + 3]);
    lemma_meta_fields_by_byte(b0, pkt[o + 1], pkt[o + 2], pkt[o + 3]);
    lemma_meta_fields_by_byte(nb0, pkt[o + 1], pkt[o + 2], pkt[o + 3]);
    assert(nb0 as int % 64 == c + 1) by (nonlinear_arith)
        requires
            nb0 == ((b0 as int / 64) * 64 + c + 1) as u8,
            0 <= b0 < 256,
            0 <= c,
            c + 1 < 64,
    ;
    assert(meta_curr_hf(adv) == c + 1);
    assert(meta_seg0(adv) == meta_seg0(pkt));
    assert(meta_seg1(adv) == meta_seg1(pkt));
    assert(meta_seg2(adv) == meta_seg2(pkt));
    assert(num_info_fields(adv) == num_info_fields(pkt));
    let h = curr_hop_field_off(pkt);
    assert(curr_hop_field_off(adv) == h + 12);
    if h + 24 <= hdr_len_bytes(pkt) {
        assert(adv[h + 16] == pkt[h + 16] && adv[h + 17] == pkt[h + 17]);
    }
}

/// A packet never leaves with its path rewound: every packet that
/// `plan_forward` accepts and `forward_packet` advances (`CurrHF` below 63)
/// has `CurrHF` exactly one higher once advanced, and its destination
/// unchanged.
pub proof fn lemma_planned_packet_moves_forward(pkt: Seq<u8>)
    requires
        plan_error(pkt) is None,
        meta_curr_hf(pkt) < 63,
    ensures
        ({
            let adv = advanced_packet(pkt, fwd_meta_of(pkt));
            &&& meta_curr_hf(adv) == meta_curr_hf(pkt) + 1
            &&& dst_ia_error(adv) is None
            &&& dst_isd(adv) == dst_isd(pkt)
            &&& dst_asn(adv) == dst_asn(pkt)
        }),
{
    lemma_forwarding_advances_path(pkt);
    lemma_forwarding_keeps_destination(pkt);
}

/// The end of the path is measured over all three segments: a packet whose
/// destination and forwarding meta can both be read is dropped as at its end
/// exactly when `CurrHF + 1` reaches the hop-field total
/// `Seg0Len + Seg1Len + Seg2Len` that the forwarding meta reports; otherwise it
/// is planned.
pub proof fn lemma_end_of_path_over_all_segments(pkt: Seq<u8>)
    requires
        dst_ia_error(pkt) is None,
        spec_parse_fwd_meta(pkt) is Ok,
    ensures
        ({
            let m = spec_parse_fwd_meta(pkt)->Ok_0;
            let o = m.curr_hf_byte_off as int;
            let total = (pkt[o + 1] & 0x03) as int * 16 + (pkt[o + 2] >> 4) as int
                + (pkt[o + 2] & 0x0f) as int * 4 + (pkt[o + 3] >> 6) as int + (pkt[o + 3] & 0x3f) as int;
            &&& m.total_hf as int == total
            &&& plan_error(pkt) == Some(DropReason::EndOfPath) <==> m.curr_hf as int + 1 >= total
            &&& plan_error(pkt) is None <==> m.curr_hf as int + 1 < total
            &&& plan_error(pkt) is Some ==> plan_error(pkt) == Some(DropReason::EndOfPath)
        }),
{
    lemma_fwd_meta_from_bytes(pkt);
}

/// Forwarding writes only the PathMeta byte that holds `CurrHF`: the length
/// and every other byte stay as received, the two CurrINF bits of that byte
/// stay, and its low six bits become `CurrHF + 1`.
pub proof fn lemma_forwarding_writes_one_byte(pkt: Seq<u8>, fwd: ScionFwdMeta)
    requires
        fwd.curr_hf_byte_off < pkt.len(),
        fwd.curr_hf < 63,
    ensures
        ({
            let adv = advanced_packet(pkt, fwd);
            let o = fwd.curr_hf_byte_off as int;
            &&& adv.len() == pkt.len()
            &&& forall|i: int| 0 <= i < pkt.len() && i != o ==> #[trigger] adv[i] == pkt[i]
            &&& adv[o] & 0x3f == fwd.curr_hf + 1
            &&& adv[o] >> 6 == pkt[o] >> 6
        }),
{
    let o = fwd.curr_hf_byte_off as int;
    let b = pkt[o];
    let c = fwd.curr_hf;
    let nb = advanced_meta_byte(b, c);
    assert(nb & 0x3f == c + 1 && nb >> 6 == b >> 6) by (bit_vector)
        requires
            nb == ((b as int / 64) * 64 + c as int + 1) as u8,
            c < 63,
    ;
}

/// The outcome of one received packet.
#[derive(Debug, Clone, Copy, PartialEq, Eq)]
pub enum PacketOutcome {
    Dropped(DropReason),
    Forwarded,
    SendFailed,
}

/// The dataplane's counters. Each wraps around at `u64::MAX`, as an atomic
/// `fetch_add` does.
#[derive(Debug, Clone, Copy, PartialEq, Eq)]
pub struct Metrics {
    pub rx_packets: u64,
    pub drop_not_scion: u64,
    pub drop_fwd_meta: u64,
    pub drop_end_of_path: u64,
    pub drop_no_iface: u64,
    pub forwarded: u64,
    pub send_errors: u64,
}

/// A counter after one increment, modulo 2^64.
pub open spec fn bump(c: u64) -> u64 {
    ((c as int + 1) % 0x1_0000_0000_0000_0000) as u64
}

fn bump_exec(c: u64) -> (r: u64)
    ensures
        r == bump(c),
{
    c.wrapping_add(1)
}

/// The counters after counting `outcome`: exactly the counter of its kind
/// goes up by one.
pub open spec fn counted(m: Metrics, outcome: PacketOutcome) -> Metrics {
    match outcome {
        PacketOutcome::Dropped(DropReason::NotScion(_)) => Metrics { drop_not_scion: bump(m.drop_not_scion), ..m },
        PacketOutcome::Dropped(DropReason::FwdMeta(_)) => Metrics { drop_fwd_meta: bump(m.drop_fwd_meta), ..m },
        PacketOutcome::Dropped(DropReason::EndOfPath) => Metrics { drop_end_of_path: bump(m.drop_end_of_path), ..m },
        PacketOutcome::Dropped(DropReason::NoIface) => Metrics { drop_no_iface: bump(m.drop_no_iface), ..m },
        PacketOutcome::Forwarded => Metrics { forwarded: bump(m.forwarded), ..m },
        PacketOutcome::SendFailed => Metrics { send_errors: bump(m.send_errors), ..m },
    }
}

/// Every received packet has been counted under exactly one outcome
/// (modulo 2^64, as the counters wrap).
pub open spec fn balanced(m: Metrics) -> bool {
    outcome_total(m) % 0x1_0000_0000_0000_0000 == m.rx_packets as int
}

impl Metrics {
    /// All counters at zero.
    pub fn new() -> (m: Self)
        ensures
            m == (Metrics {
                rx_packets: 0,
                drop_not_scion: 0,
                drop_fwd_meta: 0,
                drop_end_of_path: 0,
                drop_no_iface: 0,
                forwarded: 0,
                send_errors: 0,
            }),
    {
        Metrics {
            rx_packets: 0,
            drop_not_scion: 0,
            drop_fwd_meta: 0,
            drop_end_of_path: 0,
            drop_no_iface: 0,
            forwarded: 0,
            send_errors: 0,
        }
    }

    /// Counts a received packet.
    pub fn count_received(&mut self)
        ensures
            *final(self) == (Metrics { rx_packets: bump(old(self).rx_packets), ..*old(self) }),
    {
        self.rx_packets = bump_exec(self.rx_packets);
    }

    /// Counts what became of a packet.
    pub fn count_outcome(&mut self, outcome: &PacketOutcome)
        ensures
            *final(self) == counted(*old(self), *outcome),
    {
        match outcome {
            PacketOutcome::Dropped(DropReason::NotScion(_)) => {
                self.drop_not_scion = bump_exec(self.drop_not_scion);
            },
            PacketOutcome::Dropped(DropReason::FwdMeta(_)) => {
                self.drop_fwd_meta = bump_exec(self.drop_fwd_meta);
            },
            PacketOutcome::Dropped(DropReason::EndOfPath) => {
                self.drop_end_of_path = bump_exec(self.drop_end_of_path);
            },
            PacketOutcome::Dropped(DropReason::NoIface) => {
                self.drop_no_iface = bump_exec(self.drop_no_iface);
            },
            PacketOutcome::Forwarded => {
                self.forwarded = bump_exec(self.forwarded);
            },
            PacketOutcome::SendFailed => {
                self.send_errors = bump_exec(self.send_errors);
            },
        }
    }
}

/// The counters start balanced.
pub proof fn lemma_new_metrics_balanced(m: Metrics)
    requires
        m == (Metrics {
            rx_packets: 0,
            drop_not_scion: 0,
            drop_fwd_meta: 0,
            drop_end_of_path: 0,
            drop_no_iface: 0,
            forwarded: 0,
            send_errors: 0,
        }),
    ensures
        balanced(m),
{
}

proof fn lemma_bump(c: u64)
    ensures
        bump(c) as int == c as int + 1 - (if c == u64::MAX { 0x1_0000_0000_0000_0000int } else { 0int }),
{
}

/// The sum of the outcome counters.
pub open spec fn outcome_total(m: Metrics) -> int {
    m.drop_not_scion as int + m.drop_fwd_meta as int + m.drop_end_of_path as int
        + m.drop_no_iface as int + m.forwarded as int + m.send_errors as int
}

proof fn lemma_counted_total(m: Metrics, outcome: PacketOutcome)
    ensures
        outcome_total(counted(m, outcome)) == outcome_total(m) + 1
            || outcome_total(counted(m, outcome)) == outcome_total(m) + 1 - 0x1_0000_0000_0000_0000int,
{
    match outcome {
        PacketOutcome::Dropped(DropReason::NotScion(_)) => lemma_bump(m.drop_not_scion),
        PacketOutcome::Dropped(DropReason::FwdMeta(_)) => lemma_bump(m.drop_fwd_meta),
        PacketOutcome::Dropped(DropReason::EndOfPath) => lemma_bump(m.drop_end_of_path),
        PacketOutcome::Dropped(DropReason::NoIface) => lemma_bump(m.drop_no_iface),
        PacketOutcome::Forwarded => lemma_bump(m.forwarded),
        PacketOutcome::SendFailed => lemma_bump(m.send_errors),
    }
}

/// Counting a received packet and then its outcome keeps every packet
/// counted under exactly one outcome.
pub proof fn lemma_counting_keeps_balance(m: Metrics, outcome: PacketOutcome)
    requires
        balanced(m),
    ensures
        balanced(counted(Metrics { rx_packets: bump(m.rx_packets), ..m }, outcome)),
{
    let r = Metrics { rx_packets: bump(m.rx_packets), ..m };
    let n = counted(r, outcome);
    assert(outcome_total(r) == outcome_total(m));
    lemma_counted_total(r, outcome);
    lemma_bump(m.rx_packets);
    let big: int = 0x1_0000_0000_0000_0000;
    let t = outcome_total(m);
    let tn = outcome_total(n);
    assert(t % big == m.rx_packets as int);
    assert(tn % big == bump(m.rx_packets) as int) by (nonlinear_arith)
        requires
            t % big == m.rx_packets as int,
            tn == t + 1 || tn == t + 1 - big,
            t >= 0,
            tn >= 0,
            big == 0x1_0000_0000_0000_0000,
            bump(m.rx_packets) as int == m.rx_packets as int + 1 - (if m.rx_packets == u64::MAX { big } else { 0int }),
            m.rx_packets <= u64::MAX,
    ;
}

} // verus!

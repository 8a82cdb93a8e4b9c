//! The interface table: for each egress interface id, the underlay address
//! of the next hop. Beacons from neighbours fill it, and the router sends its
//! own entries out as beacons.
use std::collections::HashMap;
use vstd::prelude::*;
use vstd::std_specs::iter::IteratorSpec;

verus! {

broadcast use vstd::std_specs::hash::group_hash_axioms;

/// A UDP/IP socket address, as plain values.
#[derive(Debug, Clone, Copy, PartialEq, Eq)]
pub enum SockAddr {
    V4 { ip: [u8; 4], port: u16 },
    V6 { ip6: [u8; 16], port: u16, flowinfo: u32, scope_id: u32 },
}

/// What the table keeps for one interface.
#[derive(Debug, Clone, Copy, PartialEq, Eq)]
pub struct IfaceEntry {
    /// Underlay address of the neighbour behind the interface.
    pub next_hop: SockAddr,
    /// Local address to send from, if one is asked for.
    pub bind: Option<SockAddr>,
}

/// A beacon: one interface of the sender and how to reach the neighbour.
#[derive(Debug, Clone, Copy, PartialEq, Eq)]
pub struct BeaconMsg {
    pub ifid: u16,
    pub next_hop: SockAddr,
    pub bind: Option<SockAddr>,
}

/// A neighbour that beacons are sent to.
#[derive(Debug, Clone, Copy, PartialEq, Eq)]
pub struct BeaconPeer {
    pub peer: SockAddr,
}

/// The table entry that a beacon describes.
pub open spec fn entry_of_beacon(msg: BeaconMsg) -> IfaceEntry {
    IfaceEntry { next_hop: msg.next_hop, bind: msg.bind }
}

/// The beacon that announces entry `e` of interface `ifid`.
pub open spec fn beacon_of_entry(ifid: u16, e: IfaceEntry) -> BeaconMsg {
    BeaconMsg { ifid, next_hop: e.next_hop, bind: e.bind }
}

impl BeaconMsg {
    /// The interface id and table entry that this beacon carries.
    pub fn to_entry(&self) -> (r: (u16, IfaceEntry))
        ensures
            r == (self.ifid, entry_of_beacon(*self)),
            r.0 == self.ifid,
            r.1.next_hop == self.next_hop,
            r.1.bind == self.bind,
    {
        (self.ifid, IfaceEntry { next_hop: self.next_hop, bind: self.bind })
    }
}

/// The interface table, viewed as a map from interface id to entry.
pub struct IfaceTable {
    entries: HashMap<u16, IfaceEntry>,
}

impl View for IfaceTable {
    type V = Map<u16, IfaceEntry>;

    closed spec fn view(&self) -> Map<u16, IfaceEntry> {
        self.entries@
    }
}

/// `msgs` announces exactly the entries of `table`, each interface once.
pub open spec fn announces(msgs: Seq<BeaconMsg>, table: Map<u16, IfaceEntry>) -> bool {
    &&& msgs.len() == table.dom().len()
    &&& forall|i: int|
        0 <= i < msgs.len() ==> table.contains_key(#[trigger] msgs[i].ifid) && msgs[i]
            == beacon_of_entry(msgs[i].ifid, table[msgs[i].ifid])
    &&& forall|i: int, j: int|
        0 <= i < msgs.len() && 0 <= j < msgs.len() && i != j ==> #[trigger] msgs[i].ifid
            != #[trigger] msgs[j].ifid
    &&& forall|k: u16| #[trigger] table.contains_key(k) ==> exists|i: int| 0 <= i < msgs.len() && #[trigger] msgs[i].ifid == k
}

impl IfaceTable {
    /// An empty table.
    pub fn new() -> (t: Self)
        ensures
            t@ == Map::<u16, IfaceEntry>::empty(),
    {
        IfaceTable { entries: HashMap::new() }
    }

    /// Number of interfaces in the table.
    pub fn len(&self) -> (n: usize)
        ensures
            n == self@.dom().len(),
    {
        self.entries.len()
    }

    /// Sets the entry of interface `ifid`, replacing any earlier one, and
    /// returns the entry it replaced.
    pub fn upsert(&mut self, ifid: u16, entry: IfaceEntry) -> (prev: Option<IfaceEntry>)
        ensures
            final(self)@ == old(self)@.insert(ifid, entry),
            prev == (if old(self)@.contains_key(ifid) { Some(old(self)@[ifid]) } else { None }),
    {
        self.entries.insert(ifid, entry)
    }

    /// Removes interface `ifid` and returns its entry, if it had one.
    pub fn remove(&mut self, ifid: u16) -> (prev: Option<IfaceEntry>)
        ensures
            final(self)@ == old(self)@.remove(ifid),
            prev == (if old(self)@.contains_key(ifid) { Some(old(self)@[ifid]) } else { None }),
    {
        self.entries.remove(&ifid)
    }

    /// The entry of interface `ifid`.
    pub fn get(&self, ifid: u16) -> (e: Option<IfaceEntry>)
        ensures
            e == (if self@.contains_key(ifid) { Some(self@[ifid]) } else { None }),
    {
        match self.entries.get(&ifid) {
            Some(e) => Some(*e),
            None => None,
        }
    }

    /// The underlay next hop of interface `ifid`.
    pub fn next_hop(&self, ifid: u16) -> (a: Option<SockAddr>)
        ensures
            a == (if self@.contains_key(ifid) { Some(self@[ifid].next_hop) } else { None }),
    {
        match self.entries.get(&ifid) {
            Some(e) => Some(e.next_hop),
            None => None,
        }
    }

    /// One beacon per interface of the table, in the table's own order.
    pub fn beacon_msgs(&self) -> (msgs: Vec<BeaconMsg>)
        ensures
            announces(msgs@, self@),
    {
        let mut msgs: Vec<BeaconMsg> = Vec::new();
        let ghost m = self.entries@;
        let ghost all = vstd::std_specs::hash::spec_hash_map_iter(&self.entries).remaining();
        for (k, v) in it: self.entries.iter()
            invariant
                m == self.entries@,
                it.seq() == all,
                msgs.len() == it.index(),
                forall|i: int|
                    0 <= i < msgs.len() ==> #[trigger] msgs[i] == beacon_of_entry(
                        *it.seq()[i].0,
                        *it.seq()[i].1,
                    ),
        {
            msgs.push(BeaconMsg { ifid: *k, next_hop: v.next_hop, bind: v.bind });
        }
        proof {
            assert(msgs.len() == all.len());
            assert forall|i: int| 0 <= i < msgs.len() implies m.contains_key(#[trigger] msgs@[i].ifid)
                && msgs@[i] == beacon_of_entry(msgs@[i].ifid, m[msgs@[i].ifid]) by {
                assert(m.contains_key(*all[i].0) && m[*all[i].0] == *all[i].1);
            }
            assert forall|i: int, j: int|
                0 <= i < msgs.len() && 0 <= j < msgs.len() && i != j implies #[trigger] msgs@[i].ifid
                != #[trigger] msgs@[j].ifid by {
                if msgs@[i].ifid == msgs@[j].ifid {
                    assert(m.contains_key(*all[i].0) && m[*all[i].0] == *all[i].1);
                    assert(m.contains_key(*all[j].0) && m[*all[j].0] == *all[j].1);
                    assert(all[i] == all[j]);
                    assert(all.no_duplicates());
                }
            }
            assert forall|k: u16| #[trigger] m.contains_key(k) implies exists|i: int|
                0 <= i < msgs.len() && #[trigger] msgs@[i].ifid == k by {
                assert(all.contains((&k, &m[k])));
                let i = choose|i: int| 0 <= i < all.len() && all[i] == (&k, &m[k]);
                assert(msgs@[i].ifid == k);
            }
        }
        msgs
    }
}

/// Seconds between two beacon rounds: the configured interval, and at least
/// one second.
pub fn beacon_period_secs(interval_secs: u64) -> (secs: u64)
    ensures
        secs == (if interval_secs < 1 { 1 } else { interval_secs }),
{
    if interval_secs < 1 {
        1
    } else {
        interval_secs
    }
}

/// The entry learned from a beacon holds exactly the beacon's own addresses,
/// IPv4 and IPv6 alike, and the beacon announcing an entry carries exactly the
/// entry's addresses: nothing is rewritten on the way in or out.
pub proof fn lemma_beacon_addresses_kept(msg: BeaconMsg, ifid: u16, e: IfaceEntry)
    ensures
        entry_of_beacon(msg).next_hop == msg.next_hop,
        entry_of_beacon(msg).bind == msg.bind,
        beacon_of_entry(ifid, e).ifid == ifid,
        beacon_of_entry(ifid, e).next_hop == e.next_hop,
        beacon_of_entry(ifid, e).bind == e.bind,
        beacon_of_entry(msg.ifid, entry_of_beacon(msg)) == msg,
{
}

/// What a beacon taught the router, the router announces: once the entry of a
/// received beacon is in the table, the beacons sent from the table carry that
/// beacon again, once.
pub proof fn lemma_applied_beacon_is_announced(t: Map<u16, IfaceEntry>, msg: BeaconMsg, msgs: Seq<BeaconMsg>)
    requires
        announces(msgs, t.insert(msg.ifid, entry_of_beacon(msg))),
    ensures
        exists|i: int| 0 <= i < msgs.len() && msgs[i] == msg,
        forall|i: int, j: int|
            0 <= i < msgs.len() && 0 <= j < msgs.len() && msgs[i] == msg && msgs[j] == msg ==> i == j,
{
    let t2 = t.insert(msg.ifid, entry_of_beacon(msg));
    assert(t2.contains_key(msg.ifid));
    let i = choose|i: int| 0 <= i < msgs.len() && #[trigger] msgs[i].ifid == msg.ifid;
    assert(msgs[i] == beacon_of_entry(msgs[i].ifid, t2[msgs[i].ifid]));
    assert(msgs[i] == msg);
}

} // verus!

//! A SCION router prototype: parsing of SCION packet headers, the forwarding
//! decisions of the dataplane, the interface table filled by beacons, and the
//! values that the control-plane API answers with.
pub mod dataplane;
pub mod http_api;
pub mod iface;
pub mod routes;
pub mod scion;
pub mod text;

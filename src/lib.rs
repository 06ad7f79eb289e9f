//! Router Advertisement daemon core: the ICMPv6 Neighbor Discovery codec,
//! the control protocol, the advertised configuration and the scheduling
//! rules for unsolicited and solicited Router Advertisements.

pub mod advert;
pub mod control;
pub mod ndp;
pub mod scheduler;
pub mod state;
pub mod wire;

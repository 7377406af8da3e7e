//! Network-interface statistics: the ethtool counters of a NIC and of its
//! queues, the traffic-control counters of its queueing disciplines, and the
//! per-second rates between two snapshots of them.
//!
//! Nothing here touches a socket. The ioctl that reads a driver's
//! statistics and the decoder of netlink messages are handed in as
//! functions, the reads of a netlink socket as bytes; every decision taken
//! on what they give is a verified function.

pub mod dump;
pub mod ethtool;
pub mod model;
pub mod name_map;
pub mod status_bar;
pub mod tc;
pub mod text;

//! Ethernet layer: L2 header codec and the frame transport abstraction.
pub mod header;
pub mod transport;

pub use header::{EthError, EthHeader, EthHeaderView, MacAddr, ETHERTYPE_PROFINET, ETHERTYPE_VLAN};
pub use transport::{is_profinet_frame, EthTransport, MockTransport, TransportError};

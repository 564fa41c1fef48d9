//! Data models for NetworkManager connection profiles: saved settings
//! summaries, errors, and addresses with a prefix length in CIDR notation,
//! with verified reading and writing of IPv4 and IPv6 address text.

pub mod error;
pub mod ip_address;
pub mod ipv4;
pub mod ipv6;
pub mod redact;
pub mod saved_connection;
pub mod text;

pub use error::ConnectionError;
pub use ip_address::{AddrParseError, IntParseError, IpAddress, IpAddressParseError};
pub use ipv4::Ipv4Addr;
pub use ipv6::Ipv6Addr;
pub use redact::{redact_option, Redacted};
pub use saved_connection::{
    IpMethod, IpSettings, Route, SavedConnection, SavedConnectionBrief, SettingsPatch,
    SettingsSummary, VpnSecretFlags, WifiKeyMgmt, WifiSecuritySummary,
};

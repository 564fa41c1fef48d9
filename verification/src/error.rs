//! Errors of network operations.
use vstd::prelude::*;

use crate::ip_address::{ip_address_parse_error_text, IpAddressParseError};
use crate::text::{numeral, push_numeral};

verus! {

/// zbus's `Error`, a D-Bus error; opaque here and carried as is.
#[verifier::external_type_specification]
#[verifier::external_body]
pub struct ExZbusError(zbus::Error);

/// std's `str::Utf8Error`, invalid UTF-8 in a byte string; opaque here and
/// carried as is.
#[verifier::external_type_specification]
#[verifier::external_body]
pub struct ExUtf8Error(core::str::Utf8Error);

/// Errors that can occur during network operations.
#[non_exhaustive]
#[derive(Debug)]
pub enum ConnectionError {
    /// A D-Bus communication error occurred.
    Dbus(zbus::Error),
    /// The requested network was not found during scan.
    NotFound,
    /// Authentication with the access point failed (wrong password, rejected credentials).
    AuthFailed,
    /// The supplicant (wpa_supplicant) encountered a configuration error.
    SupplicantConfigFailed,
    /// The supplicant timed out during authentication.
    SupplicantTimeout,
    /// DHCP failed to obtain an IP address.
    DhcpFailed,
    /// The connection timed out waiting for activation.
    Timeout,
    /// The connection is stuck in an unexpected state.
    Stuck(String),
    /// No Wi-Fi device was found on the system.
    NoWifiDevice,
    /// No wired (ethernet) device was found on the system.
    NoWiredDevice,
    /// Wi-Fi device did not become ready in time.
    WifiNotReady,
    /// No saved connection exists for the requested network.
    NoSavedConnection,
    /// No saved profile with the given UUID.
    SavedConnectionNotFound(String),
    /// Saved profile settings are missing required keys or are inconsistent.
    MalformedSavedConnection(String),
    /// A public builder was missing a required field.
    IncompleteBuilder(String),
    /// NM's connectivity checks are disabled; `check_connectivity` cannot run.
    ConnectivityCheckDisabled,
    /// An empty password was provided for the requested network.
    MissingPassword,
    /// A general connection failure, with NetworkManager's device state reason code.
    DeviceFailed(u32),
    /// A connection activation failure, with NetworkManager's active connection state reason code.
    ActivationFailed(u32),
    /// Invalid UTF-8 encountered in SSID.
    InvalidUtf8(core::str::Utf8Error),
    /// No VPN connection found.
    NoVpnConnection,
    /// VPN connection not found by UUID or name.
    VpnNotFound(String),
    /// Multiple VPN connections share the same display name.
    VpnIdAmbiguous(String),
    /// Invalid IP address or CIDR notation.
    InvalidAddress(String),
    /// Invalid VPN peer configuration.
    InvalidPeers(String),
    /// Invalid WireGuard private key format.
    InvalidPrivateKey(String),
    /// Invalid WireGuard public key format.
    InvalidPublicKey(String),
    /// Invalid VPN gateway format (should be `host:port`).
    InvalidGateway(String),
    /// VPN connection failed.
    VpnFailed(String),
    /// Bluetooth device not found.
    NoBluetoothDevice,
    /// A D-Bus operation failed, with context about what was being attempted.
    DbusOperation {
        /// Human-readable description of the operation that failed.
        context: String,
        /// The underlying `zbus` error.
        source: zbus::Error,
    },
    /// Secret agent registration with NetworkManager failed.
    AgentRegistration {
        /// What went wrong during registration.
        context: String,
    },
    /// Operation requires a registered secret agent but none is active.
    AgentNotRegistered,
    /// A secret agent registration conflicts with another registered agent.
    AgentAlreadyRegistered,
    /// An error occurred while parsing a configuration, with its description.
    ParseError(String),
    /// Access point with the given SSID and BSSID was not found.
    ApBssidNotFound {
        /// SSID that was searched for.
        ssid: String,
        /// BSSID that was searched for.
        bssid: String,
    },
    /// Invalid BSSID format.
    InvalidBssid(String),
    /// Interface exists but is not a Wi-Fi device.
    NotAWifiDevice {
        /// The interface name that was checked.
        interface: String,
    },
    /// No Wi-Fi device with the given interface name.
    WifiInterfaceNotFound {
        /// The interface name that was searched for.
        interface: String,
    },
    /// A radio is hardware-disabled via rfkill.
    HardwareRadioKilled,
    /// The BlueZ Bluetooth stack is unavailable (not running or no adapters).
    BluezUnavailable(String),
    /// Bluetooth adapters exist but toggling them failed.
    BluetoothToggleFailed(String),
    /// A connection operation is already in progress.
    ConnectionInProgress,
    /// Invalid VLAN ID (must be 1-4094).
    InvalidVlanId {
        /// The invalid VLAN ID that was provided.
        id: u16,
    },
    /// Invalid input for a configuration field.
    InvalidInput {
        /// The field that was invalid.
        field: String,
        /// Why the input was invalid.
        reason: String,
    },
    /// No interface was found with the given name
    InterfaceNotFound(String),
    /// Invalid IP address with prefix.
    AddressParse(IpAddressParseError),
}

impl From<zbus::Error> for ConnectionError {
    fn from(value: zbus::Error) -> (e: Self)
        ensures
            e == ConnectionError::Dbus(value),
    {
        ConnectionError::Dbus(value)
    }
}

impl vstd::std_specs::convert::FromSpecImpl<zbus::Error> for ConnectionError {
    open spec fn obeys_from_spec() -> bool {
        true
    }

    open spec fn from_spec(v: zbus::Error) -> Self {
        ConnectionError::Dbus(v)
    }
}

impl From<core::str::Utf8Error> for ConnectionError {
    fn from(value: core::str::Utf8Error) -> (e: Self)
        ensures
            e == ConnectionError::InvalidUtf8(value),
    {
        ConnectionError::InvalidUtf8(value)
    }
}

impl vstd::std_specs::convert::FromSpecImpl<core::str::Utf8Error> for ConnectionError {
    open spec fn obeys_from_spec() -> bool {
        true
    }

    open spec fn from_spec(v: core::str::Utf8Error) -> Self {
        ConnectionError::InvalidUtf8(v)
    }
}

impl From<IpAddressParseError> for ConnectionError {
    fn from(value: IpAddressParseError) -> (e: Self)
        ensures
            e == ConnectionError::AddressParse(value),
    {
        ConnectionError::AddressParse(value)
    }
}

impl vstd::std_specs::convert::FromSpecImpl<IpAddressParseError> for ConnectionError {
    open spec fn obeys_from_spec() -> bool {
        true
    }

    open spec fn from_spec(v: IpAddressParseError) -> Self {
        ConnectionError::AddressParse(v)
    }
}


/// Converting an error into a `ConnectionError` keeps it unchanged, as the
/// matching variant.
pub proof fn lemma_into_connection_error(
    p: IpAddressParseError,
    d: zbus::Error,
    u: core::str::Utf8Error,
)
    ensures
        <ConnectionError as vstd::std_specs::convert::FromSpec<IpAddressParseError>>::obeys_from_spec(),
        <ConnectionError as vstd::std_specs::convert::FromSpec<IpAddressParseError>>::from_spec(p)
            == ConnectionError::AddressParse(p),
        <ConnectionError as vstd::std_specs::convert::FromSpec<zbus::Error>>::obeys_from_spec(),
        <ConnectionError as vstd::std_specs::convert::FromSpec<zbus::Error>>::from_spec(d)
            == ConnectionError::Dbus(d),
        <ConnectionError as vstd::std_specs::convert::FromSpec<core::str::Utf8Error>>::obeys_from_spec(),
        <ConnectionError as vstd::std_specs::convert::FromSpec<core::str::Utf8Error>>::from_spec(u)
            == ConnectionError::InvalidUtf8(u),
{
}

/// The message of an error, where the error's own data determines it;
/// `None` for the errors whose text comes from the `Display` of an outside
/// error (`Dbus`, `DbusOperation`, `InvalidUtf8`) or of a state reason that
/// this crate holds only as its numeric code (`DeviceFailed`,
/// `ActivationFailed`).
pub open spec fn connection_error_text(e: ConnectionError) -> Option<Seq<char>> {
    match e {
        ConnectionError::Dbus(..) => None,
        ConnectionError::NotFound => Some("network not found"@),
        ConnectionError::AuthFailed => Some("authentication failed"@),
        ConnectionError::SupplicantConfigFailed => Some("supplicant configuration failed"@),
        ConnectionError::SupplicantTimeout => Some("supplicant timeout"@),
        ConnectionError::DhcpFailed => Some("DHCP failed"@),
        ConnectionError::Timeout => Some("connection timeout"@),
        ConnectionError::Stuck(detail) => Some("connection stuck in state: "@ + detail@),
        ConnectionError::NoWifiDevice => Some("no Wi-Fi device found"@),
        ConnectionError::NoWiredDevice => Some("no wired device was found"@),
        ConnectionError::WifiNotReady => Some("Wi-Fi device not ready"@),
        ConnectionError::NoSavedConnection => Some("no saved connection for network"@),
        ConnectionError::SavedConnectionNotFound(detail) => Some("saved connection '"@ + detail@ + "' not found"@),
        ConnectionError::MalformedSavedConnection(detail) => Some("saved connection malformed: "@ + detail@),
        ConnectionError::IncompleteBuilder(detail) => Some("incomplete builder: "@ + detail@),
        ConnectionError::ConnectivityCheckDisabled => Some("connectivity checks are disabled in NetworkManager"@),
        ConnectionError::MissingPassword => Some("no password was provided"@),
        ConnectionError::DeviceFailed(..) => None,
        ConnectionError::ActivationFailed(..) => None,
        ConnectionError::InvalidUtf8(..) => None,
        ConnectionError::NoVpnConnection => Some("no VPN connection found"@),
        ConnectionError::VpnNotFound(detail) => Some("VPN connection '"@ + detail@ + "' not found"@),
        ConnectionError::VpnIdAmbiguous(detail) => Some("multiple VPN connections named '"@ + detail@ + "', use UUID"@),
        ConnectionError::InvalidAddress(detail) => Some("invalid address: "@ + detail@),
        ConnectionError::InvalidPeers(detail) => Some("invalid peer configuration: "@ + detail@),
        ConnectionError::InvalidPrivateKey(detail) => Some("invalid WireGuard private key: "@ + detail@),
        ConnectionError::InvalidPublicKey(detail) => Some("invalid WireGuard public key: "@ + detail@),
        ConnectionError::InvalidGateway(detail) => Some("invalid VPN gateway: "@ + detail@),
        ConnectionError::VpnFailed(detail) => Some("VPN connection failed: "@ + detail@),
        ConnectionError::NoBluetoothDevice => Some("Bluetooth device not found"@),
        ConnectionError::DbusOperation { .. } => None,
        ConnectionError::AgentRegistration { context } => Some("secret agent registration failed: "@ + context@),
        ConnectionError::AgentNotRegistered => Some("secret agent not registered"@),
        ConnectionError::AgentAlreadyRegistered => Some("secret agent registration conflict"@),
        ConnectionError::ParseError(detail) => Some("error while parsing a configuration: "@ + detail@),
        ConnectionError::ApBssidNotFound { ssid, bssid } => Some("access point for SSID '"@ + ssid@ + "' with BSSID '"@ + bssid@ + "' not found"@),
        ConnectionError::InvalidBssid(detail) => Some("invalid BSSID format: '"@ + detail@ + "' (expected XX:XX:XX:XX:XX:XX)"@),
        ConnectionError::NotAWifiDevice { interface } => Some("interface '"@ + interface@ + "' is not a Wi-Fi device"@),
        ConnectionError::WifiInterfaceNotFound { interface } => Some("no Wi-Fi device named '"@ + interface@ + "'"@),
        ConnectionError::HardwareRadioKilled => Some("radio is hardware-disabled (rfkill)"@),
        ConnectionError::BluezUnavailable(detail) => Some("bluetooth stack unavailable: "@ + detail@),
        ConnectionError::BluetoothToggleFailed(detail) => Some("bluetooth toggle failed: "@ + detail@),
        ConnectionError::ConnectionInProgress => Some("a connection operation is already in progress"@),
        ConnectionError::InvalidVlanId { id } => Some("invalid VLAN ID "@ + numeral(id as nat, 10) + ": must be between 1 and 4094"@),
        ConnectionError::InvalidInput { field, reason } => Some("invalid "@ + field@ + ": "@ + reason@),
        ConnectionError::InterfaceNotFound(detail) => Some("no interface named '"@ + detail@ + "'"@),
        ConnectionError::AddressParse(detail) => Some("invalid IP address: "@ + ip_address_parse_error_text(detail)),
    }
}

impl ConnectionError {
    /// The error's message, where its own data determines it (see
    /// [`connection_error_text`]).
    pub fn message(&self) -> (t: Option<String>)
        ensures
            match t {
                Some(t) => connection_error_text(*self) == Some(t@),
                None => connection_error_text(*self) is None,
            },
    {
        match self {
            ConnectionError::Dbus(..) => None,
            ConnectionError::NotFound => Some(String::from_str("network not found")),
            ConnectionError::AuthFailed => Some(String::from_str("authentication failed")),
            ConnectionError::SupplicantConfigFailed => Some(String::from_str("supplicant configuration failed")),
            ConnectionError::SupplicantTimeout => Some(String::from_str("supplicant timeout")),
            ConnectionError::DhcpFailed => Some(String::from_str("DHCP failed")),
            ConnectionError::Timeout => Some(String::from_str("connection timeout")),
            ConnectionError::Stuck(detail) => {
                let mut t = String::from_str("connection stuck in state: ");
                t.append(detail.as_str());
                Some(t)
            },
            ConnectionError::NoWifiDevice => Some(String::from_str("no Wi-Fi device found")),
            ConnectionError::NoWiredDevice => Some(String::from_str("no wired device was found")),
            ConnectionError::WifiNotReady => Some(String::from_str("Wi-Fi device not ready")),
            ConnectionError::NoSavedConnection => Some(String::from_str("no saved connection for network")),
            ConnectionError::SavedConnectionNotFound(detail) => {
                let mut t = String::from_str("saved connection '");
                t.append(detail.as_str());
                t.append("' not found");
                Some(t)
            },
            ConnectionError::MalformedSavedConnection(detail) => {
                let mut t = String::from_str("saved connection malformed: ");
                t.append(detail.as_str());
                Some(t)
            },
            ConnectionError::IncompleteBuilder(detail) => {
                let mut t = String::from_str("incomplete builder: ");
                t.append(detail.as_str());
                Some(t)
            },
            ConnectionError::ConnectivityCheckDisabled => Some(String::from_str("connectivity checks are disabled in NetworkManager")),
            ConnectionError::MissingPassword => Some(String::from_str("no password was provided")),
            ConnectionError::DeviceFailed(..) => None,
            ConnectionError::ActivationFailed(..) => None,
            ConnectionError::InvalidUtf8(..) => None,
            ConnectionError::NoVpnConnection => Some(String::from_str("no VPN connection found")),
            ConnectionError::VpnNotFound(detail) => {
                let mut t = String::from_str("VPN connection '");
                t.append(detail.as_str());
                t.append("' not found");
                Some(t)
            },
            ConnectionError::VpnIdAmbiguous(detail) => {
                let mut t = String::from_str("multiple VPN connections named '");
                t.append(detail.as_str());
                t.append("', use UUID");
                Some(t)
            },
            ConnectionError::InvalidAddress(detail) => {
                let mut t = String::from_str("invalid address: ");
                t.append(detail.as_str());
                Some(t)
            },
            ConnectionError::InvalidPeers(detail) => {
                let mut t = String::from_str("invalid peer configuration: ");
                t.append(detail.as_str());
                Some(t)
            },
            ConnectionError::InvalidPrivateKey(detail) => {
                let mut t = String::from_str("invalid WireGuard private key: ");
                t.append(detail.as_str());
                Some(t)
            },
            ConnectionError::InvalidPublicKey(detail) => {
                let mut t = String::from_str("invalid WireGuard public key: ");
                t.append(detail.as_str());
                Some(t)
            },
            ConnectionError::InvalidGateway(detail) => {
                let mut t = String::from_str("invalid VPN gateway: ");
                t.append(detail.as_str());
                Some(t)
            },
            ConnectionError::VpnFailed(detail) => {
                let mut t = String::from_str("VPN connection failed: ");
                t.append(detail.as_str());
                Some(t)
            },
            ConnectionError::NoBluetoothDevice => Some(String::from_str("Bluetooth device not found")),
            ConnectionError::DbusOperation { .. } => None,
            ConnectionError::AgentRegistration { context } => {
                let mut t = String::from_str("secret agent registration failed: ");
                t.append(context.as_str());
                Some(t)
            },
            ConnectionError::AgentNotRegistered => Some(String::from_str("secret agent not registered")),
            ConnectionError::AgentAlreadyRegistered => Some(String::from_str("secret agent registration conflict")),
            ConnectionError::ParseError(detail) => {
                let mut t = String::from_str("error while parsing a configuration: ");
                t.append(detail.as_str());
                Some(t)
            },
            ConnectionError::ApBssidNotFound { ssid, bssid } => {
                let mut t = String::from_str("access point for SSID '");
                t.append(ssid.as_str());
                t.append("' with BSSID '");
                t.append(bssid.as_str());
                t.append("' not found");
                Some(t)
            },
            ConnectionError::InvalidBssid(detail) => {
                let mut t = String::from_str("invalid BSSID format: '");
                t.append(detail.as_str());
                t.append("' (expected XX:XX:XX:XX:XX:XX)");
                Some(t)
            },
            ConnectionError::NotAWifiDevice { interface } => {
                let mut t = String::from_str("interface '");
                t.append(interface.as_str());
                t.append("' is not a Wi-Fi device");
                Some(t)
            },
            ConnectionError::WifiInterfaceNotFound { interface } => {
                let mut t = String::from_str("no Wi-Fi device named '");
                t.append(interface.as_str());
                t.append("'");
                Some(t)
            },
            ConnectionError::HardwareRadioKilled => Some(String::from_str("radio is hardware-disabled (rfkill)")),
            ConnectionError::BluezUnavailable(detail) => {
                let mut t = String::from_str("bluetooth stack unavailable: ");
                t.append(detail.as_str());
                Some(t)
            },
            ConnectionError::BluetoothToggleFailed(detail) => {
                let mut t = String::from_str("bluetooth toggle failed: ");
                t.append(detail.as_str());
                Some(t)
            },
            ConnectionError::ConnectionInProgress => Some(String::from_str("a connection operation is already in progress")),
            ConnectionError::InvalidVlanId { id } => {
                let mut t = String::from_str("invalid VLAN ID ");
                push_numeral(&mut t, *id as u32, 10);
                t.append(": must be between 1 and 4094");
                Some(t)
            },
            ConnectionError::InvalidInput { field, reason } => {
                let mut t = String::from_str("invalid ");
                t.append(field.as_str());
                t.append(": ");
                t.append(reason.as_str());
                Some(t)
            },
            ConnectionError::InterfaceNotFound(detail) => {
                let mut t = String::from_str("no interface named '");
                t.append(detail.as_str());
                t.append("'");
                Some(t)
            },
            ConnectionError::AddressParse(detail) => {
                let mut t = String::from_str("invalid IP address: ");
                let m = detail.message();
                t.append(m.as_str());
                Some(t)
            },
        }
    }
}

} // verus!

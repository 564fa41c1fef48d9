//! Saved NetworkManager connection profiles with decoded settings summaries.
//!
//! Secrets (PSK, EAP passwords, VPN tokens) are not included in
//! [`SavedConnection`]: NetworkManager only hands them to a registered secret
//! agent.
use std::collections::HashMap;

use vstd::prelude::*;
use zvariant::{OwnedObjectPath, OwnedValue};

use crate::ip_address::IpAddress;
use crate::ipv4::Ipv4Addr;
use crate::ipv6::Ipv6Addr;
use crate::text::str_eq;

verus! {

/// zvariant's `OwnedObjectPath`, a D-Bus object path; opaque here and
/// carried as is.
#[verifier::external_type_specification]
#[verifier::external_body]
pub struct ExOwnedObjectPath(zvariant::OwnedObjectPath);

/// zvariant's `OwnedObjectPath::clone`, which zvariant derives and which
/// does not panic; nothing is claimed of the copy, as the type is opaque here.
pub assume_specification[ <zvariant::OwnedObjectPath as Clone>::clone ](
    p: &zvariant::OwnedObjectPath,
) -> zvariant::OwnedObjectPath;

/// zvariant's `OwnedValue`, a D-Bus value; opaque here and carried as is.
#[verifier::external_type_specification]
#[verifier::external_body]
pub struct ExOwnedValue(zvariant::OwnedValue);

/// Full saved profile with a structured [`SettingsSummary`].
#[non_exhaustive]
#[derive(Debug, Clone)]
pub struct SavedConnection {
    /// D-Bus object path of the settings connection.
    pub path: OwnedObjectPath,
    /// Connection UUID (`connection.uuid`).
    pub uuid: String,
    /// Human-visible name (`connection.id`).
    pub id: String,
    /// NM connection type string (`connection.type`), e.g. `802-11-wireless`.
    pub connection_type: String,
    /// Bound interface, if any (`connection.interface-name`).
    pub interface_name: Option<String>,
    /// Whether NM may auto-activate this profile (`connection.autoconnect`).
    pub autoconnect: bool,
    /// Autoconnect priority (`connection.autoconnect-priority`).
    pub autoconnect_priority: i32,
    /// Last activation time as Unix seconds (`connection.timestamp`), or `0` if never.
    pub timestamp_unix: u64,
    /// `connection.permissions` user strings, if present.
    pub permissions: Vec<String>,
    /// In-memory-only profile not yet written to disk.
    pub unsaved: bool,
    /// On-disk keyfile path when saved.
    pub filename: Option<String>,
    /// Decoded type-specific fields (no secrets).
    pub summary: SettingsSummary,
    /// IPv4 specific settings.
    pub ipv4: Option<IpSettings<Ipv4Addr>>,
    /// IPv6 specific settings.
    pub ipv6: Option<IpSettings<Ipv6Addr>>,
}

/// Cheap listing: path plus `connection` identity fields only.
#[non_exhaustive]
#[derive(Debug, Clone)]
pub struct SavedConnectionBrief {
    /// D-Bus object path.
    pub path: OwnedObjectPath,
    /// `connection.uuid`.
    pub uuid: String,
    /// `connection.id`.
    pub id: String,
    /// `connection.type`.
    pub connection_type: String,
}

/// Partial update of a saved profile.
#[non_exhaustive]
#[derive(Debug, Default, Clone)]
pub struct SettingsPatch {
    /// When `Some`, sets `connection.autoconnect`.
    pub autoconnect: Option<bool>,
    /// When `Some`, sets `connection.autoconnect-priority`.
    pub autoconnect_priority: Option<i32>,
    /// When `Some`, sets `connection.id`.
    pub id: Option<String>,
    /// `Some(Some(name))` sets `interface-name`; `Some(None)` clears it (best-effort empty string).
    pub interface_name: Option<Option<String>>,
    /// Merged after the fields above; section → key → value. Overwrites keys present.
    pub raw_overlay: Option<HashMap<String, HashMap<String, OwnedValue>>>,
}

/// NM `password-flags` / `psk-flags` style bitmask (subset used for summaries).
#[non_exhaustive]
#[derive(Debug, Clone, Copy, Default, PartialEq, Eq, Hash)]
pub struct VpnSecretFlags(pub u32);

impl VpnSecretFlags {
    /// `NM_SETTING_SECRET_FLAG_AGENT_OWNED`.
    pub const AGENT_OWNED: u32 = 0x1;

    /// True if the secret is expected to be provided by an agent.
    #[must_use]
    pub fn agent_owned(self) -> (owned: bool)
        ensures
            owned == (self.0 & Self::AGENT_OWNED != 0),
            owned == (self.0 % 2 == 1),
    {
        let flags = self.0;
        assert((flags & 1u32 != 0) == (flags % 2 == 1)) by (bit_vector);
        flags & Self::AGENT_OWNED != 0
    }
}

/// Wi-Fi key management style from `802-11-wireless-security.key-mgmt`.
#[non_exhaustive]
#[derive(Debug, Clone, Copy, PartialEq, Eq, Hash)]
pub enum WifiKeyMgmt {
    /// Open or no key management string.
    Open,
    /// WEP (legacy).
    Wep,
    /// WPA-PSK (`wpa-psk`, `wpa-none`, …).
    WpaPsk,
    /// WPA-EAP / 802.1X.
    WpaEap,
    /// SAE (WPA3-Personal).
    Sae,
    /// OWE.
    Owe,
    /// OWE transition mode.
    OweTransitionMode,
}

/// Non-secret Wi-Fi security hints for UI / filtering.
#[non_exhaustive]
#[derive(Debug, Clone, PartialEq, Eq)]
pub struct WifiSecuritySummary {
    /// Derived key management style.
    pub key_mgmt: WifiKeyMgmt,
    /// `psk` key exists in non-secret settings.
    pub has_psk_field: bool,
    /// `psk-flags` has [`VpnSecretFlags::AGENT_OWNED`].
    pub psk_agent_owned: bool,
    /// EAP method names from `802-1x.eap`.
    pub eap_methods: Vec<String>,
}

/// Decoded summary for the connection `type` (and related sections).
#[allow(inconsistent_fields)]
#[non_exhaustive]
#[derive(Debug, Clone)]
pub enum SettingsSummary {
    /// `802-11-wireless`: SSID and security hints (no PSK / EAP secrets).
    Wifi {
        /// Decoded SSID (hidden networks may be empty).
        ssid: String,
        /// `mode` string from settings: `infrastructure`, `ap`, `adhoc`, …
        mode: Option<String>,
        /// Present when a security block exists (`802-11-wireless-security` / `802-1x`).
        security: Option<WifiSecuritySummary>,
        /// `band` if set (`a` / `bg`).
        band: Option<String>,
        /// `channel` if set.
        channel: Option<u32>,
        /// `bssid` MAC string if set.
        bssid: Option<String>,
        /// `hidden` property.
        hidden: bool,
        /// `mac-address-randomization` if set.
        mac_randomization: Option<String>,
    },
    /// `802-3-ethernet`.
    Ethernet {
        /// `mac-address` string if set.
        mac_address: Option<String>,
        /// `auto-negotiate`.
        auto_negotiate: Option<bool>,
        /// `speed` in Mbps.
        speed_mbps: Option<u32>,
        /// `mtu`.
        mtu: Option<u32>,
    },
    /// Generic `vpn` connection (non-WireGuard service types).
    Vpn {
        /// `vpn.service-type` (e.g. OpenVPN plugin name).
        service_type: String,
        /// `vpn.user-name`.
        user_name: Option<String>,
        /// `vpn.password-flags`.
        password_flags: VpnSecretFlags,
        /// Keys present in `vpn.data` (values omitted).
        data_keys: Vec<String>,
        /// `vpn.persistent` when present.
        persistent: bool,
    },
    /// Native WireGuard or VPN plugin pointing at WireGuard.
    WireGuard {
        /// `listen-port`.
        listen_port: Option<u16>,
        /// `mtu`.
        mtu: Option<u32>,
        /// `fwmark`.
        fwmark: Option<u32>,
        /// Number of peer dicts under `wireguard.peers`.
        peer_count: usize,
        /// `endpoint` of the first peer, if any.
        first_peer_endpoint: Option<String>,
    },
    /// `gsm` mobile broadband.
    Gsm {
        /// `apn`.
        apn: Option<String>,
        /// `username`.
        user_name: Option<String>,
        /// `password-flags`.
        password_flags: u32,
        /// `pin-flags`.
        pin_flags: u32,
    },
    /// `cdma` mobile broadband.
    Cdma {
        /// `number`.
        number: Option<String>,
        /// `username`.
        user_name: Option<String>,
        /// `password-flags`.
        password_flags: u32,
    },
    /// `bluetooth`.
    Bluetooth {
        /// Bluetooth MAC / bdaddr.
        bdaddr: String,
        /// `type` (`panu`, `dun`, …).
        bt_type: String,
    },
    /// Any other `connection.type`: lists settings section names only.
    Other {
        /// Keys from the top-level settings dict (`connection`, `ipv4`, …).
        sections: Vec<String>,
    },
}

/// A static route of an `ipv4` / `ipv6` settings section.
#[derive(Debug, Clone, PartialEq, Eq)]
pub struct Route {
    /// Destination network address.
    pub dest: String,
    /// Destination prefix length.
    pub prefix: u32,
    /// Gateway to reach the destination through, if any.
    pub next_hop: Option<String>,
    /// Route metric, if set.
    pub metric: Option<u32>,
}

/// Settings from the ipv4/6 section.
#[derive(Debug, Clone)]
#[non_exhaustive]
pub struct IpSettings<A> {
    /// The method by which the connection obtains its IP address for this protocol.
    pub method: IpMethod,
    /// The list of IP addresses.
    pub address_data: Vec<IpAddress<A>>,
    /// The gateway associated with this protocol configuration.
    pub gateway: Option<A>,
    /// The list of DNS search domains.
    pub dns_search: Vec<String>,
    /// The list of IP routes.
    pub route_data: Vec<Route>,
    /// If true, this connection will never be assigned the default route.
    pub never_default: bool,
    /// Ignore the automatically configured DNS servers, and only use the saved configuration.
    pub ignore_auto_dns: bool,
}

/// How the connection obtains its IP address.
#[derive(Debug, Clone)]
pub enum IpMethod {
    /// IP configuration is automatically defined according to the hardware interface.
    Auto,
    /// IP configuration is manually specified in the connection settings.
    Manual,
    /// The connection does not use or require an IP address of this type.
    Disabled,
    /// The connection should only be configured for link-local operation.
    LinkLocal,
    /// Allows other devices to connect through this device to the default network.
    Shared,
    /// IP configuration is ignored for this protocol
    Ignore,
    /// Unknown method
    Other(String),
}

/// The method name `auto`.
pub open spec fn name_auto() -> Seq<char> {
    seq!['a', 'u', 't', 'o']
}

/// The method name `manual`.
pub open spec fn name_manual() -> Seq<char> {
    seq!['m', 'a', 'n', 'u', 'a', 'l']
}

/// The method name `disabled`.
pub open spec fn name_disabled() -> Seq<char> {
    seq!['d', 'i', 's', 'a', 'b', 'l', 'e', 'd']
}

/// The method name `link-local`.
pub open spec fn name_link_local() -> Seq<char> {
    seq!['l', 'i', 'n', 'k', '-', 'l', 'o', 'c', 'a', 'l']
}

/// The method name `shared`.
pub open spec fn name_shared() -> Seq<char> {
    seq!['s', 'h', 'a', 'r', 'e', 'd']
}

/// The method name `ignore`.
pub open spec fn name_ignore() -> Seq<char> {
    seq!['i', 'g', 'n', 'o', 'r', 'e']
}

/// The method that a `method` string of NM settings names; any other string
/// is kept as `Other`.
pub open spec fn spec_ip_method(value: String) -> IpMethod {
    if value@ == name_auto() {
        IpMethod::Auto
    } else if value@ == name_manual() {
        IpMethod::Manual
    } else if value@ == name_disabled() {
        IpMethod::Disabled
    } else if value@ == name_link_local() {
        IpMethod::LinkLocal
    } else if value@ == name_shared() {
        IpMethod::Shared
    } else if value@ == name_ignore() {
        IpMethod::Ignore
    } else {
        IpMethod::Other(value)
    }
}

impl From<String> for IpMethod {
    fn from(value: String) -> (m: Self) {
        proof {
            reveal_strlit("auto");
            reveal_strlit("manual");
            reveal_strlit("disabled");
            reveal_strlit("link-local");
            reveal_strlit("shared");
            reveal_strlit("ignore");
            assert("auto"@ =~= name_auto());
            assert("manual"@ =~= name_manual());
            assert("disabled"@ =~= name_disabled());
            assert("link-local"@ =~= name_link_local());
            assert("shared"@ =~= name_shared());
            assert("ignore"@ =~= name_ignore());
        }
        let m = {
            let v = value.as_str();
            if str_eq(v, "auto") {
                Some(IpMethod::Auto)
            } else if str_eq(v, "manual") {
                Some(IpMethod::Manual)
            } else if str_eq(v, "disabled") {
                Some(IpMethod::Disabled)
            } else if str_eq(v, "link-local") {
                Some(IpMethod::LinkLocal)
            } else if str_eq(v, "shared") {
                Some(IpMethod::Shared)
            } else if str_eq(v, "ignore") {
                Some(IpMethod::Ignore)
            } else {
                None
            }
        };
        match m {
            Some(m) => m,
            None => IpMethod::Other(value),
        }
    }
}

impl vstd::std_specs::convert::FromSpecImpl<String> for IpMethod {
    open spec fn obeys_from_spec() -> bool {
        true
    }

    open spec fn from_spec(v: String) -> Self {
        spec_ip_method(v)
    }
}

} // verus!

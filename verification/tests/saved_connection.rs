use nmrs::{redact_option, IpMethod, Redacted, SettingsPatch, VpnSecretFlags};

fn flags(bits: u32) -> VpnSecretFlags {
    let mut f = VpnSecretFlags::default();
    f.0 = bits;
    f
}

#[test]
fn agent_owned_flag() {
    assert!(!flags(0).agent_owned());
    assert!(flags(1).agent_owned());
    assert!(flags(3).agent_owned());
    assert!(!flags(2).agent_owned());
    assert!(flags(VpnSecretFlags::AGENT_OWNED).agent_owned());
    assert_eq!(VpnSecretFlags::default(), flags(0));
}

#[test]
fn ip_method_from_known_names() {
    assert!(matches!(IpMethod::from("auto".to_string()), IpMethod::Auto));
    assert!(matches!(IpMethod::from("manual".to_string()), IpMethod::Manual));
    assert!(matches!(IpMethod::from("disabled".to_string()), IpMethod::Disabled));
    assert!(matches!(IpMethod::from("link-local".to_string()), IpMethod::LinkLocal));
    assert!(matches!(IpMethod::from("shared".to_string()), IpMethod::Shared));
    assert!(matches!(IpMethod::from("ignore".to_string()), IpMethod::Ignore));
}

#[test]
fn ip_method_keeps_unknown_names() {
    match IpMethod::from("dhcp".to_string()) {
        IpMethod::Other(s) => assert_eq!(s, "dhcp"),
        other => panic!("unexpected {:?}", other),
    }
    match IpMethod::from("Auto".to_string()) {
        IpMethod::Other(s) => assert_eq!(s, "Auto"),
        other => panic!("unexpected {:?}", other),
    }
    assert!(matches!(IpMethod::from(String::new()), IpMethod::Other(s) if s.is_empty()));
}

#[test]
fn redact_option_keeps_presence_only() {
    assert!(redact_option(&Some("secret".to_string())) == Some(Redacted));
    assert!(redact_option::<String>(&None).is_none());
    assert_eq!(Redacted.to_debug_string(), "[REDACTED]");
}

#[test]
fn settings_patch_default_is_empty() {
    let p = SettingsPatch::default();
    assert!(p.autoconnect.is_none());
    assert!(p.autoconnect_priority.is_none());
    assert!(p.id.is_none());
    assert!(p.interface_name.is_none());
    assert!(p.raw_overlay.is_none());
}

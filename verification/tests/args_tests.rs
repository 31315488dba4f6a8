use wirecage::args::{classify_user, parse_peer, Args, ConfigError, UserSpec};

fn base_args() -> Args {
    Args {
        tun: "wirecage".to_string(),
        subnet: "10.1.2.100/24".to_string(),
        gateway: "10.1.2.1".to_string(),
        uid: 0,
        gid: 0,
        user: None,
        no_overlay: false,
        log_level: "info".to_string(),
        wg_public_key: "pk".to_string(),
        wg_private_key_file: "/tmp/key".to_string(),
        wg_endpoint: "203.0.113.9:51820".to_string(),
        wg_address: "10.7.0.2".to_string(),
        command: Vec::new(),
    }
}

#[test]
fn validate_accepts_complete_args() {
    assert_eq!(base_args().validate(), Ok(()));
}

#[test]
fn validate_reports_the_first_missing_flag() {
    let mut a = base_args();
    a.wg_endpoint = String::new();
    assert_eq!(a.validate(), Err(ConfigError::MissingEndpoint));

    let mut a = base_args();
    a.wg_public_key = String::new();
    assert_eq!(a.validate(), Err(ConfigError::MissingPublicKey));

    let mut a = base_args();
    a.wg_private_key_file = String::new();
    assert_eq!(a.validate(), Err(ConfigError::MissingPrivateKeyFile));

    let mut a = base_args();
    a.wg_endpoint = String::new();
    a.wg_public_key = String::new();
    assert_eq!(a.validate(), Err(ConfigError::MissingEndpoint));
}

#[test]
fn command_defaults_to_a_shell() {
    assert_eq!(base_args().get_command(), vec!["/bin/sh".to_string()]);
    let mut a = base_args();
    a.command = vec!["ping".to_string(), "10.7.0.1".to_string()];
    assert_eq!(a.get_command(), vec!["ping".to_string(), "10.7.0.1".to_string()]);
}

#[test]
fn user_argument_is_id_or_name() {
    assert!(matches!(classify_user(&None), UserSpec::Current));
    assert!(matches!(classify_user(&Some("1000".to_string())), UserSpec::ById(1000)));
    match classify_user(&Some("alice".to_string())) {
        UserSpec::ByName(n) => assert_eq!(n, "alice"),
        _ => panic!("expected a name"),
    }
    assert!(matches!(classify_user(&Some("0".to_string())), UserSpec::ById(0)));
}

#[test]
fn parse_peer_wants_exactly_one_comma() {
    let pc = parse_peer("AAAA,10.7.0.2/32").unwrap();
    assert_eq!(pc.public_key, "AAAA");
    assert_eq!(pc.allowed_ips, vec!["10.7.0.2/32".to_string()]);
    assert!(parse_peer("AAAA").is_err());
    assert!(parse_peer("A,B,C").is_err());
    assert!(parse_peer("").is_err());
    let pc = parse_peer(",").unwrap();
    assert_eq!(pc.public_key, "");
    assert_eq!(pc.allowed_ips, vec!["".to_string()]);
}

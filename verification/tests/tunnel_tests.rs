use base64::Engine;
use boringtun::x25519::{PublicKey, StaticSecret};
use wirecage::args::PeerConfig;
use wirecage::client::{client_from_config, ClientSetupError, ClientTunnel, RecvOutcome, SendOutcome};
use wirecage::ip::{Addr, Endpoint};
use wirecage::keys::load_key;
use wirecage::peers::{build_peer_table, DispatchOutcome, OutboundOutcome, PeerBuildError, PeerTable};

fn b64(b: &[u8]) -> String {
    base64::engine::general_purpose::STANDARD.encode(b)
}

fn keypair(seed: u8) -> ([u8; 32], [u8; 32]) {
    let secret = StaticSecret::from([seed; 32]);
    let public = PublicKey::from(&secret);
    (secret.to_bytes(), *public.as_bytes())
}

/// A minimal well-formed IPv4 packet, as the engine insists on one.
fn ip_packet(src: [u8; 4], dst: [u8; 4], payload: &[u8]) -> Vec<u8> {
    let total = 20 + payload.len();
    let mut p = vec![0u8; total];
    p[0] = 0x45;
    p[2] = (total >> 8) as u8;
    p[3] = (total & 0xff) as u8;
    p[8] = 64;
    p[9] = 1;
    p[12..16].copy_from_slice(&src);
    p[16..20].copy_from_slice(&dst);
    p[20..].copy_from_slice(payload);
    p
}

fn ep(a: [u8; 4], port: u16) -> Endpoint {
    Endpoint { addr: Addr::V4(u32::from_be_bytes(a)), port }
}

/// Builds a connected client/server pair and completes the handshake.
fn established() -> (ClientTunnel, PeerTable, Endpoint) {
    let (c_priv, c_pub) = keypair(0x11);
    let (s_priv, s_pub) = keypair(0x22);
    let client_res = client_from_config(
        b64(&c_priv).as_bytes(),
        b64(&s_pub).as_bytes(),
        b"203.0.113.1:51820",
    );
    let mut client = match client_res {
        Ok(c) => c,
        Err(_) => panic!("client setup failed"),
    };
    let s_key = load_key(b64(&s_priv).as_bytes()).unwrap();
    let cfgs = vec![PeerConfig {
        public_key: b64(&c_pub),
        allowed_ips: vec!["10.7.0.2/32".to_string()],
    }];
    let mut table = match build_peer_table(&s_key, &cfgs) {
        Ok(t) => t,
        Err(_) => panic!("peer table build failed"),
    };
    let client_ep = ep([198, 51, 100, 7], 40000);

    let ping = ip_packet([10, 7, 0, 2], [10, 7, 0, 1], b"hello");
    let init = match client.prepare_send(&ping) {
        SendOutcome::Transmit(d) => d,
        _ => panic!("expected a handshake initiation"),
    };
    let resp = match table.handle_datagram(&init, client_ep) {
        DispatchOutcome::Reply(d) => d,
        _ => panic!("expected a handshake response"),
    };
    let keepalive = match client.process_recv(&resp) {
        RecvOutcome::Reply(d) => d,
        _ => panic!("expected a keepalive after the response"),
    };
    match table.handle_datagram(&keepalive, client_ep) {
        DispatchOutcome::Consumed => {}
        _ => panic!("expected the keepalive to be consumed"),
    }
    (client, table, client_ep)
}

#[test]
fn handshake_then_round_trip() {
    let (mut client, mut table, client_ep) = established();
    let ping = ip_packet([10, 7, 0, 2], [10, 7, 0, 1], b"hello");
    let ct = match client.prepare_send(&ping) {
        SendOutcome::Transmit(d) => d,
        _ => panic!("expected transport data"),
    };
    assert_ne!(ct, ping);
    let plain = match table.handle_datagram(&ct, client_ep) {
        DispatchOutcome::ToTunnel(d) => d,
        _ => panic!("expected decrypted plaintext"),
    };
    assert_eq!(plain, ping);

    let reply = ip_packet([10, 7, 0, 1], [10, 7, 0, 2], b"world");
    let (ct2, to) = match table.route_outbound(&reply) {
        OutboundOutcome::Forward(d, e) => (d, e),
        _ => panic!("expected the reply to be forwarded"),
    };
    assert_eq!(to, client_ep);
    let plain2 = match client.process_recv(&ct2) {
        RecvOutcome::Plain(d) => d,
        _ => panic!("expected decrypted plaintext at the client"),
    };
    assert_eq!(plain2, reply);
}

#[test]
fn server_learns_a_moved_endpoint() {
    let (mut client, mut table, _old_ep) = established();
    let new_ep = ep([192, 0, 2, 99], 41414);
    let ping = ip_packet([10, 7, 0, 2], [10, 7, 0, 1], b"moved");
    let ct = match client.prepare_send(&ping) {
        SendOutcome::Transmit(d) => d,
        _ => panic!("expected transport data"),
    };
    match table.handle_datagram(&ct, new_ep) {
        DispatchOutcome::ToTunnel(_) => {}
        _ => panic!("expected decrypted plaintext"),
    }
    let reply = ip_packet([10, 7, 0, 1], [10, 7, 0, 2], b"back");
    match table.route_outbound(&reply) {
        OutboundOutcome::Forward(_, to) => assert_eq!(to, new_ep),
        _ => panic!("expected the reply to be forwarded"),
    }
}

#[test]
fn unroutable_destination_is_dropped() {
    let (_client, mut table, _ep) = established();
    let stray = ip_packet([10, 7, 0, 1], [99, 99, 99, 99], b"stray");
    assert!(matches!(table.route_outbound(&stray), OutboundOutcome::NoRoute));
    let short = [0u8; 4];
    assert!(matches!(table.route_outbound(&short), OutboundOutcome::NoRoute));
}

#[test]
fn outbound_before_any_handshake_has_no_endpoint() {
    let (_c_priv, c_pub) = keypair(0x31);
    let (s_priv, _s_pub) = keypair(0x42);
    let s_key = load_key(b64(&s_priv).as_bytes()).unwrap();
    let cfgs = vec![PeerConfig {
        public_key: b64(&c_pub),
        allowed_ips: vec!["10.7.0.2/32".to_string()],
    }];
    let mut table = build_peer_table(&s_key, &cfgs).unwrap();
    let pkt = ip_packet([10, 7, 0, 1], [10, 7, 0, 2], b"early");
    assert!(matches!(table.route_outbound(&pkt), OutboundOutcome::NoEndpoint));
}

#[test]
fn bad_client_configuration_is_reported_in_order() {
    let (c_priv, _) = keypair(0x55);
    let (_, s_pub) = keypair(0x66);
    let good_priv = b64(&c_priv);
    let good_pub = b64(&s_pub);
    assert!(matches!(
        client_from_config(b"not base64!", good_pub.as_bytes(), b"1.2.3.4:5"),
        Err(ClientSetupError::BadPrivateKey)
    ));
    assert!(matches!(
        client_from_config(good_priv.as_bytes(), b"AAAA", b"1.2.3.4:5"),
        Err(ClientSetupError::BadPublicKey)
    ));
    assert!(matches!(
        client_from_config(good_priv.as_bytes(), good_pub.as_bytes(), b"nowhere"),
        Err(ClientSetupError::BadEndpoint)
    ));
    assert!(client_from_config(good_priv.as_bytes(), good_pub.as_bytes(), b"1.2.3.4:5").is_ok());
}

#[test]
fn bad_peer_flags_are_rejected() {
    let (s_priv, _) = keypair(0x77);
    let s_key = load_key(b64(&s_priv).as_bytes()).unwrap();
    let bad_key = vec![PeerConfig { public_key: "AAAA".to_string(), allowed_ips: vec!["10.7.0.2/32".to_string()] }];
    assert!(matches!(build_peer_table(&s_key, &bad_key), Err(PeerBuildError::BadKey)));
    let (_, c_pub) = keypair(0x78);
    let bad_ip = vec![PeerConfig { public_key: b64(&c_pub), allowed_ips: vec!["10.7.0.2".to_string()] }];
    assert!(matches!(build_peer_table(&s_key, &bad_ip), Err(PeerBuildError::BadAllowedIp)));
}

#[test]
fn garbage_datagrams_are_dropped() {
    let (_client, mut table, _ep) = established();
    let noise = vec![0x5a; 64];
    let from = ep([203, 0, 113, 77], 1234);
    assert!(matches!(table.handle_datagram(&noise, from), DispatchOutcome::Dropped));
}

#[test]
fn second_send_while_handshake_in_flight_is_pending() {
    let (c_priv, c_pub) = keypair(0x81);
    let (s_priv, s_pub) = keypair(0x92);
    let mut client = client_from_config(
        b64(&c_priv).as_bytes(),
        b64(&s_pub).as_bytes(),
        b"203.0.113.1:51820",
    )
    .unwrap();
    let s_key = load_key(b64(&s_priv).as_bytes()).unwrap();
    let cfgs = vec![PeerConfig {
        public_key: b64(&c_pub),
        allowed_ips: vec!["10.7.0.2/32".to_string()],
    }];
    let mut table = build_peer_table(&s_key, &cfgs).unwrap();
    let client_ep = ep([198, 51, 100, 7], 40000);

    // The first send starts the handshake; a second one while it is in
    // flight is queued by the engine and reported as pending.
    let ping = ip_packet([10, 7, 0, 2], [10, 7, 0, 1], b"hello");
    let init = match client.prepare_send(&ping) {
        SendOutcome::Transmit(d) => d,
        _ => panic!("expected a handshake initiation"),
    };
    assert!(matches!(client.prepare_send(&ping), SendOutcome::HandshakePending));

    // The responder, by contrast, has its session as soon as it answers
    // the initiation, and can encrypt outbound traffic right away.
    match table.handle_datagram(&init, client_ep) {
        DispatchOutcome::Reply(_) => {}
        _ => panic!("expected a handshake response"),
    }
    let reply = ip_packet([10, 7, 0, 1], [10, 7, 0, 2], b"early");
    match table.route_outbound(&reply) {
        OutboundOutcome::Forward(_, to) => assert_eq!(to, client_ep),
        _ => panic!("expected the responder to forward"),
    }
}

#[test]
fn table_holds_the_configured_peers() {
    let (s_priv, _) = keypair(0xa1);
    let s_key = load_key(b64(&s_priv).as_bytes()).unwrap();
    let (_, pub_a) = keypair(0xa2);
    let (_, pub_b) = keypair(0xa3);
    let cfgs = vec![
        PeerConfig { public_key: b64(&pub_a), allowed_ips: vec!["10.7.0.2/32".to_string()] },
        PeerConfig { public_key: b64(&pub_b), allowed_ips: vec!["10.7.0.3/32".to_string()] },
    ];
    let table = build_peer_table(&s_key, &cfgs).unwrap();
    assert_eq!(table.peers.len(), 2);
    assert_eq!(table.peers[0].public_key, pub_a.to_vec());
    assert_eq!(table.peers[1].public_key, pub_b.to_vec());
    assert!(table.peers.iter().all(|p| p.endpoint.is_none()));
    assert_eq!(table.peers[0].allowed_ips.len(), 1);
    assert_eq!(table.peers[0].allowed_ips[0].prefix, 32);
}

#[test]
fn later_flag_with_the_same_key_wins() {
    let (s_priv, _) = keypair(0xb1);
    let s_key = load_key(b64(&s_priv).as_bytes()).unwrap();
    let (_, pub_a) = keypair(0xb2);
    let cfgs = vec![
        PeerConfig { public_key: b64(&pub_a), allowed_ips: vec!["10.7.0.2/32".to_string()] },
        PeerConfig { public_key: b64(&pub_a), allowed_ips: vec!["10.8.0.0/24".to_string()] },
    ];
    let table = build_peer_table(&s_key, &cfgs).unwrap();
    assert_eq!(table.peers.len(), 1);
    assert_eq!(table.peers[0].public_key, pub_a.to_vec());
    assert_eq!(table.peers[0].allowed_ips.len(), 1);
    assert_eq!(table.peers[0].allowed_ips[0].prefix, 24);
}

use quicssh_rs::acceptor::{handshake_valid_at, Acceptor, Action, Event};
use quicssh_rs::auth::{current_window, token_for_window, tokens_at};
use quicssh_rs::cert::{generate_cert, identity_from, CertError};
use quicssh_rs::relay::{
    relay_step, session_step, RelayAction, RelayEvent, SessionAction, SessionEvent,
};
use quicssh_rs::routes::{Address, ServerConf};
use quicssh_rs::settings::{
    check_alpn, refresh_step, server_settings, server_settings_at, AlpnRefusal, RefreshAction,
    RefreshEvent, REFRESH_SECS,
};

const SECRET: &[u8] = b"your-shared-secret";
const LOCAL_SSH: Address = Address::V4 { ip: 0x7f00_0001, port: 22 };

fn target(port: u16) -> Address {
    Address::V4 { ip: 0x0a00_0001, port }
}

fn hello_with(protocol: &[u8]) -> Vec<u8> {
    let n = protocol.len() as u8;
    let mut block = vec![0, 16, 0, n + 3, 0, n + 1, n];
    block.extend_from_slice(protocol);
    let mut body = vec![0; 34];
    body.extend_from_slice(&[0, 0, 0, 0, 0, block.len() as u8]);
    body.extend(block);
    let mut message = vec![1, 0, 0, body.len() as u8];
    message.extend(body);
    message
}

fn proxied(action: Action) -> (String, Address) {
    match action {
        Action::Proxy { sni, to } => (sni, to),
        other => panic!("{:?}", other),
    }
}

#[test]
fn default_target_is_found() {
    let mut conf = ServerConf::new();
    assert_eq!(conf.default_proxy(None), LOCAL_SSH);
    assert_eq!(conf.default_proxy(Some(target(1))), target(1));
    conf.insert("default".to_string(), target(2));
    assert_eq!(conf.default_proxy(None), target(2));
    assert_eq!(conf.default_proxy(Some(target(1))), target(2));
}

#[test]
fn names_are_routed() {
    let mut conf = ServerConf::new();
    let six = Address::V6 { ip6: 1, port: 22, flowinfo: 0, scope_id: 3 };
    conf.insert("a.test".to_string(), target(1));
    conf.insert("b.test".to_string(), six);
    conf.insert("a.test".to_string(), target(2));
    assert_eq!(conf.proxy_for("a.test", LOCAL_SSH), target(2));
    assert_eq!(conf.proxy_for("b.test", LOCAL_SSH), six);
    assert_eq!(conf.proxy_for("c.test", LOCAL_SSH), LOCAL_SSH);
}

#[test]
fn settings_with_secret() {
    let settings = server_settings_at(Some(SECRET), 7);
    assert!(settings.require_alpn);
    assert_eq!(settings.alpn_protocols, tokens_at(SECRET, 7));
    assert_eq!(settings.max_concurrent_uni_streams, 0);
    assert_eq!(settings.max_idle_timeout_ms, 60_000);
    assert_eq!(settings.keep_alive_interval_secs, 1);
    assert_eq!(REFRESH_SECS, 15);
    let before = current_window();
    let settings = server_settings(Some(SECRET));
    let after = current_window();
    assert!((before..=after).any(|now| settings.alpn_protocols == tokens_at(SECRET, now)));
}

#[test]
fn settings_without_secret() {
    let settings = server_settings(None);
    assert!(!settings.require_alpn);
    assert!(settings.alpn_protocols.is_empty());
}

#[test]
fn certificate_needs_alpn_where_required() {
    assert_eq!(check_alpn(true, None), Err(AlpnRefusal::Missing));
    assert_eq!(check_alpn(true, Some(None)), Err(AlpnRefusal::Empty));
    assert_eq!(check_alpn(true, Some(Some(b"h3"))), Ok(()));
    assert_eq!(check_alpn(false, None), Ok(()));
    assert_eq!(check_alpn(false, Some(None)), Ok(()));
    assert_eq!(check_alpn(false, Some(Some(b"h3"))), Ok(()));
}

#[test]
fn handshake_is_checked_by_its_token() {
    let hello = hello_with(&token_for_window(SECRET, 7));
    for now in [6, 7, 8] {
        assert!(handshake_valid_at(SECRET, &hello, now));
    }
    for now in [5, 9] {
        assert!(!handshake_valid_at(SECRET, &hello, now));
    }
    assert!(!handshake_valid_at(b"another", &hello, 7));
    assert!(!handshake_valid_at(SECRET, &hello_with(b"h3"), 7));
    assert!(!handshake_valid_at(SECRET, b"probe", 7));
}

#[test]
fn authenticated_connection_is_proxied() {
    let mut conf = ServerConf::new();
    conf.insert("a.test".to_string(), target(1));
    let mut a = Acceptor::new(Some(SECRET.to_vec()), conf, Some(target(9)));
    assert_eq!(a.default_proxy(), target(9));
    assert!(matches!(a.step(Event::NoConnection), Action::AwaitConnection));
    assert!(matches!(a.step(Event::Arrived), Action::ReadHandshake));
    let hello = hello_with(&token_for_window(SECRET, current_window()));
    assert!(matches!(a.step(Event::HandshakeRead(hello)), Action::Accept));
    assert!(matches!(a.step(Event::Accepted), Action::AwaitHandshake));
    let established = Event::Established {
        server_name: Some("a.test".to_string()),
        remote_ip: "192.0.2.1".to_string(),
    };
    assert!(a.expects(&established));
    assert_eq!(proxied(a.step(established)), ("a.test".to_string(), target(1)));
    assert!(a.expects(&Event::Arrived));
}

#[test]
fn unauthenticated_connection_is_ignored() {
    let mut a = Acceptor::new(Some(SECRET.to_vec()), ServerConf::new(), None);
    for handshake in [b"probe".to_vec(), hello_with(b"h3"), vec![]] {
        assert!(matches!(a.step_at(Event::Arrived, 7), Action::ReadHandshake));
        assert!(matches!(a.step_at(Event::HandshakeRead(handshake), 7), Action::Ignore));
    }
    assert!(matches!(a.step(Event::Arrived), Action::ReadHandshake));
    assert!(!a.expects(&Event::Accepted));
    assert!(!a.expects(&Event::Arrived));
    assert!(a.expects(&Event::HandshakeRead(vec![])));
    assert!(matches!(a.step(Event::HandshakeUnreadable), Action::Ignore));
}

#[test]
fn without_secret_every_connection_is_accepted() {
    let mut a = Acceptor::new(None, ServerConf::new(), None);
    assert!(matches!(a.step(Event::Arrived), Action::Accept));
    assert!(matches!(a.step(Event::AcceptFailed), Action::AwaitConnection));
    assert!(matches!(a.step(Event::Arrived), Action::Accept));
    assert!(matches!(a.step(Event::Accepted), Action::AwaitHandshake));
    assert!(matches!(a.step(Event::HandshakeFailed), Action::AwaitConnection));
    assert!(matches!(a.step(Event::Arrived), Action::Accept));
    assert!(matches!(a.step(Event::Accepted), Action::AwaitHandshake));
    let unnamed =
        Event::Established { server_name: None, remote_ip: "192.0.2.1".to_string() };
    assert_eq!(proxied(a.step(unnamed)), ("192.0.2.1".to_string(), LOCAL_SSH));
}

#[test]
fn unnamed_connection_is_routed_by_address() {
    let mut conf = ServerConf::new();
    conf.insert("192.0.2.1".to_string(), target(3));
    let mut a = Acceptor::new(None, conf, None);
    a.step(Event::Arrived);
    a.step(Event::Accepted);
    let unnamed =
        Event::Established { server_name: None, remote_ip: "192.0.2.1".to_string() };
    assert_eq!(proxied(a.step(unnamed)).1, target(3));
}

#[test]
fn certificate_is_its_own_chain() {
    let (chain, key, cert) = generate_cert().unwrap();
    assert_eq!(chain, vec![cert.clone()]);
    assert!(cert.windows(9).any(|w| w == b"localhost"));
    let pair = rcgen::KeyPair::try_from(key).unwrap();
    let public = pair.public_key_raw();
    assert!(cert.windows(public.len()).any(|w| w == public));
}

#[test]
fn identity_comes_from_what_was_issued() {
    let identity = identity_from(Ok((vec![1, 2], vec![3]))).unwrap();
    assert_eq!(identity, (vec![vec![1, 2]], vec![3], vec![1, 2]));
    let failed = identity_from(Err(rcgen::Error::KeyGenerationUnavailable));
    assert!(matches!(failed, Err(CertError::Generate(rcgen::Error::KeyGenerationUnavailable))));
}

#[test]
fn relay_writes_what_was_read() {
    assert_eq!(relay_step(RelayEvent::Read(Some(2048))), RelayAction::Write(2048));
    assert_eq!(relay_step(RelayEvent::Read(Some(1))), RelayAction::Write(1));
    assert_eq!(relay_step(RelayEvent::Read(Some(0))), RelayAction::Read);
    assert_eq!(relay_step(RelayEvent::Read(None)), RelayAction::Read);
    assert_eq!(relay_step(RelayEvent::Written), RelayAction::Read);
    assert_eq!(relay_step(RelayEvent::ReadFailed), RelayAction::Stop);
    assert_eq!(relay_step(RelayEvent::WriteFailed), RelayAction::Stop);
}

#[test]
fn relay_keeps_the_stream() {
    let reads: [&[u8]; 4] = [b"ab", b"", b"c", b"def"];
    let mut out = Vec::new();
    for chunk in reads {
        if let RelayAction::Write(n) = relay_step(RelayEvent::Read(Some(chunk.len()))) {
            out.extend_from_slice(&chunk[..n]);
        }
    }
    assert_eq!(out, b"abcdef");
}

#[test]
fn session_runs_in_order() {
    assert_eq!(session_step(SessionEvent::Opened), SessionAction::ConnectSsh);
    assert_eq!(session_step(SessionEvent::SshConnected), SessionAction::AcceptStream);
    assert_eq!(session_step(SessionEvent::StreamAccepted), SessionAction::Relay);
    assert_eq!(session_step(SessionEvent::SshFailed), SessionAction::Close);
    assert_eq!(session_step(SessionEvent::StreamFailed), SessionAction::Close);
    assert_eq!(session_step(SessionEvent::DirectionEnded), SessionAction::Close);
}

#[test]
fn settings_are_refreshed_at_every_tick() {
    assert_eq!(refresh_step(RefreshEvent::Started), RefreshAction::Wait(15));
    assert_eq!(refresh_step(RefreshEvent::Ticked), RefreshAction::Rebuild);
    assert_eq!(refresh_step(RefreshEvent::Built), RefreshAction::Install);
    assert_eq!(refresh_step(RefreshEvent::Installed), RefreshAction::Wait(15));
    assert_eq!(refresh_step(RefreshEvent::BuildFailed), RefreshAction::Wait(15));
}

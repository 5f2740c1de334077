use webmud_gateway::addr::{get_ip_ensure_non_local, TargetError, IpAddress, SecurityConfig};
use webmud_gateway::bridge::{begin_session, client_message, error_message, on_client_message, remote_actions, status_message, Action, RemoteEvent};
use webmud_gateway::config::{flag_exists, flag_value, FlagValue};
use webmud_gateway::session::{get_details, ProtocolError};

fn deny() -> SecurityConfig {
    SecurityConfig::new()
}

#[test]
fn loopback_is_refused() {
    let r = get_ip_ensure_non_local(Some(IpAddress::V4(127, 0, 0, 1)), None, &deny());
    assert_eq!(r, Err(TargetError::NotGloballyRoutable));
    let r = get_ip_ensure_non_local(Some(IpAddress::V6(0, 0, 0, 0, 0, 0, 0, 1)), None, &deny());
    assert_eq!(r, Err(TargetError::NotGloballyRoutable));
}

#[test]
fn own_address_is_refused() {
    let own = IpAddress::V4(93, 184, 216, 34);
    assert_eq!(get_ip_ensure_non_local(Some(own), Some(own), &deny()), Err(TargetError::NotGloballyRoutable));
}

#[test]
fn public_address_passes() {
    let own = IpAddress::V4(93, 184, 216, 34);
    let target = IpAddress::V4(8, 8, 8, 8);
    assert_eq!(get_ip_ensure_non_local(Some(target), Some(own), &deny()), Ok(target));
    let v6 = IpAddress::V6(0x2606, 0x4700, 0, 0, 0, 0, 0, 0x1111);
    assert_eq!(get_ip_ensure_non_local(Some(v6), None, &deny()), Ok(v6));
}

#[test]
fn private_ranges_are_refused() {
    for ip in [
        IpAddress::V4(10, 1, 2, 3),
        IpAddress::V4(172, 16, 0, 1),
        IpAddress::V4(192, 168, 1, 1),
        IpAddress::V4(169, 254, 169, 254),
        IpAddress::V4(100, 64, 0, 1),
        IpAddress::V4(0, 0, 0, 0),
        IpAddress::V4(255, 255, 255, 255),
        IpAddress::V6(0xfd00, 0, 0, 0, 0, 0, 0, 1),
        IpAddress::V6(0xfe80, 0, 0, 0, 0, 0, 0, 1),
        IpAddress::V6(0, 0, 0, 0, 0, 0xffff, 0x7f00, 1),
    ] {
        assert!(!ip.is_global());
        assert_eq!(get_ip_ensure_non_local(Some(ip), None, &deny()), Err(TargetError::NotGloballyRoutable));
    }
}

#[test]
fn override_allows_private() {
    let allow = SecurityConfig { allow_private_connections: true, allow_invalid_tls: false };
    let lo = IpAddress::V4(127, 0, 0, 1);
    assert_eq!(get_ip_ensure_non_local(Some(lo), Some(lo), &allow), Ok(lo));
}

#[test]
fn unresolved_host() {
    assert_eq!(get_ip_ensure_non_local(None, None, &deny()), Err(TargetError::Unresolved));
}

#[test]
fn connect_command_is_parsed() {
    let d = get_details(Some("PHUD:CONNECT example.com 23 false".to_string())).unwrap();
    assert_eq!(d.host, "example.com");
    assert_eq!(d.port, 23);
    assert!(!d.tls);
    let d = get_details(Some("PHUD:CONNECT mud.org +4000 true".to_string())).unwrap();
    assert_eq!((d.host.as_str(), d.port, d.tls), ("mud.org", 4000, true));
}

#[test]
fn bad_connect_commands() {
    let e = |m: &str| get_details(Some(m.to_string())).unwrap_err();
    assert_eq!(get_details(None).unwrap_err(), ProtocolError::ClientDisconnect);
    assert_eq!(e("HELLO"), ProtocolError::UnknownCommand);
    assert_eq!(e("phud:connect a 1 true"), ProtocolError::UnknownCommand);
    assert_eq!(e("PHUD:CONNECT"), ProtocolError::InvalidHost);
    assert_eq!(e("PHUD:CONNECT a"), ProtocolError::InvalidPort);
    assert_eq!(e("PHUD:CONNECT a 65536 true"), ProtocolError::InvalidPort);
    assert_eq!(e("PHUD:CONNECT a x1 true"), ProtocolError::InvalidPort);
    assert_eq!(e("PHUD:CONNECT a 23"), ProtocolError::InvalidTls);
    assert_eq!(e("PHUD:CONNECT a 23 yes"), ProtocolError::InvalidTls);
    assert_eq!(e("PHUD:CONNECT a 23 true extra"), ProtocolError::TooManyArguments);
}

#[test]
fn envelopes() {
    assert_eq!(client_message("hi"), "{\"message\":\"hi\"}");
    assert_eq!(client_message("a\"b\n"), "{\"message\":\"a\\\"b\\n\"}");
    assert_eq!(error_message("Boom"), "{\"message\":\"<br>Boom<br>\"}");
    assert_eq!(
        status_message("example.com", 23, false),
        "{\"message\":\"<br>Attempting to establish a connection with example.com:23<br>\"}"
    );
    assert_eq!(
        status_message("h", 4000, true),
        "{\"message\":\"<br>Attempting to establish a TLS connection with h:4000<br>\"}"
    );
}

#[test]
fn session_opening() {
    let (d, status) = begin_session(Some("PHUD:CONNECT h 0 true".to_string())).unwrap();
    assert_eq!((d.host.as_str(), d.port, d.tls), ("h", 0, true));
    assert_eq!(status, "{\"message\":\"<br>Attempting to establish a TLS connection with h:0<br>\"}");
    assert_eq!(begin_session(Some("nope".to_string())).unwrap_err(), "{\"message\":\"<br>Command unimplemented<br>\"}");
    assert_eq!(begin_session(None).unwrap_err(), "{\"message\":\"<br>Client disconnect<br>\"}");
}

#[test]
fn remote_events_become_actions() {
    let acts = remote_actions(vec![
        RemoteEvent::Data(b"<b>\r\n".to_vec()),
        RemoteEvent::Other,
        RemoteEvent::Reply(vec![255, 251, 1]),
    ]);
    assert_eq!(acts.len(), 2);
    match &acts[0] {
        Action::SendClient(m) => assert_eq!(m, "{\"message\":\"&lt;b&gt;<br></span>\"}"),
        _ => panic!("expected a message for the client"),
    }
    match &acts[1] {
        Action::WriteRemote(b) => assert_eq!(b, &vec![255, 251, 1]),
        _ => panic!("expected bytes for the host"),
    }
}

#[test]
fn client_text_is_trimmed_and_escaped() {
    let mut parser = webmud_gateway::bridge::TelnetSession::new();
    assert_eq!(on_client_message(&mut parser, "  look \n"), b"look\r\n".to_vec());
    assert_eq!(on_client_message(&mut parser, "\u{FF}"), vec![0xC3, 0xBF, b'\r', b'\n']);
    assert_eq!(on_client_message(&mut parser, ""), b"\r\n".to_vec());
}

#[test]
fn flags() {
    let args: Vec<String> = ["--debug", "--legacy-port=4000", "--serve-from=  ", "--legacy-ip"].iter().map(|s| s.to_string()).collect();
    assert!(flag_exists(&args, "--debug"));
    assert!(!flag_exists(&args, "--no-color"));
    assert!(matches!(flag_value(&args, "--legacy-port"), FlagValue::Value(v) if v == "4000"));
    assert!(matches!(flag_value(&args, "--serve-from"), FlagValue::Malformed));
    assert!(matches!(flag_value(&args, "--legacy-ip"), FlagValue::Malformed));
    assert!(matches!(flag_value(&args, "--legacy-extern-host"), FlagValue::Missing));
}

struct Recorder {
    log: std::cell::RefCell<Vec<String>>,
}

impl webmud_gateway::bridge::ConnParent for Recorder {
    fn try_send(&self, msg: String) {
        self.log.borrow_mut().push(msg);
    }
    fn try_close_conn(&self) {
        self.log.borrow_mut().push("close".to_string());
    }
}

#[test]
fn failure_is_reported_then_closed() {
    let r = Recorder { log: std::cell::RefCell::new(Vec::new()) };
    let steps = webmud_gateway::bridge::failure_steps("Connection closed");
    assert_eq!(steps.len(), 2);
    webmud_gateway::bridge::perform(&r, steps);
    assert_eq!(*r.log.borrow(), vec!["{\"message\":\"<br>Connection closed<br>\"}".to_string(), "close".to_string()]);
}

#[test]
fn message_object_layout() {
    assert_eq!(webmud_gateway::bridge::message_object("\"x\""), "{\"message\":\"x\"}");
}

#[test]
fn newer_special_blocks_are_refused() {
    assert!(!IpAddress::V6(0x3fff, 0x0abc, 0, 0, 0, 0, 0, 1).is_global());
    assert!(!IpAddress::V6(0x5f00, 1, 0, 0, 0, 0, 0, 1).is_global());
    assert!(IpAddress::V6(0x3fff, 0x1000, 0, 0, 0, 0, 0, 1).is_global());
}

#[test]
fn json_escapes() {
    assert_eq!(client_message("a\\b\x01\x7f\t"), "{\"message\":\"a\\\\b\\u0001\\u007f\\t\"}");
}

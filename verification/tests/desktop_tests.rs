use hamesh::forwarding_form::{
    peer_label_text, read_forwarding_form, read_port_error, FormError, ForwardingEvent,
    ForwardingStatus, PortError,
};
use hamesh::ip_version::IpVersion;
use hamesh::settings_models::Protocol;
use hamesh::subscription::SubscriptionPeer;

#[test]
fn form_gives_the_chosen_forwarding() {
    let choice = read_forwarding_form(Some("IPv6"), Some("UDP"), "25565", "1234").unwrap();
    assert_eq!(choice.ip_version, IpVersion::Ipv6);
    assert!(choice.protocol == Protocol::Udp);
    assert_eq!(choice.local_port, 25565);
    assert_eq!(choice.remote_port, 1234);
    let choice = read_forwarding_form(Some("IPv4"), Some("TCP"), "+80", "0").unwrap();
    assert_eq!(choice.ip_version, IpVersion::Ipv4);
    assert!(choice.protocol == Protocol::Tcp);
    assert_eq!((choice.local_port, choice.remote_port), (80, 0));
}

#[test]
fn form_reports_each_bad_field() {
    let err = |ip, p, l, r| read_forwarding_form(ip, p, l, r).unwrap_err();
    assert_eq!(
        err(Some("IPv4"), Some("TCP"), "", "1"),
        FormError::Ports { local: Some(PortError::Empty), remote: None }
    );
    assert_eq!(
        err(Some("IPv4"), Some("TCP"), "1", "65536"),
        FormError::Ports { local: None, remote: Some(PortError::PosOverflow) }
    );
    assert_eq!(
        err(None, None, "x", "-1"),
        FormError::Ports { local: Some(PortError::InvalidDigit), remote: Some(PortError::InvalidDigit) }
    );
    assert_eq!(err(None, Some("TCP"), "1", "2"), FormError::NoIpVersion);
    assert_eq!(err(Some("ipv4"), Some("TCP"), "1", "2"), FormError::UnknownIpVersion);
    assert_eq!(err(Some("IPv4"), None, "1", "2"), FormError::NoProtocol);
    assert_eq!(err(Some("IPv4"), Some("tcp"), "1", "2"), FormError::UnknownProtocol);
}

#[test]
fn status_follows_the_connection() {
    let s = ForwardingStatus::New;
    assert_eq!(s.symbol(), "🆕");
    let s = s.after(ForwardingEvent::Started);
    assert_eq!(s.symbol(), "⏳");
    assert_eq!(s.after(ForwardingEvent::PeersFailed).symbol(), "❌");
    let s = s.after(ForwardingEvent::PeersFound);
    assert_eq!(s, ForwardingStatus::Connected);
    assert_eq!(s.symbol(), "🔗");
    assert_eq!(s.after(ForwardingEvent::ConnectionFailed).symbol(), "⛓️‍💥");
    let s = s.after(ForwardingEvent::ConnectionEnded);
    assert_eq!(s.symbol(), "🛑");
    assert_eq!(s.after(ForwardingEvent::Started), ForwardingStatus::Stopped);
    assert_eq!(ForwardingStatus::New.after(ForwardingEvent::PeersFound), ForwardingStatus::New);
}

#[test]
fn peer_label_shows_address_and_port() {
    let peer = SubscriptionPeer { address: "203.0.113.7".to_string(), port: 40000 };
    assert_eq!(peer_label_text(&peer), "peer = 203.0.113.7:40000");
    let peer = SubscriptionPeer { address: "2001:db8::1".to_string(), port: -2 };
    assert_eq!(peer_label_text(&peer), "peer = 2001:db8::1:-2");
}

#[test]
fn port_errors_are_those_of_str_parse() {
    for text in ["", "+", "-", "-1", "1x", "+007", "65535", "65536", "99999999999999999999", " 1"] {
        let expected = match text.parse::<u16>() {
            Ok(_) => None,
            Err(e) => Some(match e.kind() {
                std::num::IntErrorKind::Empty => PortError::Empty,
                std::num::IntErrorKind::PosOverflow => PortError::PosOverflow,
                _ => PortError::InvalidDigit,
            }),
        };
        assert_eq!(read_port_error(text), expected, "{text:?}");
    }
}

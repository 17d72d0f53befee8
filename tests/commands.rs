use espresso::commands::requests::{
    At, CloseConnection, EstablishConnection, GetConnectionStatus, GetCurrentWifiMode,
    GetDefaultWifiMode, GetFirmwareVersion, GetLocalAddress, GetWifiMode, JoinAccessPoint,
    ListAccessPoints, PrepareSendData, Restart, SendData, SetWifiMode,
};
use espresso::commands::responses::{EmptyResponse, JoinResponse};
use espresso::error::{Error, ErrorKind};
use espresso::types::{
    ConnectionId, ConnectionStatus, Ipv4Address, MultiplexingType, SocketAddress, WifiMode,
};

#[test]
fn fixed_commands_encode_exactly() {
    assert_eq!(At.as_bytes(), b"AT\r\n".to_vec());
    assert_eq!(GetFirmwareVersion.as_bytes(), b"AT+GMR\r\n".to_vec());
    assert_eq!(Restart.as_bytes(), b"AT+RST\r\n".to_vec());
    assert_eq!(GetCurrentWifiMode.as_bytes(), b"AT+CWMODE_CUR?\r\n".to_vec());
    assert_eq!(GetDefaultWifiMode.as_bytes(), b"AT+CWMODE_DEF?\r\n".to_vec());
    assert_eq!(ListAccessPoints.as_bytes(), b"AT+CWLAP\r\n".to_vec());
    assert_eq!(GetConnectionStatus.as_bytes(), b"AT+CIPSTATUS\r\n".to_vec());
    assert_eq!(GetLocalAddress.as_bytes(), b"AT+CIFSR\r\n".to_vec());
}

#[test]
fn set_wifi_mode_encodes_scope_and_digit() {
    assert_eq!(
        SetWifiMode::to(WifiMode::Station, false).as_bytes(),
        b"AT+CWMODE_CUR=1\r\n".to_vec()
    );
    assert_eq!(
        SetWifiMode::to(WifiMode::Ap, true).as_bytes(),
        b"AT+CWMODE_DEF=2\r\n".to_vec()
    );
    let both = SetWifiMode::to(WifiMode::Both, false).as_bytes();
    assert_eq!(both, b"AT+CWMODE_CUR=3\r\n".to_vec());
    assert!(both.len() <= SetWifiMode::LEN);
}

#[test]
fn join_encodes_quoted_credentials() {
    let j = JoinAccessPoint::new("mywifi", "hellopasswd123", false).unwrap();
    assert_eq!(
        j.as_bytes(),
        b"AT+CWJAP_CUR=\"mywifi\",\"hellopasswd123\"\r\n".to_vec()
    );
    let j = JoinAccessPoint::new("a", "b", true).unwrap();
    assert_eq!(j.as_bytes(), b"AT+CWJAP_DEF=\"a\",\"b\"\r\n".to_vec());
}

#[test]
fn join_at_full_capacity_fits() {
    let ssid = "s".repeat(32);
    let psk = "p".repeat(64);
    let j = JoinAccessPoint::new(&ssid, &psk, true).unwrap();
    assert_eq!(j.as_bytes().len(), JoinAccessPoint::LEN);
}

#[test]
fn join_refuses_long_credentials() {
    let long_ssid = "s".repeat(33);
    let long_psk = "p".repeat(65);
    assert_eq!(
        JoinAccessPoint::new(&long_ssid, "x", false).unwrap_err(),
        ErrorKind::CapacityExceeded
    );
    assert_eq!(
        JoinAccessPoint::new("x", &long_psk, false).unwrap_err(),
        ErrorKind::CapacityExceeded
    );
}

#[test]
fn establish_connection_encodes_address() {
    let addr = SocketAddress { ip: Ipv4Address(192, 168, 1, 10), port: 8080 };
    assert_eq!(
        EstablishConnection::tcp(MultiplexingType::NonMultiplexed, addr).as_bytes(),
        b"AT+CIPSTART=\"TCP\",\"192.168.1.10\",8080\r\n".to_vec()
    );
    let addr = SocketAddress { ip: Ipv4Address(10, 0, 0, 7), port: 53 };
    assert_eq!(
        EstablishConnection::udp(MultiplexingType::Multiplexed(ConnectionId::Two), addr)
            .as_bytes(),
        b"AT+CIPSTART=2,\"UDP\",\"10.0.0.7\",53\r\n".to_vec()
    );
}

#[test]
fn establish_connection_longest_fits_capacity() {
    let addr = SocketAddress { ip: Ipv4Address(255, 255, 255, 255), port: 65535 };
    let b = EstablishConnection::tcp(MultiplexingType::Multiplexed(ConnectionId::Four), addr)
        .as_bytes();
    assert_eq!(b, b"AT+CIPSTART=4,\"TCP\",\"255.255.255.255\",65535\r\n".to_vec());
    assert_eq!(b.len(), EstablishConnection::LEN);
}

#[test]
fn prepare_send_data_encodes_length() {
    assert_eq!(
        PrepareSendData::new(MultiplexingType::NonMultiplexed, 0).as_bytes(),
        b"AT+CIPSEND=0\r\n".to_vec()
    );
    let b = PrepareSendData::new(MultiplexingType::Multiplexed(ConnectionId::One), 65535)
        .as_bytes();
    assert_eq!(b, b"AT+CIPSEND=1,65535\r\n".to_vec());
    assert_eq!(b.len(), PrepareSendData::LEN);
}

#[test]
fn close_connection_encodes_link() {
    assert_eq!(
        CloseConnection::new(MultiplexingType::NonMultiplexed).as_bytes(),
        b"AT+CIPCLOSE\r\n".to_vec()
    );
    assert_eq!(
        CloseConnection::new(MultiplexingType::Multiplexed(ConnectionId::Three)).as_bytes(),
        b"AT+CIPCLOSE=3\r\n".to_vec()
    );
}

#[test]
fn send_data_within_capacity() {
    let s = SendData::<8>::new("hello").unwrap();
    assert_eq!(s.as_bytes(), b"hello".to_vec());
    assert_eq!(SendData::<4>::new("hello").unwrap_err(), ErrorKind::CapacityExceeded);
}

#[test]
fn empty_body_commands_accept_empty_reply() {
    assert_eq!(At.parse::<()>(Ok(b"")), Ok(EmptyResponse));
    assert_eq!(Restart.parse::<()>(Ok(b"")), Ok(EmptyResponse));
    let set = SetWifiMode::to(WifiMode::Station, false);
    assert_eq!(set.parse::<()>(Ok(b"")), Ok(EmptyResponse));
    assert_eq!(At.parse::<()>(Ok(b" \r\n")), Ok(EmptyResponse));
}

#[test]
fn unicode_white_space_reply_is_empty() {
    assert_eq!(At.parse::<()>(Ok("\u{a0}".as_bytes())), Ok(EmptyResponse));
    assert_eq!(Restart.parse::<()>(Ok("\u{85}\r\n".as_bytes())), Ok(EmptyResponse));
    let set = SetWifiMode::to(WifiMode::Ap, false);
    assert_eq!(set.parse::<()>(Ok("\u{3000}\u{2029} \t".as_bytes())), Ok(EmptyResponse));
    assert_eq!(At.parse::<()>(Ok("\u{200b}".as_bytes())), Err(Error::InvalidResponse));
}

#[test]
fn join_has_longest_timeout() {
    let join = JoinAccessPoint::MAX_TIMEOUT_MS;
    assert!(join >= EstablishConnection::MAX_TIMEOUT_MS);
    assert!(join >= SendData::<1>::MAX_TIMEOUT_MS);
    assert!(join >= ListAccessPoints::MAX_TIMEOUT_MS);
    assert!(join >= PrepareSendData::MAX_TIMEOUT_MS);
    assert!(join >= CloseConnection::MAX_TIMEOUT_MS);
}

#[test]
fn empty_body_commands_refuse_their_echo() {
    let echo = At.as_bytes();
    assert_eq!(At.parse::<()>(Ok(&echo)), Err(Error::InvalidResponse));
    let echo = Restart.as_bytes();
    assert_eq!(Restart.parse::<()>(Ok(&echo)), Err(Error::InvalidResponse));
    let set = SetWifiMode::to(WifiMode::Both, true);
    let echo = set.as_bytes();
    assert_eq!(set.parse::<()>(Ok(&echo)), Err(Error::InvalidResponse));
    assert_eq!(At.parse::<()>(Ok(b"x")), Err(Error::InvalidResponse));
}

#[test]
fn non_text_reply_is_a_parse_error() {
    assert_eq!(At.parse::<()>(Ok(&[0xff, 0xfe])), Err(Error::Parse));
    assert_eq!(GetConnectionStatus.parse::<()>(Ok(&[0xc3])), Err(Error::Parse));
}

#[test]
fn transport_error_passes_through() {
    assert_eq!(At.parse::<u8>(Err(7)), Err(Error::Transport(7)));
    assert_eq!(GetCurrentWifiMode.parse::<u8>(Err(3)), Err(Error::Transport(3)));
    assert_eq!(ListAccessPoints.parse::<u8>(Err(1)), Err(Error::Transport(1)));
    assert_eq!(GetLocalAddress.parse::<u8>(Err(2)).unwrap_err(), Error::Transport(2));
}

#[test]
fn unread_replies_are_accepted() {
    assert_eq!(ListAccessPoints.parse::<()>(Ok(b"+CWLAP:(3,\"x\")")), Ok(EmptyResponse));
    let c = CloseConnection::new(MultiplexingType::NonMultiplexed);
    assert_eq!(c.parse::<()>(Ok(b"CLOSED")), Ok(EmptyResponse));
}

#[test]
fn firmware_version_decodes_three_lines() {
    let resp = b"AT version:1.1.0.0(May 11 2016 18:09:56)\r\nSDK version:1.5.4(baaeaebb)\r\ncompile time:May 20 2016 15:08:19";
    let fw = GetFirmwareVersion.parse::<()>(Ok(resp)).unwrap();
    assert_eq!(fw.at_version.as_str(), "1.1.0.0(May 11 2016 18:09:56)");
    assert_eq!(fw.sdk_version.as_str(), "1.5.4(baaeaebb)");
    assert_eq!(fw.compile_time.as_str(), "May 20 2016 15:08:19");
}

#[test]
fn firmware_version_with_two_lines_fails() {
    let resp = b"AT version:1.1.0.0(May 11 2016 18:09:56)\r\nSDK version:1.5.4(baaeaebb)";
    assert_eq!(GetFirmwareVersion.parse::<()>(Ok(resp)).unwrap_err(), Error::Parse);
}

#[test]
fn firmware_version_wrong_label_fails() {
    let resp = b"AT version:1\r\nSDK:2\r\ncompile time:3";
    assert_eq!(GetFirmwareVersion.parse::<()>(Ok(resp)).unwrap_err(), Error::Parse);
}

#[test]
fn firmware_version_field_at_capacity() {
    let resp = b"AT version:01234567890123456789012345678901\r\nSDK version:\r\ncompile time:x\r\nBin version:2";
    let fw = GetFirmwareVersion.parse::<()>(Ok(resp)).unwrap();
    assert_eq!(fw.at_version.len(), 32);
    assert_eq!(fw.sdk_version.as_str(), "");
    assert_eq!(fw.compile_time.as_str(), "x");
}

#[test]
fn firmware_version_field_too_long() {
    let resp = b"AT version:0123456789012345678901234567890123\r\nSDK version:1\r\ncompile time:2";
    assert_eq!(
        GetFirmwareVersion.parse::<()>(Ok(resp)).unwrap_err(),
        Error::CapacityExceeded
    );
}

#[test]
fn wifi_mode_decodes_digit() {
    assert_eq!(GetCurrentWifiMode.parse::<()>(Ok(b"+CWMODE_CUR:1")), Ok(WifiMode::Station));
    assert_eq!(GetCurrentWifiMode.parse::<()>(Ok(b"+CWMODE_CUR:2")), Ok(WifiMode::Ap));
    assert_eq!(GetCurrentWifiMode.parse::<()>(Ok(b"+CWMODE_CUR:3")), Ok(WifiMode::Both));
    assert_eq!(
        GetCurrentWifiMode.parse::<()>(Ok(b"+CWMODE_CUR:9")),
        Err(Error::InvalidResponse)
    );
}

#[test]
fn wifi_mode_checks_its_label() {
    assert_eq!(GetDefaultWifiMode.parse::<()>(Ok(b"+CWMODE_DEF:3")), Ok(WifiMode::Both));
    assert_eq!(
        GetDefaultWifiMode.parse::<()>(Ok(b"+CWMODE_CUR:3")),
        Err(Error::InvalidResponse)
    );
    assert_eq!(
        GetWifiMode { persisted: false }.parse::<()>(Ok(b"+CWMODE_CUR:")),
        Err(Error::InvalidResponse)
    );
}

#[test]
fn connection_status_decodes_codes() {
    assert_eq!(
        GetConnectionStatus.parse::<()>(Ok(b"STATUS:2")),
        Ok(ConnectionStatus::ConnectedToAccessPoint)
    );
    assert_eq!(
        GetConnectionStatus.parse::<()>(Ok(b"STATUS:3")),
        Ok(ConnectionStatus::InTransmission)
    );
    assert_eq!(
        GetConnectionStatus.parse::<()>(Ok(b"STATUS:4")),
        Ok(ConnectionStatus::TransmissionEnded)
    );
    assert_eq!(
        GetConnectionStatus.parse::<()>(Ok(b"STATUS:5")),
        Ok(ConnectionStatus::Disconnected)
    );
    assert_eq!(
        GetConnectionStatus.parse::<()>(Ok(b"STATUS:8")),
        Ok(ConnectionStatus::Other(8))
    );
}

#[test]
fn connection_status_errors() {
    assert_eq!(GetConnectionStatus.parse::<()>(Ok(b"STATUS:x")), Err(Error::Parse));
    assert_eq!(GetConnectionStatus.parse::<()>(Ok(b"STATUS:")), Err(Error::InvalidResponse));
    assert_eq!(GetConnectionStatus.parse::<()>(Ok(b"STATE:2")), Err(Error::InvalidResponse));
}

#[test]
fn local_address_without_ip() {
    let resp = b"+CIFSR:STAIP,\"0.0.0.0\"\r\n+CIFSR:STAMAC,\"dc:4f:22:7e:41:b4\"";
    let a = GetLocalAddress.parse::<()>(Ok(resp)).unwrap();
    assert_eq!(a.ip, None);
    assert_eq!(a.mac.as_str(), "dc:4f:22:7e:41:b4");
}

#[test]
fn local_address_with_ip() {
    let resp = b"+CIFSR:STAIP,\"10.0.99.164\"\r\n+CIFSR:STAMAC,\"dc:4f:22:7e:41:b4\"";
    let a = GetLocalAddress.parse::<()>(Ok(resp)).unwrap();
    assert_eq!(a.ip, Some(Ipv4Address(10, 0, 99, 164)));
    assert_eq!(a.mac.as_str(), "dc:4f:22:7e:41:b4");
}

#[test]
fn local_address_lines_in_any_order() {
    let resp = b"+CIFSR:STAMAC,\"dc:4f:22:7e:41:b4\"\r\n+CIFSR:STAIP,\"192.168.4.1\"\r\n";
    let a = GetLocalAddress.parse::<()>(Ok(resp)).unwrap();
    assert_eq!(a.ip, Some(Ipv4Address(192, 168, 4, 1)));
}

#[test]
fn local_address_needs_mac() {
    let resp = b"+CIFSR:STAIP,\"10.0.99.164\"";
    assert_eq!(GetLocalAddress.parse::<()>(Ok(resp)).unwrap_err(), Error::Parse);
    let no_ip = b"+CIFSR:STAMAC,\"dc:4f:22:7e:41:b4\"";
    assert_eq!(GetLocalAddress.parse::<()>(Ok(no_ip)).unwrap().ip, None);
}

#[test]
fn local_address_bad_ip_fails() {
    let resp = b"+CIFSR:STAIP,\"10.0.999.1\"\r\n+CIFSR:STAMAC,\"dc:4f:22:7e:41:b4\"";
    assert_eq!(GetLocalAddress.parse::<()>(Ok(resp)).unwrap_err(), Error::Parse);
    let resp = b"+CIFSR:STAIP,\"10.0.1\"\r\n+CIFSR:STAMAC,\"dc:4f:22:7e:41:b4\"";
    assert_eq!(GetLocalAddress.parse::<()>(Ok(resp)).unwrap_err(), Error::Parse);
}

#[test]
fn join_connected_and_got_ip() {
    let resp = b"WIFI CONNECTED\r\nWIFI GOT IP\r\n";
    assert_eq!(
        JoinAccessPoint::new("a", "b", false).unwrap().parse::<()>(Ok(resp)),
        Ok(JoinResponse { connected: true, got_ip: true })
    );
}

#[test]
fn join_disconnected_only() {
    let resp = b"WIFI DISCONNECTED";
    assert_eq!(
        JoinAccessPoint::new("a", "b", false).unwrap().parse::<()>(Ok(resp)),
        Ok(JoinResponse { connected: false, got_ip: false })
    );
}

#[test]
fn join_later_line_retracts_connected() {
    let resp = b"WIFI CONNECTED\r\nbusy p...\r\nWIFI DISCONNECTED\r\n";
    assert_eq!(
        JoinAccessPoint::new("a", "b", false).unwrap().parse::<()>(Ok(resp)),
        Ok(JoinResponse { connected: false, got_ip: false })
    );
}

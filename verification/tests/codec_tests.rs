use citadel_workspace_service::codec::{
    decode_payload, decode_response, encode_payload, encode_response,
};
use citadel_workspace_service::types::{
    ConnectMode, InternalServicePayload, InternalServiceResponse, SessionSecuritySettings,
    TransferType, UdpMode, UserIdentifier,
};

fn settings(level: u8) -> SessionSecuritySettings {
    SessionSecuritySettings { security_level: level, secrecy_mode: 0, crypto_params: 2 }
}

fn payload_round_trip(p: InternalServicePayload) {
    let bytes = encode_payload(&p);
    let back = decode_payload(&bytes);
    assert_eq!(back, Some(p));
}

fn response_round_trip(r: InternalServiceResponse) {
    let bytes = encode_response(&r);
    let back = decode_response(&bytes);
    assert_eq!(back, Some(r));
}

#[test]
fn connect_round_trip() {
    payload_round_trip(InternalServicePayload::Connect {
        uuid: 0x1234_5678_9abc_def0_1111_2222_3333_4444,
        username: String::from("john_doe"),
        password: b"test12345".to_vec(),
        connect_mode: ConnectMode::Standard,
        udp_mode: UdpMode::Enabled,
        keep_alive_timeout_millis: Some(2000),
        session_security_settings: settings(1),
    });
}

#[test]
fn connect_without_keep_alive_round_trip() {
    payload_round_trip(InternalServicePayload::Connect {
        uuid: 7,
        username: String::new(),
        password: Vec::new(),
        connect_mode: ConnectMode::Fetch,
        udp_mode: UdpMode::Disabled,
        keep_alive_timeout_millis: None,
        session_security_settings: settings(0),
    });
}

#[test]
fn register_round_trip() {
    payload_round_trip(InternalServicePayload::Register {
        uuid: 42,
        server_addr: String::from("127.0.0.1:55556"),
        full_name: String::from("John"),
        username: String::from("john_doe"),
        proposed_password: b"test12345".to_vec(),
        default_security_settings: settings(3),
    });
}

#[test]
fn message_round_trip() {
    payload_round_trip(InternalServicePayload::Message {
        uuid: 9,
        message: vec![0, 1, 2, 253, 254, 255],
        cid: 77,
        user_cid: 0,
        security_level: 2,
    });
}

#[test]
fn disconnect_round_trip() {
    payload_round_trip(InternalServicePayload::Disconnect { uuid: u128::MAX, cid: u64::MAX });
}

#[test]
fn send_file_round_trip() {
    payload_round_trip(InternalServicePayload::SendFile {
        uuid: 5,
        source: String::from("/tmp/report.pdf"),
        cid: 8,
        chunk_size: 4096,
        transfer_type: TransferType::FileTransfer,
    });
    payload_round_trip(InternalServicePayload::SendFile {
        uuid: 5,
        source: String::from("/tmp/report.pdf"),
        cid: 8,
        chunk_size: 4096,
        transfer_type: TransferType::RemoteVirtualFilesystem {
            virtual_path: String::from("/vault/report.pdf"),
            security_level: 4,
        },
    });
}

#[test]
fn download_file_round_trip() {
    payload_round_trip(InternalServicePayload::DownloadFile {
        virtual_path: String::from("/vault/a.bin"),
        transfer_security_level: 1,
        delete_on_pull: true,
        cid: 3,
        uuid: 4,
    });
    payload_round_trip(InternalServicePayload::DownloadFile {
        virtual_path: String::new(),
        transfer_security_level: 0,
        delete_on_pull: false,
        cid: 0,
        uuid: 0,
    });
}

#[test]
fn start_group_round_trip() {
    payload_round_trip(InternalServicePayload::StartGroup {
        initial_users_to_invite: None,
        cid: 1,
        uuid: 2,
    });
    payload_round_trip(InternalServicePayload::StartGroup {
        initial_users_to_invite: Some(vec![
            UserIdentifier::Id(10),
            UserIdentifier::Username(String::from("alice")),
            UserIdentifier::Id(11),
        ]),
        cid: 1,
        uuid: 2,
    });
}

#[test]
fn unicode_text_round_trip() {
    payload_round_trip(InternalServicePayload::Register {
        uuid: 1,
        server_addr: String::from("beispiel.example:1234"),
        full_name: String::from("J\u{00fc}rgen \u{4f60}\u{597d}"),
        username: String::from("j\u{00fc}rgen"),
        proposed_password: vec![1, 2, 3],
        default_security_settings: settings(0),
    });
}

#[test]
fn response_round_trips() {
    response_round_trip(InternalServiceResponse::ConnectSuccess { cid: 7 });
    response_round_trip(InternalServiceResponse::ConnectionFailure {
        message: String::from("no route"),
    });
    response_round_trip(InternalServiceResponse::RegisterSuccess { id: 1u128 << 100 });
    response_round_trip(InternalServiceResponse::RegisterFailure {
        message: String::from("taken"),
    });
    response_round_trip(InternalServiceResponse::ServiceConnectionAccepted { id: 12 });
    response_round_trip(InternalServiceResponse::MessageSent { cid: 1 });
    response_round_trip(InternalServiceResponse::MessageSendError {
        cid: 2,
        message: String::from("connection not found"),
    });
    response_round_trip(InternalServiceResponse::MessageReceived {
        message: vec![9, 8, 7],
        cid: 3,
        peer_cid: 0,
    });
    response_round_trip(InternalServiceResponse::DisconnectSuccess { cid: 4 });
    response_round_trip(InternalServiceResponse::DisconnectFailure {
        cid: 5,
        message: String::from("gone"),
    });
    response_round_trip(InternalServiceResponse::SendFileSuccess { cid: 6 });
    response_round_trip(InternalServiceResponse::SendFileFailure {
        cid: 7,
        message: String::from("denied"),
    });
}

#[test]
fn decode_rejects_empty_and_bad_tag() {
    assert_eq!(decode_payload(&Vec::new()), None);
    assert_eq!(decode_payload(&vec![200]), None);
    assert_eq!(decode_response(&Vec::new()), None);
    assert_eq!(decode_response(&vec![200]), None);
}

#[test]
fn decode_rejects_truncation_and_trailing_bytes() {
    let p = InternalServicePayload::Disconnect { uuid: 3, cid: 4 };
    let mut bytes = encode_payload(&p);
    let mut truncated = bytes.clone();
    truncated.pop();
    assert_eq!(decode_payload(&truncated), None);
    bytes.push(0);
    assert_eq!(decode_payload(&bytes), None);
}

#[test]
fn decode_rejects_invalid_utf8_text() {
    let r = InternalServiceResponse::ConnectionFailure { message: String::from("ab") };
    let mut bytes = encode_response(&r);
    // overwrite the two text bytes with an invalid UTF-8 sequence
    let n = bytes.len();
    bytes[n - 2] = 0xff;
    bytes[n - 1] = 0xfe;
    assert_eq!(decode_response(&bytes), None);
}

#[test]
fn encoding_is_tag_then_big_endian_fields() {
    let bytes = encode_response(&InternalServiceResponse::MessageSent { cid: 1 });
    assert_eq!(bytes, vec![5, 0, 0, 0, 0, 0, 0, 0, 1]);
    let bytes = encode_response(&InternalServiceResponse::ServiceConnectionAccepted { id: 2 });
    let mut expected = vec![4u8];
    expected.extend_from_slice(&[0; 15]);
    expected.push(2);
    assert_eq!(bytes, expected);
    let bytes = encode_response(&InternalServiceResponse::ConnectionFailure {
        message: String::from("ab"),
    });
    assert_eq!(bytes, vec![1, 0, 0, 0, 0, 0, 0, 0, 2, b'a', b'b']);
}

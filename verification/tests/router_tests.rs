use citadel_workspace_service::router::{
    apply_disconnect_outcome, apply_file_outcome, apply_group_outcome, apply_register_outcome,
    CommandRouter, EngineAction,
};
use citadel_workspace_service::types::{
    ConnectMode, InternalServicePayload, InternalServiceResponse, SessionSecuritySettings,
    UdpMode,
};

fn settings() -> SessionSecuritySettings {
    SessionSecuritySettings { security_level: 0, secrecy_mode: 0, crypto_params: 0 }
}

fn connect_cmd(uuid: u128) -> InternalServicePayload {
    InternalServicePayload::Connect {
        uuid,
        username: String::from("john_doe"),
        password: b"test12345".to_vec(),
        connect_mode: ConnectMode::Standard,
        udp_mode: UdpMode::Disabled,
        keep_alive_timeout_millis: None,
        session_security_settings: settings(),
    }
}

/// A connected session: accepted, connect dispatched, engine success applied.
fn establish(router: &mut CommandRouter, uuid: u128, cid: u64) {
    assert!(router.accept_session(uuid).is_some());
    let (resp, action) = router.handle_command(uuid, connect_cmd(uuid));
    assert!(resp.is_none());
    assert!(matches!(action, Some(EngineAction::Connect { .. })));
    let (resp, stale) = router.apply_connect_outcome(uuid, Ok(cid));
    assert!(!stale);
    assert_eq!(resp, Some((uuid, InternalServiceResponse::ConnectSuccess { cid })));
}

#[test]
fn greeting_carries_fresh_session_id() {
    let mut router = CommandRouter::new();
    let greeting = router.accept_session(7);
    assert_eq!(greeting, Some(InternalServiceResponse::ServiceConnectionAccepted { id: 7 }));
    assert!(router.session_live(7));
    // the same id cannot be registered a second time
    assert_eq!(router.accept_session(7), None);
}

#[test]
fn open_session_mints_live_random_id() {
    let mut router = CommandRouter::new();
    let (id, greeting) = router.open_session().expect("fresh id in an empty registry");
    assert_eq!(greeting, InternalServiceResponse::ServiceConnectionAccepted { id });
    assert!(router.session_live(id));
    let (id2, _) = router.open_session().expect("second fresh id");
    assert_ne!(id, id2);
}

#[test]
fn register_then_connect_in_order() {
    let mut router = CommandRouter::new();
    let uuid = 99;
    assert!(router.accept_session(uuid).is_some());

    let (resp, action) = router.handle_command(uuid, InternalServicePayload::Register {
        uuid,
        server_addr: String::from("127.0.0.1:55556"),
        full_name: String::from("John"),
        username: String::from("john_doe"),
        proposed_password: b"test12345".to_vec(),
        default_security_settings: settings(),
    });
    assert!(resp.is_none());
    assert!(matches!(action, Some(EngineAction::Register { .. })));
    let first = apply_register_outcome(uuid, Ok(()));
    assert_eq!(first, (uuid, InternalServiceResponse::RegisterSuccess { id: uuid }));

    let (resp, action) = router.handle_command(uuid, connect_cmd(uuid));
    assert!(resp.is_none());
    assert!(matches!(action, Some(EngineAction::Connect { .. })));
    let (second, stale) = router.apply_connect_outcome(uuid, Ok(12));
    assert!(!stale);
    assert_eq!(second, Some((uuid, InternalServiceResponse::ConnectSuccess { cid: 12 })));
}

#[test]
fn register_failure_is_reported() {
    let (target, resp) = apply_register_outcome(5, Err(String::from("server offline")));
    assert_eq!(target, 5);
    assert_eq!(
        resp,
        InternalServiceResponse::RegisterFailure { message: String::from("server offline") }
    );
}

#[test]
fn message_to_unknown_connection_is_an_error_not_silence() {
    let mut router = CommandRouter::new();
    assert!(router.accept_session(1).is_some());
    let (resp, action) = router.handle_command(1, InternalServicePayload::Message {
        uuid: 1,
        message: vec![1, 2, 3],
        cid: 424242,
        user_cid: 0,
        security_level: 0,
    });
    assert!(action.is_none());
    assert_eq!(
        resp,
        Some((
            1,
            InternalServiceResponse::MessageSendError {
                cid: 424242,
                message: String::from("connection not found"),
            }
        ))
    );
}

#[test]
fn message_on_established_connection_is_dispatched() {
    let mut router = CommandRouter::new();
    establish(&mut router, 1, 10);
    let (resp, action) = router.handle_command(1, InternalServicePayload::Message {
        uuid: 1,
        message: vec![4, 5],
        cid: 10,
        user_cid: 0,
        security_level: 3,
    });
    assert!(resp.is_none());
    assert_eq!(
        action,
        Some(EngineAction::SendMessage { cid: 10, message: vec![4, 5], security_level: 3 })
    );
    // the enqueue result is reported to the owner
    let sent = router.apply_send_outcome(10, Ok(()));
    assert_eq!(sent, Some((1, InternalServiceResponse::MessageSent { cid: 10 })));
    let failed = router.apply_send_outcome(10, Err(String::from("channel closed")));
    assert_eq!(
        failed,
        Some((
            1,
            InternalServiceResponse::MessageSendError {
                cid: 10,
                message: String::from("channel closed"),
            }
        ))
    );
}

#[test]
fn inbound_bytes_reach_only_the_owning_session() {
    let mut router = CommandRouter::new();
    establish(&mut router, 100, 1);
    establish(&mut router, 200, 2);

    let bytes = vec![0xde, 0xad, 0xbe, 0xef];
    let routed = router.incoming_message(1, bytes.clone(), 0);
    let (target, resp) = routed.expect("owned connection routes");
    assert_eq!(target, 100);
    assert_ne!(target, 200);
    assert_eq!(
        resp,
        InternalServiceResponse::MessageReceived { message: bytes, cid: 1, peer_cid: 0 }
    );

    let routed = router.incoming_message(2, vec![1], 7);
    assert_eq!(
        routed,
        Some((200, InternalServiceResponse::MessageReceived { message: vec![1], cid: 2, peer_cid: 7 }))
    );
}

#[test]
fn closing_a_session_frees_its_registrations() {
    let mut router = CommandRouter::new();
    establish(&mut router, 100, 1);
    establish(&mut router, 200, 2);

    let torn_down = router.close_session(100);
    assert_eq!(torn_down, vec![1]);
    assert!(!router.session_live(100));
    assert!(router.session_live(200));

    // traffic for the dead session's connection is now a no-op
    assert_eq!(router.incoming_message(1, vec![1], 0), None);
    assert_eq!(router.apply_send_outcome(1, Ok(())), None);
    // the other session is untouched
    assert!(router.incoming_message(2, vec![2], 0).is_some());
    // and its id may be reused only after it was freed
    assert!(router.accept_session(100).is_some());
}

#[test]
fn connect_outcome_for_dead_session_is_stale() {
    let mut router = CommandRouter::new();
    assert!(router.accept_session(1).is_some());
    let _ = router.handle_command(1, connect_cmd(1));
    let removed = router.close_session(1);
    assert_eq!(removed, Vec::<u64>::new());
    let (resp, stale) = router.apply_connect_outcome(1, Ok(50));
    assert_eq!(resp, None);
    assert!(stale);
    // nothing was recorded: traffic on that cid goes nowhere
    assert_eq!(router.incoming_message(50, vec![1], 0), None);
}

#[test]
fn connect_failure_is_reported() {
    let mut router = CommandRouter::new();
    assert!(router.accept_session(1).is_some());
    let (resp, stale) = router.apply_connect_outcome(1, Err(String::from("bad credentials")));
    assert!(!stale);
    assert_eq!(
        resp,
        Some((
            1,
            InternalServiceResponse::ConnectionFailure {
                message: String::from("bad credentials"),
            }
        ))
    );
}

#[test]
fn duplicate_connection_id_is_refused() {
    let mut router = CommandRouter::new();
    establish(&mut router, 1, 10);
    assert!(router.accept_session(2).is_some());
    let (resp, stale) = router.apply_connect_outcome(2, Ok(10));
    assert!(stale);
    assert_eq!(
        resp,
        Some((
            2,
            InternalServiceResponse::ConnectionFailure {
                message: String::from("duplicate connection id"),
            }
        ))
    );
    // the connection still belongs to its first owner
    let routed = router.incoming_message(10, vec![1], 0);
    assert_eq!(routed.unwrap().0, 1);
}

#[test]
fn disconnect_flows() {
    let mut router = CommandRouter::new();
    establish(&mut router, 1, 10);
    let (resp, action) = router.handle_command(1, InternalServicePayload::Disconnect { uuid: 1, cid: 10 });
    assert!(resp.is_none());
    assert_eq!(action, Some(EngineAction::Disconnect { uuid: 1, cid: 10 }));
    assert_eq!(
        apply_disconnect_outcome(1, 10, Ok(())),
        (1, InternalServiceResponse::DisconnectSuccess { cid: 10 })
    );
    // the entry is already gone: a second disconnect is an explicit failure
    let (resp, action) = router.handle_command(1, InternalServicePayload::Disconnect { uuid: 1, cid: 10 });
    assert!(action.is_none());
    assert_eq!(
        resp,
        Some((
            1,
            InternalServiceResponse::DisconnectFailure {
                cid: 10,
                message: String::from("connection not found"),
            }
        ))
    );
    assert_eq!(
        apply_disconnect_outcome(1, 10, Err(String::from("engine refused"))),
        (
            1,
            InternalServiceResponse::DisconnectFailure {
                cid: 10,
                message: String::from("engine refused"),
            }
        )
    );
}

#[test]
fn file_transfer_flows() {
    let mut router = CommandRouter::new();
    establish(&mut router, 1, 10);
    let (resp, action) = router.handle_command(1, InternalServicePayload::SendFile {
        uuid: 1,
        source: String::from("/tmp/a"),
        cid: 10,
        chunk_size: 1024,
        transfer_type: citadel_workspace_service::types::TransferType::FileTransfer,
    });
    assert!(resp.is_none());
    assert!(matches!(action, Some(EngineAction::SendFile { .. })));
    assert_eq!(
        apply_file_outcome(1, 10, Ok(())),
        (1, InternalServiceResponse::SendFileSuccess { cid: 10 })
    );
    assert_eq!(
        apply_file_outcome(1, 10, Err(String::from("no such file"))),
        (
            1,
            InternalServiceResponse::SendFileFailure {
                cid: 10,
                message: String::from("no such file"),
            }
        )
    );
    // a transfer against an unknown connection fails at lookup
    let (resp, action) = router.handle_command(1, InternalServicePayload::DownloadFile {
        virtual_path: String::from("/vault/a"),
        transfer_security_level: 0,
        delete_on_pull: false,
        cid: 77,
        uuid: 1,
    });
    assert!(action.is_none());
    assert_eq!(
        resp,
        Some((
            1,
            InternalServiceResponse::SendFileFailure {
                cid: 77,
                message: String::from("connection not found"),
            }
        ))
    );
}

#[test]
fn group_flows() {
    let mut router = CommandRouter::new();
    establish(&mut router, 1, 10);
    let (resp, action) = router.handle_command(1, InternalServicePayload::StartGroup {
        initial_users_to_invite: None,
        cid: 10,
        uuid: 1,
    });
    assert!(resp.is_none());
    assert!(matches!(action, Some(EngineAction::StartGroup { .. })));
    assert_eq!(apply_group_outcome(1, 10, Ok(())), None);
    assert_eq!(
        apply_group_outcome(1, 10, Err(String::from("group refused"))),
        Some((
            1,
            InternalServiceResponse::MessageSendError {
                cid: 10,
                message: String::from("group refused"),
            }
        ))
    );
}


#[test]
fn routing_uses_the_socket_session_not_the_claimed_field() {
    let mut router = CommandRouter::new();
    assert!(router.accept_session(1).is_some());
    assert!(router.accept_session(2).is_some());
    // a command arriving on session 1 claims to be session 2: the error
    // still goes back to session 1
    let (resp, action) = router.handle_command(1, InternalServicePayload::Message {
        uuid: 2,
        message: vec![1],
        cid: 5,
        user_cid: 0,
        security_level: 0,
    });
    assert!(action.is_none());
    assert_eq!(
        resp,
        Some((
            1,
            InternalServiceResponse::MessageSendError {
                cid: 5,
                message: String::from("connection not found"),
            }
        ))
    );
}

use rpc_client::client::{
    complete_request, complete_send, Dispatch, Message, Request, SlotOutcome, WriteOutcome,
};
use rpc_client::codec::{decode_envelope, encode_envelope};
use rpc_client::envelope::{TAG_OPEN_WORKTREE, TAG_UPDATE_WORKTREE};
use rpc_client::{Envelope, Payload, RpcClient, RpcError, TransportErrorKind};

#[test]
fn test_request_response() {
    let mut client = RpcClient::new();
    let cid = client.add_connection();

    let auth = Payload::Auth {
        user_id: 42,
        access_token: 7,
    };
    let (request_id, env) = client.request(cid, auth).unwrap();

    // The peer decodes exactly the request envelope that was sent.
    let mut wire: Vec<u8> = Vec::new();
    encode_envelope(&env, &mut wire);
    let (server_req, _) = decode_envelope(&wire, 0).unwrap();
    assert_eq!(
        server_req.payload,
        Payload::Auth {
            user_id: 42,
            access_token: 7
        }
    );
    assert_eq!(server_req.responding_to, None);

    // The peer answers another request first, to ensure replies are matched
    // up by correlation id rather than by arrival order.
    let spurious = Envelope {
        id: 1000,
        responding_to: Some(999),
        payload: Payload::AuthResponse {
            credentials_valid: false,
        },
    };
    let d1 = client.handle_incoming(cid, spurious);
    assert_eq!(d1, Dispatch::StaleResponse { responding_to: 999 });

    let reply = Envelope {
        id: 1001,
        responding_to: Some(server_req.id),
        payload: Payload::AuthResponse {
            credentials_valid: true,
        },
    };
    let d2 = client.handle_incoming(cid, reply);
    match d2 {
        Dispatch::Response {
            request_id: completed,
            envelope,
        } => {
            assert_eq!(completed, request_id);
            let body = complete_request(&auth, SlotOutcome::Delivered(envelope)).unwrap();
            assert_eq!(
                body,
                Payload::AuthResponse {
                    credentials_valid: true
                }
            );
        }
        other => panic!("expected a response, got {:?}", other),
    }
}

#[test]
fn test_disconnect() {
    let mut client = RpcClient::new();
    let cid = client.add_connection();
    assert!(client.has_connection(cid));

    client.disconnect(cid);
    assert!(!client.has_connection(cid));

    // Disconnecting again succeeds: the operation is idempotent.
    client.disconnect(cid);
    assert!(!client.has_connection(cid));

    // Later operations on the removed id fail with UnknownConnection.
    let auth = Payload::Auth {
        user_id: 1,
        access_token: 2,
    };
    assert_eq!(client.request(cid, auth), Err(RpcError::UnknownConnection));
    assert_eq!(
        client.send(
            cid,
            Payload::UpdateWorktree {
                worktree_id: 3,
                version: 4
            }
        ),
        Err(RpcError::UnknownConnection)
    );
}

#[test]
fn test_io_error() {
    let mut client = RpcClient::new();
    let cid = client.add_connection();

    let auth = Payload::Auth {
        user_id: 42,
        access_token: 7,
    };
    // The slot is recorded and the envelope handed out, but the peer has
    // hung up: writing the frame fails with a broken pipe, and that kind is
    // what the caller sees.
    let (_, _env) = client.request(cid, auth).unwrap();
    let result = complete_request(
        &auth,
        SlotOutcome::WriteFailed(TransportErrorKind::BrokenPipe),
    );
    assert_eq!(
        result,
        Err(RpcError::TransportFailure(TransportErrorKind::BrokenPipe))
    );
}

#[test]
fn test_handler_order_precedence() {
    let mut client = RpcClient::new();
    let cid = client.add_connection();

    // Handler A accepts only OpenWorktree; handler B accepts OpenWorktree
    // and UpdateWorktree.
    let a = client.add_request_handler(1, vec![TAG_OPEN_WORKTREE]);
    let b = client.add_message_handler(2, vec![TAG_OPEN_WORKTREE, TAG_UPDATE_WORKTREE]);

    let open = Envelope {
        id: 5,
        responding_to: None,
        payload: Payload::OpenWorktree { worktree_id: 9 },
    };
    assert_eq!(
        client.handle_incoming(cid, open),
        Dispatch::Delivered { handler: a }
    );

    let update = Envelope {
        id: 6,
        responding_to: None,
        payload: Payload::UpdateWorktree {
            worktree_id: 9,
            version: 1,
        },
    };
    assert_eq!(
        client.handle_incoming(cid, update),
        Dispatch::Delivered { handler: b }
    );

    let got_a = client.next_erased(a).unwrap();
    assert_eq!(got_a.body, open);
    let got_b = client.next_erased(b).unwrap();
    assert_eq!(got_b.body, update);
    assert!(client.next_erased(a).is_none());
}

#[test]
fn test_duplicate_handler_guard() {
    let mut client = RpcClient::new();
    assert!(!client.has_handler_type(7));
    client.add_message_handler(7, vec![TAG_UPDATE_WORKTREE]);
    // Registering another handler under type key 7 is now a contract
    // violation: the registry reports the key as taken.
    assert!(client.has_handler_type(7));
    // A different type key still registers fine.
    let second = client.add_request_handler(8, vec![TAG_OPEN_WORKTREE]);
    assert_eq!(second, 1);
}

#[test]
fn test_respond_correlation() {
    let mut client = RpcClient::new();
    let cid = client.add_connection();
    let h = client.add_request_handler(1, vec![TAG_OPEN_WORKTREE]);

    // A peer-initiated request arrives with id 7.
    let inbound = Envelope {
        id: 7,
        responding_to: None,
        payload: Payload::OpenWorktree { worktree_id: 3 },
    };
    assert_eq!(
        client.handle_incoming(cid, inbound),
        Dispatch::Delivered { handler: h }
    );
    let erased = client.next_erased(h).unwrap();
    let mut request = Request::from_erased(erased);
    assert_eq!(request.connection_id(), cid);
    assert_eq!(request.body(), Payload::OpenWorktree { worktree_id: 3 });

    // The response envelope carries responding_to = 7 and a fresh local id.
    let out = client
        .respond(request, Payload::OpenWorktreeResponse { ok: true })
        .unwrap();
    assert_eq!(out.responding_to, Some(7));
    assert_eq!(out.id, 0);
    assert_eq!(out.payload, Payload::OpenWorktreeResponse { ok: true });
}

#[test]
fn test_cancellation_safety() {
    let mut client = RpcClient::new();
    let cid = client.add_connection();
    let auth = Payload::Auth {
        user_id: 1,
        access_token: 1,
    };

    let (first_id, _) = client.request(cid, auth).unwrap();
    // The caller drops its pending request future.
    client.cancel_request(cid, first_id);

    // A late reply to the abandoned request is discarded as stale.
    let late = Envelope {
        id: 50,
        responding_to: Some(first_id),
        payload: Payload::AuthResponse {
            credentials_valid: true,
        },
    };
    assert_eq!(
        client.handle_incoming(cid, late),
        Dispatch::StaleResponse {
            responding_to: first_id
        }
    );

    // Subsequent requests still work, under an id the cancelled request
    // never used, and correlate as usual.
    let (second_id, _) = client.request(cid, auth).unwrap();
    assert_ne!(second_id, first_id);
    let reply = Envelope {
        id: 51,
        responding_to: Some(second_id),
        payload: Payload::AuthResponse {
            credentials_valid: true,
        },
    };
    match client.handle_incoming(cid, reply) {
        Dispatch::Response { request_id, .. } => assert_eq!(request_id, second_id),
        other => panic!("expected a response, got {:?}", other),
    }
}

#[test]
fn test_send_records_no_slot() {
    let mut client = RpcClient::new();
    let cid = client.add_connection();
    let env = client
        .send(
            cid,
            Payload::UpdateWorktree {
                worktree_id: 1,
                version: 2,
            },
        )
        .unwrap();
    assert_eq!(env.id, 0);
    assert_eq!(env.responding_to, None);

    // No response slot was recorded: a reply correlating to that id is
    // stale.
    let reply = Envelope {
        id: 9,
        responding_to: Some(env.id),
        payload: Payload::AuthResponse {
            credentials_valid: true,
        },
    };
    assert_eq!(
        client.handle_incoming(cid, reply),
        Dispatch::StaleResponse {
            responding_to: env.id
        }
    );
}

#[test]
fn test_message_ids_are_fresh() {
    let mut client = RpcClient::new();
    let cid = client.add_connection();
    let auth = Payload::Auth {
        user_id: 1,
        access_token: 1,
    };
    let (id0, env0) = client.request(cid, auth).unwrap();
    let (id1, env1) = client.request(cid, auth).unwrap();
    let env2 = client.send(cid, auth).unwrap();
    assert_eq!((id0, id1, env2.id), (0, 1, 2));
    assert_eq!(env0.id, 0);
    assert_eq!(env1.id, 1);
}

#[test]
fn test_unhandled_and_mismatch() {
    let mut client = RpcClient::new();
    let cid = client.add_connection();

    // No handler accepts the payload: the envelope is reported unhandled.
    let stray = Envelope {
        id: 1,
        responding_to: None,
        payload: Payload::UpdateWorktree {
            worktree_id: 1,
            version: 1,
        },
    };
    assert_eq!(
        client.handle_incoming(cid, stray),
        Dispatch::Unhandled { envelope: stray }
    );

    // A delivered reply of the wrong variant is a protocol mismatch, and an
    // abandoned slot surfaces as a closed channel.
    let auth = Payload::Auth {
        user_id: 1,
        access_token: 1,
    };
    let wrong = Envelope {
        id: 2,
        responding_to: Some(0),
        payload: Payload::OpenWorktreeResponse { ok: true },
    };
    assert_eq!(
        complete_request(&auth, SlotOutcome::Delivered(wrong)),
        Err(RpcError::ProtocolMismatch)
    );
    assert_eq!(
        complete_request(&auth, SlotOutcome::Abandoned),
        Err(RpcError::ChannelClosed)
    );
}

#[test]
fn test_backpressure_on_full_queue() {
    let mut client = RpcClient::new();
    let cid = client.add_connection();
    let h = client.add_message_handler(1, vec![TAG_UPDATE_WORKTREE]);

    for i in 0..256u32 {
        let env = Envelope {
            id: i,
            responding_to: None,
            payload: Payload::UpdateWorktree {
                worktree_id: i,
                version: 0,
            },
        };
        assert_eq!(
            client.handle_incoming(cid, env),
            Dispatch::Delivered { handler: h }
        );
    }
    // The 257th envelope finds the queue full and is handed back intact.
    let overflow = Envelope {
        id: 256,
        responding_to: None,
        payload: Payload::UpdateWorktree {
            worktree_id: 256,
            version: 0,
        },
    };
    assert_eq!(
        client.handle_incoming(cid, overflow),
        Dispatch::Busy {
            handler: h,
            envelope: overflow
        }
    );
    // Consuming one message makes room again.
    assert!(client.next_erased(h).is_some());
    assert_eq!(
        client.handle_incoming(cid, overflow),
        Dispatch::Delivered { handler: h }
    );
}

#[test]
fn test_message_view_extraction() {
    let mut client = RpcClient::new();
    let cid = client.add_connection();
    let h = client.add_message_handler(1, vec![TAG_UPDATE_WORKTREE]);
    let env = Envelope {
        id: 11,
        responding_to: None,
        payload: Payload::UpdateWorktree {
            worktree_id: 4,
            version: 5,
        },
    };
    client.handle_incoming(cid, env);
    let erased = client.next_erased(h).unwrap();
    let mut message = Message::from_erased(erased);
    assert_eq!(message.connection_id(), cid);
    assert_eq!(
        message.body(),
        Payload::UpdateWorktree {
            worktree_id: 4,
            version: 5,
        }
    );
    // The body is gone after the one-shot extraction.
    assert!(message.body.is_none());
}

#[test]
fn test_connections_are_independent() {
    let mut client = RpcClient::new();
    let first = client.add_connection();
    let second = client.add_connection();
    assert_ne!(first, second);
    let auth = Payload::Auth {
        user_id: 1,
        access_token: 1,
    };

    let (id_first, _) = client.request(first, auth).unwrap();
    let (id_second, _) = client.request(second, auth).unwrap();
    // Each connection mints its own id space.
    assert_eq!(id_first, id_second);

    // A reply on the second connection never completes the first's request.
    let reply = Envelope {
        id: 3,
        responding_to: Some(id_first),
        payload: Payload::AuthResponse {
            credentials_valid: true,
        },
    };
    match client.handle_incoming(second, reply) {
        Dispatch::Response { request_id, .. } => assert_eq!(request_id, id_second),
        other => panic!("expected a response, got {:?}", other),
    }
    // The first connection's request is still outstanding.
    match client.handle_incoming(first, reply) {
        Dispatch::Response { request_id, .. } => assert_eq!(request_id, id_first),
        other => panic!("expected a response, got {:?}", other),
    }
}

#[test]
fn test_connection_ids_monotonic() {
    let mut client = RpcClient::new();
    let first = client.add_connection();
    client.disconnect(first);
    // A handle, once given out, is never reused, not even after disconnect.
    let second = client.add_connection();
    assert_ne!(second, first);
    let third = client.add_connection();
    assert_ne!(third, first);
    assert_ne!(third, second);
}

#[test]
fn test_complete_send_outcomes() {
    assert_eq!(complete_send(WriteOutcome::Written), Ok(()));
    assert_eq!(
        complete_send(WriteOutcome::WriteFailed(TransportErrorKind::BrokenPipe)),
        Err(RpcError::TransportFailure(TransportErrorKind::BrokenPipe))
    );
    assert_eq!(
        complete_send(WriteOutcome::WriteFailed(TransportErrorKind::Other)),
        Err(RpcError::TransportFailure(TransportErrorKind::Other))
    );
}

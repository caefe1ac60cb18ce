use rack_director::tftp::packet::{Error, Packet};
use rack_director::tftp::server::Server;
use rack_director::tftp::state::{ControlFlow, MemoryProvider, State};

fn provider(name: &str, len: usize) -> MemoryProvider {
    MemoryProvider {
        filename: name.to_string(),
        contents: vec![7u8; len],
    }
}

fn rrq(name: &str) -> Packet {
    Packet::Rrq {
        filename: name.to_string(),
        mode: "octet".to_string(),
    }
}

#[test]
fn test_tftp_single_block_transfer() {
    let mut state = State::new(provider("ipxe.efi", 100));
    let r = state.handle(rrq("ipxe.efi"));
    match r {
        ControlFlow::Continue(Packet::Data { block, ref data }) => {
            assert_eq!(block, 1);
            assert_eq!(data.len(), 100);
        }
        other => panic!("unexpected response {other:?}"),
    }
    let r = state.handle(Packet::Ack { block: 1 });
    assert!(matches!(r, ControlFlow::Closed(None)));
}

#[test]
fn test_tftp_exact_multiple_gets_empty_trailer() {
    let mut state = State::new(provider("ipxe.efi", 512));
    let r = state.handle(rrq("ipxe.efi"));
    match r {
        ControlFlow::Continue(Packet::Data { block, ref data }) => {
            assert_eq!(block, 1);
            assert_eq!(data.len(), 512);
        }
        other => panic!("unexpected response {other:?}"),
    }
    let r = state.handle(Packet::Ack { block: 1 });
    match r {
        ControlFlow::Continue(Packet::Data { block, ref data }) => {
            assert_eq!(block, 2);
            assert_eq!(data.len(), 0);
        }
        other => panic!("unexpected response {other:?}"),
    }
    let r = state.handle(Packet::Ack { block: 2 });
    assert!(matches!(r, ControlFlow::Closed(None)));
}

#[test]
fn test_tftp_retransmit_after_timeout() {
    let mut state = State::new(provider("ipxe.efi", 1000));
    let r = state.handle(rrq("ipxe.efi"));
    match r {
        ControlFlow::Continue(Packet::Data { block, ref data }) => {
            assert_eq!(block, 1);
            assert_eq!(data.len(), 512);
        }
        other => panic!("unexpected response {other:?}"),
    }
    let r = state.handle_timeout();
    match r {
        ControlFlow::Continue(Packet::Data { block, ref data }) => {
            assert_eq!(block, 1);
            assert_eq!(data.len(), 512);
        }
        other => panic!("unexpected response {other:?}"),
    }
    let r = state.handle(Packet::Ack { block: 1 });
    match r {
        ControlFlow::Continue(Packet::Data { block, ref data }) => {
            assert_eq!(block, 2);
            assert_eq!(data.len(), 488);
        }
        other => panic!("unexpected response {other:?}"),
    }
    let r = state.handle(Packet::Ack { block: 2 });
    assert!(matches!(r, ControlFlow::Closed(None)));
}

#[test]
fn test_tftp_duplicate_ack_resends_block() {
    let mut state = State::new(provider("ipxe.efi", 1000));
    state.handle(rrq("ipxe.efi"));
    state.handle(Packet::Ack { block: 1 });
    // The ACK for block 1 arrives again: block 2 is resent unchanged.
    let r = state.handle(Packet::Ack { block: 1 });
    match r {
        ControlFlow::Continue(Packet::Data { block, ref data }) => {
            assert_eq!(block, 2);
            assert_eq!(data.len(), 488);
        }
        other => panic!("unexpected response {other:?}"),
    }
}

#[test]
fn test_tftp_bad_opcode_gets_illegal_operation() {
    let mut state = State::new(provider("ipxe.efi", 100));
    let r = state.handle(Packet::Ack { block: 0 });
    match r {
        ControlFlow::Closed(Some(Packet::Error { code, ref message })) => {
            assert_eq!(code, Error::IllegalOperation);
            assert_eq!(message, "");
        }
        other => panic!("unexpected response {other:?}"),
    }
}

#[test]
fn test_tftp_unknown_file_gets_not_found() {
    let mut state = State::new(provider("ipxe.efi", 100));
    let r = state.handle(rrq("grub.efi"));
    match r {
        ControlFlow::Closed(Some(Packet::Error { code, .. })) => {
            assert_eq!(code, Error::FileNotFound);
        }
        other => panic!("unexpected response {other:?}"),
    }
}

#[test]
fn test_tftp_unexpected_ack_number_closes() {
    let mut state = State::new(provider("ipxe.efi", 2000));
    state.handle(rrq("ipxe.efi"));
    let r = state.handle(Packet::Ack { block: 9 });
    match r {
        ControlFlow::Closed(Some(Packet::Error { code, .. })) => {
            assert_eq!(code, Error::IllegalOperation);
        }
        other => panic!("unexpected response {other:?}"),
    }
}

#[test]
fn test_tftp_consecutive_timeouts_close_session() {
    let mut state = State::new(provider("ipxe.efi", 1000));
    state.handle(rrq("ipxe.efi"));
    for _ in 0..4 {
        let r = state.handle_timeout();
        assert!(matches!(r, ControlFlow::Continue(_)));
    }
    let r = state.handle_timeout();
    assert!(matches!(r, ControlFlow::Closed(None)));
}

#[test]
fn test_tftp_server_default_address() {
    let server = Server::new(provider("ipxe.efi", 1));
    assert_eq!(server.address, "0.0.0.0:69");
    let mut server = server;
    server.address("127.0.0.1:6969".to_string());
    assert_eq!(server.address, "127.0.0.1:6969");
}

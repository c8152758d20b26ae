use std::cell::RefCell;
use tcp_relay::chunker::Chunker;
use tcp_relay::codec::FrameCodec;
use tcp_relay::frame::{FileError, Frame, ProtocolError};
use tcp_relay::handler::{Action, ConnState, ConnectionHandler};
use tcp_relay::packet::Packet;
use tcp_relay::registry::{PeerRegistry, RegistryError};
use tcp_relay::server::accept;

type Outbox = RefCell<Vec<Vec<u8>>>;

fn outbox() -> Outbox {
    RefCell::new(Vec::new())
}

fn deliver(outbox: &Outbox, message: &[u8]) -> bool {
    outbox.borrow_mut().push(message.to_vec());
    true
}

fn active(id: u64) -> ConnectionHandler {
    let mut handler = ConnectionHandler::new(id);
    handler.start();
    handler
}

#[test]
fn a_new_handler_is_connected_and_becomes_active() {
    let mut handler = ConnectionHandler::new(4);
    assert_eq!(handler.id(), 4);
    assert_eq!(handler.state(), ConnState::Connected);
    assert!(!handler.is_closed());
    handler.start();
    assert_eq!(handler.state(), ConnState::Active);
    handler.start();
    assert_eq!(handler.state(), ConnState::Active);
}

#[test]
fn accept_registers_the_peer_and_gives_its_handler() {
    let mut registry: PeerRegistry<u8> = PeerRegistry::new();
    let first = accept(&mut registry, "127.0.0.1:4000".to_string(), 10).unwrap();
    let second = accept(&mut registry, "127.0.0.1:4001".to_string(), 20).unwrap();
    assert_eq!(first.id(), 1);
    assert_eq!(second.id(), 2);
    assert_eq!(first.state(), ConnState::Connected);
    assert_eq!(registry.ids(), vec![1, 2]);
    assert_eq!(registry.get(2).unwrap().handle, 20);
    assert_eq!(registry.get(2).unwrap().addr, "127.0.0.1:4001");

    let mut full: PeerRegistry<u8> = PeerRegistry::starting_at(u64::MAX);
    assert_eq!(accept(&mut full, "x".to_string(), 1), Err(RegistryError::Exhausted));
    assert!(full.is_empty());
}

#[test]
fn chat_is_relayed_under_the_senders_identifier() {
    let mut handler = active(3);
    let action = handler.on_frame(Ok(Frame::Chat("good morning".to_string())));
    assert_eq!(
        action,
        Action::Broadcast(Frame::Relay { id: 3, text: "good morning".to_string() })
    );
    assert_eq!(handler.state(), ConnState::Active);
}

#[test]
fn the_first_frame_makes_a_connected_peer_active() {
    let mut handler = ConnectionHandler::new(3);
    let action = handler.on_frame(Ok(Frame::Chat("hi".to_string())));
    assert_eq!(action, Action::Broadcast(Frame::Relay { id: 3, text: "hi".to_string() }));
    assert_eq!(handler.state(), ConnState::Active);
}

#[test]
fn chat_reaches_every_other_peer_as_a_client_line() {
    let codec = FrameCodec::new(512);
    let mut registry: PeerRegistry<Outbox> = PeerRegistry::new();
    let mut handlers = Vec::new();
    for _ in 0..3 {
        handlers.push(accept(&mut registry, "peer".to_string(), outbox()).unwrap());
    }
    let wire = codec.encode(&Frame::Chat("hello all".to_string())).unwrap();
    let action = handlers[1].on_frame(codec.decode(&wire));
    let frame = match action {
        Action::Broadcast(frame) => frame,
        other => panic!("no broadcast: {:?}", other),
    };
    let message = codec.encode(&frame).unwrap();
    assert_eq!(&message[4..], b"CLIENT 2: hello all");
    let outcomes = registry.broadcast(Some(handlers[1].id()), &message, deliver);
    assert_eq!(outcomes.len(), 2);
    assert_eq!(*registry.get(1).unwrap().handle.borrow(), vec![message.clone()]);
    assert!(registry.get(2).unwrap().handle.borrow().is_empty());
    assert_eq!(*registry.get(3).unwrap().handle.borrow(), vec![message]);
}

#[test]
fn a_file_request_asks_for_the_file_to_be_opened() {
    let mut handler = active(1);
    let action = handler.on_frame(Ok(Frame::FileRequest("photo.jpg".to_string())));
    assert_eq!(action, Action::OpenFile("photo.jpg".to_string()));
    assert_eq!(handler.state(), ConnState::Active);

    let action = handler.on_frame(Ok(Frame::FileRequest(" ../../etc/passwd \n".to_string())));
    assert_eq!(action, Action::OpenFile("passwd".to_string()));
}

#[test]
fn a_missing_file_is_told_to_the_requester_only() {
    let codec = FrameCodec::new(512);
    let mut registry: PeerRegistry<Outbox> = PeerRegistry::new();
    let mut handler = accept(&mut registry, "a".to_string(), outbox()).unwrap();
    accept(&mut registry, "b".to_string(), outbox()).unwrap();
    handler.start();
    let ids_before = registry.ids();

    let request = handler.on_frame(Ok(Frame::FileRequest("nothing.bin".to_string())));
    assert_eq!(request, Action::OpenFile("nothing.bin".to_string()));
    let answer = handler.on_file(Err(FileError::NotFound), 4096);
    assert_eq!(answer, Action::Reply(Frame::Failed(FileError::NotFound)));
    assert_eq!(handler.state(), ConnState::Active);
    assert_eq!(registry.ids(), ids_before);
    assert!(registry.get(2).unwrap().handle.borrow().is_empty());

    if let Action::Reply(frame) = answer {
        assert_eq!(&codec.encode(&frame).unwrap()[4..], b"ERROR/ file not found");
    }
    let next = handler.on_frame(Ok(Frame::Chat("still here".to_string())));
    assert_eq!(next, Action::Broadcast(Frame::Relay { id: 1, text: "still here".to_string() }));
}

#[test]
fn an_unreadable_file_is_told_as_unreadable() {
    let mut handler = active(1);
    let answer = handler.on_file(Err(FileError::Unreadable), 4096);
    assert_eq!(answer, Action::Reply(Frame::Failed(FileError::Unreadable)));
    assert_eq!(handler.state(), ConnState::Active);
}

#[test]
fn an_opened_file_is_streamed_in_chunks() {
    let mut handler = active(1);
    let content = vec![7u8; 25];
    let action = handler.on_file(Ok(content.clone()), 10);
    assert_eq!(action, Action::Stream(Chunker::new(content.clone(), 10).unwrap()));
    assert_eq!(handler.state(), ConnState::Active);
    if let Action::Stream(mut chunker) = action {
        let mut sizes = Vec::new();
        while let Some(chunk) = chunker.next() {
            sizes.push(chunk.data.len());
        }
        assert_eq!(sizes, vec![10, 10, 5]);
    }
}

#[test]
fn a_file_that_cannot_be_chunked_counts_as_unreadable() {
    let mut handler = active(1);
    let answer = handler.on_file(Ok(vec![1, 2, 3]), 0);
    assert_eq!(answer, Action::Reply(Frame::Failed(FileError::Unreadable)));
}

#[test]
fn end_closes_the_connection_once() {
    let mut registry: PeerRegistry<Outbox> = PeerRegistry::new();
    let mut handlers = Vec::new();
    for _ in 0..3 {
        handlers.push(accept(&mut registry, "peer".to_string(), outbox()).unwrap());
    }
    let mut leaving = handlers.remove(1);
    leaving.start();

    assert_eq!(leaving.on_frame(Ok(Frame::End)), Action::Close);
    assert_eq!(leaving.state(), ConnState::Closing);
    assert_eq!(registry.ids(), vec![1, 2, 3]);

    assert_eq!(leaving.on_read_error(), Action::Idle);
    assert_eq!(leaving.state(), ConnState::Closing);

    assert_eq!(leaving.close(&mut registry), Some(Frame::Departure { id: 2 }));
    assert_eq!(leaving.state(), ConnState::Closed);
    assert!(leaving.is_closed());
    assert_eq!(registry.ids(), vec![1, 3]);

    assert_eq!(leaving.on_read_error(), Action::Idle);
    assert_eq!(leaving.close(&mut registry), None);
    assert_eq!(leaving.on_frame(Ok(Frame::End)), Action::Idle);
    assert_eq!(leaving.close(&mut registry), None);
    assert_eq!(leaving.state(), ConnState::Closed);
    assert_eq!(registry.ids(), vec![1, 3]);
}

#[test]
fn the_departure_notice_goes_to_the_remaining_peers() {
    let codec = FrameCodec::new(512);
    let mut registry: PeerRegistry<Outbox> = PeerRegistry::new();
    let mut leaving = accept(&mut registry, "a".to_string(), outbox()).unwrap();
    accept(&mut registry, "b".to_string(), outbox()).unwrap();
    accept(&mut registry, "c".to_string(), outbox()).unwrap();
    leaving.on_frame(codec.decode(&codec.encode(&Frame::End).unwrap()));
    let notice = leaving.close(&mut registry).unwrap();
    let message = codec.encode(&notice).unwrap();
    assert_eq!(&message[4..], b"CLIENT 1 disconnected.");
    let outcomes = registry.broadcast(None, &message, deliver);
    assert_eq!(outcomes.len(), 2);
    assert_eq!(*registry.get(2).unwrap().handle.borrow(), vec![message.clone()]);
    assert_eq!(*registry.get(3).unwrap().handle.borrow(), vec![message]);
}

#[test]
fn a_read_error_closes_like_the_end_of_the_session() {
    for started in [false, true] {
        let mut registry: PeerRegistry<()> = PeerRegistry::new();
        let mut handler = accept(&mut registry, "a".to_string(), ()).unwrap();
        if started {
            handler.start();
        }
        assert_eq!(handler.on_read_error(), Action::Close);
        assert_eq!(handler.state(), ConnState::Closing);
        assert_eq!(handler.close(&mut registry), Some(Frame::Departure { id: 1 }));
        assert!(registry.is_empty());
    }
}

#[test]
fn a_write_error_closes_like_a_read_error() {
    let mut registry: PeerRegistry<()> = PeerRegistry::new();
    let mut handler = accept(&mut registry, "a".to_string(), ()).unwrap();
    handler.start();
    assert_eq!(handler.on_write_error(), Action::Close);
    assert_eq!(handler.state(), ConnState::Closing);
    assert_eq!(handler.on_write_error(), Action::Idle);
    assert_eq!(handler.close(&mut registry), Some(Frame::Departure { id: 1 }));
    assert_eq!(handler.on_write_error(), Action::Idle);
    assert_eq!(handler.state(), ConnState::Closed);
}

#[test]
fn what_the_codec_refused_closes_the_connection() {
    for error in [ProtocolError::Malformed, ProtocolError::TooLarge] {
        let mut handler = active(9);
        assert_eq!(handler.on_frame(Err(error)), Action::Close);
        assert_eq!(handler.state(), ConnState::Closing);
    }
}

#[test]
fn frames_that_only_the_relay_sends_close_the_connection() {
    let digest = "0".repeat(64);
    let frames = vec![
        Frame::Chunk(Packet::new(0, vec![1], digest)),
        Frame::Server("i am the server".to_string()),
        Frame::Relay { id: 1, text: "i am someone else".to_string() },
        Frame::Departure { id: 1 },
        Frame::Failed(FileError::NotFound),
    ];
    for frame in frames {
        let mut handler = active(2);
        assert_eq!(handler.on_frame(Ok(frame)), Action::Close);
        assert_eq!(handler.state(), ConnState::Closing);
    }
}

#[test]
fn close_before_closing_does_nothing() {
    let mut registry: PeerRegistry<()> = PeerRegistry::new();
    let mut handler = accept(&mut registry, "a".to_string(), ()).unwrap();
    assert_eq!(handler.close(&mut registry), None);
    assert_eq!(handler.state(), ConnState::Connected);
    handler.start();
    assert_eq!(handler.close(&mut registry), None);
    assert_eq!(handler.state(), ConnState::Active);
    assert_eq!(registry.ids(), vec![1]);
}

#[test]
fn a_file_result_outside_the_active_state_is_ignored() {
    let mut connected = ConnectionHandler::new(1);
    assert_eq!(connected.on_file(Err(FileError::NotFound), 10), Action::Idle);
    assert_eq!(connected.state(), ConnState::Connected);

    let mut closing = active(1);
    closing.on_read_error();
    assert_eq!(closing.on_file(Ok(vec![1, 2, 3]), 10), Action::Idle);
    assert_eq!(closing.state(), ConnState::Closing);
}

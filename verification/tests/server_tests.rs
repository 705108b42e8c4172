use hproxy_core::buffer::BufferMode;
use hproxy_core::connection::EventResponse;
use hproxy_core::http::{ErrorState, HttpState};
use hproxy_core::server::{
    ApplicationListener, CloseOutcome, Command, Dispatch, Events, HttpFront, HttpProxyOrder,
    Instance, IoOutcome, NotifyAction, Server, ServerMessage,
};
use hproxy_core::token::Token;

fn listener() -> ApplicationListener {
    ApplicationListener { token: Token(0), front_address: String::from("127.0.0.1:8080") }
}

fn server(cap: usize) -> Server {
    Server::new(listener(), cap)
}

const RD: Events = Events { readable: true, writable: false, hup: false };
const WR: Events = Events { readable: false, writable: true, hup: false };
const HUP: Events = Events { readable: false, writable: false, hup: true };

#[test]
fn accept_hands_out_successive_tokens() {
    let mut s = server(3);
    assert_eq!(s.accept(), Some(Token(1)));
    assert_eq!(s.accept(), Some(Token(2)));
    assert_eq!(s.accept(), Some(Token(3)));
    assert_eq!(s.clients[0].as_ref().unwrap().token, Some(Token(1)));
    assert_eq!(s.clients[2].as_ref().unwrap().token, Some(Token(3)));
}

#[test]
fn accept_beyond_capacity_is_rejected_while_others_progress() {
    let mut s = server(2);
    assert_eq!(s.accept(), Some(Token(1)));
    assert_eq!(s.accept(), Some(Token(2)));
    // the table is full: the next connection is refused (its socket is
    // dropped by the caller), not a crash
    assert_eq!(s.accept(), None);
    // existing connections still make progress
    let r = s.front_readable(Token(1), b"GET / HTTP/1.1\r\n");
    assert_eq!(r, IoOutcome::Handled);
    match &s.clients[0].as_ref().unwrap().http_state {
        HttpState::HasRequestLine(_, rl) => assert_eq!(rl.method, b"GET".to_vec()),
        other => panic!("unexpected state: {:?}", other),
    }
    assert_eq!(s.accept(), None);
}

#[test]
fn parse_error_closes_and_frees_the_token() {
    let mut s = server(2);
    assert_eq!(s.accept(), Some(Token(1)));
    let r = s.front_readable(Token(1), b"FOO\r\n\r\n");
    assert_eq!(r, IoOutcome::SessionClosed(None));
    assert!(s.clients[0].is_none());
    // further events for the stale token are a harmless race
    assert_eq!(s.front_readable(Token(1), b"x"), IoOutcome::NotPresent);
    assert_eq!(s.close_client(Token(1)), CloseOutcome::NotPresent);
    // the token is free for reuse by the next accept
    assert_eq!(s.accept(), Some(Token(1)));
}

#[test]
fn close_is_exactly_once_and_reuses_slot() {
    let mut s = server(2);
    assert_eq!(s.accept(), Some(Token(1)));
    assert_eq!(s.accept(), Some(Token(2)));
    assert_eq!(s.close_client(Token(1)), CloseOutcome::Closed(None));
    // double close is a no-op, not an error
    assert_eq!(s.close_client(Token(1)), CloseOutcome::NotPresent);
    // out-of-range tokens are refused gracefully
    assert_eq!(s.close_client(Token(0)), CloseOutcome::NotPresent);
    assert_eq!(s.close_client(Token(9)), CloseOutcome::NotPresent);
    // the freed slot is the first one reused
    assert_eq!(s.accept(), Some(Token(1)));
}

#[test]
fn ready_routes_listener_clients_and_backends() {
    let mut s = server(2);
    assert_eq!(s.accept(), Some(Token(1)));
    assert_eq!(s.ready(Token(0), RD), vec![Dispatch::Accept]);
    assert_eq!(s.ready(Token(1), RD), vec![Dispatch::FrontReadable(Token(1))]);
    assert_eq!(s.ready(Token(1), WR), vec![Dispatch::FrontWritable(Token(1))]);
    assert_eq!(s.ready(Token(1), HUP), vec![Dispatch::Close(Token(1))]);
    // a stale client token routes nowhere
    assert_eq!(s.ready(Token(2), RD), vec![]);
    // an unused backend token routes nowhere
    assert_eq!(s.ready(Token(3), RD), vec![]);
    // out of all ranges
    assert_eq!(s.ready(Token(40), RD), vec![]);
    // several event kinds at once keep handler order
    let all = Events { readable: true, writable: true, hup: true };
    assert_eq!(
        s.ready(Token(1), all),
        vec![
            Dispatch::FrontReadable(Token(1)),
            Dispatch::FrontWritable(Token(1)),
            Dispatch::Close(Token(1))
        ]
    );
}

#[test]
fn backend_tokens_translate_to_their_client() {
    let mut s = server(2);
    assert_eq!(s.accept(), Some(Token(1)));
    // backend-range tokens start right after the client range
    assert_eq!(s.attach_backend(Token(1)), Some(Token(3)));
    assert_eq!(s.clients[0].as_ref().unwrap().backend_token, Some(Token(3)));
    assert_eq!(s.ready(Token(3), RD), vec![Dispatch::BackReadable(Token(1))]);
    assert_eq!(s.ready(Token(3), WR), vec![Dispatch::BackWritable(Token(1))]);
    assert_eq!(s.ready(Token(3), HUP), vec![Dispatch::Close(Token(1))]);
    // a second backend for the same session is refused
    assert_eq!(s.attach_backend(Token(1)), None);
    // a stale client token gets none
    assert_eq!(s.attach_backend(Token(2)), None);
    // closing clears the backend slab entry and reports the backend token
    assert_eq!(s.close_client(Token(1)), CloseOutcome::Closed(Some(Token(3))));
    assert!(s.backend[0].is_none());
    assert_eq!(s.ready(Token(3), RD), vec![]);
}

#[test]
fn relay_flip_cycle_moves_bytes_both_ways() {
    let mut s = server(2);
    assert_eq!(s.accept(), Some(Token(1)));
    let t = Token(1);

    // the head is parsed, the host found, the front buffer flipped for relay
    let r = s.front_readable(t, b"GET / HTTP/1.1\r\nHost: example.com\r\n\r\n");
    assert_eq!(r, IoOutcome::Handled);
    {
        let c = s.clients[0].as_ref().unwrap();
        assert!(matches!(c.http_state, HttpState::HasHost(_, _, _)));
        assert_eq!(c.front_buf.mode_of(), BufferMode::Draining);
        // backpressure: no front read interest while relaying
        assert!(!c.front_interest.readable);
        assert!(c.back_interest.writable);
        assert_eq!(c.rx_count, 37);
    }

    // the backend socket accepts part, then the rest, of the drained head
    let pending = s.clients[0].as_ref().unwrap().front_buf.drained_bytes();
    assert_eq!(pending.len(), 37);
    assert_eq!(s.back_writable(t, 10), IoOutcome::Handled);
    assert_eq!(s.clients[0].as_ref().unwrap().front_buf.drained_bytes().len(), 27);
    assert_eq!(s.back_writable(t, 27), IoOutcome::Handled);
    {
        let c = s.clients[0].as_ref().unwrap();
        // fully drained: reopened for reading from the client
        assert_eq!(c.front_buf.mode_of(), BufferMode::Accumulating);
        assert!(c.front_interest.readable);
        assert!(!c.back_interest.writable);
    }

    // the backend answers; the bytes flip towards the client
    s.back_readable(t, b"HTTP/1.1 200 OK\r\n");
    {
        let c = s.clients[0].as_ref().unwrap();
        assert_eq!(c.back_buf.mode_of(), BufferMode::Draining);
        assert!(c.front_interest.writable);
        assert!(!c.back_interest.readable);
        assert_eq!(c.back_buf.drained_bytes(), b"HTTP/1.1 200 OK\r\n".to_vec());
    }

    // the client socket accepts a part: the remainder is kept
    assert_eq!(s.front_writable(t, 5), IoOutcome::Handled);
    {
        let c = s.clients[0].as_ref().unwrap();
        assert_eq!(c.back_buf.drained_bytes(), b"1.1 200 OK\r\n".to_vec());
        assert!(c.front_interest.writable);
        assert_eq!(c.tx_count, 5);
    }
    // then the rest: the buffer reopens and backend reads resume
    assert_eq!(s.front_writable(t, 12), IoOutcome::Handled);
    {
        let c = s.clients[0].as_ref().unwrap();
        assert_eq!(c.back_buf.mode_of(), BufferMode::Accumulating);
        assert!(!c.front_interest.writable);
        assert!(c.back_interest.readable);
        assert_eq!(c.tx_count, 17);
    }
}

#[test]
fn proxying_front_bytes_are_relayed_opaquely() {
    let mut s = server(1);
    assert_eq!(s.accept(), Some(Token(1)));
    s.front_readable(Token(1), b"GET / HTTP/1.1\r\nHost: h\r\n\r\n");
    // drain the head towards the backend first
    let n = s.clients[0].as_ref().unwrap().front_buf.drained_bytes().len();
    s.back_writable(Token(1), n);
    // opaque payload is not parsed, only flipped for relay
    let r = s.front_readable(Token(1), b"\x00\x01\x02 not http at all");
    assert_eq!(r, IoOutcome::Handled);
    let c = s.clients[0].as_ref().unwrap();
    assert!(matches!(c.http_state, HttpState::HasHost(_, _, _)));
    assert_eq!(c.front_buf.drained_bytes(), b"\x00\x01\x02 not http at all".to_vec());
}

#[test]
fn notify_honors_the_control_channel_contract() {
    let mut s = server(1);
    assert_eq!(s.notify(HttpProxyOrder::Stop), NotifyAction::Shutdown);
    let front = HttpFront {
        app_id: String::from("app"),
        hostname: String::from("example.com"),
        port: 80,
    };
    assert_eq!(
        s.notify(HttpProxyOrder::Command(Command::AddHttpFront(front))),
        NotifyAction::SendAck(ServerMessage::AddedHttpFront)
    );
    let inst = Instance {
        app_id: String::from("app"),
        ip_address: String::from("10.0.0.1"),
        port: 8000,
    };
    assert_eq!(
        s.notify(HttpProxyOrder::Command(Command::AddInstance(inst))),
        NotifyAction::SendAck(ServerMessage::AddedInstance)
    );
    let front2 = HttpFront {
        app_id: String::from("app"),
        hostname: String::from("example.com"),
        port: 80,
    };
    assert_eq!(
        s.notify(HttpProxyOrder::Command(Command::RemoveHttpFront(front2))),
        NotifyAction::SendAck(ServerMessage::RemovedHttpFront)
    );
    let inst2 = Instance {
        app_id: String::from("app"),
        ip_address: String::from("10.0.0.1"),
        port: 8000,
    };
    assert_eq!(
        s.notify(HttpProxyOrder::Command(Command::RemoveInstance(inst2))),
        NotifyAction::SendAck(ServerMessage::RemovedInstance)
    );
}

#[test]
fn writable_without_pending_bytes_is_a_no_op() {
    let mut s = server(1);
    assert_eq!(s.accept(), Some(Token(1)));
    assert_eq!(s.front_writable(Token(1), 0), IoOutcome::Handled);
    let c = s.clients[0].as_ref().unwrap();
    assert_eq!(c.back_buf.mode_of(), BufferMode::Accumulating);
    assert_eq!(c.tx_count, 0);
}

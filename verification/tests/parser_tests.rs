use hproxy_core::buffer::Buffer;
use hproxy_core::connection::Client;
use hproxy_core::http::{ErrorState, HttpState, LengthInformation};
use hproxy_core::parser::advance;
use hproxy_core::token::Token;

fn buf_with(bytes: &[u8]) -> Buffer {
    let mut b = Buffer::new(2048);
    assert_eq!(b.write(bytes), bytes.len());
    b
}

#[test]
fn request_line_alone_reaches_has_request_line() {
    let b = buf_with(b"GET / HTTP/1.1\r\n");
    let st = Client::parse_headers(&HttpState::Initial, &b);
    match st {
        HttpState::HasRequestLine(pos, rl) => {
            assert_eq!(pos, 16);
            assert_eq!(rl.method, b"GET".to_vec());
            assert_eq!(rl.uri, b"/".to_vec());
            assert_eq!(rl.version, b"1.1".to_vec());
        },
        other => panic!("unexpected state: {:?}", other),
    }
}

#[test]
fn truncated_request_line_stays_initial() {
    let b = buf_with(b"GET / HTTP/1");
    let st = Client::parse_headers(&HttpState::Initial, &b);
    assert_eq!(st, HttpState::Initial);
}

#[test]
fn full_head_reaches_has_host() {
    let b = buf_with(b"GET / HTTP/1.1\r\nHost: example.com\r\n\r\n");
    let st = Client::parse_headers(&HttpState::Initial, &b);
    match st {
        HttpState::HasHost(_, rl, host) => {
            assert_eq!(rl.method, b"GET".to_vec());
            assert_eq!(host, b"example.com".to_vec());
        },
        other => panic!("unexpected state: {:?}", other),
    }
}

#[test]
fn malformed_request_line_is_invalid_http() {
    let b = buf_with(b"FOO\r\n\r\n");
    let st = Client::parse_headers(&HttpState::Initial, &b);
    assert_eq!(st, HttpState::Error(ErrorState::InvalidHttp));
}

#[test]
fn host_is_first_match_and_scanned_in_order() {
    let b = buf_with(b"GET /x HTTP/1.0\r\nAccept: */*\r\nHost: a.example\r\nHost: b.example\r\n\r\n");
    let st = Client::parse_headers(&HttpState::Initial, &b);
    match st {
        HttpState::HasHost(_, rl, host) => {
            assert_eq!(rl.version, b"1.0".to_vec());
            assert_eq!(host, b"a.example".to_vec());
        },
        other => panic!("unexpected state: {:?}", other),
    }
}

#[test]
fn malformed_header_block_is_invalid_http() {
    let b = buf_with(b"GET / HTTP/1.1\r\n\x01bad\r\n\r\n");
    let st = Client::parse_headers(&HttpState::Initial, &b);
    assert_eq!(st, HttpState::Error(ErrorState::InvalidHttp));
}

#[test]
fn incremental_feeding_reaches_same_state_as_whole() {
    let full: &[u8] = b"GET /path HTTP/1.1\r\nAccept: text/html\r\nHost: example.com\r\n\r\n";
    // feed the whole head at once
    let direct = advance(&HttpState::Initial, &full.to_vec());

    // feed it in pieces, cut at arbitrary byte boundaries, re-invoking the
    // parser on all bytes accumulated so far after every piece
    for cut_a in [1usize, 5, 16, 19, 37, 40] {
        for cut_b in [20usize, 38, 41, 55] {
            if cut_a >= cut_b || cut_b >= full.len() {
                continue;
            }
            let mut state = HttpState::Initial;
            for piece in [&full[..cut_a], &full[..cut_b], full] {
                state = advance(&state, &piece.to_vec());
            }
            assert_eq!(state, direct);
        }
    }
}

#[test]
fn error_state_is_terminal_for_the_parser() {
    let b = buf_with(b"GET / HTTP/1.1\r\nHost: example.com\r\n\r\n");
    let err = HttpState::Error(ErrorState::InvalidHttp);
    let st = Client::parse_headers(&err, &b);
    assert_eq!(st, HttpState::Error(ErrorState::InvalidHttp));
    let missing = HttpState::Error(ErrorState::MissingHost);
    let st2 = Client::parse_headers(&missing, &b);
    assert_eq!(st2, HttpState::Error(ErrorState::MissingHost));
}

#[test]
fn complete_block_without_host_stays_has_request_line() {
    let b = buf_with(b"GET / HTTP/1.1\r\nAccept: */*\r\n\r\n");
    let st = Client::parse_headers(&HttpState::Initial, &b);
    match st {
        HttpState::HasRequestLine(pos, _) => {
            // past the whole block, awaiting more headers
            assert_eq!(pos, b.bytes().len());
        },
        other => panic!("unexpected state: {:?}", other),
    }
}

#[test]
fn bad_version_is_invalid_http() {
    let b = buf_with(b"GET / HTTX/1.1\r\n");
    let st = Client::parse_headers(&HttpState::Initial, &b);
    assert_eq!(st, HttpState::Error(ErrorState::InvalidHttp));
}

#[test]
fn post_head_states_keep_their_length_classification() {
    let b = buf_with(b"ignored");
    let rl = || hproxy_core::http::RRequestLine {
        method: b"PUT".to_vec(),
        uri: b"/u".to_vec(),
        version: b"1.1".to_vec(),
    };
    for li in [LengthInformation::Length(42), LengthInformation::Chunked, LengthInformation::Compressed] {
        let parsed = HttpState::HeadersParsed(rl(), b"h".to_vec(), li);
        assert_eq!(Client::parse_headers(&parsed, &b), HttpState::HeadersParsed(rl(), b"h".to_vec(), li));
        let proxying = HttpState::Proxying(rl(), b"h".to_vec(), li, Token(7));
        assert_eq!(Client::parse_headers(&proxying, &b), HttpState::Proxying(rl(), b"h".to_vec(), li, Token(7)));
    }
}

#[test]
fn oversized_head_fills_the_buffer_and_backpressures() {
    let mut b = Buffer::new(2048);
    // a method of maximal length: never completes, never errs
    let long = vec![b'A'; 4096];
    assert_eq!(b.write(&long), 2048);
    assert_eq!(b.remaining_space(), 0);
    assert_eq!(b.write(b"more"), 0);
    let st = Client::parse_headers(&HttpState::Initial, &b);
    assert_eq!(st, HttpState::Initial);
}

#[test]
fn states_at_or_past_has_host_do_not_advance() {
    let b = buf_with(b"more opaque payload");
    let rl = hproxy_core::http::RRequestLine {
        method: b"GET".to_vec(),
        uri: b"/".to_vec(),
        version: b"1.1".to_vec(),
    };
    let st = HttpState::HasHost(37, rl, b"example.com".to_vec());
    let out = Client::parse_headers(&st, &b);
    assert_eq!(out, st);
}

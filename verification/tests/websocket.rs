//! Listening to a web socket.

use tpcdaq::websocket::{
    check_upgrade, handshake, next_message, ws_kind, Handshake, WsKind, WsStep,
};

#[test]
fn a_handshake_is_read_up_to_its_end() {
    assert_eq!(handshake(&b"HTTP/1.1 101 Switching\r\n".to_vec()), Handshake::More);
    assert_eq!(handshake(&b"HTTP/1.1 101\r\n\r\n".to_vec()), Handshake::Complete);
    assert_eq!(handshake(&b"\r\n\r".to_vec()), Handshake::More);
    let mut long = vec![b'x'; 8189];
    long.extend_from_slice(b"\r\n\r\n");
    assert_eq!(handshake(&long), Handshake::TooLong);
    long.remove(0);
    assert_eq!(handshake(&long), Handshake::Complete);
    assert_eq!(check_upgrade("HTTP/1.1 101 Switching Protocols\r\n\r\n"), Ok(()));
    assert_eq!(
        check_upgrade("HTTP/1.1 404 Not Found\r\nX: y\r\n\r\n").unwrap_err(),
        "WS upgrade refused: HTTP/1.1 404 Not Found"
    );
    assert_eq!(check_upgrade("").unwrap_err(), "WS upgrade refused: ");
}

/// A message as a server sends it.
fn framed(opcode: u8, content: &[u8]) -> Vec<u8> {
    let n = content.len();
    let mut out = vec![0x80 | opcode];
    if n < 126 {
        out.push(n as u8);
    } else if n < 0x1_0000 {
        out.push(126);
        out.extend_from_slice(&(n as u16).to_be_bytes());
    } else {
        out.push(127);
        out.extend_from_slice(&(n as u64).to_be_bytes());
    }
    out.extend_from_slice(content);
    out
}

#[test]
fn messages_are_found_again_whatever_their_length() {
    for n in [0usize, 1, 125, 126, 127, 300, 65535, 65536, 70000] {
        let content: Vec<u8> = (0..n).map(|i| (i % 251) as u8).collect();
        let whole = framed(1, &content);
        let mut data = whole.clone();
        data.extend_from_slice(&framed(2, b"next"));
        match next_message(&data) {
            WsStep::Message { opcode, from, to } => {
                assert_eq!(opcode, 1);
                assert_eq!(&data[from..to], &content[..]);
                assert_eq!(to, whole.len());
                assert_eq!(
                    next_message(&data[to..]),
                    WsStep::Message { opcode: 2, from: 2, to: 6 }
                );
            }
            WsStep::More => panic!("the message is complete"),
        }
        assert_eq!(next_message(&whole[..whole.len() - 1]), WsStep::More);
    }
    assert_eq!(next_message(&[]), WsStep::More);
    assert_eq!(next_message(&[0x81]), WsStep::More);
    assert_eq!(next_message(&[0x81, 126, 1]), WsStep::More);
}

#[test]
fn a_mask_is_passed_over_and_a_length_without_end_is_waited_for() {
    let data = [0x81, 0x82, 9, 9, 9, 9, b'h', b'i'];
    assert_eq!(next_message(&data), WsStep::Message { opcode: 1, from: 6, to: 8 });
    assert_eq!(next_message(&data[..5]), WsStep::More);
    let mut huge = vec![0x82, 127];
    huge.extend_from_slice(&[0xff; 8]);
    huge.extend_from_slice(&[0; 100]);
    assert_eq!(next_message(&huge), WsStep::More);
}

#[test]
fn kinds_are_told_by_their_number() {
    assert_eq!(ws_kind(1), WsKind::Text);
    assert_eq!(ws_kind(2), WsKind::Binary);
    assert_eq!(ws_kind(8), WsKind::Close);
    assert_eq!(ws_kind(0), WsKind::Other);
    assert_eq!(ws_kind(9), WsKind::Other);
}

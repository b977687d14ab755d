use chronos::wasm::websocket_frame::{WebSocketBinaryFrameParser, WebSocketFrameError};

#[test]
fn parses_bounded_unmasked_binary_payload() {
    let parser = WebSocketBinaryFrameParser::default();
    assert_eq!(
        parser.parse_binary_frame(&[0x82, 3, 1, 2, 3]),
        Ok(&[1, 2, 3][..])
    );
}

#[test]
fn rejects_masked_and_truncated_frames() {
    let parser = WebSocketBinaryFrameParser::default();
    assert_eq!(
        parser.parse_binary_frame(&[0x82, 0x80]),
        Err(WebSocketFrameError::MaskedFrameUnsupported)
    );
    assert_eq!(
        parser.parse_binary_frame(&[0x82, 126, 0]),
        Err(WebSocketFrameError::TruncatedData)
    );
}

#[test]
fn parses_extended_lengths_and_ignores_trailing_bytes() {
    let parser = WebSocketBinaryFrameParser::new(300);
    let mut frame = vec![0x82, 126, 0x01, 0x00];
    frame.extend(std::iter::repeat(7u8).take(256));
    frame.push(9);
    let payload = parser.parse_binary_frame(&frame).expect("16-bit length");
    assert_eq!(payload.len(), 256);
    assert!(payload.iter().all(|b| *b == 7));

    let mut long = vec![0x82, 127, 0, 0, 0, 0, 0, 0, 0, 2];
    long.extend_from_slice(&[5, 6]);
    assert_eq!(parser.parse_binary_frame(&long), Ok(&[5, 6][..]));
}

#[test]
fn rejects_bad_header_oversize_and_short_payloads() {
    let parser = WebSocketBinaryFrameParser::new(4);
    assert_eq!(parser.parse_binary_frame(&[0x82]), Err(WebSocketFrameError::TruncatedData));
    assert_eq!(parser.parse_binary_frame(&[0x81, 1, 0]), Err(WebSocketFrameError::MalformedHeader));
    assert_eq!(parser.parse_binary_frame(&[0x82, 5, 1, 2, 3, 4, 5]), Err(WebSocketFrameError::PayloadTooLarge));
    assert_eq!(parser.parse_binary_frame(&[0x82, 3, 1, 2]), Err(WebSocketFrameError::TruncatedData));
    assert_eq!(
        parser.parse_binary_frame(&[0x82, 127, 0, 0, 0, 0, 0, 0, 0]),
        Err(WebSocketFrameError::TruncatedData)
    );
    assert_eq!(parser.parse_binary_frame(&[0x82, 0]), Ok(&[][..]));
}

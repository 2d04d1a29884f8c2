use melin::bench::calibration::itch::{
    decode_body, pad_ticker, FrameStep, ItchEvent, ItchParseError, ItchParser,
};
use melin::types::Side;

fn frame(body: &[u8]) -> Vec<u8> {
    let len = body.len() as u16;
    let mut v = Vec::with_capacity(2 + body.len());
    v.extend_from_slice(&len.to_be_bytes());
    v.extend_from_slice(body);
    v
}

fn add_order_body(
    stock_locate: u16,
    order_ref: u64,
    side: u8,
    shares: u32,
    stock: &[u8; 8],
    price: u32,
) -> Vec<u8> {
    let mut b = Vec::with_capacity(36);
    b.push(b'A');
    b.extend_from_slice(&stock_locate.to_be_bytes());
    b.extend_from_slice(&0u16.to_be_bytes()); // tracking
    b.extend_from_slice(&[0u8; 6]); // timestamp
    b.extend_from_slice(&order_ref.to_be_bytes());
    b.push(side);
    b.extend_from_slice(&shares.to_be_bytes());
    b.extend_from_slice(stock);
    b.extend_from_slice(&price.to_be_bytes());
    assert_eq!(b.len(), 36);
    b
}

#[test]
fn parses_add_order() {
    let body = add_order_body(42, 0xDEAD_BEEF, b'B', 100, b"TEST1   ", 1_900_000);
    let mut parser = ItchParser::new(frame(&body));
    match parser.next_event().unwrap() {
        Some(ItchEvent::AddOrder {
            stock_locate,
            order_ref,
            side,
            shares,
            stock,
            price,
        }) => {
            assert_eq!(stock_locate, 42);
            assert_eq!(order_ref, 0xDEAD_BEEF);
            assert_eq!(side, Side::Buy);
            assert_eq!(shares, 100);
            assert_eq!(&stock, b"TEST1   ");
            assert_eq!(price, 1_900_000);
        }
        other => panic!("expected AddOrder, got {other:?}"),
    }
    assert!(parser.next_event().unwrap().is_none(), "expected EOF");
}

#[test]
fn parses_order_delete() {
    let mut body = Vec::with_capacity(19);
    body.push(b'D');
    body.extend_from_slice(&7u16.to_be_bytes()); // stock_locate
    body.extend_from_slice(&0u16.to_be_bytes()); // tracking
    body.extend_from_slice(&[0u8; 6]); // timestamp
    body.extend_from_slice(&0x1234_5678_u64.to_be_bytes()); // order_ref
    assert_eq!(body.len(), 19);

    let mut parser = ItchParser::new(frame(&body));
    match parser.next_event().unwrap() {
        Some(ItchEvent::OrderDelete {
            stock_locate,
            order_ref,
        }) => {
            assert_eq!(stock_locate, 7);
            assert_eq!(order_ref, 0x1234_5678);
        }
        other => panic!("expected OrderDelete, got {other:?}"),
    }
}

#[test]
fn skips_unknown_message_types() {
    let unknown_body = vec![b'Z', 0x00, 0x00, 0x00];
    let mut delete_body = Vec::with_capacity(19);
    delete_body.push(b'D');
    delete_body.extend_from_slice(&1u16.to_be_bytes());
    delete_body.extend_from_slice(&[0u8; 2]);
    delete_body.extend_from_slice(&[0u8; 6]);
    delete_body.extend_from_slice(&99u64.to_be_bytes());

    let mut stream = frame(&unknown_body);
    stream.extend_from_slice(&frame(&delete_body));
    let mut parser = ItchParser::new(stream);
    match parser.next_event().unwrap() {
        Some(ItchEvent::OrderDelete { order_ref, .. }) => assert_eq!(order_ref, 99),
        other => panic!("expected OrderDelete after skip, got {other:?}"),
    }
}

#[test]
fn rejects_invalid_side() {
    let body = add_order_body(1, 1, b'X', 1, b"TEST    ", 1);
    let mut parser = ItchParser::new(frame(&body));
    match parser.next_event() {
        Err(ItchParseError::InvalidSide(b'X')) => {}
        other => panic!("expected InvalidSide error, got {other:?}"),
    }
}

#[test]
fn truncated_body_yields_unexpected_eof() {
    // Length prefix says 10 bytes but only 3 follow.
    let mut stream = 10u16.to_be_bytes().to_vec();
    stream.extend_from_slice(&[b'D', 0x00, 0x00]);
    let mut parser = ItchParser::new(stream);
    match parser.next_event() {
        Err(ItchParseError::UnexpectedEof) => {}
        other => panic!("expected UnexpectedEof, got {other:?}"),
    }
}

#[test]
fn clean_eof_at_frame_boundary_returns_none() {
    let parser_eof = ItchParser::new(Vec::<u8>::new());
    let mut p = parser_eof;
    assert!(p.next_event().unwrap().is_none());
}

#[test]
fn wrong_length_names_both_lengths() {
    let e = decode_body(b'D', &[b'D', 0, 0]).unwrap_err();
    assert!(matches!(
        e,
        ItchParseError::UnexpectedLength {
            msg_type: b'D',
            actual: 3,
            expected: 19
        }
    ));
    assert_eq!(e.message(), "ITCH message 'D' had length 3, expected 19");
    assert_eq!(
        ItchParseError::UnexpectedEof.message(),
        "ITCH stream ended mid-frame"
    );
}

#[test]
fn frames_arrive_in_pieces() {
    let whole = frame(&add_order_body(1, 2, b'S', 3, b"XYZ     ", 4));
    let mut parser = ItchParser::new(whole[..10].to_vec());
    assert!(matches!(parser.next_frame(), Ok(FrameStep::Incomplete)));
    parser.feed(&whole[10..]);
    assert!(matches!(
        parser.next_frame(),
        Ok(FrameStep::Event(ItchEvent::AddOrder { order_ref: 2, side: Side::Sell, .. }))
    ));
    assert!(matches!(parser.next_frame(), Ok(FrameStep::Incomplete)));
}

#[test]
fn tickers_are_padded_with_blanks() {
    assert_eq!(&pad_ticker(b"AB"), b"AB      ");
    assert_eq!(&pad_ticker(b"ABCDEFGHIJ"), b"ABCDEFGH");
}

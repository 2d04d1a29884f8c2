//! Decoder of ITCH 5.0 market data.
//!
//! A stream is a series of frames: a two-byte big-endian length and a body of
//! that many bytes, whose first byte names the message type. Only the message
//! types of the continuous session that matter for calibration are decoded;
//! the length prefix carries the decoder past all others.

use vstd::prelude::*;

use crate::bench::calibration::itch_layout::{law_message_is_read_back, message, Unkept};
use crate::text::{decimal, decimal_string, hex_char, hex_digit};
use crate::types::Side;
use vstd::string::StringExecFns;

verus! {

/// Stock Directory, `R`.
pub const STOCK_DIRECTORY: u8 = 0x52;

/// Add Order, `A`.
pub const ADD_ORDER: u8 = 0x41;

/// Add Order with attribution, `F`.
pub const ADD_ORDER_ATTRIBUTED: u8 = 0x46;

/// Order Executed, `E`.
pub const ORDER_EXECUTED: u8 = 0x45;

/// Order Executed With Price, `C`.
pub const ORDER_EXECUTED_WITH_PRICE: u8 = 0x43;

/// Order Cancel, `X`.
pub const ORDER_CANCEL: u8 = 0x58;

/// Order Delete, `D`.
pub const ORDER_DELETE: u8 = 0x44;

/// Order Replace, `U`.
pub const ORDER_REPLACE: u8 = 0x55;

/// Trade, Non-Cross, `P`.
pub const HIDDEN_TRADE: u8 = 0x50;

/// Side byte of a buy, `B`.
pub const BUY: u8 = 0x42;

/// Side byte of a sell, `S`.
pub const SELL: u8 = 0x53;

/// One decoded message.
#[derive(Clone, Copy, Debug)]
pub enum ItchEvent {
    /// Stock Directory: maps a locate code to its ticker.
    StockDirectory { stock_locate: u16, stock: [u8; 8] },
    /// Add Order without attribution.
    AddOrder {
        stock_locate: u16,
        order_ref: u64,
        side: Side,
        shares: u32,
        stock: [u8; 8],
        price: u32,
    },
    /// Add Order with attribution, which is dropped.
    AddOrderAttributed {
        stock_locate: u16,
        order_ref: u64,
        side: Side,
        shares: u32,
        stock: [u8; 8],
        price: u32,
    },
    /// Order Executed at its resting price.
    OrderExecuted { stock_locate: u16, order_ref: u64, shares: u32 },
    /// Order Executed at another price than the displayed one.
    OrderExecutedWithPrice { stock_locate: u16, order_ref: u64, shares: u32, exec_price: u32 },
    /// Order Cancel: fewer shares stay displayed.
    OrderCancel { stock_locate: u16, order_ref: u64, cancelled_shares: u32 },
    /// Order Delete: the whole order leaves.
    OrderDelete { stock_locate: u16, order_ref: u64 },
    /// Order Replace: cancel and add under a new reference.
    OrderReplace {
        stock_locate: u16,
        old_order_ref: u64,
        new_order_ref: u64,
        shares: u32,
        price: u32,
    },
    /// Trade against an order that was never displayed.
    HiddenTrade { stock_locate: u16, side: Side, shares: u32, stock: [u8; 8], price: u32 },
}

/// Why a stream cannot be decoded. The end of the stream between two frames
/// is no error.
#[derive(Clone, Copy, Debug)]
pub enum ItchParseError {
    /// The stream ended inside a frame.
    UnexpectedEof,
    /// A known message type carried a body of another length than its own.
    UnexpectedLength { msg_type: u8, actual: usize, expected: usize },
    /// A side byte was neither `B` nor `S`.
    InvalidSide(u8),
}

/// The body length of each message type that is decoded.
pub open spec fn body_length(msg_type: u8) -> Option<usize> {
    if msg_type == STOCK_DIRECTORY {
        Some(39)
    } else if msg_type == ADD_ORDER {
        Some(36)
    } else if msg_type == ADD_ORDER_ATTRIBUTED {
        Some(40)
    } else if msg_type == ORDER_EXECUTED {
        Some(31)
    } else if msg_type == ORDER_EXECUTED_WITH_PRICE {
        Some(36)
    } else if msg_type == ORDER_CANCEL {
        Some(23)
    } else if msg_type == ORDER_DELETE {
        Some(19)
    } else if msg_type == ORDER_REPLACE {
        Some(35)
    } else if msg_type == HIDDEN_TRADE {
        Some(44)
    } else {
        None
    }
}

/// Whether messages of a type name a side.
pub open spec fn names_side(msg_type: u8) -> bool {
    msg_type == ADD_ORDER || msg_type == ADD_ORDER_ATTRIBUTED || msg_type == HIDDEN_TRADE
}

/// The side that a byte stands for.
pub open spec fn side_of(b: u8) -> Option<Side> {
    if b == BUY {
        Some(Side::Buy)
    } else if b == SELL {
        Some(Side::Sell)
    } else {
        None
    }
}

/// The big-endian number in two bytes from `off` on.
pub open spec fn be16(s: Seq<u8>, off: int) -> int {
    s[off] * 0x100 + s[off + 1]
}

/// The big-endian number in four bytes from `off` on.
pub open spec fn be32(s: Seq<u8>, off: int) -> int {
    be16(s, off) * 0x1_0000 + be16(s, off + 2)
}

/// The big-endian number in eight bytes from `off` on.
pub open spec fn be64(s: Seq<u8>, off: int) -> int {
    be32(s, off) * 0x1_0000_0000 + be32(s, off + 4)
}

/// The eight bytes from `off` on.
pub open spec fn ticker(s: Seq<u8>, off: int) -> Seq<u8> {
    s.subrange(off, off + 8)
}

/// Why a body of a known message type cannot be decoded.
pub open spec fn body_error(msg_type: u8, body: Seq<u8>) -> Option<ItchParseError> {
    let expected = body_length(msg_type)->0;
    if body.len() != expected {
        Some(ItchParseError::UnexpectedLength { msg_type, actual: body.len() as usize, expected })
    } else if names_side(msg_type) && side_of(body[19]) is None {
        Some(ItchParseError::InvalidSide(body[19]))
    } else {
        None
    }
}

/// Whether an event says what a body of its message type says.
pub open spec fn carries(event: ItchEvent, msg_type: u8, body: Seq<u8>) -> bool {
    match event {
        ItchEvent::StockDirectory { stock_locate, stock } => {
            &&& msg_type == STOCK_DIRECTORY
            &&& stock_locate == be16(body, 1)
            &&& stock@ == ticker(body, 11)
        },
        ItchEvent::AddOrder { stock_locate, order_ref, side, shares, stock, price } => {
            &&& msg_type == ADD_ORDER
            &&& stock_locate == be16(body, 1)
            &&& order_ref == be64(body, 11)
            &&& Some(side) == side_of(body[19])
            &&& shares == be32(body, 20)
            &&& stock@ == ticker(body, 24)
            &&& price == be32(body, 32)
        },
        ItchEvent::AddOrderAttributed { stock_locate, order_ref, side, shares, stock, price } => {
            &&& msg_type == ADD_ORDER_ATTRIBUTED
            &&& stock_locate == be16(body, 1)
            &&& order_ref == be64(body, 11)
            &&& Some(side) == side_of(body[19])
            &&& shares == be32(body, 20)
            &&& stock@ == ticker(body, 24)
            &&& price == be32(body, 32)
        },
        ItchEvent::OrderExecuted { stock_locate, order_ref, shares } => {
            &&& msg_type == ORDER_EXECUTED
            &&& stock_locate == be16(body, 1)
            &&& order_ref == be64(body, 11)
            &&& shares == be32(body, 19)
        },
        ItchEvent::OrderExecutedWithPrice { stock_locate, order_ref, shares, exec_price } => {
            &&& msg_type == ORDER_EXECUTED_WITH_PRICE
            &&& stock_locate == be16(body, 1)
            &&& order_ref == be64(body, 11)
            &&& shares == be32(body, 19)
            &&& exec_price == be32(body, 32)
        },
        ItchEvent::OrderCancel { stock_locate, order_ref, cancelled_shares } => {
            &&& msg_type == ORDER_CANCEL
            &&& stock_locate == be16(body, 1)
            &&& order_ref == be64(body, 11)
            &&& cancelled_shares == be32(body, 19)
        },
        ItchEvent::OrderDelete { stock_locate, order_ref } => {
            &&& msg_type == ORDER_DELETE
            &&& stock_locate == be16(body, 1)
            &&& order_ref == be64(body, 11)
        },
        ItchEvent::OrderReplace { stock_locate, old_order_ref, new_order_ref, shares, price } => {
            &&& msg_type == ORDER_REPLACE
            &&& stock_locate == be16(body, 1)
            &&& old_order_ref == be64(body, 11)
            &&& new_order_ref == be64(body, 19)
            &&& shares == be32(body, 27)
            &&& price == be32(body, 31)
        },
        ItchEvent::HiddenTrade { stock_locate, side, shares, stock, price } => {
            &&& msg_type == HIDDEN_TRADE
            &&& stock_locate == be16(body, 1)
            &&& Some(side) == side_of(body[19])
            &&& shares == be32(body, 20)
            &&& stock@ == ticker(body, 24)
            &&& price == be32(body, 32)
        },
    }
}

/// What decoding a body gives.
pub open spec fn decodes_to(
    msg_type: u8,
    body: Seq<u8>,
    r: Result<Option<ItchEvent>, ItchParseError>,
) -> bool {
    if body_length(msg_type) is None {
        r == Ok::<Option<ItchEvent>, ItchParseError>(None)
    } else if body_error(msg_type, body) is Some {
        r == Err::<Option<ItchEvent>, ItchParseError>(body_error(msg_type, body)->0)
    } else {
        &&& r is Ok
        &&& r->Ok_0 is Some
        &&& carries(r->Ok_0->0, msg_type, body)
    }
}

/// Decodes one message body. Message types that are not decoded give `None`.
pub fn decode_body(msg_type: u8, body: &[u8]) -> (r: Result<Option<ItchEvent>, ItchParseError>)
    ensures
        decodes_to(msg_type, body@, r),
        forall|event: ItchEvent, unkept: Unkept|
            unkept.fits() && #[trigger] message(event, unkept) == body@ && msg_type == body@[0] ==> r
                == Ok::<Option<ItchEvent>, ItchParseError>(Some(event)),
{
    let r = read_fields(msg_type, body);
    assert forall|event: ItchEvent, unkept: Unkept|
        unkept.fits() && #[trigger] message(event, unkept) == body@ && msg_type
            == body@[0] implies r == Ok::<Option<ItchEvent>, ItchParseError>(Some(event)) by {
        law_message_is_read_back(event, unkept, r);
    }
    r
}

/// Reads the fields of a message body.
fn read_fields(msg_type: u8, body: &[u8]) -> (r: Result<Option<ItchEvent>, ItchParseError>)
    ensures
        decodes_to(msg_type, body@, r),
{
    if msg_type == STOCK_DIRECTORY {
        if let Err(e) = expect_len(msg_type, body.len(), 39) {
            return Err(e);
        }
        Ok(
            Some(
                ItchEvent::StockDirectory {
                    stock_locate: read_u16(body, 1),
                    stock: read_stock(body, 11),
                },
            ),
        )
    } else if msg_type == ADD_ORDER {
        if let Err(e) = expect_len(msg_type, body.len(), 36) {
            return Err(e);
        }
        let side = match decode_side(body[19]) {
            Ok(side) => side,
            Err(e) => return Err(e),
        };
        Ok(
            Some(
                ItchEvent::AddOrder {
                    stock_locate: read_u16(body, 1),
                    order_ref: read_u64(body, 11),
                    side,
                    shares: read_u32(body, 20),
                    stock: read_stock(body, 24),
                    price: read_u32(body, 32),
                },
            ),
        )
    } else if msg_type == ADD_ORDER_ATTRIBUTED {
        if let Err(e) = expect_len(msg_type, body.len(), 40) {
            return Err(e);
        }
        let side = match decode_side(body[19]) {
            Ok(side) => side,
            Err(e) => return Err(e),
        };
        Ok(
            Some(
                ItchEvent::AddOrderAttributed {
                    stock_locate: read_u16(body, 1),
                    order_ref: read_u64(body, 11),
                    side,
                    shares: read_u32(body, 20),
                    stock: read_stock(body, 24),
                    price: read_u32(body, 32),
                },
            ),
        )
    } else if msg_type == ORDER_EXECUTED {
        if let Err(e) = expect_len(msg_type, body.len(), 31) {
            return Err(e);
        }
        Ok(
            Some(
                ItchEvent::OrderExecuted {
                    stock_locate: read_u16(body, 1),
                    order_ref: read_u64(body, 11),
                    shares: read_u32(body, 19),
                },
            ),
        )
    } else if msg_type == ORDER_EXECUTED_WITH_PRICE {
        if let Err(e) = expect_len(msg_type, body.len(), 36) {
            return Err(e);
        }
        // Byte 31 tells whether the execution prints on the public tape;
        // both kinds count.
        Ok(
            Some(
                ItchEvent::OrderExecutedWithPrice {
                    stock_locate: read_u16(body, 1),
                    order_ref: read_u64(body, 11),
                    shares: read_u32(body, 19),
                    exec_price: read_u32(body, 32),
                },
            ),
        )
    } else if msg_type == ORDER_CANCEL {
        if let Err(e) = expect_len(msg_type, body.len(), 23) {
            return Err(e);
        }
        Ok(
            Some(
                ItchEvent::OrderCancel {
                    stock_locate: read_u16(body, 1),
                    order_ref: read_u64(body, 11),
                    cancelled_shares: read_u32(body, 19),
                },
            ),
        )
    } else if msg_type == ORDER_DELETE {
        if let Err(e) = expect_len(msg_type, body.len(), 19) {
            return Err(e);
        }
        Ok(
            Some(
                ItchEvent::OrderDelete {
                    stock_locate: read_u16(body, 1),
                    order_ref: read_u64(body, 11),
                },
            ),
        )
    } else if msg_type == ORDER_REPLACE {
        if let Err(e) = expect_len(msg_type, body.len(), 35) {
            return Err(e);
        }
        Ok(
            Some(
                ItchEvent::OrderReplace {
                    stock_locate: read_u16(body, 1),
                    old_order_ref: read_u64(body, 11),
                    new_order_ref: read_u64(body, 19),
                    shares: read_u32(body, 27),
                    price: read_u32(body, 31),
                },
            ),
        )
    } else if msg_type == HIDDEN_TRADE {
        if let Err(e) = expect_len(msg_type, body.len(), 44) {
            return Err(e);
        }
        let side = match decode_side(body[19]) {
            Ok(side) => side,
            Err(e) => return Err(e),
        };
        Ok(
            Some(
                ItchEvent::HiddenTrade {
                    stock_locate: read_u16(body, 1),
                    side,
                    shares: read_u32(body, 20),
                    stock: read_stock(body, 24),
                    price: read_u32(body, 32),
                },
            ),
        )
    } else {
        Ok(None)
    }
}

/// Holds a body to the length of its message type.
fn expect_len(msg_type: u8, actual: usize, expected: usize) -> (r: Result<(), ItchParseError>)
    ensures
        r == (if actual == expected {
            Ok::<(), ItchParseError>(())
        } else {
            Err(ItchParseError::UnexpectedLength { msg_type, actual, expected })
        }),
{
    if actual == expected {
        Ok(())
    } else {
        Err(ItchParseError::UnexpectedLength { msg_type, actual, expected })
    }
}

fn read_u16(body: &[u8], off: usize) -> (n: u16)
    requires
        off + 2 <= body.len(),
    ensures
        n == be16(body@, off as int),
{
    body[off] as u16 * 0x100 + body[off + 1] as u16
}

fn read_u32(body: &[u8], off: usize) -> (n: u32)
    requires
        off + 4 <= body.len(),
    ensures
        n == be32(body@, off as int),
{
    read_u16(body, off) as u32 * 0x1_0000 + read_u16(body, off + 2) as u32
}

fn read_u64(body: &[u8], off: usize) -> (n: u64)
    requires
        off + 8 <= body.len(),
    ensures
        n == be64(body@, off as int),
{
    read_u32(body, off) as u64 * 0x1_0000_0000 + read_u32(body, off + 4) as u64
}

fn read_stock(body: &[u8], off: usize) -> (stock: [u8; 8])
    requires
        off + 8 <= body.len(),
    ensures
        stock@ == ticker(body@, off as int),
{
    [
        body[off],
        body[off + 1],
        body[off + 2],
        body[off + 3],
        body[off + 4],
        body[off + 5],
        body[off + 6],
        body[off + 7],
    ]
}

fn decode_side(b: u8) -> (r: Result<Side, ItchParseError>)
    ensures
        r == (match side_of(b) {
            Some(side) => Ok::<Side, ItchParseError>(side),
            None => Err(ItchParseError::InvalidSide(b)),
        }),
{
    if b == BUY {
        Ok(Side::Buy)
    } else if b == SELL {
        Ok(Side::Sell)
    } else {
        Err(ItchParseError::InvalidSide(b))
    }
}

/// What an error says.
pub open spec fn error_text(e: ItchParseError) -> Seq<char> {
    match e {
        ItchParseError::UnexpectedEof => "ITCH stream ended mid-frame"@,
        ItchParseError::UnexpectedLength { msg_type, actual, expected } => {
            ("ITCH message '"@).push(msg_type as char) + "' had length "@ + decimal(actual as nat)
                + ", expected "@ + decimal(expected as nat)
        },
        ItchParseError::InvalidSide(b) => {
            ("ITCH side byte was 0x"@).push(hex_digit(b as int / 16)).push(hex_digit(b as int % 16))
                + ", expected 'B' or 'S'"@
        },
    }
}

impl ItchParseError {
    /// What the error says.
    pub fn message(&self) -> (s: String)
        ensures
            s@ == error_text(*self),
    {
        match *self {
            ItchParseError::UnexpectedEof => "ITCH stream ended mid-frame".to_owned(),
            ItchParseError::UnexpectedLength { msg_type, actual, expected } => {
                let mut s: String = "ITCH message '".to_owned();
                s.push(msg_type as char);
                s.append("' had length ");
                s.append(decimal_string(actual as u64).as_str());
                s.append(", expected ");
                s.append(decimal_string(expected as u64).as_str());
                s
            },
            ItchParseError::InvalidSide(b) => {
                let mut s: String = "ITCH side byte was 0x".to_owned();
                s.push(hex_char(b / 16));
                s.push(hex_char(b % 16));
                s.append(", expected 'B' or 'S'");
                s
            },
        }
    }
}

/// What a frame's length prefix announces.
pub open spec fn frame_length(stream: Seq<u8>) -> int {
    be16(stream, 0)
}

/// Whether a stream starts with a whole frame.
pub open spec fn starts_with_frame(stream: Seq<u8>) -> bool {
    stream.len() >= 2 && stream.len() >= 2 + frame_length(stream)
}

/// The body of a stream's first frame.
pub open spec fn first_body(stream: Seq<u8>) -> Seq<u8> {
    stream.subrange(2, 2 + frame_length(stream))
}

/// What follows a stream's first frame.
pub open spec fn after_frame(stream: Seq<u8>) -> Seq<u8> {
    stream.skip(2 + frame_length(stream))
}

/// Whether a body is passed over: it is empty, or of a message type that is
/// not decoded.
pub open spec fn passed_over(body: Seq<u8>) -> bool {
    body.len() == 0 || body_length(body[0]) is None
}

/// A stream without the frames at its start that are passed over.
pub open spec fn at_event(stream: Seq<u8>) -> Seq<u8>
    decreases stream.len(),
{
    if starts_with_frame(stream) && passed_over(first_body(stream)) {
        at_event(after_frame(stream))
    } else {
        stream
    }
}

/// A body behind its length prefix.
pub open spec fn framed(body: Seq<u8>) -> Seq<u8> {
    seq![(body.len() / 0x100) as u8, (body.len() % 0x100) as u8] + body
}

/// What one frame holds.
#[derive(Clone, Copy, Debug)]
pub enum FrameStep {
    /// A decoded message.
    Event(ItchEvent),
    /// A message that is passed over.
    PassedOver,
    /// The bytes at hand end before the frame does.
    Incomplete,
}

/// Decoder over the bytes of a stream.
#[derive(Debug)]
pub struct ItchParser {
    data: Vec<u8>,
    pos: usize,
}

impl ItchParser {
    /// Whether the position lies within the bytes.
    pub closed spec fn wf(&self) -> bool {
        self.pos <= self.data@.len()
    }

    /// The bytes that are still to be decoded.
    pub closed spec fn stream(&self) -> Seq<u8> {
        self.data@.skip(self.pos as int)
    }

    /// A decoder at the start of some bytes.
    pub fn new(data: Vec<u8>) -> (parser: ItchParser)
        ensures
            parser.wf(),
            parser.stream() == data@,
    {
        let parser = ItchParser { data, pos: 0 };
        assert(parser.stream() =~= data@);
        parser
    }

    /// Puts more bytes of the stream behind those at hand. The bytes that
    /// were decoded already are dropped.
    pub fn feed(&mut self, chunk: &[u8])
        requires
            old(self).wf(),
        ensures
            final(self).wf(),
            final(self).stream() == old(self).stream() + chunk@,
    {
        let mut data: Vec<u8> = Vec::new();
        let n: usize = self.data.len();
        let mut i: usize = self.pos;
        while i < n
            invariant
                self.pos <= i <= n == self.data@.len(),
                data@ == self.data@.subrange(self.pos as int, i as int),
            decreases n - i,
        {
            data.push(self.data[i]);
            i = i + 1;
        }
        assert(data@ =~= self.stream());
        data.extend_from_slice(chunk);
        self.data = data;
        self.pos = 0;
        assert(self.stream() =~= old(self).stream() + chunk@);
    }

    /// Decodes the next frame. While the bytes at hand end before it does,
    /// nothing is consumed.
    pub fn next_frame(&mut self) -> (r: Result<FrameStep, ItchParseError>)
        requires
            old(self).wf(),
        ensures
            final(self).wf(),
            !starts_with_frame(old(self).stream()) ==> {
                &&& r == Ok::<FrameStep, ItchParseError>(FrameStep::Incomplete)
                &&& final(self).stream() == old(self).stream()
            },
            starts_with_frame(old(self).stream()) ==> {
                let body = first_body(old(self).stream());
                &&& final(self).stream() == after_frame(old(self).stream())
                &&& if passed_over(body) {
                    r == Ok::<FrameStep, ItchParseError>(FrameStep::PassedOver)
                } else if body_error(body[0], body) is Some {
                    r == Err::<FrameStep, ItchParseError>(body_error(body[0], body)->0)
                } else {
                    &&& r matches Ok(FrameStep::Event(event))
                    &&& carries(event, body[0], body)
                }
            },
    {
        let left: usize = self.data.len() - self.pos;
        if left < 2 {
            return Ok(FrameStep::Incomplete);
        }
        let ghost stream = self.stream();
        assert(stream[0] == self.data@[self.pos as int]);
        assert(stream[1] == self.data@[self.pos + 1]);
        let body_len: usize = read_u16(self.data.as_slice(), self.pos) as usize;
        if left - 2 < body_len {
            return Ok(FrameStep::Incomplete);
        }
        let start: usize = self.pos + 2;
        let end: usize = start + body_len;
        self.pos = end;
        assert(self.stream() =~= after_frame(stream));
        if body_len == 0 {
            return Ok(FrameStep::PassedOver);
        }
        let body = vstd::slice::slice_subrange(self.data.as_slice(), start, end);
        assert(body@ =~= first_body(stream));
        match decode_body(body[0], body) {
            Ok(Some(event)) => Ok(FrameStep::Event(event)),
            Ok(None) => Ok(FrameStep::PassedOver),
            Err(e) => Err(e),
        }
    }

    /// Decodes up to the next event, as if the bytes at hand were the whole
    /// rest of the stream: `None` where they end between two frames.
    pub fn next_event(&mut self) -> (r: Result<Option<ItchEvent>, ItchParseError>)
        requires
            old(self).wf(),
        ensures
            final(self).wf(),
            ({
                let stream = at_event(old(self).stream());
                if stream.len() < 2 {
                    &&& r == Ok::<Option<ItchEvent>, ItchParseError>(None)
                    &&& final(self).stream().len() == 0
                } else if !starts_with_frame(stream) {
                    &&& r == Err::<Option<ItchEvent>, ItchParseError>(ItchParseError::UnexpectedEof)
                    &&& final(self).stream().len() == 0
                } else {
                    &&& decodes_to(first_body(stream)[0], first_body(stream), r)
                    &&& final(self).stream() == after_frame(stream)
                }
            }),
    {
        loop
            invariant
                self.wf(),
                at_event(self.stream()) == at_event(old(self).stream()),
            decreases self.stream().len(),
        {
            match self.next_frame() {
                Err(e) => return Err(e),
                Ok(FrameStep::Event(event)) => return Ok(Some(event)),
                Ok(FrameStep::PassedOver) => {},
                Ok(FrameStep::Incomplete) => {
                    let left: usize = self.data.len() - self.pos;
                    self.pos = self.data.len();
                    return if left < 2 {
                        Ok(None)
                    } else {
                        Err(ItchParseError::UnexpectedEof)
                    };
                },
            }
        }
    }
}

/// Frames of message types that are not decoded, and empty ones, change
/// nothing: a stream with such a frame in front reaches the same event.
pub proof fn law_unknown_frames_are_passed_over(body: Seq<u8>, rest: Seq<u8>)
    requires
        body.len() < 0x1_0000,
        passed_over(body),
    ensures
        at_event(framed(body) + rest) == at_event(rest),
{
    lemma_framed(body, rest);
}

/// A framed body is read back whole, and what follows it stays.
#[verifier::rlimit(40)]
pub proof fn law_frame_is_read_back(body: Seq<u8>, rest: Seq<u8>)
    requires
        body.len() < 0x1_0000,
        !passed_over(body),
    ensures
        at_event(framed(body) + rest) == framed(body) + rest,
        starts_with_frame(framed(body) + rest),
        first_body(framed(body) + rest) == body,
        after_frame(framed(body) + rest) == rest,
{
    lemma_framed(body, rest);
}

/// Bytes that arrive later do not change a whole frame at the start.
pub proof fn law_later_bytes_keep_frame(stream: Seq<u8>, chunk: Seq<u8>)
    requires
        starts_with_frame(stream),
    ensures
        starts_with_frame(stream + chunk),
        first_body(stream + chunk) == first_body(stream),
        after_frame(stream + chunk) == after_frame(stream) + chunk,
{
    assert(first_body(stream + chunk) =~= first_body(stream));
    assert(after_frame(stream + chunk) =~= after_frame(stream) + chunk);
}

/// A framed body is the first of a stream that starts with it.
pub proof fn lemma_framed(body: Seq<u8>, rest: Seq<u8>)
    requires
        body.len() < 0x1_0000,
    ensures
        starts_with_frame(framed(body) + rest),
        first_body(framed(body) + rest) == body,
        after_frame(framed(body) + rest) == rest,
{
    let s = framed(body) + rest;
    assert(s[0] == (body.len() / 0x100) as u8);
    assert(s[1] == (body.len() % 0x100) as u8);
    assert(frame_length(s) == body.len());
    assert(first_body(s) =~= body);
    assert(after_frame(s) =~= rest);
}

/// A ticker as it stands on the wire: its first eight bytes, filled up with
/// spaces.
pub fn pad_ticker(name: &[u8]) -> (out: [u8; 8])
    ensures
        forall|i: int|
            0 <= i < 8 ==> #[trigger] out@[i] == (if i < name@.len() {
                name@[i]
            } else {
                0x20
            }),
{
    let mut out: [u8; 8] = [0x20; 8];
    let mut i: usize = 0;
    while i < 8 && i < name.len()
        invariant
            0 <= i <= 8,
            i <= name@.len(),
            forall|j: int|
                0 <= j < 8 ==> #[trigger] out@[j] == (if j < i {
                    name@[j]
                } else {
                    0x20
                }),
        decreases 8 - i,
    {
        out[i] = name[i];
        i = i + 1;
    }
    out
}

} // verus!

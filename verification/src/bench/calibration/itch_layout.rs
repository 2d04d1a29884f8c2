//! The layout of ITCH 5.0 messages, field by field as they go on the wire, and
//! the laws that decoding reads back what the layout writes.

use vstd::prelude::*;

use crate::bench::calibration::itch::{
    at_event, be16, be32, be64, body_length, decode_body, decodes_to, framed,
    law_frame_is_read_back, lemma_framed, pad_ticker, side_of, ticker, ItchEvent, ItchParseError,
    ItchParser,
};
use crate::text::decimal;
use crate::text_laws::{law_digits_are_the_usual, lemma_says, says};
use crate::types::Side;

verus! {

/// A number in `width` bytes, the highest first.
pub open spec fn big_endian(n: int, width: nat) -> Seq<u8>
    decreases width,
{
    if width == 0 {
        Seq::empty()
    } else {
        big_endian(n / 0x100, (width - 1) as nat).push((n % 0x100) as u8)
    }
}

/// What every message starts with: its type, the locate code of its stock, the
/// tracking number and the nanoseconds since midnight.
pub open spec fn heading(letter: char, locate: u16, unkept: Unkept) -> Seq<u8> {
    seq![letter as u8] + big_endian(locate as int, 2) + big_endian(unkept.tracking as int, 2)
        + big_endian(unkept.timestamp, 6)
}

/// The letter of a side.
pub open spec fn side_letter(side: Side) -> Seq<u8> {
    match side {
        Side::Buy => seq!['B' as u8],
        Side::Sell => seq!['S' as u8],
    }
}

/// The fields of a message that no event keeps.
pub ghost struct Unkept {
    pub tracking: u16,
    /// Nanoseconds since midnight, in 48 bits.
    pub timestamp: int,
    /// What follows the ticker in a Stock Directory message.
    pub listing: Seq<u8>,
    pub match_number: u64,
    pub printable: u8,
    pub attribution: u32,
    /// The reference of a hidden order.
    pub hidden_ref: u64,
}

impl Unkept {
    /// Whether the fields fit their widths.
    pub open spec fn fits(self) -> bool {
        &&& 0 <= self.timestamp < 0x1_0000_0000_0000
        &&& self.listing.len() == 20
    }
}

/// The body of the message that tells of an event.
pub open spec fn message(event: ItchEvent, unkept: Unkept) -> Seq<u8> {
    match event {
        ItchEvent::StockDirectory { stock_locate, stock } => heading('R', stock_locate, unkept)
            + stock@ + unkept.listing,
        ItchEvent::AddOrder { stock_locate, order_ref, side, shares, stock, price } => heading(
            'A',
            stock_locate,
            unkept,
        ) + big_endian(order_ref as int, 8) + side_letter(side) + big_endian(shares as int, 4)
            + stock@ + big_endian(price as int, 4),
        ItchEvent::AddOrderAttributed { stock_locate, order_ref, side, shares, stock, price } =>
            heading('F', stock_locate, unkept) + big_endian(order_ref as int, 8) + side_letter(side)
            + big_endian(shares as int, 4) + stock@ + big_endian(price as int, 4) + big_endian(
            unkept.attribution as int,
            4,
        ),
        ItchEvent::OrderExecuted { stock_locate, order_ref, shares } => heading(
            'E',
            stock_locate,
            unkept,
        ) + big_endian(order_ref as int, 8) + big_endian(shares as int, 4) + big_endian(
            unkept.match_number as int,
            8,
        ),
        ItchEvent::OrderExecutedWithPrice { stock_locate, order_ref, shares, exec_price } =>
            heading('C', stock_locate, unkept) + big_endian(order_ref as int, 8) + big_endian(
            shares as int,
            4,
        ) + big_endian(unkept.match_number as int, 8) + seq![unkept.printable] + big_endian(
            exec_price as int,
            4,
        ),
        ItchEvent::OrderCancel { stock_locate, order_ref, cancelled_shares } => heading(
            'X',
            stock_locate,
            unkept,
        ) + big_endian(order_ref as int, 8) + big_endian(cancelled_shares as int, 4),
        ItchEvent::OrderDelete { stock_locate, order_ref } => heading('D', stock_locate, unkept)
            + big_endian(order_ref as int, 8),
        ItchEvent::OrderReplace { stock_locate, old_order_ref, new_order_ref, shares, price } =>
            heading('U', stock_locate, unkept) + big_endian(old_order_ref as int, 8) + big_endian(
            new_order_ref as int,
            8,
        ) + big_endian(shares as int, 4) + big_endian(price as int, 4),
        ItchEvent::HiddenTrade { stock_locate, side, shares, stock, price } => heading(
            'P',
            stock_locate,
            unkept,
        ) + big_endian(unkept.hidden_ref as int, 8) + side_letter(side) + big_endian(
            shares as int,
            4,
        ) + stock@ + big_endian(price as int, 4) + big_endian(unkept.match_number as int, 8),
    }
}

proof fn lemma_width(n: int, width: nat)
    ensures
        big_endian(n, width).len() == width,
    decreases width,
{
    if width > 0 {
        lemma_width(n / 0x100, (width - 1) as nat);
    }
}

/// Whether the bytes of `s` from `off` on are those of `part`.
spec fn holds(s: Seq<u8>, off: int, part: Seq<u8>) -> bool {
    &&& 0 <= off
    &&& off + part.len() <= s.len()
    &&& forall|i: int| 0 <= i < part.len() ==> #[trigger] s[off + i] == part[i]
}

proof fn lemma_read_u16(s: Seq<u8>, off: int, n: u16)
    requires
        holds(s, off, big_endian(n as int, 2)),
    ensures
        be16(s, off) == n,
{
    reveal_with_fuel(big_endian, 3);
    let part = big_endian(n as int, 2);
    assert(s[off + 0] == part[0]);
    assert(s[off + 1] == part[1]);
}

proof fn lemma_read_u32(s: Seq<u8>, off: int, n: u32)
    requires
        holds(s, off, big_endian(n as int, 4)),
    ensures
        be32(s, off) == n,
{
    reveal_with_fuel(big_endian, 5);
    let part = big_endian(n as int, 4);
    assert(s[off + 0] == part[0]);
    assert(s[off + 1] == part[1]);
    assert(s[off + 2] == part[2]);
    assert(s[off + 3] == part[3]);
}

proof fn lemma_read_u64(s: Seq<u8>, off: int, n: u64)
    requires
        holds(s, off, big_endian(n as int, 8)),
    ensures
        be64(s, off) == n,
{
    reveal_with_fuel(big_endian, 9);
    let part = big_endian(n as int, 8);
    assert(s[off + 0] == part[0]);
    assert(s[off + 1] == part[1]);
    assert(s[off + 2] == part[2]);
    assert(s[off + 3] == part[3]);
    assert(s[off + 4] == part[4]);
    assert(s[off + 5] == part[5]);
    assert(s[off + 6] == part[6]);
    assert(s[off + 7] == part[7]);
}

proof fn lemma_heading(letter: char, locate: u16, unkept: Unkept)
    ensures
        heading(letter, locate, unkept).len() == 11,
        heading(letter, locate, unkept)[0] == letter as u8,
        holds(heading(letter, locate, unkept), 1, big_endian(locate as int, 2)),
{
    lemma_width(locate as int, 2);
    lemma_width(unkept.tracking as int, 2);
    lemma_width(unkept.timestamp, 6);
}

/// A run of bytes stands where the bytes before it end, whatever follows.
proof fn lemma_joined(before: Seq<u8>, part: Seq<u8>, after: Seq<u8>)
    ensures
        holds(before + part + after, before.len() as int, part),
        holds(before + part, before.len() as int, part),
        (before + part + after).len() == before.len() + part.len() + after.len(),
        (before + part).len() == before.len() + part.len(),
{
    let s = before + part + after;
    let t = before + part;
    assert forall|i: int| 0 <= i < part.len() implies #[trigger] s[before.len() + i] == part[i] by {}
    assert forall|i: int| 0 <= i < part.len() implies #[trigger] t[before.len() + i] == part[i] by {}
}

/// What stands in a run of bytes still stands there when more follow.
proof fn lemma_more(s: Seq<u8>, more: Seq<u8>, off: int, part: Seq<u8>)
    requires
        holds(s, off, part),
    ensures
        holds(s + more, off, part),
{
    assert forall|i: int| 0 <= i < part.len() implies #[trigger] (s + more)[off + i] == part[i] by {
        assert(s[off + i] == part[i]);
    }
}

/// A body that the layout makes of an event is decoded to that event. So each
/// field is read where it was written, at its full width: for an Order Replace
/// the old reference, the new one, the shares and the price, in this order.
#[verifier::rlimit(40)]
pub proof fn law_message_is_read_back(
    event: ItchEvent,
    unkept: Unkept,
    r: Result<Option<ItchEvent>, ItchParseError>,
)
    requires
        unkept.fits(),
        decodes_to(message(event, unkept)[0], message(event, unkept), r),
    ensures
        r == Ok::<Option<ItchEvent>, ItchParseError>(Some(event)),
{
    let s = message(event, unkept);
    match event {
        ItchEvent::StockDirectory { stock_locate, stock } => {
            lemma_heading('R', stock_locate, unkept);
            lemma_reads(s, heading('R', stock_locate, unkept), stock_locate);
            assert(ticker(s, 11) =~= stock@);
            let got = r->Ok_0->0;
            assert(got->StockDirectory_stock =~= stock);
        },
        ItchEvent::AddOrder { stock_locate, order_ref, side, shares, stock, price } => {
            lemma_heading('A', stock_locate, unkept);
            lemma_reads(s, heading('A', stock_locate, unkept), stock_locate);
            lemma_order(
                s,
                heading('A', stock_locate, unkept),
                order_ref,
                side,
                shares,
                stock@,
                price,
                Seq::empty(),
            );
            let got = r->Ok_0->0;
            assert(got->AddOrder_stock =~= stock);
        },
        ItchEvent::AddOrderAttributed { stock_locate, order_ref, side, shares, stock, price } => {
            lemma_heading('F', stock_locate, unkept);
            lemma_reads(s, heading('F', stock_locate, unkept), stock_locate);
            lemma_width(unkept.attribution as int, 4);
            lemma_order(
                s,
                heading('F', stock_locate, unkept),
                order_ref,
                side,
                shares,
                stock@,
                price,
                big_endian(unkept.attribution as int, 4),
            );
            let got = r->Ok_0->0;
            assert(got->AddOrderAttributed_stock =~= stock);
        },
        ItchEvent::OrderExecuted { stock_locate, order_ref, shares } => {
            lemma_heading('E', stock_locate, unkept);
            lemma_reads(s, heading('E', stock_locate, unkept), stock_locate);
            lemma_width(unkept.match_number as int, 8);
            lemma_reduction(
                s,
                heading('E', stock_locate, unkept),
                order_ref,
                shares,
                big_endian(unkept.match_number as int, 8),
            );
        },
        ItchEvent::OrderExecutedWithPrice { stock_locate, order_ref, shares, exec_price } => {
            lemma_heading('C', stock_locate, unkept);
            let h = heading('C', stock_locate, unkept);
            lemma_reads(s, h, stock_locate);
            let trail = big_endian(unkept.match_number as int, 8) + seq![unkept.printable];
            let priced = big_endian(exec_price as int, 4);
            lemma_width(unkept.match_number as int, 8);
            lemma_width(exec_price as int, 4);
            lemma_width(order_ref as int, 8);
            lemma_width(shares as int, 4);
            let ahead = h + big_endian(order_ref as int, 8) + big_endian(shares as int, 4) + trail;
            assert(s =~= ahead + priced);
            assert(s =~= h + big_endian(order_ref as int, 8) + big_endian(shares as int, 4) + (trail
                + priced));
            lemma_reduction(s, h, order_ref, shares, trail + priced);
            lemma_joined(ahead, priced, Seq::empty());
            lemma_read_u32(s, 32, exec_price);
        },
        ItchEvent::OrderCancel { stock_locate, order_ref, cancelled_shares } => {
            lemma_heading('X', stock_locate, unkept);
            lemma_reads(s, heading('X', stock_locate, unkept), stock_locate);
            lemma_reduction(
                s,
                heading('X', stock_locate, unkept),
                order_ref,
                cancelled_shares,
                Seq::empty(),
            );
        },
        ItchEvent::OrderDelete { stock_locate, order_ref } => {
            lemma_heading('D', stock_locate, unkept);
            let h = heading('D', stock_locate, unkept);
            lemma_reads(s, h, stock_locate);
            lemma_width(order_ref as int, 8);
            lemma_joined(h, big_endian(order_ref as int, 8), Seq::empty());
            lemma_read_u64(s, 11, order_ref);
        },
        ItchEvent::OrderReplace { stock_locate, old_order_ref, new_order_ref, shares, price } => {
            lemma_heading('U', stock_locate, unkept);
            let h = heading('U', stock_locate, unkept);
            lemma_reads(s, h, stock_locate);
            let old_bytes = big_endian(old_order_ref as int, 8);
            let new_bytes = big_endian(new_order_ref as int, 8);
            let share_bytes = big_endian(shares as int, 4);
            let price_bytes = big_endian(price as int, 4);
            lemma_width(old_order_ref as int, 8);
            lemma_width(new_order_ref as int, 8);
            lemma_width(shares as int, 4);
            lemma_width(price as int, 4);
            lemma_joined(h, old_bytes, new_bytes + share_bytes + price_bytes);
            assert(s =~= h + old_bytes + (new_bytes + share_bytes + price_bytes));
            lemma_read_u64(s, 11, old_order_ref);
            lemma_joined(h + old_bytes, new_bytes, share_bytes + price_bytes);
            assert(s =~= h + old_bytes + new_bytes + (share_bytes + price_bytes));
            lemma_read_u64(s, 19, new_order_ref);
            lemma_joined(h + old_bytes + new_bytes, share_bytes, price_bytes);
            lemma_read_u32(s, 27, shares);
            lemma_joined(h + old_bytes + new_bytes + share_bytes, price_bytes, Seq::empty());
            lemma_read_u32(s, 31, price);
        },
        ItchEvent::HiddenTrade { stock_locate, side, shares, stock, price } => {
            lemma_heading('P', stock_locate, unkept);
            lemma_reads(s, heading('P', stock_locate, unkept), stock_locate);
            lemma_width(unkept.match_number as int, 8);
            lemma_order(
                s,
                heading('P', stock_locate, unkept),
                unkept.hidden_ref,
                side,
                shares,
                stock@,
                price,
                big_endian(unkept.match_number as int, 8),
            );
            let got = r->Ok_0->0;
            assert(got->HiddenTrade_stock =~= stock);
        },
    }
}

/// A message that starts with a heading holds its locate code.
proof fn lemma_reads(s: Seq<u8>, head: Seq<u8>, locate: u16)
    requires
        head.len() == 11,
        holds(head, 1, big_endian(locate as int, 2)),
        s.len() >= 11,
        s.take(11) =~= head,
    ensures
        be16(s, 1) == locate,
        s[0] == head[0],
{
    lemma_width(locate as int, 2);
    assert(s =~= head + s.skip(11));
    lemma_more(head, s.skip(11), 1, big_endian(locate as int, 2));
    lemma_read_u16(s, 1, locate);
}

/// What a message with a whole order after its heading holds.
proof fn lemma_order(
    s: Seq<u8>,
    head: Seq<u8>,
    order_ref: u64,
    side: Side,
    shares: u32,
    stock: Seq<u8>,
    price: u32,
    tail: Seq<u8>,
)
    requires
        head.len() == 11,
        stock.len() == 8,
        s =~= head + big_endian(order_ref as int, 8) + side_letter(side) + big_endian(
            shares as int,
            4,
        ) + stock + big_endian(price as int, 4) + tail,
    ensures
        s.len() == 36 + tail.len(),
        be64(s, 11) == order_ref,
        side_of(s[19]) == Some(side),
        be32(s, 20) == shares,
        ticker(s, 24) == stock,
        be32(s, 32) == price,
{
    let ref_bytes = big_endian(order_ref as int, 8);
    let side_byte = side_letter(side);
    let share_bytes = big_endian(shares as int, 4);
    let price_bytes = big_endian(price as int, 4);
    lemma_width(order_ref as int, 8);
    lemma_width(shares as int, 4);
    lemma_width(price as int, 4);
    let a = head + ref_bytes;
    let b = a + side_byte;
    let c = b + share_bytes;
    let d = c + stock;
    lemma_joined(head, ref_bytes, side_byte + share_bytes + stock + price_bytes + tail);
    assert(s =~= a + (side_byte + share_bytes + stock + price_bytes + tail));
    lemma_read_u64(s, 11, order_ref);
    assert(s[19] == side_byte[0]);
    lemma_joined(b, share_bytes, stock + price_bytes + tail);
    assert(s =~= c + (stock + price_bytes + tail));
    lemma_read_u32(s, 20, shares);
    assert(ticker(s, 24) =~= stock);
    lemma_joined(d, price_bytes, tail);
    lemma_read_u32(s, 32, price);
}

/// What a message with a reference and a number of shares holds.
proof fn lemma_reduction(s: Seq<u8>, head: Seq<u8>, order_ref: u64, shares: u32, tail: Seq<u8>)
    requires
        head.len() == 11,
        s =~= head + big_endian(order_ref as int, 8) + big_endian(shares as int, 4) + tail,
    ensures
        s.len() == 23 + tail.len(),
        be64(s, 11) == order_ref,
        be32(s, 19) == shares,
{
    let ref_bytes = big_endian(order_ref as int, 8);
    let share_bytes = big_endian(shares as int, 4);
    lemma_width(order_ref as int, 8);
    lemma_width(shares as int, 4);
    lemma_joined(head, ref_bytes, share_bytes + tail);
    assert(s =~= head + ref_bytes + (share_bytes + tail));
    lemma_read_u64(s, 11, order_ref);
    lemma_joined(head + ref_bytes, share_bytes, tail);
    lemma_read_u32(s, 19, shares);
}

/// A body as long as none of its type is an error that names the type, its
/// length and the length that the layout gives such a message.
pub proof fn law_other_length_is_refused(
    event: ItchEvent,
    unkept: Unkept,
    body: Seq<u8>,
    r: Result<Option<ItchEvent>, ItchParseError>,
)
    requires
        unkept.fits(),
        body.len() <= usize::MAX,
        body.len() != message(event, unkept).len(),
        decodes_to(message(event, unkept)[0], body, r),
    ensures
        r == Err::<Option<ItchEvent>, ItchParseError>(
            ItchParseError::UnexpectedLength {
                msg_type: message(event, unkept)[0],
                actual: body.len() as usize,
                expected: message(event, unkept).len() as usize,
            },
        ),
{
    lemma_message_length(event, unkept);
}

/// The length of a message is that of its type.
proof fn lemma_message_length(event: ItchEvent, unkept: Unkept)
    requires
        unkept.fits(),
    ensures
        body_length(message(event, unkept)[0]) == Some(message(event, unkept).len() as usize),
        message(event, unkept).len() <= 44,
{
    lemma_width(unkept.match_number as int, 8);
    lemma_width(unkept.attribution as int, 4);
    lemma_width(unkept.hidden_ref as int, 8);
    match event {
        ItchEvent::StockDirectory { stock_locate, stock } => {
            lemma_heading('R', stock_locate, unkept);
        },
        ItchEvent::AddOrder { stock_locate, order_ref, side, shares, stock, price } => {
            lemma_heading('A', stock_locate, unkept);
            lemma_width(order_ref as int, 8);
            lemma_width(shares as int, 4);
            lemma_width(price as int, 4);
        },
        ItchEvent::AddOrderAttributed { stock_locate, order_ref, side, shares, stock, price } => {
            lemma_heading('F', stock_locate, unkept);
            lemma_width(order_ref as int, 8);
            lemma_width(shares as int, 4);
            lemma_width(price as int, 4);
        },
        ItchEvent::OrderExecuted { stock_locate, order_ref, shares } => {
            lemma_heading('E', stock_locate, unkept);
            lemma_width(order_ref as int, 8);
            lemma_width(shares as int, 4);
        },
        ItchEvent::OrderExecutedWithPrice { stock_locate, order_ref, shares, exec_price } => {
            lemma_heading('C', stock_locate, unkept);
            lemma_width(order_ref as int, 8);
            lemma_width(shares as int, 4);
            lemma_width(exec_price as int, 4);
        },
        ItchEvent::OrderCancel { stock_locate, order_ref, cancelled_shares } => {
            lemma_heading('X', stock_locate, unkept);
            lemma_width(order_ref as int, 8);
            lemma_width(cancelled_shares as int, 4);
        },
        ItchEvent::OrderDelete { stock_locate, order_ref } => {
            lemma_heading('D', stock_locate, unkept);
            lemma_width(order_ref as int, 8);
        },
        ItchEvent::OrderReplace { stock_locate, old_order_ref, new_order_ref, shares, price } => {
            lemma_heading('U', stock_locate, unkept);
            lemma_width(old_order_ref as int, 8);
            lemma_width(new_order_ref as int, 8);
            lemma_width(shares as int, 4);
            lemma_width(price as int, 4);
        },
        ItchEvent::HiddenTrade { stock_locate, side, shares, stock, price } => {
            lemma_heading('P', stock_locate, unkept);
            lemma_width(shares as int, 4);
            lemma_width(price as int, 4);
        },
    }
}

/// A body of any other type decodes to nothing, whatever its length.
pub proof fn law_other_types_decode_to_nothing(
    msg_type: u8,
    body: Seq<u8>,
    r: Result<Option<ItchEvent>, ItchParseError>,
)
    requires
        decodes_to(msg_type, body, r),
        !seq!['R', 'A', 'F', 'E', 'C', 'X', 'D', 'U', 'P'].contains(msg_type as char),
    ensures
        r == Ok::<Option<ItchEvent>, ItchParseError>(None),
{
    let letters = seq!['R', 'A', 'F', 'E', 'C', 'X', 'D', 'U', 'P'];
    assert(letters[0] == 'R' && letters[1] == 'A' && letters[2] == 'F' && letters[3] == 'E');
    assert(letters[4] == 'C' && letters[5] == 'X' && letters[6] == 'D' && letters[7] == 'U');
    assert(letters[8] == 'P');
}

/// An order or a hidden trade whose side is neither `B` nor `S` is an error
/// that names the byte.
pub proof fn law_other_side_is_refused(
    event: ItchEvent,
    unkept: Unkept,
    letter: u8,
    r: Result<Option<ItchEvent>, ItchParseError>,
)
    requires
        unkept.fits(),
        event is AddOrder || event is AddOrderAttributed || event is HiddenTrade,
        letter != 'B' as u8,
        letter != 'S' as u8,
        decodes_to(message(event, unkept)[0], message(event, unkept).update(19, letter), r),
    ensures
        r == Err::<Option<ItchEvent>, ItchParseError>(ItchParseError::InvalidSide(letter)),
{
    lemma_message_length(event, unkept);
    let s = message(event, unkept).update(19, letter);
    match event {
        ItchEvent::AddOrder { stock_locate, order_ref, side, shares, stock, price } => {
            lemma_heading('A', stock_locate, unkept);
            lemma_width(order_ref as int, 8);
            lemma_width(shares as int, 4);
            lemma_width(price as int, 4);
        },
        ItchEvent::AddOrderAttributed { stock_locate, order_ref, side, shares, stock, price } => {
            lemma_heading('F', stock_locate, unkept);
            lemma_width(order_ref as int, 8);
            lemma_width(shares as int, 4);
            lemma_width(price as int, 4);
        },
        ItchEvent::HiddenTrade { stock_locate, side, shares, stock, price } => {
            lemma_heading('P', stock_locate, unkept);
            lemma_width(shares as int, 4);
            lemma_width(price as int, 4);
        },
        _ => {},
    }
    assert(s[19] == letter);
}

/// Decoding the body that the layout makes of an event gives that event.
pub proof fn law_decoding_gives_the_event_back(
    event: ItchEvent,
    unkept: Unkept,
    body: &[u8],
    r: Result<Option<ItchEvent>, ItchParseError>,
)
    requires
        unkept.fits(),
        body@ == message(event, unkept),
        call_ensures(decode_body, (body@[0], body), r),
    ensures
        r == Ok::<Option<ItchEvent>, ItchParseError>(Some(event)),
{
    law_message_is_read_back(event, unkept, r);
}

/// A parser over a stream that starts with a framed message gives that event
/// and goes on behind the frame.
pub proof fn law_parser_gives_the_event_back(
    parser: &mut ItchParser,
    event: ItchEvent,
    unkept: Unkept,
    rest: Seq<u8>,
    r: Result<Option<ItchEvent>, ItchParseError>,
)
    requires
        unkept.fits(),
        old(parser).stream() == big_endian(message(event, unkept).len() as int, 2) + message(
            event,
            unkept,
        ) + rest,
        call_ensures(ItchParser::next_event, (parser,), r),
    ensures
        r == Ok::<Option<ItchEvent>, ItchParseError>(Some(event)),
        final(parser).stream() == rest,
{
    let body = message(event, unkept);
    lemma_message_length(event, unkept);
    reveal_with_fuel(big_endian, 3);
    assert(big_endian(body.len() as int, 2) + body + rest =~= framed(body) + rest);
    law_frame_is_read_back(body, rest);
    law_message_is_read_back(event, unkept, r);
}

/// Whether a letter is that of a message that tells of an event.
pub open spec fn tells(letter: u8) -> bool {
    ||| letter == 'R' as u8
    ||| letter == 'A' as u8
    ||| letter == 'F' as u8
    ||| letter == 'E' as u8
    ||| letter == 'C' as u8
    ||| letter == 'X' as u8
    ||| letter == 'D' as u8
    ||| letter == 'U' as u8
    ||| letter == 'P' as u8
}

/// A stream is read on from its first message that tells of an event: empty
/// messages and those of other types are passed over.
#[verifier::rlimit(40)]
pub proof fn law_other_messages_are_passed_over(body: Seq<u8>, rest: Seq<u8>)
    requires
        body.len() < 0x1_0000,
    ensures
        body.len() == 0 || !tells(body[0]) ==> at_event(framed(body) + rest) == at_event(rest),
        body.len() > 0 && tells(body[0]) ==> at_event(framed(body) + rest) == framed(body) + rest,
{
    lemma_framed(body, rest);
}

/// A message about a wrong length tells both lengths.
#[verifier::rlimit(40)]
pub proof fn law_length_error_tells_both_lengths(
    msg_type: u8,
    actual: usize,
    expected: usize,
    text: String,
)
    requires
        call_ensures(
            ItchParseError::message,
            (&ItchParseError::UnexpectedLength { msg_type, actual, expected },),
            text,
        ),
    ensures
        says(text@, "' had length "@ + decimal(actual as nat)),
        says(text@, ", expected "@ + decimal(expected as nat)),
{
    lemma_two_parts(
        text@,
        ("ITCH message '"@).push(msg_type as char),
        "' had length "@ + decimal(actual as nat),
        ", expected "@ + decimal(expected as nat),
    );
}

proof fn lemma_two_parts(
    text: Seq<char>,
    start: Seq<char>,
    first: Seq<char>,
    second: Seq<char>,
)
    requires
        text =~= start + first + second,
    ensures
        says(text, first),
        says(text, second),
{
    lemma_says(start, first, second, text);
    assert(text =~= (start + first) + second + Seq::<char>::empty());
    lemma_says(start + first, second, Seq::empty(), text);
}

/// A message about a wrong side tells the byte, in two hexadecimal digits.
#[verifier::rlimit(40)]
pub proof fn law_side_error_tells_the_byte(b: u8, text: String)
    requires
        call_ensures(ItchParseError::message, (&ItchParseError::InvalidSide(b),), text),
    ensures
        says(
            text@,
            seq!['0', 'x', "0123456789abcdef"@[b as int / 16], "0123456789abcdef"@[b as int % 16]],
        ),
{
    reveal_strlit("ITCH side byte was 0x");
    law_digits_are_the_usual(b as int / 16);
    law_digits_are_the_usual(b as int % 16);
    let (high, low) = ("0123456789abcdef"@[b as int / 16], "0123456789abcdef"@[b as int % 16]);
    let before = "ITCH side byte was 0x"@.take(19);
    let end = ", expected 'B' or 'S'"@;
    assert("ITCH side byte was 0x"@ =~= before + seq!['0', 'x']);
    assert(("ITCH side byte was 0x"@).push(high).push(low) =~= before + seq!['0', 'x', high, low]);
    lemma_says(before, seq!['0', 'x', high, low], end, text@);
}

/// A ticker is its name cut to eight bytes, or filled up with blanks to eight.
pub proof fn law_ticker_is_filled_up(name: &[u8], out: [u8; 8])
    requires
        call_ensures(pad_ticker, (name,), out),
    ensures
        name@.len() >= 8 ==> out@ == name@.take(8),
        name@.len() <= 8 ==> out@.take(name@.len() as int) == name@ && forall|i: int|
            name@.len() <= i < 8 ==> #[trigger] out@[i] == ' ' as u8,
{
    assert(out@.len() == 8);
    if name@.len() >= 8 {
        assert(out@ =~= name@.take(8));
    }
    if name@.len() <= 8 {
        assert(out@.take(name@.len() as int) =~= name@);
    }
}

} // verus!

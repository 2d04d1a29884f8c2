//! Identifiers, orders and reports shared by every part of the engine.

use vstd::prelude::*;

verus! {

/// Instrument identifier.
#[derive(Clone, Copy, Debug, PartialEq, Eq, Structural)]
pub struct Symbol(pub u32);

/// Trading account identifier.
#[derive(Clone, Copy, Debug, PartialEq, Eq, Structural)]
pub struct AccountId(pub u32);

/// Order identifier, chosen by the client and unique among the live orders
/// of one account.
#[derive(Clone, Copy, Debug, PartialEq, Eq, Structural)]
pub struct OrderId(pub u64);

/// Currency identifier.
#[derive(Clone, Copy, Debug, PartialEq, Eq, Structural)]
pub struct CurrencyId(pub u32);

/// Fixed-point price in ticks.
#[derive(Clone, Copy, Debug, PartialEq, Eq, Structural)]
pub struct Price(pub u64);

/// Order quantity in lots.
#[derive(Clone, Copy, Debug, PartialEq, Eq, Structural)]
pub struct Quantity(pub u64);

/// Handle of a balance reservation in the account ledger.
#[derive(Clone, Copy, Debug, PartialEq, Eq, Structural)]
pub struct ReservationSlot(pub u32);

impl ReservationSlot {
    /// A slot that names no reservation.
    pub fn dummy() -> (slot: ReservationSlot)
        ensures
            slot == ReservationSlot(u32::MAX),
    {
        ReservationSlot(u32::MAX)
    }
}

impl Price {
    /// The price in ticks.
    pub fn get(&self) -> (ticks: u64)
        ensures
            ticks == self.0,
    {
        self.0
    }
}

impl Quantity {
    /// The quantity in lots.
    pub fn get(&self) -> (lots: u64)
        ensures
            lots == self.0,
    {
        self.0
    }
}

/// Side of an order or of a book.
#[derive(Clone, Copy, Debug, PartialEq, Eq, Structural)]
pub enum Side {
    Buy,
    Sell,
}

/// How long an order stays in force.
#[derive(Clone, Copy, Debug, PartialEq, Eq, Structural)]
pub enum TimeInForce {
    GTC,
    IOC,
    FOK,
    Day,
    GTD,
}

/// What happens when an order would trade against its own account.
#[derive(Clone, Copy, Debug, PartialEq, Eq, Structural)]
pub enum SelfTradeProtection {
    Allow,
    CancelNewest,
    CancelOldest,
    CancelBoth,
}

/// Order type with the prices it carries.
#[derive(Clone, Copy, Debug, PartialEq, Eq, Structural)]
pub enum OrderType {
    Market,
    Limit { price: Price, post_only: bool },
    Stop { trigger_price: Price },
    StopLimit { trigger_price: Price, limit_price: Price },
}

/// An order as submitted.
#[derive(Clone, Copy, Debug, PartialEq, Eq, Structural)]
pub struct Order {
    pub id: OrderId,
    pub account: AccountId,
    pub side: Side,
    pub order_type: OrderType,
    pub time_in_force: TimeInForce,
    pub quantity: Quantity,
    pub stp: SelfTradeProtection,
    /// Expiry in UNIX nanoseconds for GTD orders, zero for all others.
    pub expiry_ns: u64,
}

/// Base and quote currency of an instrument.
#[derive(Clone, Copy, Debug, PartialEq, Eq, Structural)]
pub struct InstrumentSpec {
    pub symbol: Symbol,
    pub base: CurrencyId,
    pub quote: CurrencyId,
}

/// Maker and taker fee in basis points; a negative rate is a rebate.
#[derive(Clone, Copy, Debug, PartialEq, Eq, Structural)]
pub struct FeeSchedule {
    pub maker_fee_bps: i16,
    pub taker_fee_bps: i16,
}

/// Fat-finger limits of an instrument. `None` leaves a limit off.
#[derive(Clone, Copy, Debug, PartialEq, Eq, Structural)]
pub struct RiskLimits {
    pub max_order_qty: Option<Quantity>,
    pub max_order_notional: Option<u64>,
}

/// Price bands and trading halt of an instrument.
#[derive(Clone, Copy, Debug, PartialEq, Eq, Structural)]
pub struct CircuitBreakerConfig {
    pub price_band_lower: Option<Price>,
    pub price_band_upper: Option<Price>,
    pub halted: bool,
}

/// Whether an instrument accepts orders.
#[derive(Clone, Copy, Debug, PartialEq, Eq, Structural)]
pub enum InstrumentStatus {
    Enabled,
    Disabled,
    Removed,
}

/// One currency's balance of an account.
#[derive(Clone, Copy, Debug, PartialEq, Eq, Structural)]
pub struct AccountBalance {
    pub currency: CurrencyId,
    pub free: u64,
    pub reserved: u64,
}

/// Why a request was refused.
#[derive(Clone, Copy, Debug, PartialEq, Eq, Structural)]
pub enum RejectReason {
    NoLiquidity,
    FOKCannotFill,
    InsufficientBalance,
    UnknownAccount,
    UnknownSymbol,
    SelfTradePrevented,
    DuplicateOrderId,
    ExceedsMaxOrderQty,
    ExceedsMaxNotional,
    TradingHalted,
    OutsidePriceBand,
    UnknownOrder,
    PriceWouldCross,
    PostOnlyWouldCross,
    HasRestingOrders,
    DuplicateRequest,
    ReplicaDisconnected,
    InvalidExpiry,
    InstrumentDisabled,
    ExceedsMaxOpenOrders,
    ExceedsOrderRate,
    Superseded,
}

/// What the matching engine reports about an order or an instrument.
#[derive(Clone, Copy, Debug, PartialEq, Eq, Structural)]
pub enum ExecutionReport {
    Placed {
        order_id: OrderId,
        symbol: Symbol,
        account: AccountId,
        side: Side,
        price: Price,
        quantity: Quantity,
    },
    Fill {
        maker_order_id: OrderId,
        taker_order_id: OrderId,
        symbol: Symbol,
        maker_account: AccountId,
        taker_account: AccountId,
        price: Price,
        quantity: Quantity,
        /// Fee of the maker in quote currency.
        maker_fee: i64,
        /// Fee of the taker in quote currency.
        taker_fee: i64,
    },
    Cancelled { order_id: OrderId, symbol: Symbol, account: AccountId },
    Triggered { order_id: OrderId, symbol: Symbol, account: AccountId },
    Replaced {
        order_id: OrderId,
        symbol: Symbol,
        account: AccountId,
        new_price: Price,
        new_quantity: Quantity,
    },
    InstrumentStatusChanged { symbol: Symbol, status: InstrumentStatus },
    Rejected { order_id: OrderId, symbol: Symbol, account: AccountId, reason: RejectReason },
}

} // verus!
